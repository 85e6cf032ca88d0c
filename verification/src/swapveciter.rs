//! The replay iterator: a lazy, one-shot, ordered walk over everything a
//! buffer holds, disk batches first, then the in-memory tail.
use vstd::prelude::*;

use std::collections::VecDeque;

use crate::compression::Compression;
use crate::error::SwapVecError;
use crate::storage::CheckedFile;
use crate::storage::flat_elems;
use crate::storage::lemma_flat_elems_skip;
use crate::swapvec::SwapVecConfig;

verus! {

/// Iterator which returns all elements of a consumed buffer in insertion
/// order.  One-shot: once drained — or once it has yielded an error — it
/// yields nothing further.
pub struct SwapVecIter {
    file: Option<CheckedFile>,
    /// Index of the next unread ledger entry.
    next_batch: usize,
    /// The cursor was moved to the start of the file for reading.
    started: bool,
    /// The decoded batch currently being handed out.
    current: Vec<u64>,
    /// How much of `current` was handed out already.
    cpos: usize,
    /// The leftover in-memory tail.
    tail: VecDeque<u64>,
    compression: Option<Compression>,
    /// An error was yielded; iteration has stopped for good.
    done: bool,
}

impl SwapVecIter {
    /// The elements not yet yielded, in the order they will come: the
    /// rest of the batch being handed out, the unread batches, the tail.
    pub closed spec fn pending(self) -> Seq<u64> {
        self.current@.skip(self.cpos as int) + (match self.file {
            Some(cf) => flat_elems(cf.batch_seqs().skip(self.next_batch as int)),
            None => Seq::<u64>::empty(),
        }) + self.tail@
    }

    /// No operation on the temporary file has ever failed.
    pub closed spec fn healthy(self) -> bool {
        match self.file {
            Some(cf) => cf.healthy(),
            None => true,
        }
    }

    /// The iterator has yielded an error and stopped for good.
    pub closed spec fn halted(self) -> bool {
        self.done
    }

    /// The replay reads from a temporary file (the buffer had spilled).
    pub closed spec fn uses_file(self) -> bool {
        self.file is Some
    }

    /// Structural bounds that hold whatever happened to the file: the
    /// hand-out position stays inside the decoded batch and the batch
    /// cursor inside the ledger.
    pub closed spec fn frame(self) -> bool {
        &&& self.cpos <= self.current@.len()
        &&& match self.file {
            Some(cf) => self.next_batch <= cf.ledger_len(),
            None => true,
        }
    }

    /// Number of ledger entries not yet read.
    pub closed spec fn fuel_batches(self) -> int {
        match self.file {
            Some(cf) => cf.ledger_len() - self.next_batch,
            None => 0,
        }
    }

    /// Number of already decoded or memory-resident elements not yet
    /// handed out.
    pub closed spec fn fuel_elems(self) -> int {
        self.current@.len() - self.cpos + self.tail@.len()
    }

    /// Well-formed: the store is consistent and the cursor stands where
    /// the next unread batch begins.
    pub closed spec fn inv(self) -> bool {
        &&& self.cpos <= self.current@.len()
        &&& match self.file {
            Some(cf) => {
                &&& cf.inv(self.compression)
                &&& self.next_batch <= cf.batch_seqs().len()
                &&& cf.ledger_len() == cf.batch_seqs().len()
                &&& (cf.healthy() ==> (if self.started {
                    cf.read_pos_is(self.next_batch as int, self.compression)
                } else {
                    self.next_batch == 0 && cf.at_end() && self.cpos == self.current@.len()
                }))
            },
            None => true,
        }
    }

    /// Takes over a finished buffer's store and tail.
    pub(crate) fn new(file: Option<CheckedFile>, tail: VecDeque<u64>, config: SwapVecConfig) -> (r:
        SwapVecIter)
        ensures
            !r.halted(),
            r.frame(),
            r.uses_file() == (file is Some),
            (match file {
                Some(cf) => cf.inv(config.compression) && (cf.healthy() ==> cf.at_end()),
                None => true,
            }) ==> {
                &&& r.inv()
                &&& r.pending() == (match file {
                    Some(cf) => flat_elems(cf.batch_seqs()),
                    None => Seq::<u64>::empty(),
                }) + tail@
                &&& r.healthy() == (match file {
                    Some(cf) => cf.healthy(),
                    None => true,
                })
            },
    {
        let r = SwapVecIter {
            file,
            next_batch: 0,
            started: false,
            current: Vec::new(),
            cpos: 0,
            tail,
            compression: config.compression,
            done: false,
        };
        proof {
            let f = r.file;
            match f {
                Some(cf) => {
                    cf.lemma_ledger_len_nonneg();
                    if cf.inv(config.compression) {
                        cf.lemma_inv_lens(config.compression);
                        assert(cf.batch_seqs().skip(0) =~= cf.batch_seqs());
                        assert(r.pending() =~= flat_elems(cf.batch_seqs()) + tail@);
                    }
                },
                None => {
                    assert(r.pending() =~= Seq::<u64>::empty() + tail@);
                },
            }
        }
        r
    }

    /// Yields the next element, or `None` once everything was yielded.
    ///
    /// Order: the batches on disk, oldest first, each batch's elements in
    /// their original order, then the in-memory tail — exactly the
    /// insertion order.  A checksum, decompression, decoding or I/O
    /// failure is yielded once as `Some(Err(..))`, after which the
    /// iterator halts and yields `None` forever.
    pub fn next(&mut self) -> (r: Option<Result<u64, SwapVecError>>)
        ensures
            old(self).inv() ==> final(self).inv(),
            old(self).frame() ==> final(self).frame(),
            final(self).uses_file() == old(self).uses_file(),
            !old(self).halted() && (match r {
                Some(rr) => rr is Ok,
                None => true,
            }) ==> !final(self).halted(),
            !old(self).halted() && !old(self).uses_file() ==> (match r {
                Some(rr) => rr is Ok,
                None => true,
            }),
            old(self).inv() && !old(self).halted() && old(self).healthy() && old(
                self,
            ).pending().len() == 0 ==> r is None,
            old(self).frame() && !old(self).halted() && (match r {
                Some(rr) => rr is Ok,
                None => false,
            }) ==> final(self).fuel_batches() <= old(self).fuel_batches()
                && (final(self).fuel_batches() < old(self).fuel_batches()
                || final(self).fuel_elems() < old(self).fuel_elems()),
            old(self).halted() ==> r is None && final(self).halted() && final(self).pending()
                == old(self).pending(),
            old(self).inv() && !old(self).halted() && old(self).healthy() ==> match r {
                None => old(self).pending().len() == 0 && final(self).pending() == old(
                    self,
                ).pending() && final(self).healthy() && !final(self).halted(),
                Some(rr) => match rr {
                    Ok(v) => {
                        &&& old(self).pending().len() > 0
                        &&& v == old(self).pending()[0]
                        &&& final(self).pending() == old(self).pending().drop_first()
                        &&& final(self).healthy()
                        &&& !final(self).halted()
                    },
                    Err(e) => final(self).halted() && !final(self).healthy() && (
                    e is MissingPermissions || e is OutOfDisk || e is Other),
                },
            },
    {
        if self.done {
            return None;
        }
        // Step 1: the batch currently being handed out.
        if self.cpos < self.current.len() {
            let v = self.current[self.cpos];
            self.cpos = self.cpos + 1;
            proof {
                if old(self).inv() && old(self).healthy() {
                    assert(final(self).pending() =~= old(self).pending().drop_first());
                }
            }
            return Some(Ok(v));
        }
        // Step 2: the next unread batch on disk.
        let ghost c = self.compression;
        match &mut self.file {
            Some(cf) => {
                if self.next_batch < cf.batch_info_len() {
                    proof {
                        if old(self).inv() && old(self).healthy() && old(self).pending().len()
                            == 0 {
                            cf.lemma_inv_batch_nonempty(self.compression, self.next_batch as int);
                            lemma_flat_elems_skip(cf.batch_seqs(), self.next_batch as int);
                            assert(false);
                        }
                    }
                    if !self.started {
                        match cf.rewind(Ghost(c)) {
                            Ok(()) => {
                                self.started = true;
                            },
                            Err(e) => {
                                self.done = true;
                                return Some(Err(e));
                            },
                        }
                    }
                    let ghost cf0 = *cf;
                    let ghost bs = cf.batch_seqs();
                    let ghost k = self.next_batch as int;
                    match cf.read_batch(self.next_batch, &self.compression) {
                        Ok(vals) => {
                            self.next_batch = self.next_batch + 1;
                            proof {
                                if old(self).inv() && old(self).healthy() {
                                    lemma_flat_elems_skip(bs, k);
                                }
                            }
                            if vals.len() > 0 {
                                let v = vals[0];
                                self.current = vals;
                                self.cpos = 1;
                                proof {
                                    if old(self).inv() && old(self).healthy() {
                                        assert(old(self).pending() =~= bs[k] + (flat_elems(
                                            bs.skip(k + 1),
                                        ) + old(self).tail@));
                                        assert(final(self).pending() =~= old(
                                            self,
                                        ).pending().drop_first());
                                    }
                                }
                                return Some(Ok(v));
                            } else {
                                proof {
                                    if old(self).inv() && old(self).healthy() {
                                        cf0.lemma_inv_batch_nonempty(self.compression, k);
                                        assert(false);
                                    }
                                }
                                self.current = vals;
                                self.cpos = 0;
                                self.done = true;
                                return Some(Err(SwapVecError::Other));
                            }
                        },
                        Err(e) => {
                            self.done = true;
                            return Some(Err(e));
                        },
                    }
                }
            },
            None => {},
        }
        // Step 3: the in-memory tail.
        match self.tail.pop_front() {
            Some(v) => {
                proof {
                    if old(self).inv() && old(self).healthy() {
                        assert(final(self).pending() =~= old(self).pending().drop_first());
                    }
                }
                Some(Ok(v))
            },
            None => {
                proof {
                    if old(self).inv() && old(self).healthy() {
                        assert(old(self).pending() =~= Seq::<u64>::empty());
                    }
                }
                None
            },
        }
    }

    /// Drains the iterator into a vector: every remaining element in
    /// order, or the first error met on the way.
    pub fn read_all(&mut self) -> (r: Result<Vec<u64>, SwapVecError>)
        requires
            old(self).frame(),
        ensures
            old(self).inv() ==> final(self).inv(),
            !old(self).halted() && !old(self).uses_file() ==> r is Ok,
            old(self).inv() && !old(self).halted() && old(self).healthy() ==> match r {
                Ok(v) => v@ == old(self).pending() && final(self).pending().len() == 0
                    && final(self).healthy(),
                Err(e) => final(self).halted() && !final(self).healthy() && (
                e is MissingPermissions || e is OutOfDisk || e is Other),
            },
    {
        let mut out: Vec<u64> = Vec::new();
        loop
            invariant
                self.frame(),
                self.uses_file() == old(self).uses_file(),
                !old(self).halted() && !old(self).uses_file() ==> !self.halted(),
                old(self).inv() ==> self.inv(),
                old(self).inv() && !old(self).halted() && old(self).healthy() ==> !self.halted()
                    && self.healthy() && out@ + self.pending() == old(self).pending(),
            decreases self.fuel_batches(), self.fuel_elems(),
        {
            let ghost pre_out = out@;
            let ghost pre_pending = self.pending();
            match self.next() {
                None => {
                    proof {
                        if old(self).inv() && !old(self).halted() && old(self).healthy() {
                            assert(out@ + self.pending() =~= out@);
                        }
                    }
                    return Ok(out);
                },
                Some(rr) => match rr {
                    Ok(v) => {
                        out.push(v);
                        proof {
                            if old(self).inv() && !old(self).halted() && old(self).healthy() {
                                assert(pre_out.push(v) + self.pending() =~= pre_out + pre_pending);
                            }
                        }
                    },
                    Err(e) => {
                        return Err(e);
                    },
                },
            }
        }
    }
}

} // verus!
