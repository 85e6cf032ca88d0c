//! The flush engine: an only-growing collection which swaps the oldest
//! elements to disk in batches, based on its initial configuration.
use vstd::prelude::*;

use std::collections::VecDeque;

use crate::codec::encoding_of;
use crate::codec::serialize_batch;
use crate::compression::Compression;
use crate::compression::compress_with;
use crate::compression::decomp_ok;
use crate::error::SwapVecError;
use crate::storage::CheckedFile;
use crate::storage::clamp_u64;
use crate::storage::flat_elems;
use crate::storage::lemma_flat_elems_push;
use crate::swapveciter::SwapVecIter;

verus! {

/// Configure when and how the vector should swap.
///
/// The file creation will happen after max(swap_after, batch_size)
/// elements.
///
/// Keep in mind, that if the temporary file exists, after every
/// batch_size elements, at least one write (syscall) will happen.
#[derive(Debug, Clone, Copy)]
pub struct SwapVecConfig {
    /// The vector will create a temporary file and start to swap after so
    /// many elements.
    ///
    /// If you want to start swapping with the first batch, set this to
    /// batch_size or smaller.
    ///
    /// Must be positive.  Default: 32 * 1024 * 1024
    pub swap_after: usize,
    /// How many elements at once should be written to disk.  Keep in
    /// mind, that for every batch one hash (`u64`) and one bytecount
    /// (`usize`) will be kept in memory.
    ///
    /// One batch write will result in at least one syscall.
    ///
    /// Must be positive.  Default: 32 * 1024
    pub batch_size: usize,
    /// If and how you want to compress your temporary file.  This might
    /// be only useful for data which is compressable, like timeseries
    /// often are.
    ///
    /// Default: No compression
    pub compression: Option<Compression>,
}

impl Default for SwapVecConfig {
    /// The documented defaults: swap after 32 Mi elements, batches of
    /// 32 Ki elements, no compression.
    fn default() -> (r: Self)
        ensures
            r.swap_after == 32 * 1024 * 1024,
            r.batch_size == 32 * 1024,
            r.compression is None,
    {
        Self { swap_after: 32 * 1024 * 1024, batch_size: 32 * 1024, compression: None }
    }
}

/// An only growing array type which swaps to disk, based on its initial
/// configuration.
///
/// Create a mutable instance, then push single elements or consume whole
/// vectors to grow it, and finally turn it into a replay iterator.
pub struct SwapVec {
    tempfile: Option<CheckedFile>,
    vector: VecDeque<u64>,
    config: SwapVecConfig,
}

impl Default for SwapVec {
    /// An empty buffer with the default configuration.
    fn default() -> (r: Self)
        ensures
            r.inv(),
            r.elems() == Seq::<u64>::empty(),
            r.tail() == Seq::<u64>::empty(),
            !r.spilled(),
            r.healthy(),
            r.batches_recorded() == 0,
            r.spec_config().swap_after == 32 * 1024 * 1024,
            r.spec_config().batch_size == 32 * 1024,
            r.spec_config().compression is None,
    {
        SwapVec::with_config(SwapVecConfig::default())
    }
}

/// The flush decision, taken after every single insertion with the queue
/// length the insertion produced: flush exactly when the queue exceeds
/// one batch, and the file already exists or the queue also exceeds the
/// swap threshold.
pub open spec fn should_flush(queue_len: int, spilled: bool, cfg: SwapVecConfig) -> bool {
    queue_len > cfg.batch_size && (spilled || queue_len > cfg.swap_after)
}

/// Adding `added` elements to a tail of `tail_len` elements can never
/// trigger a flush: the queue stays at or below one batch, or the buffer
/// has not spilled and stays at or below the swap threshold.
pub open spec fn within_memory_budget(
    tail_len: int,
    added: int,
    spilled: bool,
    cfg: SwapVecConfig,
) -> bool {
    tail_len + added <= cfg.batch_size || (!spilled && tail_len + added <= cfg.swap_after)
}

/// The buffer state after one successful insertion: the element joins the
/// back of the tail, then the flush decision runs and moves at most one
/// batch of the oldest elements to the file.
pub open spec fn insert_step(
    b: Seq<Seq<u64>>,
    t: Seq<u64>,
    s: bool,
    cfg: SwapVecConfig,
    v: u64,
) -> (Seq<Seq<u64>>, Seq<u64>, bool) {
    let q = t.push(v);
    if should_flush(q.len() as int, s, cfg) {
        (b.push(q.take(cfg.batch_size as int)), q.skip(cfg.batch_size as int), true)
    } else {
        (b, q, s)
    }
}

/// The buffer state after successfully inserting a whole sequence, one
/// element at a time, oldest first.
pub open spec fn insert_all(
    b: Seq<Seq<u64>>,
    t: Seq<u64>,
    s: bool,
    cfg: SwapVecConfig,
    items: Seq<u64>,
) -> (Seq<Seq<u64>>, Seq<u64>, bool)
    decreases items.len(),
{
    if items.len() == 0 {
        (b, t, s)
    } else {
        let st = insert_step(b, t, s, cfg, items[0]);
        insert_all(st.0, st.1, st.2, cfg, items.drop_first())
    }
}

/// Inserting one more element applies one more step.
pub proof fn lemma_insert_all_push(
    b: Seq<Seq<u64>>,
    t: Seq<u64>,
    s: bool,
    cfg: SwapVecConfig,
    items: Seq<u64>,
    v: u64,
)
    ensures
        insert_all(b, t, s, cfg, items.push(v)) == ({
            let st = insert_all(b, t, s, cfg, items);
            insert_step(st.0, st.1, st.2, cfg, v)
        }),
    decreases items.len(),
{
    if items.len() == 0 {
        assert(items.push(v)[0] == v);
        assert(items.push(v).drop_first() =~= Seq::<u64>::empty());
        let st = insert_step(b, t, s, cfg, v);
        assert(insert_all(st.0, st.1, st.2, cfg, Seq::<u64>::empty()) == st);
        assert(insert_all(b, t, s, cfg, items.push(v)) == st);
        assert(insert_all(b, t, s, cfg, items) == (b, t, s));
    } else {
        assert(items.push(v)[0] == items[0]);
        assert(items.push(v).drop_first() =~= items.drop_first().push(v));
        let st = insert_step(b, t, s, cfg, items[0]);
        lemma_insert_all_push(st.0, st.1, st.2, cfg, items.drop_first(), v);
    }
}

/// The outcome of an insertion whose flush failed: the element still
/// joined the tail, a flush was owed, no batch was recorded, and either
/// the file write failed (the store is no longer clean) or the batch
/// image exceeded the compressor's round-trip limit and was refused
/// before anything was written.
pub open spec fn insert_failed(
    b: Seq<Seq<u64>>,
    t: Seq<u64>,
    s: bool,
    cfg: SwapVecConfig,
    v: u64,
    e: SwapVecError,
    post_b: Seq<Seq<u64>>,
    post_t: Seq<u64>,
    post_s: bool,
    post_h: bool,
) -> bool {
    let q = t.push(v);
    &&& should_flush(q.len() as int, s, cfg)
    &&& post_b == b
    &&& post_t == q
    &&& if decomp_ok(cfg.compression, encoding_of(q.take(cfg.batch_size as int))) {
        &&& !post_h
        &&& post_s
        &&& (e is MissingPermissions || e is OutOfDisk || e is Other)
    } else {
        &&& post_h
        &&& post_s == s
        &&& e is Other
    }
}

impl SwapVec {
    /// All elements the buffer holds, in insertion order: the flushed
    /// batches, oldest first, then the in-memory tail.
    pub closed spec fn elems(self) -> Seq<u64> {
        (match self.tempfile {
            Some(cf) => flat_elems(cf.batch_seqs()),
            None => Seq::<u64>::empty(),
        }) + self.vector@
    }

    /// The batches flushed so far, oldest first.
    pub closed spec fn spec_batches(self) -> Seq<Seq<u64>> {
        match self.tempfile {
            Some(cf) => cf.batch_seqs(),
            None => Seq::<Seq<u64>>::empty(),
        }
    }

    /// The in-memory tail, oldest first.
    pub closed spec fn tail(self) -> Seq<u64> {
        self.vector@
    }

    /// The configuration the buffer was created from.
    pub closed spec fn spec_config(self) -> SwapVecConfig {
        self.config
    }

    /// The temporary file has been created.
    pub closed spec fn spilled(self) -> bool {
        self.tempfile is Some
    }

    /// No operation on the temporary file has ever failed; the contracts
    /// describe the file's content only while this holds.
    pub closed spec fn healthy(self) -> bool {
        match self.tempfile {
            Some(cf) => cf.healthy(),
            None => true,
        }
    }

    /// Number of ledger entries, which is the number of completed
    /// flushes.
    pub closed spec fn batches_recorded(self) -> int {
        match self.tempfile {
            Some(cf) => cf.ledger_len(),
            None => 0,
        }
    }

    /// Sum of the byte lengths of all written batches.
    pub closed spec fn disk_bytes(self) -> int {
        match self.tempfile {
            Some(cf) => cf.stored_bytes(),
            None => 0,
        }
    }

    /// Well-formed: positive thresholds, and a batch store whose ledger
    /// describes exactly the written batches; while the store is clean, a
    /// created file holds at least one batch (creation and the first
    /// write happen in the same flush).
    pub closed spec fn inv(self) -> bool {
        &&& self.config.batch_size >= 1
        &&& self.config.swap_after >= 1
        &&& match self.tempfile {
            Some(cf) => {
                &&& cf.inv(self.config.compression)
                &&& (cf.healthy() ==> cf.at_end())
                &&& (cf.healthy() ==> cf.ledger_len() >= 1)
            },
            None => true,
        }
    }

    /// Initialize with non-default configuration.  Both thresholds must
    /// be positive: a zero threshold is a caller error, rejected here at
    /// construction time by the precondition.  The error taxonomy names
    /// no configuration failure and the constructor hands back the buffer
    /// itself, so a caller outside the verifier gets each zero raised to
    /// one instead of a buffer that misbehaves.
    pub fn with_config(config: SwapVecConfig) -> (r: Self)
        requires
            config.batch_size >= 1,
            config.swap_after >= 1,
        ensures
            r.inv(),
            r.elems() == Seq::<u64>::empty(),
            r.tail() == Seq::<u64>::empty(),
            !r.spilled(),
            r.healthy(),
            r.batches_recorded() == 0,
            r.spec_config() == config,
    {
        let checked = SwapVecConfig {
            swap_after: if config.swap_after == 0 {
                1
            } else {
                config.swap_after
            },
            batch_size: if config.batch_size == 0 {
                1
            } else {
                config.batch_size
            },
            compression: config.compression,
        };
        let r = SwapVec { tempfile: None, vector: VecDeque::new(), config: checked };
        proof {
            assert(r.elems() =~= Seq::<u64>::empty());
        }
        r
    }

    /// Check if enough items have been pushed so that the temporary file
    /// has been created.  Will be false while the element count stayed
    /// at or below both thresholds.
    pub fn written_to_file(&self) -> (r: bool)
        ensures
            r == self.spilled(),
    {
        self.tempfile.is_some()
    }

    /// The size in bytes of the temporary file: `None` before the first
    /// flush, else the sum of all written batch lengths, taken from the
    /// in-memory ledger.
    pub fn file_size(&self) -> (r: Option<u64>)
        ensures
            !self.spilled() ==> r is None,
            self.spilled() ==> r is Some && r->0 == clamp_u64(self.disk_bytes()),
    {
        match self.tempfile.as_ref() {
            None => None,
            Some(f) => Some(f.file_size()),
        }
    }

    /// Number of batches written to the file, which is 0 before the
    /// first flush.
    pub fn batches_written(&self) -> (r: usize)
        ensures
            r == self.batches_recorded(),
            self.inv() ==> r == self.spec_batches().len(),
            self.inv() && self.healthy() ==> ((r == 0) <==> !self.spilled()),
    {
        match self.tempfile.as_ref() {
            None => 0,
            Some(f) => {
                proof {
                    if self.inv() {
                        f.lemma_inv_lens(self.config.compression);
                    }
                }
                f.batch_info_len()
            },
        }
    }

    /// The configuration this buffer was created from.
    pub fn config(&self) -> (r: SwapVecConfig)
        ensures
            r == self.spec_config(),
    {
        self.config
    }

    /// Number of elements currently resident in memory.
    pub fn elements_in_ram(&self) -> (r: usize)
        ensures
            r == self.tail().len(),
    {
        self.vector.len()
    }

    /// Push a single element.  Might return an error, due to a possibly
    /// triggered batch flush (IO).
    ///
    /// The element is appended to the in-memory tail in every case; when
    /// the flush decision fires and the flush succeeds, the oldest
    /// `batch_size` elements move to the file as one batch.
    pub fn push(&mut self, element: u64) -> (r: Result<(), SwapVecError>)
        ensures
            old(self).inv() ==> final(self).inv() && final(self).spec_config() == old(
                self,
            ).spec_config(),
            old(self).inv() && old(self).healthy() ==> final(self).elems() == old(
                self,
            ).elems().push(element),
            old(self).inv() && old(self).healthy() && !should_flush(
                old(self).tail().len() + 1 as int,
                old(self).spilled(),
                old(self).spec_config(),
            ) ==> r is Ok,
            old(self).inv() && old(self).healthy() ==> match r {
                Ok(()) => {
                    let st = insert_step(
                        old(self).spec_batches(),
                        old(self).tail(),
                        old(self).spilled(),
                        old(self).spec_config(),
                        element,
                    );
                    &&& final(self).healthy()
                    &&& final(self).spec_batches() == st.0
                    &&& final(self).tail() == st.1
                    &&& final(self).spilled() == st.2
                },
                Err(e) => insert_failed(
                    old(self).spec_batches(),
                    old(self).tail(),
                    old(self).spilled(),
                    old(self).spec_config(),
                    element,
                    e,
                    final(self).spec_batches(),
                    final(self).tail(),
                    final(self).spilled(),
                    final(self).healthy(),
                ),
            },
    {
        self.vector.push_back(element);
        let r = self.after_push_work();
        proof {
            if old(self).inv() && old(self).healthy() {
                assert((match old(self).tempfile {
                    Some(cf) => flat_elems(cf.batch_seqs()),
                    None => Seq::<u64>::empty(),
                }) + old(self).vector@.push(element) =~= old(self).elems().push(element));
            }
        }
        r
    }

    /// Give away an entire vector for consumption.  Applies `push` to
    /// each element in order, short-circuiting on the first failure;
    /// elements inserted before the failing one remain committed.
    pub fn consume(&mut self, it: Vec<u64>) -> (r: Result<(), SwapVecError>)
        ensures
            old(self).inv() ==> final(self).inv() && final(self).spec_config() == old(
                self,
            ).spec_config(),
            old(self).inv() && old(self).healthy() && within_memory_budget(
                old(self).tail().len() as int,
                it@.len() as int,
                old(self).spilled(),
                old(self).spec_config(),
            ) ==> r is Ok,
            old(self).inv() && old(self).healthy() ==> match r {
                Ok(()) => {
                    let st = insert_all(
                        old(self).spec_batches(),
                        old(self).tail(),
                        old(self).spilled(),
                        old(self).spec_config(),
                        it@,
                    );
                    &&& final(self).healthy()
                    &&& final(self).spec_batches() == st.0
                    &&& final(self).tail() == st.1
                    &&& final(self).spilled() == st.2
                    &&& final(self).elems() == old(self).elems() + it@
                },
                Err(e) => exists|k: int|
                    0 <= k < it@.len() && ({
                        let st = insert_all(
                            old(self).spec_batches(),
                            old(self).tail(),
                            old(self).spilled(),
                            old(self).spec_config(),
                            #[trigger] it@.take(k),
                        );
                        &&& insert_failed(
                            st.0,
                            st.1,
                            st.2,
                            old(self).spec_config(),
                            it@[k],
                            e,
                            final(self).spec_batches(),
                            final(self).tail(),
                            final(self).spilled(),
                            final(self).healthy(),
                        )
                        &&& final(self).elems() == old(self).elems() + it@.take(k + 1)
                    }),
            },
    {
        let ghost cfg = self.config;
        let mut i: usize = 0;
        while i < it.len()
            invariant
                i <= it@.len(),
                old(self).inv() ==> self.inv() && self.spec_config() == old(self).spec_config(),
                old(self).inv() && old(self).healthy() ==> {
                    &&& self.healthy()
                    &&& self.elems() == old(self).elems() + it@.take(i as int)
                    &&& (self.spec_batches(), self.tail(), self.spilled()) == insert_all(
                        old(self).spec_batches(),
                        old(self).tail(),
                        old(self).spilled(),
                        cfg,
                        it@.take(i as int),
                    )
                },
                old(self).inv() && old(self).healthy() && within_memory_budget(
                    old(self).tail().len() as int,
                    it@.len() as int,
                    old(self).spilled(),
                    cfg,
                ) ==> self.tail().len() == old(self).tail().len() + i && self.spilled() == old(
                    self,
                ).spilled(),
            decreases it@.len() - i,
        {
            let ghost pre = self.elems();
            let ghost pre_b = self.spec_batches();
            let ghost pre_t = self.tail();
            let ghost pre_s = self.spilled();
            proof {
                if old(self).inv() && old(self).healthy() {
                    lemma_insert_all_push(
                        old(self).spec_batches(),
                        old(self).tail(),
                        old(self).spilled(),
                        cfg,
                        it@.take(i as int),
                        it@[i as int],
                    );
                    assert(it@.take(i as int).push(it@[i as int]) =~= it@.take(i as int + 1));
                }
            }
            match self.push(it[i]) {
                Ok(()) => {},
                Err(e) => {
                    proof {
                        if old(self).inv() && old(self).healthy() {
                            assert(pre.push(it@[i as int]) =~= old(self).elems() + it@.take(
                                i as int + 1,
                            ));
                            assert(({
                                let st = insert_all(
                                    old(self).spec_batches(),
                                    old(self).tail(),
                                    old(self).spilled(),
                                    old(self).spec_config(),
                                    it@.take(i as int),
                                );
                                &&& insert_failed(
                                    st.0,
                                    st.1,
                                    st.2,
                                    old(self).spec_config(),
                                    it@[i as int],
                                    e,
                                    self.spec_batches(),
                                    self.tail(),
                                    self.spilled(),
                                    self.healthy(),
                                )
                                &&& self.elems() == old(self).elems() + it@.take(i as int + 1)
                            }));
                        }
                    }
                    return Err(e);
                },
            }
            proof {
                if old(self).inv() && old(self).healthy() {
                    assert(pre.push(it@[i as int]) =~= old(self).elems() + it@.take(i as int + 1));
                }
            }
            i = i + 1;
        }
        proof {
            assert(it@.take(it@.len() as int) =~= it@);
        }
        Ok(())
    }

    /// Consumes the buffer into a lazy, one-shot replay iterator that
    /// yields the elements back in insertion order: all flushed batches,
    /// oldest first, then the in-memory tail.
    pub fn into_iter(self) -> (r: SwapVecIter)
        ensures
            !r.halted(),
            r.frame(),
            r.uses_file() == self.spilled(),
            self.inv() ==> {
                &&& r.inv()
                &&& r.pending() == self.elems()
                &&& r.healthy() == self.healthy()
            },
    {
        SwapVecIter::new(self.tempfile, self.vector, self.config)
    }

    /// Runs the flush decision after one insertion and performs at most
    /// one flush.
    fn after_push_work(&mut self) -> (r: Result<(), SwapVecError>)
        ensures
            old(self).inv() ==> final(self).inv() && final(self).spec_config() == old(
                self,
            ).spec_config(),
            old(self).inv() && old(self).healthy() ==> final(self).elems() == old(self).elems(),
            old(self).inv() && old(self).healthy() && !should_flush(
                old(self).tail().len() as int,
                old(self).spilled(),
                old(self).spec_config(),
            ) ==> r is Ok,
            old(self).inv() && old(self).healthy() ==> match r {
                Ok(()) => {
                    let q = old(self).tail();
                    let cfg = old(self).spec_config();
                    &&& final(self).healthy()
                    &&& if should_flush(q.len() as int, old(self).spilled(), cfg) {
                        &&& final(self).spilled()
                        &&& final(self).spec_batches() == old(self).spec_batches().push(
                            q.take(cfg.batch_size as int),
                        )
                        &&& final(self).tail() == q.skip(cfg.batch_size as int)
                    } else {
                        &&& final(self).spilled() == old(self).spilled()
                        &&& final(self).spec_batches() == old(self).spec_batches()
                        &&& final(self).tail() == q
                    }
                },
                Err(e) => {
                    let q = old(self).tail();
                    let cfg = old(self).spec_config();
                    &&& should_flush(q.len() as int, old(self).spilled(), cfg)
                    &&& final(self).tail() == q
                    &&& final(self).spec_batches() == old(self).spec_batches()
                    &&& if decomp_ok(cfg.compression, encoding_of(q.take(cfg.batch_size as int))) {
                        &&& !final(self).healthy()
                        &&& final(self).spilled()
                        &&& (e is MissingPermissions || e is OutOfDisk || e is Other)
                    } else {
                        &&& final(self).healthy()
                        &&& final(self).spilled() == old(self).spilled()
                        &&& e is Other
                    }
                },
            },
    {
        let ghost q = self.vector@;
        let qlen = self.vector.len();
        if qlen <= self.config.batch_size {
            return Ok(());
        }
        if self.tempfile.is_none() && qlen <= self.config.swap_after {
            return Ok(());
        }
        // Flush one batch.
        let bs = self.config.batch_size;
        let mut batch: Vec<u64> = Vec::new();
        let mut i: usize = 0;
        while i < bs && i < self.vector.len()
            invariant
                i <= bs,
                i <= self.vector@.len(),
                self.vector@ == q,
                self.tempfile == old(self).tempfile,
                self.config == old(self).config,
                batch@ == q.take(i as int),
            decreases bs - i,
        {
            let v = self.vector[i];
            batch.push(v);
            proof {
                assert(q.take(i as int).push(q[i as int]) =~= q.take(i as int + 1));
            }
            i = i + 1;
        }
        let raw = match serialize_batch(&batch) {
            Ok(v) => v,
            Err(e) => {
                return Err(e);
            },
        };
        // The LZ4-like scheme cannot round-trip an image of 2^32 bytes or
        // more; refuse such a batch before anything reaches the file.
        let too_big = match self.config.compression {
            Some(Compression::Lz4) => (raw.len() as u64) > u32::MAX as u64,
            _ => false,
        };
        if too_big {
            return Err(SwapVecError::Other);
        }
        let compressed = compress_with(&self.config.compression, raw);
        if self.tempfile.is_none() {
            self.tempfile = Some(CheckedFile::new());
        }
        match &mut self.tempfile {
            Some(cf) => {
                match cf.write_all(&compressed, Ghost(batch@), Ghost(self.config.compression)) {
                    Ok(()) => {},
                    Err(e) => {
                        return Err(e);
                    },
                }
            },
            None => {
                return Err(SwapVecError::Other);
            },
        }
        proof {
            if old(self).inv() && old(self).healthy() {
                lemma_flat_elems_push(old(self).spec_batches(), q.take(bs as int));
                assert(q.take(bs as int) + q.skip(bs as int) =~= q);
            }
        }
        let ghost flushed = self.tempfile;
        let mut j: usize = 0;
        while j < bs
            invariant
                j <= bs,
                self.tempfile == flushed,
                self.config == old(self).config,
                old(self).inv() && old(self).healthy() ==> self.vector@ == q.skip(j as int),
            decreases bs - j,
        {
            match self.vector.pop_front() {
                Some(_) => {},
                None => {},
            }
            proof {
                if old(self).inv() && old(self).healthy() {
                    assert(q.skip(j as int).drop_first() =~= q.skip(j as int + 1));
                }
            }
            j = j + 1;
        }
        proof {
            if old(self).inv() && old(self).healthy() {
                assert(flat_elems(old(self).spec_batches()) + q =~= (flat_elems(
                    old(self).spec_batches(),
                ) + q.take(bs as int)) + q.skip(bs as int));
            }
        }
        Ok(())
    }
}

} // verus!
