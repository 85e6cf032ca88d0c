//! The batch store: an anonymous temporary file holding the batch images,
//! plus the in-memory ledger that makes the file replayable.
//!
//! The file handle is modelled by ghost state: the bytes written so far,
//! the cursor, and a cleanliness flag that every failed operation clears.
//! All claims about file contents are conditioned on that flag.
use vstd::prelude::*;

use crate::checksum::digest;
use crate::codec::BatchInfo;
use crate::codec::decode_batch;
use crate::codec::encoding_of;
use crate::codec::info_matches;
use crate::codec::payload_of;
use crate::compression::Compression;
use crate::compression::decomp_ok;
use crate::error::SwapVecError;

verus! {

#[verifier::external_type_specification]
#[verifier::external_body]
pub struct ExSpooledTempFile(tempfile::SpooledTempFile);

#[verifier::external_type_specification]
#[verifier::external_body]
pub struct ExIoError(std::io::Error);

/// Relies on `std::io::Error::kind`: classifies an I/O failure into the
/// error taxonomy.  Total: every failure maps to one of three variants.
#[verifier::external_body]
fn classify_io(e: std::io::Error) -> (r: SwapVecError)
    ensures
        r is MissingPermissions || r is OutOfDisk || r is Other,
{
    match e.kind() {
        std::io::ErrorKind::PermissionDenied => SwapVecError::MissingPermissions,
        std::io::ErrorKind::StorageFull => SwapVecError::OutOfDisk,
        _ => SwapVecError::Other,
    }
}

/// The temporary file, together with its ghost model.
pub struct SpillFile {
    pub(crate) handle: tempfile::SpooledTempFile,
    /// The bytes this process wrote, in order.
    pub(crate) written: Ghost<Seq<u8>>,
    /// The current cursor of the handle.
    pub(crate) pos: Ghost<int>,
    /// True while no operation on the handle has ever failed; the two
    /// fields above describe the real file only while this holds.
    pub(crate) ok: Ghost<bool>,
}

/// Relies on `tempfile::spooled_tempfile`: a fresh, empty, anonymous
/// temporary file, rolled over to OS-backed storage at the first write
/// and reclaimed when the handle is dropped.
#[verifier::external_body]
fn raw_spooled() -> (r: tempfile::SpooledTempFile) {
    tempfile::spooled_tempfile(0)
}

impl SpillFile {
    /// Wraps a fresh handle; nothing was written to it yet, so its model
    /// starts empty.
    pub(crate) fn create() -> (r: SpillFile)
        ensures
            r.written@ == Seq::<u8>::empty(),
            r.pos@ == 0,
            r.ok@ == true,
    {
        SpillFile {
            handle: raw_spooled(),
            written: Ghost(Seq::<u8>::empty()),
            pos: Ghost(0int),
            ok: Ghost(true),
        }
    }

    /// Relies on `std::io::Write::write_all` on `tempfile::SpooledTempFile`:
    /// on success the whole buffer stands appended at the cursor; on
    /// failure an unspecified prefix may have been written.
    #[verifier::external_body]
    pub(crate) fn append(&mut self, buf: &Vec<u8>) -> (r: Result<(), SwapVecError>)
        ensures
            r is Ok ==> final(self).ok@ == old(self).ok@ && (old(self).ok@ && old(self).pos@
                == old(self).written@.len() ==> final(self).written@ == old(self).written@ + buf@
                && final(self).pos@ == final(self).written@.len()),
            r is Err ==> !final(self).ok@ && (r->Err_0 is MissingPermissions
                || r->Err_0 is OutOfDisk || r->Err_0 is Other),
    {
        match std::io::Write::write_all(&mut self.handle, buf.as_slice()) {
            Ok(()) => Ok(()),
            Err(e) => Err(classify_io(e)),
        }
    }

    /// Relies on `std::io::Write::flush` on `tempfile::SpooledTempFile`:
    /// hands written bytes on to the OS; moves neither contents nor
    /// cursor.
    #[verifier::external_body]
    pub(crate) fn flush(&mut self) -> (r: Result<(), SwapVecError>)
        ensures
            final(self).written@ == old(self).written@ && final(self).pos@ == old(self).pos@,
            r is Ok ==> final(self).ok@ == old(self).ok@,
            r is Err ==> !final(self).ok@ && (r->Err_0 is MissingPermissions
                || r->Err_0 is OutOfDisk || r->Err_0 is Other),
    {
        match std::io::Write::flush(&mut self.handle) {
            Ok(()) => Ok(()),
            Err(e) => Err(classify_io(e)),
        }
    }

    /// Relies on `std::io::Seek::seek` on `tempfile::SpooledTempFile`:
    /// moves the cursor to the start of the file.
    #[verifier::external_body]
    pub(crate) fn seek_start(&mut self) -> (r: Result<(), SwapVecError>)
        ensures
            final(self).written@ == old(self).written@,
            r is Ok ==> final(self).pos@ == 0 && final(self).ok@ == old(self).ok@,
            r is Err ==> !final(self).ok@ && (r->Err_0 is MissingPermissions
                || r->Err_0 is OutOfDisk || r->Err_0 is Other),
    {
        match std::io::Seek::seek(&mut self.handle, std::io::SeekFrom::Start(0)) {
            Ok(_) => Ok(()),
            Err(e) => Err(classify_io(e)),
        }
    }

    /// Relies on `std::io::Read::read_exact` on `tempfile::SpooledTempFile`:
    /// fills the buffer with exactly the bytes at the cursor and advances
    /// it; nothing else touches the file, so the bytes at a position this
    /// process wrote are the bytes it wrote there.
    #[verifier::external_body]
    pub(crate) fn read_chunk(&mut self, n: usize) -> (r: Result<Vec<u8>, SwapVecError>)
        ensures
            final(self).written@ == old(self).written@,
            final(self).ok@ ==> old(self).ok@,
            r is Ok ==> r->Ok_0@.len() == n,
            r is Ok && old(self).ok@ && 0 <= old(self).pos@ && old(self).pos@ + n <= old(
                self,
            ).written@.len() ==> final(self).ok@ && final(self).pos@ == old(self).pos@ + n
                && r->Ok_0@ == old(self).written@.subrange(old(self).pos@, old(self).pos@ + n),
            r is Err ==> !final(self).ok@ && (r->Err_0 is MissingPermissions
                || r->Err_0 is OutOfDisk || r->Err_0 is Other),
    {
        let mut buf = vec![0u8; n];
        match std::io::Read::read_exact(&mut self.handle, buf.as_mut_slice()) {
            Ok(()) => Ok(buf),
            Err(e) => Err(classify_io(e)),
        }
    }
}

/// The byte image of a whole sequence of batches, one payload after the
/// other, oldest first.
pub open spec fn payload_concat(bs: Seq<Seq<u64>>, c: Option<Compression>) -> Seq<u8>
    decreases bs.len(),
{
    if bs.len() == 0 {
        Seq::<u8>::empty()
    } else {
        payload_of(bs[0], c) + payload_concat(bs.drop_first(), c)
    }
}

/// Sum of the byte lengths recorded in a ledger.
pub open spec fn sum_bytes(s: Seq<BatchInfo>) -> int
    decreases s.len(),
{
    if s.len() == 0 {
        0
    } else {
        s[0].bytes + sum_bytes(s.drop_first())
    }
}

/// `x`, clamped at the largest value a 64-bit count can hold.
pub open spec fn clamp_u64(x: int) -> int {
    if x <= u64::MAX {
        x
    } else {
        u64::MAX as int
    }
}

/// Recording one more batch adds its length to the sum.
pub proof fn lemma_sum_bytes_push(s: Seq<BatchInfo>, x: BatchInfo)
    ensures
        sum_bytes(s.push(x)) == sum_bytes(s) + x.bytes,
    decreases s.len(),
{
    if s.len() == 0 {
        assert(s.push(x)[0] == x);
        assert(s.push(x).drop_first() =~= Seq::<BatchInfo>::empty());
        assert(sum_bytes(Seq::<BatchInfo>::empty()) == 0);
        assert(sum_bytes(s.push(x)) == x.bytes + 0);
    } else {
        assert(s.push(x)[0] == s[0]);
        assert(s.push(x).drop_first() =~= s.drop_first().push(x));
        lemma_sum_bytes_push(s.drop_first(), x);
    }
}

/// Concatenating batch sequences concatenates their images.
pub proof fn lemma_payload_concat_app(a: Seq<Seq<u64>>, b: Seq<Seq<u64>>, c: Option<Compression>)
    ensures
        payload_concat(a + b, c) == payload_concat(a, c) + payload_concat(b, c),
    decreases a.len(),
{
    if a.len() == 0 {
        assert(a + b =~= b);
        assert(payload_concat(a, c) + payload_concat(b, c) =~= payload_concat(b, c));
    } else {
        assert((a + b)[0] == a[0]);
        assert((a + b).drop_first() =~= a.drop_first() + b);
        lemma_payload_concat_app(a.drop_first(), b, c);
        assert(payload_of(a[0], c) + (payload_concat(a.drop_first(), c) + payload_concat(b, c))
            =~= (payload_of(a[0], c) + payload_concat(a.drop_first(), c)) + payload_concat(b, c));
    }
}

/// Appending one batch appends its image.
pub proof fn lemma_payload_concat_push(bs: Seq<Seq<u64>>, b: Seq<u64>, c: Option<Compression>)
    ensures
        payload_concat(bs.push(b), c) == payload_concat(bs, c) + payload_of(b, c),
{
    assert(bs.push(b) =~= bs + seq![b]);
    lemma_payload_concat_app(bs, seq![b], c);
    assert(payload_concat(seq![b], c) == payload_of(b, c) + payload_concat(
        seq![b].drop_first(),
        c,
    ));
    assert(seq![b].drop_first() =~= Seq::<Seq<u64>>::empty());
    assert(payload_of(b, c) + Seq::<u8>::empty() =~= payload_of(b, c));
}

/// The elements of a sequence of batches, one batch after the other,
/// oldest first.
pub open spec fn flat_elems(bs: Seq<Seq<u64>>) -> Seq<u64>
    decreases bs.len(),
{
    if bs.len() == 0 {
        Seq::<u64>::empty()
    } else {
        bs[0] + flat_elems(bs.drop_first())
    }
}

/// Appending one batch appends its elements.
pub proof fn lemma_flat_elems_push(bs: Seq<Seq<u64>>, b: Seq<u64>)
    ensures
        flat_elems(bs.push(b)) == flat_elems(bs) + b,
    decreases bs.len(),
{
    if bs.len() == 0 {
        assert(bs.push(b)[0] == b);
        assert(bs.push(b).drop_first() =~= Seq::<Seq<u64>>::empty());
        assert(flat_elems(Seq::<Seq<u64>>::empty()) =~= Seq::<u64>::empty());
        assert(b + Seq::<u64>::empty() =~= b);
        assert(flat_elems(bs) + b =~= b);
    } else {
        assert(bs.push(b)[0] == bs[0]);
        assert(bs.push(b).drop_first() =~= bs.drop_first().push(b));
        lemma_flat_elems_push(bs.drop_first(), b);
        assert(bs[0] + (flat_elems(bs.drop_first()) + b) =~= (bs[0] + flat_elems(bs.drop_first()))
            + b);
    }
}

/// The elements still on disk from batch `k` on are batch `k`'s elements
/// followed by those of the batches after it.
pub proof fn lemma_flat_elems_skip(bs: Seq<Seq<u64>>, k: int)
    requires
        0 <= k < bs.len(),
    ensures
        flat_elems(bs.skip(k)) == bs[k] + flat_elems(bs.skip(k + 1)),
{
    assert(bs.skip(k)[0] == bs[k]);
    assert(bs.skip(k).drop_first() =~= bs.skip(k + 1));
}

/// The batch store: the temp-file handle plus the in-memory ledger, one
/// entry per batch, in the order the batches were written — which is also
/// the order their elements were inserted.
pub struct CheckedFile {
    pub(crate) file: SpillFile,
    pub(crate) batch_info: Vec<BatchInfo>,
    /// The elements of each written batch, oldest batch first.
    pub(crate) batches: Ghost<Seq<Seq<u64>>>,
}

impl CheckedFile {
    /// The elements of each batch written so far, oldest batch first.
    pub closed spec fn batch_seqs(self) -> Seq<Seq<u64>> {
        self.batches@
    }

    /// Number of ledger entries.
    pub closed spec fn ledger_len(self) -> int {
        self.batch_info@.len() as int
    }

    /// No operation on the backing file has ever failed.
    pub closed spec fn healthy(self) -> bool {
        self.file.ok@
    }

    /// Sum of all recorded batch byte lengths.
    pub closed spec fn stored_bytes(self) -> int {
        sum_bytes(self.batch_info@)
    }

    /// The ledger describes exactly the written batches, each of which is
    /// non-empty and within the compressor's round-trip limit; while the
    /// file is clean it holds exactly their images.
    pub closed spec fn inv(self, c: Option<Compression>) -> bool {
        &&& self.batch_info@.len() == self.batches@.len()
        &&& forall|i: int|
            0 <= i < self.batches@.len() ==> info_matches(
                #[trigger] self.batch_info@[i],
                payload_of(self.batches@[i], c),
            )
        &&& forall|i: int| 0 <= i < self.batches@.len() ==> (#[trigger] self.batches@[i]).len() >= 1
        &&& forall|i: int|
            0 <= i < self.batches@.len() ==> decomp_ok(c, encoding_of(#[trigger] self.batches@[i]))
        &&& (self.file.ok@ ==> self.file.written@ == payload_concat(self.batches@, c))
    }

    /// The cursor stands at the end of the file, ready to append.
    pub closed spec fn at_end(self) -> bool {
        self.file.pos@ == self.file.written@.len()
    }

    /// The cursor stands at the start of batch `k`'s image.
    pub closed spec fn read_pos_is(self, k: int, c: Option<Compression>) -> bool {
        self.file.pos@ == payload_concat(self.batches@.take(k), c).len()
    }

    /// A fresh store with an empty file and an empty ledger.
    pub(crate) fn new() -> (r: CheckedFile)
        ensures
            r.batch_seqs() == Seq::<Seq<u64>>::empty(),
            r.ledger_len() == 0,
            r.stored_bytes() == 0,
            r.healthy(),
            r.at_end(),
            forall|c: Option<Compression>| r.inv(c),
    {
        let r = CheckedFile {
            file: SpillFile::create(),
            batch_info: Vec::new(),
            batches: Ghost(Seq::<Seq<u64>>::empty()),
        };
        proof {
            assert forall|c: Option<Compression>| r.inv(c) by {
                assert(payload_concat(r.batches@, c) =~= Seq::<u8>::empty());
            }
        }
        r
    }

    /// Number of ledger entries.
    pub(crate) fn batch_info_len(&self) -> (r: usize)
        ensures
            r == self.ledger_len(),
    {
        self.batch_info.len()
    }

    /// A ledger length is a count.
    pub proof fn lemma_ledger_len_nonneg(self)
        ensures
            self.ledger_len() >= 0,
    {
    }

    /// A well-formed store holds no empty batch.
    pub proof fn lemma_inv_batch_nonempty(self, c: Option<Compression>, i: int)
        requires
            self.inv(c),
            0 <= i < self.batch_seqs().len(),
        ensures
            self.batch_seqs()[i].len() >= 1,
    {
    }

    /// A well-formed store has one ledger entry per written batch.
    pub proof fn lemma_inv_lens(self, c: Option<Compression>)
        requires
            self.inv(c),
        ensures
            self.ledger_len() == self.batch_seqs().len(),
    {
    }

    /// Computes the digest of the batch image, appends the image to the
    /// file, hands it on to the OS, and records digest and length in the
    /// ledger.  On failure the ledger is left unchanged and the store is
    /// marked unclean.
    pub(crate) fn write_all(
        &mut self,
        buffer: &Vec<u8>,
        batch: Ghost<Seq<u64>>,
        comp: Ghost<Option<Compression>>,
    ) -> (r: Result<(), SwapVecError>)
        ensures
            final(self).healthy() ==> old(self).healthy(),
            old(self).inv(comp@) && (old(self).healthy() ==> old(self).at_end()) && buffer@
                == payload_of(batch@, comp@) && batch@.len() >= 1 && decomp_ok(
                comp@,
                encoding_of(batch@),
            ) ==> final(self).inv(comp@) && (
            final(self).healthy() ==> final(self).at_end()),
            old(self).inv(comp@) && old(self).healthy() && old(self).at_end() && buffer@
                == payload_of(batch@, comp@) && batch@.len() >= 1 && decomp_ok(
                comp@,
                encoding_of(batch@),
            ) ==> match r {
                Ok(()) => {
                    &&& final(self).inv(comp@)
                    &&& final(self).healthy()
                    &&& final(self).at_end()
                    &&& final(self).batch_seqs() == old(self).batch_seqs().push(batch@)
                    &&& final(self).ledger_len() == old(self).ledger_len() + 1
                    &&& final(self).stored_bytes() == old(self).stored_bytes() + buffer@.len()
                },
                Err(e) => {
                    &&& final(self).inv(comp@)
                    &&& !final(self).healthy()
                    &&& final(self).batch_seqs() == old(self).batch_seqs()
                    &&& final(self).ledger_len() == old(self).ledger_len()
                    &&& final(self).stored_bytes() == old(self).stored_bytes()
                    &&& (e is MissingPermissions || e is OutOfDisk || e is Other)
                },
            },
    {
        let h = digest(buffer);
        match self.file.append(buffer) {
            Ok(()) => {},
            Err(e) => {
                return Err(e);
            },
        }
        match self.file.flush() {
            Ok(()) => {},
            Err(e) => {
                return Err(e);
            },
        }
        let info = BatchInfo { hash: h, bytes: buffer.len() };
        self.batch_info.push(info);
        proof {
            lemma_sum_bytes_push(old(self).batch_info@, info);
            lemma_payload_concat_push(old(self).batches@, batch@, comp@);
        }
        self.batches = Ghost(self.batches@.push(batch@));
        proof {
            if old(self).inv(comp@) && buffer@ == payload_of(batch@, comp@) && batch@.len() >= 1
                && decomp_ok(comp@, encoding_of(batch@)) {
                assert forall|i: int| 0 <= i < self.batches@.len() implies info_matches(
                    #[trigger] self.batch_info@[i],
                    payload_of(self.batches@[i], comp@),
                ) by {
                    if i < old(self).batches@.len() {
                        assert(info_matches(
                            old(self).batch_info@[i],
                            payload_of(old(self).batches@[i], comp@),
                        ));
                        assert(self.batch_info@[i] == old(self).batch_info@[i]);
                        assert(self.batches@[i] == old(self).batches@[i]);
                    } else {
                        assert(self.batch_info@[i] == info);
                        assert(self.batches@[i] == batch@);
                    }
                }
                assert forall|i: int|
                    0 <= i < self.batches@.len() implies (#[trigger] self.batches@[i]).len()
                    >= 1 by {
                    if i < old(self).batches@.len() {
                        assert(old(self).batches@[i].len() >= 1);
                        assert(self.batches@[i] == old(self).batches@[i]);
                    } else {
                        assert(self.batches@[i] == batch@);
                    }
                }
                assert forall|i: int|
                    0 <= i < self.batches@.len() implies decomp_ok(
                    comp@,
                    encoding_of(#[trigger] self.batches@[i]),
                ) by {
                    if i < old(self).batches@.len() {
                        assert(decomp_ok(comp@, encoding_of(old(self).batches@[i])));
                        assert(self.batches@[i] == old(self).batches@[i]);
                    } else {
                        assert(self.batches@[i] == batch@);
                    }
                }
            }
        }
        Ok(())
    }

    /// Sum of all recorded batch byte lengths, clamped at the largest
    /// 64-bit value: an in-memory bookkeeping query, not a filesystem
    /// stat.
    pub(crate) fn file_size(&self) -> (r: u64)
        ensures
            r == clamp_u64(self.stored_bytes()),
    {
        let mut total: u64 = 0;
        let mut i: usize = 0;
        while i < self.batch_info.len()
            invariant
                i <= self.batch_info@.len(),
                total == clamp_u64(sum_bytes(self.batch_info@.take(i as int))),
            decreases self.batch_info@.len() - i,
        {
            proof {
                lemma_sum_bytes_push(self.batch_info@.take(i as int), self.batch_info@[i as int]);
                assert(self.batch_info@.take(i as int).push(self.batch_info@[i as int])
                    =~= self.batch_info@.take(i as int + 1));
                assert(sum_bytes(self.batch_info@.take(i as int)) >= 0) by {
                    lemma_sum_bytes_nonneg(self.batch_info@.take(i as int));
                }
            }
            total = total.saturating_add(self.batch_info[i].bytes as u64);
            i = i + 1;
        }
        proof {
            assert(self.batch_info@.take(self.batch_info@.len() as int) =~= self.batch_info@);
        }
        total
    }

    /// Moves the cursor back to the start of the file for replay.
    pub(crate) fn rewind(&mut self, comp: Ghost<Option<Compression>>) -> (r: Result<
        (),
        SwapVecError,
    >)
        ensures
            final(self).batch_seqs() == old(self).batch_seqs(),
            final(self).ledger_len() == old(self).ledger_len(),
            final(self).stored_bytes() == old(self).stored_bytes(),
            final(self).healthy() ==> old(self).healthy(),
            old(self).inv(comp@) ==> final(self).inv(comp@),
            r is Ok ==> final(self).healthy() == old(self).healthy() && final(self).read_pos_is(
                0,
                comp@,
            ),
            r is Err ==> !final(self).healthy() && (r->Err_0 is MissingPermissions
                || r->Err_0 is OutOfDisk || r->Err_0 is Other),
    {
        let r = self.file.seek_start();
        proof {
            assert(self.batches@.take(0) =~= Seq::<Seq<u64>>::empty());
        }
        r
    }

    /// Reads batch `k`'s image at the cursor, validates it against the
    /// ledger, and decodes it into the elements that were flushed.
    pub(crate) fn read_batch(&mut self, k: usize, compression: &Option<Compression>) -> (r: Result<
        Vec<u64>,
        SwapVecError,
    >)
        ensures
            final(self).batch_seqs() == old(self).batch_seqs(),
            final(self).ledger_len() == old(self).ledger_len(),
            final(self).stored_bytes() == old(self).stored_bytes(),
            final(self).healthy() ==> old(self).healthy(),
            old(self).inv(*compression) ==> final(self).inv(*compression),
            old(self).inv(*compression) && old(self).healthy() && k < old(self).batch_seqs().len()
                && old(self).read_pos_is(k as int, *compression) ==> match r {
                Ok(v) => v@ == old(self).batch_seqs()[k as int] && final(self).healthy()
                    && final(self).read_pos_is(k + 1, *compression),
                Err(e) => !final(self).healthy() && (e is MissingPermissions || e is OutOfDisk
                    || e is Other),
            },
    {
        let ghost c = *compression;
        let ghost bs = self.batches@;
        if k >= self.batch_info.len() {
            return Err(SwapVecError::Other);
        }
        let ghost in_order = old(self).inv(c) && old(self).healthy() && k < bs.len() && old(
            self,
        ).read_pos_is(k as int, c);
        proof {
            if in_order {
                lemma_payload_concat_split(bs, k as int, c);
                assert(info_matches(
                    old(self).batch_info@[k as int],
                    payload_of(bs[k as int], c),
                ));
            }
        }
        let n = self.batch_info[k].bytes;
        let bytes = match self.file.read_chunk(n) {
            Ok(b) => b,
            Err(e) => {
                return Err(e);
            },
        };
        proof {
            if in_order {
                let a = payload_concat(bs.take(k as int), c);
                let p = payload_of(bs[k as int], c);
                let b = payload_concat(bs.skip(k as int + 1), c);
                assert(old(self).file.written@ == a + p + b);
                assert(n == p.len());
                assert(old(self).file.pos@ == a.len());
                assert(old(self).file.pos@ + n <= old(self).file.written@.len());
                assert(bytes@ =~= p);
                assert(info_matches(self.batch_info@[k as int], bytes@));
                assert(self.file.pos@ == a.len() + p.len());
                assert(payload_concat(bs.take(k as int + 1), c).len() == a.len() + p.len());
            }
        }
        match decode_batch(&bytes, &self.batch_info[k], compression) {
            Ok(v) => Ok(v),
            Err(e) => Err(e),
        }
    }
}

/// The image of a batch sequence splits at every batch boundary: what
/// stands before batch `k`, batch `k`'s own image, and what stands after.
pub proof fn lemma_payload_concat_split(bs: Seq<Seq<u64>>, k: int, c: Option<Compression>)
    requires
        0 <= k < bs.len(),
    ensures
        payload_concat(bs, c) == payload_concat(bs.take(k), c) + payload_of(bs[k], c)
            + payload_concat(bs.skip(k + 1), c),
        payload_concat(bs.take(k + 1), c) == payload_concat(bs.take(k), c) + payload_of(bs[k], c),
{
    assert(bs.take(k + 1) =~= bs.take(k).push(bs[k]));
    lemma_payload_concat_push(bs.take(k), bs[k], c);
    assert(bs =~= bs.take(k + 1) + bs.skip(k + 1));
    lemma_payload_concat_app(bs.take(k + 1), bs.skip(k + 1), c);
}

/// A ledger's byte sum is never negative.
pub proof fn lemma_sum_bytes_nonneg(s: Seq<BatchInfo>)
    ensures
        sum_bytes(s) >= 0,
    decreases s.len(),
{
    if s.len() > 0 {
        lemma_sum_bytes_nonneg(s.drop_first());
    }
}

} // verus!
