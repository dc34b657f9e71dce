//! Fingerprints of column families.
use crate::codec::{be64, be64_is_injective, be64_is_the_number, big_endian, push_be64};
use crate::error::PruneError;
use crate::rows::{family_rows, find_family, rows_view, ColumnFamily, Row, RowView};
use vstd::prelude::*;

verus! {

/// The bytes that stand for one row: the length of the key in eight bytes,
/// the key, the length of the value in eight bytes, the value.
pub open spec fn frame(row: RowView) -> Seq<u8> {
    be64(row.key.len() as u64) + row.key + be64(row.value.len() as u64) + row.value
}

/// The bytes that stand for a list of rows: their frames, one after another.
pub open spec fn framed(rows: Seq<RowView>) -> Seq<u8>
    decreases rows.len(),
{
    if rows.len() == 0 {
        seq![]
    } else {
        framed(rows.drop_last()) + frame(rows.last())
    }
}

/// Whether the lengths of a row's key and value can be written in a frame.
pub open spec fn frameable(row: RowView) -> bool {
    row.key.len() <= u64::MAX && row.value.len() <= u64::MAX
}

proof fn framed_first(rows: Seq<RowView>)
    requires
        rows.len() > 0,
    ensures
        framed(rows) == frame(rows[0]) + framed(rows.drop_first()),
    decreases rows.len(),
{
    if rows.len() == 1 {
        assert(rows.drop_last() =~= Seq::<RowView>::empty());
        assert(rows.drop_first() =~= Seq::<RowView>::empty());
        assert(framed(rows) =~= frame(rows[0]) + framed(rows.drop_first()));
    } else {
        framed_first(rows.drop_last());
        assert(rows.drop_last().drop_first() =~= rows.drop_first().drop_last());
        assert(framed(rows) =~= frame(rows[0]) + framed(rows.drop_first()));
    }
}

/// If two byte strings start with the frames of two rows, and are equal, then
/// the rows are equal, and so is what follows them.
proof fn frame_is_prefix_free(a: RowView, x: Seq<u8>, b: RowView, y: Seq<u8>)
    requires
        frameable(a),
        frameable(b),
        frame(a) + x == frame(b) + y,
    ensures
        a == b,
        x == y,
{
    let s = frame(a) + x;
    let t = frame(b) + y;
    assert(s.subrange(0, 8) =~= be64(a.key.len() as u64));
    assert(t.subrange(0, 8) =~= be64(b.key.len() as u64));
    be64_is_injective(a.key.len() as u64, b.key.len() as u64);
    let k: int = a.key.len() as int;
    assert(s.subrange(8, 8 + k) =~= a.key);
    assert(t.subrange(8, 8 + k) =~= b.key);
    assert(s.subrange(8 + k, 16 + k) =~= be64(a.value.len() as u64));
    assert(t.subrange(8 + k, 16 + k) =~= be64(b.value.len() as u64));
    be64_is_injective(a.value.len() as u64, b.value.len() as u64);
    let v: int = a.value.len() as int;
    assert(s.subrange(16 + k, 16 + k + v) =~= a.value);
    assert(t.subrange(16 + k, 16 + k + v) =~= b.value);
    assert(s.subrange(16 + k + v, s.len() as int) =~= x);
    assert(t.subrange(16 + k + v, t.len() as int) =~= y);
    assert(a =~= b);
}

/// Different lists of rows never give the same bytes to hash: the same bytes
/// cannot be split again into other keys and values.
pub proof fn framing_is_injective(a: Seq<RowView>, b: Seq<RowView>)
    requires
        forall|i: int| 0 <= i < a.len() ==> frameable(#[trigger] a[i]),
        forall|i: int| 0 <= i < b.len() ==> frameable(#[trigger] b[i]),
        framed(a) == framed(b),
    ensures
        a == b,
    decreases a.len(),
{
    if a.len() > 0 {
        framed_first(a);
        assert(framed(a).len() >= 16);
    }
    if b.len() > 0 {
        framed_first(b);
        assert(framed(b).len() >= 16);
    }
    if a.len() == 0 || b.len() == 0 {
        assert(a =~= b);
    } else {
        frame_is_prefix_free(a[0], framed(a.drop_first()), b[0], framed(b.drop_first()));
        framing_is_injective(a.drop_first(), b.drop_first());
        assert(a =~= seq![a[0]] + a.drop_first());
        assert(b =~= seq![b[0]] + b.drop_first());
    }
}

/// The SHA-256 digest of a byte string.
pub uninterp spec fn sha256_digest(data: Seq<u8>) -> Seq<u8>;

/// A running SHA-256 hash, held in a `sha2::Sha256`.
#[verifier::external_body]
pub struct RunningHash {
    hasher: sha2::Sha256,
}

/// The bytes that a running hash has taken so far, one after another.
pub uninterp spec fn absorbed(hash: RunningHash) -> Seq<u8>;

/// `sha2::Digest::new`: a hash that has taken nothing.
#[verifier::external_body]
fn hash_new() -> (hash: RunningHash)
    ensures
        absorbed(hash) == Seq::<u8>::empty(),
{
    RunningHash { hasher: sha2::Digest::new() }
}

/// `sha2::Digest::update`: the hash takes the given bytes after those that it
/// has taken already.
#[verifier::external_body]
fn hash_update(hash: &mut RunningHash, data: &[u8])
    ensures
        absorbed(*final(hash)) == absorbed(*old(hash)) + data@,
{
    sha2::Digest::update(&mut hash.hasher, data)
}

/// `sha2::Digest::finalize`: the 32 bytes that it returns depend on the bytes
/// taken alone, not on how they were split over updates.
#[verifier::external_body]
fn hash_finalize(hash: RunningHash) -> (digest: [u8; 32])
    ensures
        digest@ == sha256_digest(absorbed(hash)),
{
    sha2::Digest::finalize(hash.hasher).into()
}

/// Takes a length, in eight big-endian bytes.
fn hash_length(hash: &mut RunningHash, length: usize)
    ensures
        absorbed(*final(hash)) == absorbed(*old(hash)) + be64(length as u64),
{
    let mut bytes: Vec<u8> = Vec::new();
    push_be64(&mut bytes, length as u64);
    assert(bytes@ =~= be64(length as u64));
    hash_update(hash, bytes.as_slice());
}

/// Whether a row count and a digest are the fingerprint of these rows.
pub open spec fn is_fingerprint(fingerprint: (u64, [u8; 32]), rows: Seq<RowView>) -> bool {
    &&& fingerprint.0 == rows.len()
    &&& fingerprint.1@ == sha256_digest(framed(rows))
}

/// A fingerprint in the making: it takes the rows of a column family one by
/// one, in the order of a walk, and hashes the frame of each as it comes.
pub struct Fingerprinter {
    count: u64,
    hash: RunningHash,
    taken: Ghost<Seq<RowView>>,
}

impl Fingerprinter {
    /// The rows taken so far.
    pub closed spec fn rows(&self) -> Seq<RowView> {
        self.taken@
    }

    /// The count and the hashed bytes are those of the rows taken so far.
    pub closed spec fn wf(&self) -> bool {
        &&& self.count == self.taken@.len()
        &&& absorbed(self.hash) == framed(self.taken@)
    }

    /// A fingerprint of no rows.
    pub fn new() -> (fingerprinter: Self)
        ensures
            fingerprinter.wf(),
            fingerprinter.rows() == Seq::<RowView>::empty(),
    {
        Fingerprinter { count: 0, hash: hash_new(), taken: Ghost(Seq::empty()) }
    }

    /// The number of rows taken so far.
    pub fn count(&self) -> (count: u64)
        requires
            self.wf(),
        ensures
            count == self.rows().len(),
    {
        self.count
    }

    /// Takes the next row.
    pub fn add_row(&mut self, key: &[u8], value: &[u8])
        requires
            old(self).wf(),
            old(self).rows().len() < u64::MAX,
        ensures
            final(self).wf(),
            final(self).rows() == old(self).rows().push(RowView { key: key@, value: value@ }),
    {
        let ghost row = RowView { key: key@, value: value@ };
        hash_length(&mut self.hash, key.len());
        hash_update(&mut self.hash, key);
        hash_length(&mut self.hash, value.len());
        hash_update(&mut self.hash, value);
        self.count = self.count + 1;
        self.taken = Ghost(self.taken@.push(row));
        assert(self.taken@.drop_last() =~= old(self).taken@);
        assert(absorbed(self.hash) =~= framed(old(self).taken@) + frame(row));
    }

    /// The fingerprint of the rows taken.
    pub fn finish(self) -> (fingerprint: (u64, [u8; 32]))
        requires
            self.wf(),
        ensures
            is_fingerprint(fingerprint, self.rows()),
    {
        (self.count, hash_finalize(self.hash))
    }
}

/// The number of rows of a column family, and a SHA-256 digest over every key
/// and value of it.
pub fn fingerprint_column_family(db: &[ColumnFamily], cf_name: &str) -> (fingerprint: Result<
    (u64, [u8; 32]),
    PruneError,
>)
    ensures
        match family_rows(db@, cf_name@) {
            Some(rows) => fingerprint is Ok && is_fingerprint(fingerprint->Ok_0, rows),
            None => fingerprint matches Err(PruneError::Missing(name)) && name@ == cf_name@,
        },
{
    let name: String = cf_name.to_owned();
    match find_family(db, &name) {
        None => Err(PruneError::Missing(name)),
        Some(position) => {
            let rows: &Vec<Row> = &db[position].rows;
            let mut fingerprinter = Fingerprinter::new();
            let mut i: usize = 0;
            assert(rows_view(rows@).take(0) =~= Seq::<RowView>::empty());
            while i < rows.len()
                invariant
                    i <= rows@.len(),
                    fingerprinter.wf(),
                    fingerprinter.rows() == rows_view(rows@).take(i as int),
                decreases rows@.len() - i,
            {
                fingerprinter.add_row(rows[i].key.as_slice(), rows[i].value.as_slice());
                i = i + 1;
                assert(rows_view(rows@).take(i as int) =~= rows_view(rows@).take(i - 1).push(
                    rows@[i - 1]@,
                ));
            }
            assert(rows_view(rows@).take(i as int) =~= rows_view(rows@));
            Ok(fingerprinter.finish())
        },
    }
}

/// The lengths of every key and value that a column family holds can be
/// written in a frame.
pub proof fn rows_of_families_are_frameable(db: Seq<ColumnFamily>, name: Seq<char>, i: int)
    requires
        family_rows(db, name) matches Some(rows) && 0 <= i < rows.len(),
    ensures
        frameable((family_rows(db, name)->0)[i]),
    decreases db.len(),
{
    if db[0].name@ == name {
        let row = db[0].rows@[i];
        assert(row.key@.len() == row.key.len());
        assert(row.value@.len() == row.value.len());
    } else {
        rows_of_families_are_frameable(db.drop_first(), name, i);
    }
}

/// The frame of a row holds the length of the key, the key, the length of the
/// value and the value, in this order and nothing else.
pub proof fn frames_hold_lengths_and_bytes(row: RowView)
    requires
        frameable(row),
    ensures
        ({
            let bytes = frame(row);
            let k = row.key.len() as int;
            let v = row.value.len() as int;
            &&& bytes.len() == 16 + k + v
            &&& big_endian(bytes.subrange(0, 8)) == k
            &&& bytes.subrange(8, 8 + k) == row.key
            &&& big_endian(bytes.subrange(8 + k, 16 + k)) == v
            &&& bytes.subrange(16 + k, 16 + k + v) == row.value
        }),
{
    let bytes = frame(row);
    let k = row.key.len() as int;
    let v = row.value.len() as int;
    be64_is_the_number(k as u64);
    be64_is_the_number(v as u64);
    assert(bytes.subrange(0, 8) =~= be64(k as u64));
    assert(bytes.subrange(8, 8 + k) =~= row.key);
    assert(bytes.subrange(8 + k, 16 + k) =~= be64(v as u64));
    assert(bytes.subrange(16 + k, 16 + k + v) =~= row.value);
}

/// A key or a value can be framed if its length fits in eight bytes.
pub proof fn frameable_up_to_the_length_fields(row: RowView)
    ensures
        frameable(row) <==> row.key.len() <= 0xffff_ffff_ffff_ffff && row.value.len()
            <= 0xffff_ffff_ffff_ffff,
{
}

/// Rows are framed one after another.
pub proof fn rows_are_framed_one_after_another(a: Seq<RowView>, b: Seq<RowView>, row: RowView)
    ensures
        framed(seq![]) == Seq::<u8>::empty(),
        framed(seq![row]) == frame(row),
        framed(a + b) == framed(a) + framed(b),
    decreases b.len(),
{
    assert(seq![row].drop_last() =~= Seq::<RowView>::empty());
    assert(framed(seq![row].drop_last()) =~= Seq::<u8>::empty());
    assert(framed(seq![row]) =~= frame(row));
    if b.len() == 0 {
        assert(a + b =~= a);
        assert(framed(a) + framed(b) =~= framed(a));
    } else {
        rows_are_framed_one_after_another(a, b.drop_last(), row);
        assert((a + b).drop_last() =~= a + b.drop_last());
        assert((a + b).last() == b.last());
        assert(framed(a + b) =~= framed(a) + framed(b));
    }
}

/// A fingerprint counts the rows: its first part is their number, and its
/// second the digest of their frames.
pub proof fn fingerprints_count_the_rows(fingerprint: (u64, [u8; 32]), rows: Seq<RowView>)
    ensures
        is_fingerprint(fingerprint, rows) <==> fingerprint.0 == rows.len() && fingerprint.1@
            == sha256_digest(framed(rows)),
{
}

} // verus!
