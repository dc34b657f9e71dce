//! Carrying column families over from one database to another.
use crate::error::PruneError;
use crate::rows::{
    family_rows, find_family, full_pieces_and_rest, pieces, pieces_are_stretches,
    pieces_lose_nothing, put_rows, put_rows_concat, put_rows_overlays, rows_view, with_last,
    ColumnFamily, Row, RowView,
};
use crate::text::texts;
use vstd::prelude::*;

verus! {

/// The number of rows after which what was read is written.
pub const COPY_BATCH: usize = 10_000;

/// The names that are not among the rebuilt ones, in their order.
pub open spec fn carried(names: Seq<Seq<char>>, rebuilt: Seq<Seq<char>>) -> Seq<Seq<char>>
    decreases names.len(),
{
    if names.len() == 0 {
        seq![]
    } else {
        let before = carried(names.drop_last(), rebuilt);
        if rebuilt.contains(names.last()) {
            before
        } else {
            before.push(names.last())
        }
    }
}

/// A column family is carried over exactly when it is listed and not rebuilt:
/// none that is listed can be dropped on the floor.
pub proof fn every_other_family_is_carried(
    names: Seq<Seq<char>>,
    rebuilt: Seq<Seq<char>>,
    name: Seq<char>,
)
    ensures
        carried(names, rebuilt).contains(name) <==> names.contains(name) && !rebuilt.contains(name),
    decreases names.len(),
{
    if names.len() > 0 {
        let before = carried(names.drop_last(), rebuilt);
        let all = carried(names, rebuilt);
        every_other_family_is_carried(names.drop_last(), rebuilt, name);
        assert(names =~= names.drop_last().push(names.last()));
        if names.contains(name) && name != names.last() {
            let i: int = choose|i: int| 0 <= i < names.len() && names[i] == name;
            assert(names.drop_last()[i] == name);
        }
        if names.drop_last().contains(name) {
            let i: int = choose|i: int|
                0 <= i < names.drop_last().len() && names.drop_last()[i] == name;
            assert(names[i] == name);
        }
        if !rebuilt.contains(names.last()) {
            assert(all[all.len() - 1] == names.last());
            if before.contains(name) {
                let i: int = choose|i: int| 0 <= i < before.len() && before[i] == name;
                assert(all[i] == name);
            }
            if all.contains(name) && name != names.last() {
                let i: int = choose|i: int| 0 <= i < all.len() && all[i] == name;
                assert(before[i] == name);
            }
        }
        assert(names[names.len() - 1] == names.last());
    }
}

/// Whether a column family is rebuilt, and therefore not carried over.
fn is_rebuilt(name: &String, rebuilt: &[String]) -> (found: bool)
    ensures
        found <==> texts(rebuilt@).contains(name@),
{
    let mut i: usize = 0;
    while i < rebuilt.len()
        invariant
            i <= rebuilt@.len(),
            forall|j: int| 0 <= j < i ==> rebuilt@[j]@ != name@,
        decreases rebuilt@.len() - i,
    {
        if rebuilt[i] == *name {
            assert(texts(rebuilt@)[i as int] == name@);
            return true;
        }
        i = i + 1;
    }
    false
}

/// The column families that have to be carried over unchanged: those of
/// `cf_names` that are not in `rebuilt`.
pub fn families_to_carry(cf_names: &[String], rebuilt: &[String]) -> (names: Vec<String>)
    ensures
        texts(names@) == carried(texts(cf_names@), texts(rebuilt@)),
{
    let mut names: Vec<String> = Vec::new();
    let mut i: usize = 0;
    assert(texts(cf_names@).take(0) =~= Seq::<Seq<char>>::empty());
    assert(texts(names@) =~= Seq::<Seq<char>>::empty());
    while i < cf_names.len()
        invariant
            i <= cf_names@.len(),
            texts(names@) == carried(texts(cf_names@).take(i as int), texts(rebuilt@)),
        decreases cf_names@.len() - i,
    {
        let ghost next = texts(cf_names@).take(i + 1);
        assert(next.drop_last() =~= texts(cf_names@).take(i as int));
        assert(next.last() == cf_names@[i as int]@);
        if !is_rebuilt(&cf_names[i], rebuilt) {
            let ghost before = names@;
            names.push(cf_names[i].clone());
            assert(texts(names@) =~= texts(before).push(cf_names@[i as int]@));
        }
        i = i + 1;
    }
    assert(texts(cf_names@).take(i as int) =~= texts(cf_names@));
    names
}

/// The rows of a batch, if there is one.
pub open spec fn batch_view(batch: Option<Vec<Row>>) -> Option<Seq<RowView>> {
    match batch {
        Some(rows) => Some(rows_view(rows@)),
        None => None,
    }
}

/// The copy of one column family. It takes the rows of the source one by one
/// and says when a batch of them has to be written.
pub struct FamilyCopy {
    name: String,
    pending: Vec<Row>,
    count: u64,
    taken: Ghost<Seq<RowView>>,
    written: Ghost<Seq<Seq<RowView>>>,
}

/// How the copy of a column family ends.
pub struct FamilyCopied {
    /// The rows that are still to be written, if there are any.
    pub last: Option<Vec<Row>>,
    /// The name of the column family.
    pub name: String,
    /// The number of rows copied.
    pub count: u64,
}

impl FamilyCopy {
    /// The name of the column family.
    pub closed spec fn name(&self) -> Seq<char> {
        self.name@
    }

    /// The rows read so far.
    pub closed spec fn taken(&self) -> Seq<RowView> {
        self.taken@
    }

    /// The batches handed out for writing so far.
    pub closed spec fn written(&self) -> Seq<Seq<RowView>> {
        self.written@
    }

    /// What was read is what was handed out, in full batches, followed by the
    /// rows that wait for the next batch.
    pub closed spec fn wf(&self) -> bool {
        &&& self.taken@ == self.written@.flatten() + rows_view(self.pending@)
        &&& forall|i: int|
            0 <= i < self.written@.len() ==> (#[trigger] self.written@[i]).len() == COPY_BATCH
        &&& self.pending@.len() < COPY_BATCH
        &&& self.count == self.taken@.len()
        &&& self.count == self.written@.len() * COPY_BATCH + self.pending@.len()
    }

    /// Starts the copy of a column family, given whether each of the two
    /// databases has it.
    pub fn begin(name: String, in_old: bool, in_new: bool) -> (copy: Result<Self, PruneError>)
        ensures
            copy is Ok <==> in_old && in_new,
            match copy {
                Ok(copy) => {
                    &&& copy.wf()
                    &&& copy.name() == name@
                    &&& copy.taken() == Seq::<RowView>::empty()
                    &&& copy.written() == Seq::<Seq<RowView>>::empty()
                },
                Err(PruneError::MissingInOld(missing)) => !in_old && missing == name,
                Err(PruneError::MissingInNew(missing)) => in_old && !in_new && missing == name,
                Err(_) => false,
            },
    {
        if !in_old {
            return Err(PruneError::MissingInOld(name));
        }
        if !in_new {
            return Err(PruneError::MissingInNew(name));
        }
        let copy = FamilyCopy {
            name,
            pending: Vec::new(),
            count: 0,
            taken: Ghost(Seq::empty()),
            written: Ghost(Seq::empty()),
        };
        assert(copy.taken@ =~= copy.written@.flatten() + rows_view(copy.pending@));
        Ok(copy)
    }

    /// The number of rows read so far.
    pub fn count(&self) -> (count: u64)
        requires
            self.wf(),
        ensures
            count == self.taken().len(),
    {
        self.count
    }

    /// Takes the next row of the source. A batch that is returned has to be
    /// written before the next row is read.
    pub fn add_row(&mut self, row: Row) -> (batch: Option<Vec<Row>>)
        requires
            old(self).wf(),
            old(self).taken().len() < u64::MAX,
        ensures
            final(self).wf(),
            final(self).name() == old(self).name(),
            final(self).taken() == old(self).taken().push(row@),
            final(self).written() == with_last(old(self).written(), batch_view(batch)),
            batch is Some <==> final(self).taken().len() % (COPY_BATCH as nat) == 0,
            batch matches Some(b) ==> rows_view(b@) == final(self).taken().skip(
                final(self).taken().len() - COPY_BATCH,
            ),
    {
        let ghost before = rows_view(self.pending@);
        self.pending.push(row);
        self.count = self.count + 1;
        self.taken = Ghost(self.taken@.push(row@));
        assert(rows_view(self.pending@) =~= before.push(row@));
        assert(self.taken@ =~= self.written@.flatten() + rows_view(self.pending@));
        if self.pending.len() == COPY_BATCH {
            let mut batch: Vec<Row> = Vec::new();
            std::mem::swap(&mut batch, &mut self.pending);
            let ghost rows = rows_view(batch@);
            proof {
                let earlier = self.written@;
                let now = earlier.push(rows);
                earlier.lemma_flatten_push(rows);
                assert(now.flatten() =~= self.taken@);
                assert(self.taken@ =~= now.flatten() + rows_view(self.pending@));
                assert(rows =~= self.taken@.skip(self.taken@.len() - COPY_BATCH));
            }
            self.written = Ghost(self.written@.push(rows));
            Some(batch)
        } else {
            None
        }
    }

    /// Ends the copy once the source has no more rows.
    pub fn end(self) -> (copied: FamilyCopied)
        requires
            self.wf(),
        ensures
            copied.name@ == self.name(),
            copied.count == self.taken().len(),
            with_last(self.written(), batch_view(copied.last)) == pieces(
                self.taken(),
                COPY_BATCH as nat,
            ),
            copied.last is Some <==> self.taken().len() % (COPY_BATCH as nat) != 0,
            copied.last matches Some(b) ==> rows_view(b@) == self.taken().skip(
                self.taken().len() - self.taken().len() % (COPY_BATCH as nat),
            ),
    {
        proof {
            full_pieces_and_rest(self.written@, rows_view(self.pending@), COPY_BATCH as nat);
            assert(rows_view(self.pending@) =~= self.taken@.skip(
                self.taken@.len() - self.pending@.len(),
            ));
        }
        if self.pending.len() == 0 {
            FamilyCopied { last: None, name: self.name, count: self.count }
        } else {
            FamilyCopied { last: Some(self.pending), name: self.name, count: self.count }
        }
    }
}

/// Rows written at once into one column family of the destination.
pub struct FamilyWrite {
    pub family: String,
    pub rows: Vec<Row>,
}

/// The name and the rows of a write.
#[verifier::ext_equal]
pub struct FamilyWriteView {
    pub family: Seq<char>,
    pub rows: Seq<RowView>,
}

impl View for FamilyWrite {
    type V = FamilyWriteView;

    open spec fn view(&self) -> FamilyWriteView {
        FamilyWriteView { family: self.family@, rows: rows_view(self.rows@) }
    }
}

/// What a copy of column families did.
pub struct CopyRun {
    /// What was written, in order. If the copy stopped at a missing column
    /// family, what came before it has been written.
    pub writes: Vec<FamilyWrite>,
    /// Each column family copied with the number of its rows.
    pub result: Result<Vec<(String, u64)>, PruneError>,
}

/// The name and the rows of each write of a list.
pub open spec fn writes_view(writes: Seq<FamilyWrite>) -> Seq<FamilyWriteView> {
    Seq::new(writes.len(), |i: int| writes[i]@)
}

/// The names and the counts of a list.
pub open spec fn counts_view(counts: Seq<(String, u64)>) -> Seq<(Seq<char>, nat)> {
    Seq::new(counts.len(), |i: int| (counts[i].0@, counts[i].1 as nat))
}

/// Batches of rows as writes into one column family.
pub open spec fn writes_into(family: Seq<char>, batches: Seq<Seq<RowView>>) -> Seq<
    FamilyWriteView,
> {
    Seq::new(batches.len(), |i: int| FamilyWriteView { family, rows: batches[i] })
}

/// What is written to copy these column families, one after another: the rows
/// of each, in batches.
pub open spec fn writes_of(db: Seq<ColumnFamily>, names: Seq<Seq<char>>) -> Seq<FamilyWriteView>
    decreases names.len(),
{
    if names.len() == 0 {
        seq![]
    } else {
        writes_of(db, names.drop_last()) + writes_into(
            names.last(),
            pieces(family_rows(db, names.last())->0, COPY_BATCH as nat),
        )
    }
}

/// The names of these column families with the numbers of their rows.
pub open spec fn counts_of(db: Seq<ColumnFamily>, names: Seq<Seq<char>>) -> Seq<(Seq<char>, nat)> {
    Seq::new(names.len(), |i: int| (names[i], (family_rows(db, names[i])->0).len()))
}

/// Whether both databases have a column family.
pub open spec fn in_both(
    old_db: Seq<ColumnFamily>,
    new_db: Seq<ColumnFamily>,
    name: Seq<char>,
) -> bool {
    family_rows(old_db, name) is Some && family_rows(new_db, name) is Some
}

/// The number of names before the first one that a database lacks.
pub open spec fn count_before_missing(
    old_db: Seq<ColumnFamily>,
    new_db: Seq<ColumnFamily>,
    names: Seq<Seq<char>>,
) -> int
    decreases names.len(),
{
    if names.len() == 0 || !in_both(old_db, new_db, names[0]) {
        0
    } else {
        1 + count_before_missing(old_db, new_db, names.drop_first())
    }
}

/// If the first names are in both databases, and the next one, if there is
/// one, is not, then the next one is the first that is missing.
pub(crate) proof fn count_before_missing_is(
    old_db: Seq<ColumnFamily>,
    new_db: Seq<ColumnFamily>,
    names: Seq<Seq<char>>,
    k: int,
)
    requires
        0 <= k <= names.len(),
        forall|i: int| 0 <= i < k ==> in_both(old_db, new_db, #[trigger] names[i]),
        k < names.len() ==> !in_both(old_db, new_db, names[k]),
    ensures
        count_before_missing(old_db, new_db, names) == k,
    decreases names.len(),
{
    if k > 0 {
        let rest = names.drop_first();
        assert(in_both(old_db, new_db, names[0]));
        assert forall|i: int| 0 <= i < k - 1 implies in_both(old_db, new_db, #[trigger] rest[i]) by {
            assert(rest[i] == names[i + 1]);
        }
        count_before_missing_is(old_db, new_db, rest, k - 1);
    }
}

/// Copies the rows of one column family as writes.
fn copy_family(copy: FamilyCopy, rows: &Vec<Row>, writes: &mut Vec<FamilyWrite>) -> (copied: (
    String,
    u64,
))
    requires
        copy.wf(),
        copy.taken() == Seq::<RowView>::empty(),
        copy.written() == Seq::<Seq<RowView>>::empty(),
    ensures
        copied.0@ == copy.name(),
        copied.1 == rows@.len(),
        writes_view(final(writes)@) == writes_view(old(writes)@) + writes_into(
            copy.name(),
            pieces(rows_view(rows@), COPY_BATCH as nat),
        ),
{
    let ghost earlier = writes_view(writes@);
    let ghost name = copy.name();
    let ghost all = rows_view(rows@);
    let mut copy = copy;
    let mut i: usize = 0;
    assert(all.take(0) =~= Seq::<RowView>::empty());
    assert(writes_view(writes@) =~= earlier + writes_into(name, copy.written()));
    while i < rows.len()
        invariant
            i <= rows@.len(),
            all == rows_view(rows@),
            copy.wf(),
            copy.name() == name,
            copy.taken() == all.take(i as int),
            writes_view(writes@) == earlier + writes_into(name, copy.written()),
        decreases rows@.len() - i,
    {
        let row = Row { key: rows[i].key.clone(), value: rows[i].value.clone() };
        assert(row@ =~= rows@[i as int]@);
        let ghost written = copy.written();
        let ghost so_far = writes@;
        if let Some(batch) = copy.add_row(row) {
            let family: String = copy.name.clone();
            writes.push(FamilyWrite { family, rows: batch });
            assert(writes_view(writes@) =~= writes_view(so_far).push(
                FamilyWriteView { family: name, rows: rows_view(batch@) },
            ));
            assert(writes_into(name, copy.written()) =~= writes_into(name, written).push(
                FamilyWriteView { family: name, rows: rows_view(batch@) },
            ));
            assert(writes_view(writes@) =~= earlier + writes_into(name, copy.written()));
        }
        assert(all.take(i + 1) =~= all.take(i as int).push(all[i as int]));
        i = i + 1;
    }
    assert(all.take(i as int) =~= all);
    let ghost written = copy.written();
    let ghost so_far = writes@;
    let copied = copy.end();
    if let Some(batch) = copied.last {
        let family: String = copied.name.clone();
        writes.push(FamilyWrite { family, rows: batch });
        assert(writes_view(writes@) =~= writes_view(so_far).push(
            FamilyWriteView { family: name, rows: rows_view(batch@) },
        ));
        assert(writes_into(name, pieces(all, COPY_BATCH as nat)) =~= writes_into(name, written).push(
            FamilyWriteView { family: name, rows: rows_view(batch@) },
        ));
        assert(writes_view(writes@) =~= earlier + writes_into(
            name,
            pieces(all, COPY_BATCH as nat),
        ));
    }
    (copied.name, copied.count)
}

/// Copy every column family named in `cf_names` that is not in `rebuilt`,
/// preserving key and value bytes exactly.
///
/// Stops at the first column family that one of the databases does not have.
pub fn copy_column_families(
    old_db: &[ColumnFamily],
    new_db: &[ColumnFamily],
    cf_names: &[String],
    rebuilt: &[String],
) -> (run: CopyRun)
    ensures
        ({
            let names = carried(texts(cf_names@), texts(rebuilt@));
            let done = count_before_missing(old_db@, new_db@, names);
            &&& writes_view(run.writes@) == writes_of(old_db@, names.take(done))
            &&& run.result is Ok <==> done == names.len()
            &&& match run.result {
                Ok(copied) => counts_view(copied@) == counts_of(old_db@, names),
                Err(PruneError::MissingInOld(name)) => {
                    &&& name@ == names[done]
                    &&& family_rows(old_db@, names[done]) is None
                },
                Err(PruneError::MissingInNew(name)) => {
                    &&& name@ == names[done]
                    &&& family_rows(old_db@, names[done]) is Some
                    &&& family_rows(new_db@, names[done]) is None
                },
                Err(_) => false,
            }
        }),
{
    let todo: Vec<String> = families_to_carry(cf_names, rebuilt);
    let ghost names = texts(todo@);
    let mut writes: Vec<FamilyWrite> = Vec::new();
    let mut copied: Vec<(String, u64)> = Vec::new();
    let mut i: usize = 0;
    assert(names.take(0) =~= Seq::<Seq<char>>::empty());
    assert(writes_view(writes@) =~= writes_of(old_db@, names.take(0)));
    assert(counts_view(copied@) =~= counts_of(old_db@, names.take(0)));
    while i < todo.len()
        invariant
            i <= todo@.len(),
            names == texts(todo@),
            names == carried(texts(cf_names@), texts(rebuilt@)),
            forall|j: int| 0 <= j < i ==> in_both(old_db@, new_db@, #[trigger] names[j]),
            writes_view(writes@) == writes_of(old_db@, names.take(i as int)),
            counts_view(copied@) == counts_of(old_db@, names.take(i as int)),
        decreases todo@.len() - i,
    {
        let name: String = todo[i].clone();
        assert(name@ == names[i as int]);
        let source = find_family(old_db, &name);
        let destination = find_family(new_db, &name);
        match FamilyCopy::begin(name, source.is_some(), destination.is_some()) {
            Err(error) => {
                proof {
                    count_before_missing_is(old_db@, new_db@, names, i as int);
                }
                return CopyRun { writes, result: Err(error) };
            },
            Ok(copy) => {
                let position: usize = source.unwrap();
                let ghost next = names.take(i + 1);
                assert(next.drop_last() =~= names.take(i as int));
                assert(next.last() == names[i as int]);
                let ghost before = copied@;
                copied.push(copy_family(copy, &old_db[position].rows, &mut writes));
                assert(counts_view(copied@) =~= counts_of(old_db@, next)) by {
                    let earlier = counts_of(old_db@, names.take(i as int));
                    assert(counts_view(before).len() == earlier.len());
                    assert forall|j: int| 0 <= j <= i implies #[trigger] counts_view(copied@)[j]
                        == counts_of(old_db@, next)[j] by {
                        if j < i {
                            assert(counts_view(before)[j] == earlier[j]);
                        }
                    }
                }
                i = i + 1;
            },
        }
    }
    proof {
        assert(names.take(i as int) =~= names);
        count_before_missing_is(old_db@, new_db@, names, i as int);
    }
    CopyRun { writes, result: Ok(copied) }
}

/// What a column family of the destination holds after these writes: each
/// write into it puts its rows.
pub open spec fn after_writes(
    family: Map<Seq<u8>, Seq<u8>>,
    name: Seq<char>,
    writes: Seq<FamilyWriteView>,
) -> Map<Seq<u8>, Seq<u8>>
    decreases writes.len(),
{
    if writes.len() == 0 {
        family
    } else {
        let before = after_writes(family, name, writes.drop_last());
        if writes.last().family == name {
            put_rows(before, writes.last().rows)
        } else {
            before
        }
    }
}

proof fn after_writes_concat(
    family: Map<Seq<u8>, Seq<u8>>,
    name: Seq<char>,
    a: Seq<FamilyWriteView>,
    b: Seq<FamilyWriteView>,
)
    ensures
        after_writes(after_writes(family, name, a), name, b) == after_writes(family, name, a + b),
    decreases b.len(),
{
    if b.len() == 0 {
        assert(a + b =~= a);
    } else {
        after_writes_concat(family, name, a, b.drop_last());
        assert((a + b).drop_last() =~= a + b.drop_last());
        assert((a + b).last() == b.last());
    }
}

proof fn after_writes_into(
    family: Map<Seq<u8>, Seq<u8>>,
    name: Seq<char>,
    target: Seq<char>,
    batches: Seq<Seq<RowView>>,
)
    ensures
        after_writes(family, name, writes_into(target, batches)) == if target == name {
            put_rows(family, batches.flatten())
        } else {
            family
        },
    decreases batches.len(),
{
    let writes = writes_into(target, batches);
    if batches.len() > 0 {
        let front = batches.drop_last();
        after_writes_into(family, name, target, front);
        assert(writes.drop_last() =~= writes_into(target, front));
        assert(writes.last().rows == batches.last());
        assert(batches =~= front.push(batches.last()));
        front.lemma_flatten_push(batches.last());
        put_rows_concat(family, front.flatten(), batches.last());
    } else {
        assert(batches.flatten() =~= Seq::<RowView>::empty());
    }
}

/// Copying column families puts exactly the rows of the source into each of
/// them, key and value bytes unchanged, whatever the batches; a column family
/// that is not copied stays as it is.
pub proof fn copying_puts_exactly_the_source_rows(
    old_db: Seq<ColumnFamily>,
    names: Seq<Seq<char>>,
    family: Map<Seq<u8>, Seq<u8>>,
    name: Seq<char>,
)
    ensures
        after_writes(family, name, writes_of(old_db, names)) == if names.contains(name) {
            put_rows(family, family_rows(old_db, name)->0)
        } else {
            family
        },
    decreases names.len(),
{
    if names.len() > 0 {
        let front = names.drop_last();
        let last = names.last();
        let rows = family_rows(old_db, last)->0;
        let batches = pieces(rows, COPY_BATCH as nat);
        let before = after_writes(family, name, writes_of(old_db, front));
        copying_puts_exactly_the_source_rows(old_db, front, family, name);
        after_writes_concat(family, name, writes_of(old_db, front), writes_into(last, batches));
        after_writes_into(before, name, last, batches);
        pieces_lose_nothing(rows, COPY_BATCH as nat);
        assert(names[names.len() - 1] == last);
        if front.contains(name) {
            let i: int = choose|i: int| 0 <= i < front.len() && front[i] == name;
            assert(names[i] == name);
        } else if names.contains(name) {
            let i: int = choose|i: int| 0 <= i < names.len() && names[i] == name;
            if i < names.len() - 1 {
                assert(front[i] == name);
            }
        }
        if last == name && front.contains(name) {
            let alone = put_rows(Map::<Seq<u8>, Seq<u8>>::empty(), rows);
            put_rows_overlays(family, rows);
            put_rows_overlays(before, rows);
            assert(before.union_prefer_right(alone) =~= family.union_prefer_right(alone));
        }
    }
}

/// Copying again what was already copied changes nothing.
pub proof fn copying_again_changes_nothing(
    old_db: Seq<ColumnFamily>,
    names: Seq<Seq<char>>,
    family: Map<Seq<u8>, Seq<u8>>,
    name: Seq<char>,
)
    ensures
        ({
            let once = after_writes(family, name, writes_of(old_db, names));
            after_writes(once, name, writes_of(old_db, names)) == once
        }),
{
    let once = after_writes(family, name, writes_of(old_db, names));
    copying_puts_exactly_the_source_rows(old_db, names, family, name);
    copying_puts_exactly_the_source_rows(old_db, names, once, name);
    if names.contains(name) {
        let rows = family_rows(old_db, name)->0;
        let alone = put_rows(Map::<Seq<u8>, Seq<u8>>::empty(), rows);
        put_rows_overlays(family, rows);
        put_rows_overlays(once, rows);
        assert(once.union_prefer_right(alone) =~= once);
    }
}

/// Which names are carried over is decided name by name: a rebuilt one is left
/// out, any other stays, and the order and the repetitions of the list stay.
pub proof fn carrying_is_decided_name_by_name(
    a: Seq<Seq<char>>,
    b: Seq<Seq<char>>,
    name: Seq<char>,
    rebuilt: Seq<Seq<char>>,
)
    ensures
        carried(seq![], rebuilt).len() == 0,
        rebuilt.contains(name) ==> carried(seq![name], rebuilt).len() == 0,
        !rebuilt.contains(name) ==> carried(seq![name], rebuilt) == seq![name],
        carried(a + b, rebuilt) == carried(a, rebuilt) + carried(b, rebuilt),
    decreases b.len(),
{
    assert(seq![name].drop_last() =~= Seq::<Seq<char>>::empty());
    assert(seq![name].last() == name);
    assert(carried(seq![name].drop_last(), rebuilt).len() == 0);
    assert(!rebuilt.contains(name) ==> carried(seq![name], rebuilt) =~= seq![name]);
    if b.len() == 0 {
        assert(a + b =~= a);
        assert(carried(a, rebuilt) + carried(b, rebuilt) =~= carried(a, rebuilt));
    } else {
        carrying_is_decided_name_by_name(a, b.drop_last(), name, rebuilt);
        assert((a + b).drop_last() =~= a + b.drop_last());
        assert((a + b).last() == b.last());
        assert(carried(a + b, rebuilt) =~= carried(a, rebuilt) + carried(b, rebuilt));
    }
}

/// Asking again which of the names that are carried over are to be carried
/// over gives all of them.
pub proof fn carrying_again_changes_nothing(names: Seq<Seq<char>>, rebuilt: Seq<Seq<char>>)
    ensures
        carried(carried(names, rebuilt), rebuilt) == carried(names, rebuilt),
    decreases names.len(),
{
    if names.len() > 0 {
        let front = carried(names.drop_last(), rebuilt);
        let last = names.last();
        carrying_again_changes_nothing(names.drop_last(), rebuilt);
        carrying_is_decided_name_by_name(front, seq![last], last, rebuilt);
        if !rebuilt.contains(last) {
            assert(front.push(last) =~= front + seq![last]);
            assert(carried(front + seq![last], rebuilt) =~= front.push(last));
        }
    }
}

/// The rows of all writes into one column family, in the order in which they
/// are written.
pub open spec fn rows_into(writes: Seq<FamilyWriteView>, name: Seq<char>) -> Seq<RowView>
    decreases writes.len(),
{
    if writes.len() == 0 {
        seq![]
    } else if writes.last().family == name {
        rows_into(writes.drop_last(), name) + writes.last().rows
    } else {
        rows_into(writes.drop_last(), name)
    }
}

proof fn rows_into_concat(a: Seq<FamilyWriteView>, b: Seq<FamilyWriteView>, name: Seq<char>)
    ensures
        rows_into(a + b, name) == rows_into(a, name) + rows_into(b, name),
    decreases b.len(),
{
    if b.len() == 0 {
        assert(a + b =~= a);
        assert(rows_into(a, name) + rows_into(b, name) =~= rows_into(a, name));
    } else {
        rows_into_concat(a, b.drop_last(), name);
        assert((a + b).drop_last() =~= a + b.drop_last());
        assert((a + b).last() == b.last());
        assert(rows_into(a + b, name) =~= rows_into(a, name) + rows_into(b, name));
    }
}

proof fn rows_into_batches(target: Seq<char>, batches: Seq<Seq<RowView>>, name: Seq<char>)
    ensures
        rows_into(writes_into(target, batches), name) == if target == name {
            batches.flatten()
        } else {
            Seq::<RowView>::empty()
        },
    decreases batches.len(),
{
    let writes = writes_into(target, batches);
    if batches.len() > 0 {
        let front = batches.drop_last();
        rows_into_batches(target, front, name);
        assert(writes.drop_last() =~= writes_into(target, front));
        assert(writes.last().rows == batches.last());
        assert(writes.last().family == target);
        assert(batches =~= front.push(batches.last()));
        front.lemma_flatten_push(batches.last());
    } else {
        assert(batches.flatten() =~= Seq::<RowView>::empty());
    }
}

/// What is written into a column family that is copied once is exactly the
/// rows of the source, in their order; into any other nothing is written.
pub proof fn writes_hold_the_source_rows(
    db: Seq<ColumnFamily>,
    names: Seq<Seq<char>>,
    name: Seq<char>,
)
    requires
        names.no_duplicates(),
    ensures
        names.contains(name) ==> rows_into(writes_of(db, names), name) == family_rows(db, name)->0,
        !names.contains(name) ==> rows_into(writes_of(db, names), name).len() == 0,
    decreases names.len(),
{
    if names.len() > 0 {
        let front = names.drop_last();
        let last = names.last();
        let rows = family_rows(db, last)->0;
        let batches = pieces(rows, COPY_BATCH as nat);
        writes_hold_the_source_rows(db, front, name);
        rows_into_concat(writes_of(db, front), writes_into(last, batches), name);
        rows_into_batches(last, batches, name);
        pieces_lose_nothing(rows, COPY_BATCH as nat);
        assert(names[names.len() - 1] == last);
        if front.contains(name) {
            let i: int = choose|i: int| 0 <= i < front.len() && front[i] == name;
            assert(names[i] == name);
        } else if names.contains(name) {
            let i: int = choose|i: int| 0 <= i < names.len() && names[i] == name;
            if i < names.len() - 1 {
                assert(front[i] == name);
            }
        }
        assert(rows_into(writes_of(db, names), name) =~= rows_into(writes_of(db, front), name)
            + rows_into(writes_into(last, batches), name));
    }
}

/// Column families are copied one after another: the writes of a list are
/// those of its parts.
pub proof fn families_are_copied_one_after_another(
    db: Seq<ColumnFamily>,
    a: Seq<Seq<char>>,
    b: Seq<Seq<char>>,
)
    ensures
        writes_of(db, seq![]).len() == 0,
        writes_of(db, a + b) == writes_of(db, a) + writes_of(db, b),
    decreases b.len(),
{
    if b.len() == 0 {
        assert(a + b =~= a);
        assert(writes_of(db, a) + writes_of(db, b) =~= writes_of(db, a));
    } else {
        families_are_copied_one_after_another(db, a, b.drop_last());
        assert((a + b).drop_last() =~= a + b.drop_last());
        assert((a + b).last() == b.last());
        assert(writes_of(db, a + b) =~= writes_of(db, a) + writes_of(db, b));
    }
}

/// A column family is copied in stretches of ten thousand rows, the last of
/// which may be shorter, and with no write for no rows.
pub proof fn one_family_is_copied_in_stretches(db: Seq<ColumnFamily>, name: Seq<char>, i: int)
    ensures
        ({
            let rows = family_rows(db, name)->0;
            let writes = writes_of(db, seq![name]);
            &&& writes.len() * 10_000 >= rows.len()
            &&& rows.len() > 0 ==> (writes.len() - 1) * 10_000 < rows.len()
            &&& rows.len() == 0 ==> writes.len() == 0
            &&& 0 <= i < writes.len() ==> writes[i].family == name && writes[i].rows
                == rows.subrange(
                i * 10_000,
                if (i + 1) * 10_000 <= rows.len() {
                    (i + 1) * 10_000
                } else {
                    rows.len() as int
                },
            )
        }),
{
    let rows = family_rows(db, name)->0;
    assert(seq![name].drop_last() =~= Seq::<Seq<char>>::empty());
    assert(seq![name].last() == name);
    assert(writes_of(db, seq![name].drop_last()).len() == 0);
    assert(writes_of(db, seq![name]) =~= writes_into(name, pieces(rows, COPY_BATCH as nat)));
    pieces_are_stretches(rows, COPY_BATCH as nat, i);
}

/// The numbers reported are those of the rows of the source.
pub proof fn counts_are_those_of_the_source(db: Seq<ColumnFamily>, names: Seq<Seq<char>>, i: int)
    requires
        0 <= i < names.len(),
    ensures
        counts_of(db, names).len() == names.len(),
        counts_of(db, names)[i].0 == names[i],
        counts_of(db, names)[i].1 == (family_rows(db, names[i])->0).len(),
{
}

/// The copy reaches every column family before the first that a database
/// lacks, and no other.
pub proof fn copying_stops_at_the_first_missing_family(
    old_db: Seq<ColumnFamily>,
    new_db: Seq<ColumnFamily>,
    names: Seq<Seq<char>>,
)
    ensures
        ({
            let done = count_before_missing(old_db, new_db, names);
            &&& 0 <= done <= names.len()
            &&& forall|i: int|
                0 <= i < done ==> family_rows(old_db, #[trigger] names[i]) is Some && family_rows(
                    new_db,
                    names[i],
                ) is Some
            &&& done < names.len() ==> family_rows(old_db, names[done]) is None || family_rows(
                new_db,
                names[done],
            ) is None
        }),
    decreases names.len(),
{
    if names.len() > 0 && in_both(old_db, new_db, names[0]) {
        let rest = names.drop_first();
        copying_stops_at_the_first_missing_family(old_db, new_db, rest);
        let done = count_before_missing(old_db, new_db, names);
        assert forall|i: int| 0 <= i < done implies family_rows(old_db, #[trigger] names[i]) is Some
            && family_rows(new_db, names[i]) is Some by {
            if i > 0 {
                assert(rest[i - 1] == names[i]);
            }
        }
        if done < names.len() {
            assert(rest[done - 1] == names[done]);
        }
    }
}

/// Writes act one after another, each on the column family that it names.
pub proof fn writes_act_one_after_another(
    family: Map<Seq<u8>, Seq<u8>>,
    name: Seq<char>,
    a: Seq<FamilyWriteView>,
    b: Seq<FamilyWriteView>,
    write: FamilyWriteView,
)
    ensures
        after_writes(family, name, seq![]) == family,
        write.family == name ==> after_writes(family, name, seq![write]) == put_rows(
            family,
            write.rows,
        ),
        write.family != name ==> after_writes(family, name, seq![write]) == family,
        after_writes(family, name, a + b) == after_writes(after_writes(family, name, a), name, b),
{
    after_writes_concat(family, name, a, b);
    assert(seq![write].drop_last() =~= Seq::<FamilyWriteView>::empty());
    assert(seq![write].last() == write);
    assert(after_writes(family, name, seq![write].drop_last()) == family);
}

/// The views of rows, writes and counts are made of their bytes, their names
/// and their numbers.
pub proof fn views_keep_bytes_and_names(
    rows: Seq<Row>,
    writes: Seq<FamilyWrite>,
    counts: Seq<(String, u64)>,
)
    ensures
        rows_view(rows).len() == rows.len(),
        forall|i: int|
            0 <= i < rows.len() ==> (#[trigger] rows_view(rows)[i]).key == rows[i].key@
                && rows_view(rows)[i].value == rows[i].value@,
        writes_view(writes).len() == writes.len(),
        forall|i: int|
            0 <= i < writes.len() ==> (#[trigger] writes_view(writes)[i]).family
                == writes[i].family@ && writes_view(writes)[i].rows == rows_view(writes[i].rows@),
        counts_view(counts).len() == counts.len(),
        forall|i: int|
            0 <= i < counts.len() ==> (#[trigger] counts_view(counts)[i]).0 == counts[i].0@
                && counts_view(counts)[i].1 == counts[i].1,
{
}

} // verus!
