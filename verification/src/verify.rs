//! Checking that column families were carried over unchanged.
use crate::copy::{
    after_writes, carried, copying_puts_exactly_the_source_rows, count_before_missing,
    count_before_missing_is, families_to_carry, in_both, writes_of,
};
use crate::error::PruneError;
use crate::fingerprint::{
    fingerprint_column_family, frameable, framed, framing_is_injective,
    rows_of_families_are_frameable, sha256_digest,
};
use crate::rows::{
    contents, family_rows, in_key_order, is_walk, put_rows, put_rows_overlays, same_bytes,
    walk_of_put_rows, walks_agree, ColumnFamily, RowView,
};
use crate::text::{decimal, decimal_text, hex_encode, hexadecimal, texts};
use vstd::prelude::*;

verus! {

/// The description of a column family whose fingerprints differ.
pub open spec fn mismatch_line(
    name: Seq<char>,
    old_count: nat,
    old_digest: Seq<u8>,
    new_count: nat,
    new_digest: Seq<u8>,
) -> Seq<char> {
    name + ": "@ + decimal(old_count) + " entries / "@ + hexadecimal(old_digest)
        + " in the source, "@ + decimal(new_count) + " entries / "@ + hexadecimal(new_digest)
        + " in the pruned database"@
}

/// Whether the fingerprints of two column families differ.
pub open spec fn differ(old_rows: Seq<RowView>, new_rows: Seq<RowView>) -> bool {
    ||| old_rows.len() != new_rows.len()
    ||| sha256_digest(framed(old_rows)) != sha256_digest(framed(new_rows))
}

/// The descriptions of the column families that differ, in order.
pub open spec fn mismatches_of(
    old_db: Seq<ColumnFamily>,
    new_db: Seq<ColumnFamily>,
    names: Seq<Seq<char>>,
) -> Seq<Seq<char>>
    decreases names.len(),
{
    if names.len() == 0 {
        seq![]
    } else {
        let before = mismatches_of(old_db, new_db, names.drop_last());
        let old_rows = family_rows(old_db, names.last())->0;
        let new_rows = family_rows(new_db, names.last())->0;
        if differ(old_rows, new_rows) {
            before.push(
                mismatch_line(
                    names.last(),
                    old_rows.len(),
                    sha256_digest(framed(old_rows)),
                    new_rows.len(),
                    sha256_digest(framed(new_rows)),
                ),
            )
        } else {
            before
        }
    }
}

/// Compares the fingerprints of a column family in the source and in the
/// pruned database, and describes the difference if there is one.
pub fn compare_fingerprints(cf_name: &str, old: &(u64, [u8; 32]), new: &(u64, [u8; 32])) -> (line:
    Option<String>)
    ensures
        line is None <==> old.0 == new.0 && old.1@ == new.1@,
        line matches Some(text) ==> text@ == mismatch_line(
            cf_name@,
            old.0 as nat,
            old.1@,
            new.0 as nat,
            new.1@,
        ),
{
    if old.0 == new.0 && same_bytes(old.1.as_slice(), new.1.as_slice()) {
        return None;
    }
    let mut text = cf_name.to_owned();
    text.append(": ");
    text.append(decimal_text(old.0).as_str());
    text.append(" entries / ");
    text.append(hex_encode(old.1.as_slice()).as_str());
    text.append(" in the source, ");
    text.append(decimal_text(new.0).as_str());
    text.append(" entries / ");
    text.append(hex_encode(new.1.as_slice()).as_str());
    text.append(" in the pruned database");
    Some(text)
}

/// The verdict on the column families that were compared.
pub fn conclude(mismatches: Vec<String>) -> (result: Result<(), PruneError>)
    ensures
        match result {
            Ok(_) => mismatches@.len() == 0,
            Err(PruneError::Mismatch(list)) => mismatches@.len() > 0 && list == mismatches,
            Err(_) => false,
        },
{
    if mismatches.len() == 0 {
        Ok(())
    } else {
        Err(PruneError::Mismatch(mismatches))
    }
}

/// Check that every column family that is not in `rebuilt` is identical in
/// the two databases, and fail with the offending column families otherwise.
pub fn verify_column_families(
    old_db: &[ColumnFamily],
    new_db: &[ColumnFamily],
    cf_names: &[String],
    rebuilt: &[String],
) -> (result: Result<(), PruneError>)
    ensures
        ({
            let names = carried(texts(cf_names@), texts(rebuilt@));
            let done = count_before_missing(old_db@, new_db@, names);
            let lines = mismatches_of(old_db@, new_db@, names);
            &&& result is Ok <==> done == names.len() && lines.len() == 0
            &&& match result {
                Ok(_) => true,
                Err(PruneError::Missing(name)) => done < names.len() && name@ == names[done],
                Err(PruneError::Mismatch(list)) => {
                    &&& done == names.len()
                    &&& lines.len() > 0
                    &&& texts(list@) == lines
                },
                Err(_) => false,
            }
        }),
{
    let todo: Vec<String> = families_to_carry(cf_names, rebuilt);
    let ghost names = texts(todo@);
    let mut mismatches: Vec<String> = Vec::new();
    let mut i: usize = 0;
    assert(names.take(0) =~= Seq::<Seq<char>>::empty());
    assert(texts(mismatches@) =~= mismatches_of(old_db@, new_db@, names.take(0)));
    while i < todo.len()
        invariant
            i <= todo@.len(),
            names == texts(todo@),
            names == carried(texts(cf_names@), texts(rebuilt@)),
            forall|j: int| 0 <= j < i ==> in_both(old_db@, new_db@, #[trigger] names[j]),
            texts(mismatches@) == mismatches_of(old_db@, new_db@, names.take(i as int)),
        decreases todo@.len() - i,
    {
        assert(todo@[i as int]@ == names[i as int]);
        let old = match fingerprint_column_family(old_db, todo[i].as_str()) {
            Ok(fingerprint) => fingerprint,
            Err(error) => {
                proof {
                    count_before_missing_is(old_db@, new_db@, names, i as int);
                }
                return Err(error);
            },
        };
        let new = match fingerprint_column_family(new_db, todo[i].as_str()) {
            Ok(fingerprint) => fingerprint,
            Err(error) => {
                proof {
                    count_before_missing_is(old_db@, new_db@, names, i as int);
                }
                return Err(error);
            },
        };
        let ghost next = names.take(i + 1);
        assert(next.drop_last() =~= names.take(i as int));
        assert(next.last() == names[i as int]);
        if let Some(line) = compare_fingerprints(todo[i].as_str(), &old, &new) {
            let ghost before = texts(mismatches@);
            mismatches.push(line);
            assert(texts(mismatches@) =~= before.push(line@));
        }
        i = i + 1;
    }
    proof {
        assert(names.take(i as int) =~= names);
        count_before_missing_is(old_db@, new_db@, names, i as int);
        assert(texts(mismatches@).len() == mismatches@.len());
    }
    conclude(mismatches)
}

/// Column families that hold the same rows are not reported.
pub proof fn identical_families_verify(
    old_db: Seq<ColumnFamily>,
    new_db: Seq<ColumnFamily>,
    names: Seq<Seq<char>>,
)
    requires
        forall|i: int|
            0 <= i < names.len() ==> family_rows(old_db, #[trigger] names[i]) == family_rows(
                new_db,
                names[i],
            ),
    ensures
        mismatches_of(old_db, new_db, names).len() == 0,
    decreases names.len(),
{
    if names.len() > 0 {
        let front = names.drop_last();
        assert forall|i: int| 0 <= i < front.len() implies family_rows(old_db, #[trigger] front[i])
            == family_rows(new_db, front[i]) by {
            assert(front[i] == names[i]);
        }
        assert(names[names.len() - 1] == names.last());
        identical_families_verify(old_db, new_db, front);
    }
}

/// If nothing is reported, each column family has as many rows, with the same
/// digest, in the one database as in the other.
pub proof fn nothing_reported_means_same_fingerprints(
    old_db: Seq<ColumnFamily>,
    new_db: Seq<ColumnFamily>,
    names: Seq<Seq<char>>,
    i: int,
)
    requires
        mismatches_of(old_db, new_db, names).len() == 0,
        0 <= i < names.len(),
    ensures
        !differ(family_rows(old_db, names[i])->0, family_rows(new_db, names[i])->0),
    decreases names.len(),
{
    if i < names.len() - 1 {
        assert(names.drop_last()[i] == names[i]);
        nothing_reported_means_same_fingerprints(old_db, new_db, names.drop_last(), i);
    }
}

/// Column families that are not reported hold the same rows, unless two
/// different byte strings have the same SHA-256 digest.
pub proof fn nothing_reported_means_same_rows_or_a_collision(
    old_db: Seq<ColumnFamily>,
    new_db: Seq<ColumnFamily>,
    names: Seq<Seq<char>>,
    i: int,
)
    requires
        mismatches_of(old_db, new_db, names).len() == 0,
        0 <= i < names.len(),
        in_both(old_db, new_db, names[i]),
    ensures
        ({
            let old_rows = family_rows(old_db, names[i])->0;
            let new_rows = family_rows(new_db, names[i])->0;
            ||| old_rows == new_rows
            ||| {
                &&& framed(old_rows) != framed(new_rows)
                &&& sha256_digest(framed(old_rows)) == sha256_digest(framed(new_rows))
            }
        }),
{
    let old_rows = family_rows(old_db, names[i])->0;
    let new_rows = family_rows(new_db, names[i])->0;
    nothing_reported_means_same_fingerprints(old_db, new_db, names, i);
    if framed(old_rows) == framed(new_rows) {
        assert forall|j: int| 0 <= j < old_rows.len() implies frameable(#[trigger] old_rows[j]) by {
            rows_of_families_are_frameable(old_db, names[i], j);
        }
        assert forall|j: int| 0 <= j < new_rows.len() implies frameable(#[trigger] new_rows[j]) by {
            rows_of_families_are_frameable(new_db, names[i], j);
        }
        framing_is_injective(old_rows, new_rows);
    }
}

/// A copy verifies: whatever the source holds, once its rows were written to
/// a destination whose column families held no key that the source lacks, and
/// the destination is read back, nothing is reported. `before` is what each
/// column family of the destination held before the copy.
pub proof fn a_copy_verifies(
    old_db: Seq<ColumnFamily>,
    before: Map<Seq<char>, Map<Seq<u8>, Seq<u8>>>,
    new_db: Seq<ColumnFamily>,
    names: Seq<Seq<char>>,
)
    requires
        forall|i: int|
            #![trigger names[i]]
            0 <= i < names.len() ==> {
                let source = family_rows(old_db, names[i])->0;
                &&& in_both(old_db, new_db, names[i])
                &&& in_key_order(source)
                &&& before[names[i]].dom().subset_of(contents(source).dom())
                &&& is_walk(
                    family_rows(new_db, names[i])->0,
                    after_writes(before[names[i]], names[i], writes_of(old_db, names)),
                )
            },
    ensures
        mismatches_of(old_db, new_db, names).len() == 0,
{
    assert forall|i: int| 0 <= i < names.len() implies family_rows(old_db, #[trigger] names[i])
        == family_rows(new_db, names[i]) by {
        let source = family_rows(old_db, names[i])->0;
        let held = before[names[i]];
        copying_puts_exactly_the_source_rows(old_db, names, held, names[i]);
        put_rows_overlays(held, source);
        assert(held.union_prefer_right(contents(source)) =~= contents(source));
        walk_of_put_rows(source);
        walks_agree(source, family_rows(new_db, names[i])->0, put_rows(Map::empty(), source));
    }
    identical_families_verify(old_db, new_db, names);
}

/// A copy into empty column families verifies.
pub proof fn a_copy_into_empty_families_verifies(
    old_db: Seq<ColumnFamily>,
    new_db: Seq<ColumnFamily>,
    names: Seq<Seq<char>>,
)
    requires
        forall|i: int|
            #![trigger names[i]]
            0 <= i < names.len() ==> {
                &&& in_both(old_db, new_db, names[i])
                &&& in_key_order(family_rows(old_db, names[i])->0)
                &&& is_walk(
                    family_rows(new_db, names[i])->0,
                    after_writes(Map::empty(), names[i], writes_of(old_db, names)),
                )
            },
    ensures
        mismatches_of(old_db, new_db, names).len() == 0,
{
    let before = Map::<Seq<char>, Map<Seq<u8>, Seq<u8>>>::new(
        |name: Seq<char>| true,
        |name: Seq<char>| Map::empty(),
    );
    a_copy_verifies(old_db, before, new_db, names);
}

/// Two column families differ exactly if they have different numbers of rows,
/// or if the frames of their rows have different digests.
pub proof fn families_differ_in_count_or_digest(old_rows: Seq<RowView>, new_rows: Seq<RowView>)
    ensures
        !differ(old_rows, new_rows) <==> old_rows.len() == new_rows.len() && sha256_digest(
            framed(old_rows),
        ) == sha256_digest(framed(new_rows)),
        differ(old_rows, new_rows) == differ(new_rows, old_rows),
        !differ(old_rows, old_rows),
{
}

/// Differences are reported name by name: nothing for a column family with as
/// many rows and the same digest on both sides, one line for any other, in the
/// order of the list.
pub proof fn differences_are_reported_name_by_name(
    old_db: Seq<ColumnFamily>,
    new_db: Seq<ColumnFamily>,
    a: Seq<Seq<char>>,
    b: Seq<Seq<char>>,
    name: Seq<char>,
)
    ensures
        mismatches_of(old_db, new_db, seq![]).len() == 0,
        ({
            let old_rows = family_rows(old_db, name)->0;
            let new_rows = family_rows(new_db, name)->0;
            let lines = mismatches_of(old_db, new_db, seq![name]);
            if old_rows.len() == new_rows.len() && sha256_digest(framed(old_rows))
                == sha256_digest(framed(new_rows)) {
                lines.len() == 0
            } else {
                lines == seq![
                    mismatch_line(
                        name,
                        old_rows.len(),
                        sha256_digest(framed(old_rows)),
                        new_rows.len(),
                        sha256_digest(framed(new_rows)),
                    ),
                ]
            }
        }),
        mismatches_of(old_db, new_db, a + b) == mismatches_of(old_db, new_db, a) + mismatches_of(
            old_db,
            new_db,
            b,
        ),
    decreases b.len(),
{
    let single = seq![name];
    assert(single.drop_last() =~= Seq::<Seq<char>>::empty());
    assert(single.last() == name);
    assert(mismatches_of(old_db, new_db, single.drop_last()) =~= Seq::<Seq<char>>::empty());
    assert(mismatches_of(old_db, new_db, single).len() <= 1);
    if b.len() == 0 {
        assert(a + b =~= a);
        assert(mismatches_of(old_db, new_db, a) + mismatches_of(old_db, new_db, b)
            =~= mismatches_of(old_db, new_db, a));
    } else {
        differences_are_reported_name_by_name(old_db, new_db, a, b.drop_last(), name);
        assert((a + b).drop_last() =~= a + b.drop_last());
        assert((a + b).last() == b.last());
        assert(mismatches_of(old_db, new_db, a + b) =~= mismatches_of(old_db, new_db, a)
            + mismatches_of(old_db, new_db, b));
    }
}

/// The line on a column family starts with its name, gives both counts and both
/// digests, the source first, and ends by naming the pruned database.
pub proof fn lines_give_counts_and_digests(
    name: Seq<char>,
    old_count: nat,
    old_digest: Seq<u8>,
    new_count: nat,
    new_digest: Seq<u8>,
)
    ensures
        mismatch_line(name, old_count, old_digest, new_count, new_digest) == name + (": "@
            + decimal(old_count) + " entries / "@ + hexadecimal(old_digest)) + " in the source, "@
            + (decimal(new_count) + " entries / "@ + hexadecimal(new_digest))
            + " in the pruned database"@,
{
    assert(mismatch_line(name, old_count, old_digest, new_count, new_digest) =~= name + (": "@
        + decimal(old_count) + " entries / "@ + hexadecimal(old_digest)) + " in the source, "@ + (
    decimal(new_count) + " entries / "@ + hexadecimal(new_digest)) + " in the pruned database"@);
}

} // verus!
