//! What the operations of the library do, in terms of their inputs and
//! results: what a result satisfies, and how the results of calls relate.
use crate::codec::{
    be64, big_endian, decode_node, decode_value, encode_node, encode_node_key, encode_value,
    is_row_of, other_rows_hold_no_value, present_values_have_one_row, value_decoding,
    value_fits, value_row_round_trip, value_view,
};
use crate::config::PruneConfig;
use crate::copy::{
    carried, copy_column_families, copying_stops_at_the_first_missing_family,
    count_before_missing, counts_are_those_of_the_source, counts_view, families_to_carry,
    rows_into, writes_hold_the_source_rows, writes_of, writes_view, CopyRun, FamilyCopied,
    FamilyCopy,
};
use crate::error::PruneError;
use crate::fingerprint::{
    fingerprint_column_family, fingerprints_count_the_rows, framed, sha256_digest, Fingerprinter,
};
use crate::prune::{
    chunks_entries, chunks_hold_the_leaves_in_their_places, count_nodes, distinct_keys,
    entries_view, leaves_that_read_as_they_are_have_no_overrides, leaves_view,
    override_rows_hold_the_overrides, overrides_are_of_leaves_that_read_otherwise, overrides_of,
    overrides_view, prune_main_substore, prune_substore, read_path_agrees, restored_rows,
    runs_need_a_valid_chunk_size, runs_report_the_source_and_the_nodes,
    runs_succeed_unless_refused_or_too_long, runs_write_into_their_own_substore, tree_entries,
    with_write, AddingChunk, Chunk, Finishing, LeafStep, LeafView, PruneReport, PruneRun,
    PruneTotals, Pruner, Refusal, SubstoreSnapshot,
};
use crate::rows::{
    contents, contents_are_the_last_rows, family_rows, put_rows, rows_view, ColumnFamily, Row,
};
use crate::text::{decimal, hexadecimal, joined, texts};
use crate::tree_store::{
    encode_from_keyhash, encode_from_node_key, encode_value_row, node_row_key, read_value,
    value_row_keys_hold_hash_and_version, KeyHash, NodeBatch, PruningTreeStore, SubstoreConfig,
    TreeRows,
};
use crate::verify::{
    compare_fingerprints, conclude, differences_are_reported_name_by_name, mismatches_of,
    nothing_reported_means_same_fingerprints, verify_column_families,
};
use jmt::storage::{Node, NodeKey};
use vstd::prelude::*;

verus! {

/// A configuration is accepted exactly if its chunk size is from one to ten
/// million; a smaller and a larger one are told apart.
pub proof fn configurations_are_accepted_by_chunk_size(
    config: &PruneConfig,
    result: Result<(), PruneError>,
)
    requires
        call_ensures(PruneConfig::validate, (config,), result),
    ensures
        result is Ok <==> 1 <= config.chunk_size <= 10_000_000,
        config.chunk_size < 1 <==> result is Err && result->Err_0 is ChunkSizeTooSmall,
        config.chunk_size > 10_000_000 <==> result is Err && result->Err_0 is ChunkSizeTooLarge,
{
}

/// Each chunk size between two accepted ones is accepted.
pub proof fn accepted_chunk_sizes_have_no_gap(
    small: &PruneConfig,
    middle: &PruneConfig,
    large: &PruneConfig,
    results: (Result<(), PruneError>, Result<(), PruneError>, Result<(), PruneError>),
)
    requires
        call_ensures(PruneConfig::validate, (small,), results.0),
        call_ensures(PruneConfig::validate, (middle,), results.1),
        call_ensures(PruneConfig::validate, (large,), results.2),
        small.chunk_size <= middle.chunk_size <= large.chunk_size,
        results.0 is Ok,
        results.2 is Ok,
    ensures
        results.1 is Ok,
{
}

/// The default configuration prunes in chunks of a hundred thousand, and is
/// accepted.
pub proof fn the_default_configuration_is_accepted(
    config: PruneConfig,
    result: Result<(), PruneError>,
)
    requires
        call_ensures(PruneConfig::default, (), config),
        call_ensures(PruneConfig::validate, (&config,), result),
    ensures
        config.chunk_size == 100_000,
        result is Ok,
{
}

/// A deleted value is encoded as a zero byte; a present one as a one, its
/// length and its bytes, unless the length does not fit in four bytes.
pub proof fn values_are_encoded_with_tag_and_length(
    value: &Option<Vec<u8>>,
    row: Result<Vec<u8>, PruneError>,
)
    requires
        call_ensures(encode_value, (value,), row),
    ensures
        value is None ==> row is Ok && row->Ok_0@ == seq![0u8],
        value matches Some(bytes) ==> if bytes@.len() <= 0xffff_ffff {
            row is Ok && is_row_of(row->Ok_0@, bytes@)
        } else {
            row is Err && row->Err_0 is Encode
        },
{
    if let Some(bytes) = value {
        if bytes@.len() <= 0xffff_ffff {
            present_values_have_one_row(row->Ok_0@, bytes@);
        }
    }
}

/// Decoding reads a zero byte as a deleted value, a one with a length and as
/// many bytes as these bytes, and refuses everything else.
pub proof fn values_are_decoded_by_tag_and_length(
    row: &[u8],
    bytes: Seq<u8>,
    value: Result<Option<Vec<u8>>, PruneError>,
)
    requires
        call_ensures(decode_value, (row,), value),
    ensures
        row@ == seq![0u8] <==> value is Ok && value->Ok_0 is None,
        bytes.len() <= 0xffff_ffff ==> (is_row_of(row@, bytes) <==> value is Ok
            && value->Ok_0 is Some && value->Ok_0->0@ == bytes),
        value is Err ==> value->Err_0 is Decode,
        value is Err <==> row@ != seq![0u8] && forall|b: Seq<u8>|
            b.len() <= 0xffff_ffff ==> !#[trigger] is_row_of(row@, b),
{
    other_rows_hold_no_value(row@);
    if bytes.len() <= 0xffff_ffff {
        present_values_have_one_row(row@, bytes);
    }
}

/// Decoding gives back what was encoded.
pub proof fn decoding_undoes_encoding(
    value: &Option<Vec<u8>>,
    row: Result<Vec<u8>, PruneError>,
    stored: &[u8],
    read: Result<Option<Vec<u8>>, PruneError>,
)
    requires
        call_ensures(encode_value, (value,), row),
        row is Ok,
        stored@ == row->Ok_0@,
        call_ensures(decode_value, (stored,), read),
    ensures
        read is Ok,
        value is None <==> read->Ok_0 is None,
        value matches Some(bytes) ==> read->Ok_0->0@ == bytes@,
{
    value_row_round_trip(value_view(*value));
    match value {
        Some(bytes) => {
            assert(value_view(read->Ok_0) == Some(bytes@));
        },
        None => {
            assert(value_view(read->Ok_0) == None::<Seq<u8>>);
        },
    }
}

/// Every node can be encoded, and decoding gives it back.
pub proof fn nodes_are_decoded_as_encoded(
    node: &Node,
    row: Result<Vec<u8>, PruneError>,
    stored: &[u8],
    read: Result<Node, PruneError>,
)
    requires
        call_ensures(encode_node, (node,), row),
        row is Ok ==> stored@ == row->Ok_0@,
        call_ensures(decode_node, (stored,), read),
    ensures
        row is Ok,
        read is Ok,
        read->Ok_0 == *node,
{
}

/// No two node keys have the same bytes, nor the same row.
pub proof fn node_keys_are_told_apart(
    a: &NodeKey,
    b: &NodeKey,
    bytes: (Result<Vec<u8>, PruneError>, Result<Vec<u8>, PruneError>),
    rows: (Result<Vec<u8>, PruneError>, Result<Vec<u8>, PruneError>),
)
    requires
        call_ensures(encode_node_key, (a,), bytes.0),
        call_ensures(encode_node_key, (b,), bytes.1),
        call_ensures(encode_from_node_key, (a,), rows.0),
        call_ensures(encode_from_node_key, (b,), rows.1),
    ensures
        bytes.0 is Ok && bytes.1 is Ok && bytes.0->Ok_0@ == bytes.1->Ok_0@ ==> *a == *b,
        rows.0 is Ok && rows.1 is Ok && rows.0->Ok_0@ == rows.1->Ok_0@ ==> *a == *b,
        rows.0 is Ok <==> bytes.0 is Ok,
        rows.0 is Ok ==> rows.0->Ok_0@.len() == 8 + bytes.0->Ok_0@.len() && rows.0->Ok_0@.skip(8)
            == bytes.0->Ok_0@,
{
    if rows.0 is Ok {
        assert(rows.0->Ok_0@.skip(8) =~= bytes.0->Ok_0@);
    }
}

/// Errors are described by fixed words around the names and the lines that
/// they carry.
pub proof fn errors_are_described_in_fixed_words(error: &PruneError, text: String)
    requires
        call_ensures(PruneError::message, (error,), text),
    ensures
        error is ChunkSizeTooSmall ==> text@ == "chunk_size must be at least 1"@,
        error is ChunkSizeTooLarge ==> text@ == "chunk_size exceeds maximum of 10 million"@,
        error matches PruneError::MissingInOld(name) ==> text@ == "column family '"@ + name@
            + "' not found"@ + " in old database"@,
        error matches PruneError::MissingInNew(name) ==> text@ == "column family '"@ + name@
            + "' not found"@ + " in new database"@,
        error matches PruneError::Missing(name) ==> text@ == "column family '"@ + name@
            + "' not found"@,
        error matches PruneError::Mismatch(lines) ==> text@
            == "pruned database does not match the source in "@ + decimal(lines@.len())
            + " column families: "@ + joined(texts(lines@), "; "@),
        error matches PruneError::Refused(reason) ==> text@ == reason@,
{
    if let PruneError::Missing(name) = error {
        reveal_strlit("");
        assert(text@ =~= "column family '"@ + name@ + "' not found"@);
    }
}

/// The fingerprint of a column family counts its rows and hashes their frames.
/// It exists exactly if the column family does.
pub proof fn fingerprints_count_and_hash_the_family(
    db: &[ColumnFamily],
    cf_name: &str,
    fingerprint: Result<(u64, [u8; 32]), PruneError>,
)
    requires
        call_ensures(fingerprint_column_family, (db, cf_name), fingerprint),
    ensures
        fingerprint is Ok <==> family_rows(db@, cf_name@) is Some,
        fingerprint is Ok ==> {
            let rows = family_rows(db@, cf_name@)->0;
            &&& fingerprint->Ok_0.0 == rows.len()
            &&& fingerprint->Ok_0.1@ == sha256_digest(framed(rows))
        },
        fingerprint is Err ==> (fingerprint matches Err(PruneError::Missing(name)) && name@
            == cf_name@),
{
    if fingerprint is Ok {
        fingerprints_count_the_rows(fingerprint->Ok_0, family_rows(db@, cf_name@)->0);
    }
}

/// Column families with the same rows have the same fingerprint, and those
/// with different numbers of rows have different ones.
pub proof fn fingerprints_follow_the_rows(
    a: &[ColumnFamily],
    b: &[ColumnFamily],
    a_name: &str,
    b_name: &str,
    x: (u64, [u8; 32]),
    y: (u64, [u8; 32]),
)
    requires
        call_ensures(fingerprint_column_family, (a, a_name), Ok::<(u64, [u8; 32]), PruneError>(x)),
        call_ensures(fingerprint_column_family, (b, b_name), Ok::<(u64, [u8; 32]), PruneError>(y)),
    ensures
        ({
            let a_rows = family_rows(a@, a_name@)->0;
            let b_rows = family_rows(b@, b_name@)->0;
            &&& a_rows == b_rows ==> x.0 == y.0 && x.1@ == y.1@
            &&& a_rows.len() != b_rows.len() ==> x.0 != y.0
            &&& x.0 - y.0 == a_rows.len() - b_rows.len()
        }),
{
}

/// A fingerprint in the making counts and hashes the rows that it has taken.
pub proof fn fingerprints_in_the_making_count_the_rows(
    fresh: Fingerprinter,
    fingerprinter: Fingerprinter,
    count: u64,
    fingerprint: (u64, [u8; 32]),
)
    requires
        call_ensures(Fingerprinter::new, (), fresh),
        fingerprinter.wf(),
        call_ensures(Fingerprinter::count, (&fingerprinter,), count),
        call_ensures(Fingerprinter::finish, (fingerprinter,), fingerprint),
    ensures
        fresh.wf(),
        fresh.rows().len() == 0,
        count == fingerprinter.rows().len(),
        fingerprint.0 == fingerprinter.rows().len(),
        fingerprint.1@ == sha256_digest(framed(fingerprinter.rows())),
{
    fingerprints_count_the_rows(fingerprint, fingerprinter.rows());
}

/// What has to be carried over is the list of names without the rebuilt ones.
pub proof fn families_to_carry_are_the_others(
    cf_names: &[String],
    rebuilt: &[String],
    names: Vec<String>,
)
    requires
        call_ensures(families_to_carry, (cf_names, rebuilt), names),
    ensures
        texts(names@) == carried(texts(cf_names@), texts(rebuilt@)),
        names@.len() <= cf_names@.len(),
        rebuilt@.len() == 0 ==> texts(names@) == texts(cf_names@),
{
    carried_is_no_longer(texts(cf_names@), texts(rebuilt@));
    assert(texts(names@).len() == names@.len());
}

proof fn carried_is_no_longer(names: Seq<Seq<char>>, rebuilt: Seq<Seq<char>>)
    ensures
        carried(names, rebuilt).len() <= names.len(),
        rebuilt.len() == 0 ==> carried(names, rebuilt) == names,
    decreases names.len(),
{
    if names.len() > 0 {
        carried_is_no_longer(names.drop_last(), rebuilt);
        assert(rebuilt.len() == 0 ==> carried(names, rebuilt) =~= names);
    } else {
        assert(carried(names, rebuilt) =~= names);
    }
}

/// A copy succeeds exactly if both databases have every column family that is
/// carried over. It then names each of them with the number of rows that the
/// source has in it, and has written them one after another.
pub proof fn copies_count_the_rows_of_the_source(
    old_db: &[ColumnFamily],
    new_db: &[ColumnFamily],
    cf_names: &[String],
    rebuilt: &[String],
    run: CopyRun,
)
    requires
        call_ensures(copy_column_families, (old_db, new_db, cf_names, rebuilt), run),
    ensures
        ({
            let names = carried(texts(cf_names@), texts(rebuilt@));
            &&& run.result is Ok <==> forall|i: int|
                0 <= i < names.len() ==> family_rows(old_db@, #[trigger] names[i]) is Some
                    && family_rows(new_db@, names[i]) is Some
            &&& run.result matches Ok(copied) ==> {
                &&& copied@.len() == names.len()
                &&& forall|i: int|
                    0 <= i < names.len() ==> (#[trigger] copied@[i]).0@ == names[i] && copied@[i].1
                        == (family_rows(old_db@, names[i])->0).len()
                &&& writes_view(run.writes@) == writes_of(old_db@, names)
            }
        }),
{
    let names = carried(texts(cf_names@), texts(rebuilt@));
    assert(names.take(names.len() as int) =~= names);
    let done = count_before_missing(old_db@, new_db@, names);
    copying_stops_at_the_first_missing_family(old_db@, new_db@, names);
    if run.result is Ok {
        let copied = run.result->Ok_0;
        assert(counts_view(copied@).len() == copied@.len());
        if names.len() > 0 {
            counts_are_those_of_the_source(old_db@, names, 0);
        }
        assert forall|i: int| 0 <= i < names.len() implies (#[trigger] copied@[i]).0@ == names[i]
            && copied@[i].1 == (family_rows(old_db@, names[i])->0).len() by {
            counts_are_those_of_the_source(old_db@, names, i);
            assert(counts_view(copied@)[i] == (copied@[i].0@, copied@[i].1 as nat));
        }
    } else {
        assert(family_rows(old_db@, names[done]) is None || family_rows(
            new_db@,
            names[done],
        ) is None);
    }
}

/// The number returned for a column family that is copied once is that of the
/// rows in all writes into it together. These rows are the rows of the source,
/// byte for byte and in their order, and nothing is written into a column
/// family that is not carried over.
pub proof fn copies_write_the_rows_that_they_count(
    old_db: &[ColumnFamily],
    new_db: &[ColumnFamily],
    cf_names: &[String],
    rebuilt: &[String],
    run: CopyRun,
    i: int,
    other: Seq<char>,
)
    requires
        call_ensures(copy_column_families, (old_db, new_db, cf_names, rebuilt), run),
        run.result is Ok,
        carried(texts(cf_names@), texts(rebuilt@)).no_duplicates(),
        0 <= i < run.result->Ok_0@.len(),
    ensures
        ({
            let names = carried(texts(cf_names@), texts(rebuilt@));
            let (name, count) = run.result->Ok_0@[i];
            let rows = rows_into(writes_view(run.writes@), name@);
            &&& count == rows.len()
            &&& rows == family_rows(old_db@, name@)->0
            &&& !names.contains(other) ==> rows_into(writes_view(run.writes@), other).len() == 0
        }),
{
    let names = carried(texts(cf_names@), texts(rebuilt@));
    copies_count_the_rows_of_the_source(old_db, new_db, cf_names, rebuilt, run);
    assert(names.take(names.len() as int) =~= names);
    let copied = run.result->Ok_0;
    assert(copied@[i].0@ == names[i]);
    writes_hold_the_source_rows(old_db@, names, names[i]);
    writes_hold_the_source_rows(old_db@, names, other);
}

/// A copy that stops has met the first column family that a database lacks:
/// the source if it lacks it, otherwise the destination. Exactly the ones
/// before it have been written.
pub proof fn copies_stop_at_the_first_missing_family(
    old_db: &[ColumnFamily],
    new_db: &[ColumnFamily],
    cf_names: &[String],
    rebuilt: &[String],
    run: CopyRun,
    k: int,
)
    requires
        call_ensures(copy_column_families, (old_db, new_db, cf_names, rebuilt), run),
        ({
            let names = carried(texts(cf_names@), texts(rebuilt@));
            &&& 0 <= k < names.len()
            &&& forall|i: int|
                0 <= i < k ==> family_rows(old_db@, #[trigger] names[i]) is Some && family_rows(
                    new_db@,
                    names[i],
                ) is Some
            &&& family_rows(old_db@, names[k]) is None || family_rows(new_db@, names[k]) is None
        }),
    ensures
        ({
            let names = carried(texts(cf_names@), texts(rebuilt@));
            &&& run.result is Err
            &&& family_rows(old_db@, names[k]) is None ==> {
                &&& run.result matches Err(PruneError::MissingInOld(name))
                &&& name@ == names[k]
            }
            &&& family_rows(old_db@, names[k]) is Some ==> {
                &&& run.result matches Err(PruneError::MissingInNew(name))
                &&& name@ == names[k]
            }
            &&& writes_view(run.writes@) == writes_of(old_db@, names.take(k))
        }),
{
    let names = carried(texts(cf_names@), texts(rebuilt@));
    let done = count_before_missing(old_db@, new_db@, names);
    copying_stops_at_the_first_missing_family(old_db@, new_db@, names);
    if done > k {
        assert(family_rows(old_db@, names[k]) is Some);
    } else if done < k {
        assert(family_rows(old_db@, names[done]) is Some);
    }
}

/// A copy of one column family starts only if both databases have it, counts
/// the rows that it has taken, and ends with what was not handed out.
pub proof fn copies_count_what_they_take(
    name: String,
    in_old: bool,
    in_new: bool,
    begun: Result<FamilyCopy, PruneError>,
    copy: FamilyCopy,
    count: u64,
    copied: FamilyCopied,
)
    requires
        call_ensures(FamilyCopy::begin, (name, in_old, in_new), begun),
        copy.wf(),
        call_ensures(FamilyCopy::count, (&copy,), count),
        call_ensures(FamilyCopy::end, (copy,), copied),
    ensures
        begun is Ok <==> in_old && in_new,
        begun matches Ok(fresh) ==> fresh.wf() && fresh.name() == name@ && fresh.taken().len() == 0
            && fresh.written().len() == 0,
        !in_old ==> (begun matches Err(PruneError::MissingInOld(missing)) && missing@ == name@),
        in_old && !in_new ==> (begun matches Err(PruneError::MissingInNew(missing)) && missing@
            == name@),
        count == copy.taken().len(),
        copied.count == copy.taken().len(),
        copied.name@ == copy.name(),
        copied.last is Some <==> copy.taken().len() % 10_000 != 0,
        copied.last matches Some(rows) ==> rows@.len() == copy.taken().len() % 10_000 && rows_view(
            rows@,
        ) == copy.taken().skip(copy.taken().len() - copy.taken().len() % 10_000),
{
    if let Some(rows) = copied.last {
        assert(rows_view(rows@).len() == rows@.len());
    }
}

/// Two fingerprints are the same exactly if counts and digests are; the line
/// on different ones gives the name, then count and digest of the source, then
/// those of the pruned database.
pub proof fn comparisons_name_what_differs(
    cf_name: &str,
    old: &(u64, [u8; 32]),
    new: &(u64, [u8; 32]),
    line: Option<String>,
)
    requires
        call_ensures(compare_fingerprints, (cf_name, old, new), line),
    ensures
        line is None <==> old.0 == new.0 && old.1@ == new.1@,
        line matches Some(text) ==> text@ == cf_name@ + (": "@ + decimal(old.0 as nat)
            + " entries / "@ + hexadecimal(old.1@)) + " in the source, "@ + (decimal(new.0 as nat)
            + " entries / "@ + hexadecimal(new.1@)) + " in the pruned database"@,
{
    if let Some(text) = line {
        assert(text@ =~= cf_name@ + (": "@ + decimal(old.0 as nat) + " entries / "@ + hexadecimal(
            old.1@,
        )) + " in the source, "@ + (decimal(new.0 as nat) + " entries / "@ + hexadecimal(new.1@))
            + " in the pruned database"@);
    }
}

/// The verdict is good exactly if there is no difference, and otherwise hands
/// on all of them.
pub proof fn verdicts_hand_on_all_differences(
    mismatches: Vec<String>,
    result: Result<(), PruneError>,
)
    requires
        call_ensures(conclude, (mismatches,), result),
    ensures
        result is Ok <==> mismatches@.len() == 0,
        mismatches@.len() > 0 ==> (result matches Err(PruneError::Mismatch(lines)) && lines
            == mismatches),
{
}

/// Two databases verify exactly if both have every column family that is
/// carried over, with the same number of rows and the same digest.
pub proof fn databases_verify_if_all_fingerprints_agree(
    old_db: &[ColumnFamily],
    new_db: &[ColumnFamily],
    cf_names: &[String],
    rebuilt: &[String],
    result: Result<(), PruneError>,
)
    requires
        call_ensures(verify_column_families, (old_db, new_db, cf_names, rebuilt), result),
    ensures
        ({
            let names = carried(texts(cf_names@), texts(rebuilt@));
            let present = forall|i: int|
                0 <= i < names.len() ==> family_rows(old_db@, #[trigger] names[i]) is Some
                    && family_rows(new_db@, names[i]) is Some;
            let agree = forall|i: int|
                0 <= i < names.len() ==> {
                    let old_rows = family_rows(old_db@, #[trigger] names[i])->0;
                    let new_rows = family_rows(new_db@, names[i])->0;
                    &&& old_rows.len() == new_rows.len()
                    &&& sha256_digest(framed(old_rows)) == sha256_digest(framed(new_rows))
                };
            &&& result is Ok <==> present && agree
            &&& !present ==> result is Err && result->Err_0 is Missing
            &&& present && !agree ==> result is Err && result->Err_0 is Mismatch
            &&& result matches Err(PruneError::Mismatch(lines)) ==> texts(lines@) == mismatches_of(
                old_db@,
                new_db@,
                names,
            )
        }),
{
    let names = carried(texts(cf_names@), texts(rebuilt@));
    let lines = mismatches_of(old_db@, new_db@, names);
    copying_stops_at_the_first_missing_family(old_db@, new_db@, names);
    let done = count_before_missing(old_db@, new_db@, names);
    if done < names.len() {
        assert(family_rows(old_db@, names[done]) is None || family_rows(
            new_db@,
            names[done],
        ) is None);
    }
    if lines.len() == 0 {
        assert forall|i: int| 0 <= i < names.len() implies {
            let old_rows = family_rows(old_db@, #[trigger] names[i])->0;
            let new_rows = family_rows(new_db@, names[i])->0;
            &&& old_rows.len() == new_rows.len()
            &&& sha256_digest(framed(old_rows)) == sha256_digest(framed(new_rows))
        } by {
            nothing_reported_means_same_fingerprints(old_db@, new_db@, names, i);
        }
    }
    if forall|i: int|
        0 <= i < names.len() ==> {
            let old_rows = family_rows(old_db@, #[trigger] names[i])->0;
            let new_rows = family_rows(new_db@, names[i])->0;
            &&& old_rows.len() == new_rows.len()
            &&& sha256_digest(framed(old_rows)) == sha256_digest(framed(new_rows))
        } {
        agreeing_families_are_not_reported(old_db@, new_db@, names);
    }
}

proof fn agreeing_families_are_not_reported(
    old_db: Seq<ColumnFamily>,
    new_db: Seq<ColumnFamily>,
    names: Seq<Seq<char>>,
)
    requires
        forall|i: int|
            0 <= i < names.len() ==> {
                let old_rows = family_rows(old_db, #[trigger] names[i])->0;
                let new_rows = family_rows(new_db, names[i])->0;
                &&& old_rows.len() == new_rows.len()
                &&& sha256_digest(framed(old_rows)) == sha256_digest(framed(new_rows))
            },
    ensures
        mismatches_of(old_db, new_db, names).len() == 0,
    decreases names.len(),
{
    if names.len() > 0 {
        let front = names.drop_last();
        let last = names.last();
        assert(names[names.len() - 1] == last);
        assert forall|i: int| 0 <= i < front.len() implies {
            let old_rows = family_rows(old_db, #[trigger] front[i])->0;
            let new_rows = family_rows(new_db, front[i])->0;
            &&& old_rows.len() == new_rows.len()
            &&& sha256_digest(framed(old_rows)) == sha256_digest(framed(new_rows))
        } by {
            assert(front[i] == names[i]);
        }
        agreeing_families_are_not_reported(old_db, new_db, front);
        differences_are_reported_name_by_name(old_db, new_db, front, seq![last], last);
        assert(names =~= front + seq![last]);
    }
}

/// Verifying fails with the first column family that a database lacks.
pub proof fn verifying_stops_at_the_first_missing_family(
    old_db: &[ColumnFamily],
    new_db: &[ColumnFamily],
    cf_names: &[String],
    rebuilt: &[String],
    result: Result<(), PruneError>,
    k: int,
)
    requires
        call_ensures(verify_column_families, (old_db, new_db, cf_names, rebuilt), result),
        ({
            let names = carried(texts(cf_names@), texts(rebuilt@));
            &&& 0 <= k < names.len()
            &&& forall|i: int|
                0 <= i < k ==> family_rows(old_db@, #[trigger] names[i]) is Some && family_rows(
                    new_db@,
                    names[i],
                ) is Some
            &&& family_rows(old_db@, names[k]) is None || family_rows(new_db@, names[k]) is None
        }),
    ensures
        result matches Err(PruneError::Missing(name)) && name@ == carried(
            texts(cf_names@),
            texts(rebuilt@),
        )[k],
{
    let names = carried(texts(cf_names@), texts(rebuilt@));
    let done = count_before_missing(old_db@, new_db@, names);
    copying_stops_at_the_first_missing_family(old_db@, new_db@, names);
    if done > k {
        assert(family_rows(old_db@, names[k]) is Some);
    } else if done < k {
        assert(family_rows(old_db@, names[done]) is Some);
    }
}

/// The column families of a substore are named after its prefix.
pub proof fn substores_name_their_families(
    prefix: &str,
    config: SubstoreConfig,
    nodes: String,
    values: String,
)
    requires
        call_ensures(SubstoreConfig::new, (prefix,), config),
        call_ensures(SubstoreConfig::cf_jmt, (&config,), nodes),
        call_ensures(SubstoreConfig::cf_jmt_values, (&config,), values),
    ensures
        config.prefix@ == prefix@,
        nodes@ == "substore-"@ + prefix@ + "-jmt"@,
        values@ == "substore-"@ + prefix@ + "-jmt-values"@,
{
}

/// The key of a value row has forty bytes: the key hash, then the version with
/// the most significant byte first.
pub proof fn value_rows_are_keyed_by_hash_and_version(
    key_hash: &KeyHash,
    version: u64,
    key: Vec<u8>,
)
    requires
        call_ensures(encode_from_keyhash, (key_hash, version), key),
    ensures
        key@.len() == 40,
        key@.subrange(0, 32) == key_hash@,
        big_endian(key@.subrange(32, 40)) == version,
{
    value_row_keys_hold_hash_and_version(key_hash@, version);
    assert(key_hash@.len() == 32);
}

/// A value row has the key of its hash and version, and holds its value.
pub proof fn value_rows_hold_their_value(
    version: u64,
    key_hash: &KeyHash,
    value: &Option<Vec<u8>>,
    row: Result<Row, PruneError>,
)
    requires
        call_ensures(encode_value_row, (version, key_hash, value), row),
    ensures
        row is Ok <==> (value is None || value->0@.len() <= 0xffff_ffff),
        row matches Ok(r) ==> r.key@ == key_hash@ + be64(version) && value_decoding(r.value@)
            == Some(value_view(*value)),
        row is Err ==> row->Err_0 is Encode,
{
    if row is Ok {
        assert(value_fits(value_view(*value)));
        value_row_round_trip(value_view(*value));
    }
}

/// A batch is written as one row for each node, under the key that its node key
/// has, and one row for each value, under its key hash and version, into the
/// column families of the substore.
pub proof fn batches_are_written_row_by_row(
    store: &PruningTreeStore,
    batch: &NodeBatch,
    written: Result<TreeRows, PruneError>,
    i: int,
    key: Result<Vec<u8>, PruneError>,
    node: Result<Vec<u8>, PruneError>,
    j: int,
)
    requires
        call_ensures(PruningTreeStore::write_node_batch, (store, batch), written),
        written is Ok,
        0 <= i < batch.nodes@.len() ==> call_ensures(
            encode_from_node_key,
            (batch.nodes@[i].0,),
            key,
        ),
        0 <= i < batch.nodes@.len() ==> call_ensures(encode_node, (batch.nodes@[i].1,), node),
    ensures
        ({
            let rows = written->Ok_0;
            &&& rows.nodes.family@ == "substore-"@ + store.config.prefix@ + "-jmt"@
            &&& rows.values.family@ == "substore-"@ + store.config.prefix@ + "-jmt-values"@
            &&& rows.nodes.rows@.len() == batch.nodes@.len()
            &&& rows.values.rows@.len() == batch.values@.len()
            &&& 0 <= i < batch.nodes@.len() ==> key is Ok && node is Ok
                && rows.nodes.rows@[i].key@ == key->Ok_0@ && rows.nodes.rows@[i].value@
                == node->Ok_0@
            &&& 0 <= j < batch.values@.len() ==> rows.values.rows@[j].key@ == batch.values@[j].1@
                + be64(batch.values@[j].0) && value_decoding(rows.values.rows@[j].value@) == Some(
                value_view(*batch.values@[j].2),
            )
        }),
{
    let rows = written->Ok_0;
    assert(rows_view(rows.nodes.rows@) == batch.node_rows());
    assert(rows_view(rows.values.rows@) == batch.value_rows());
    assert(rows_view(rows.nodes.rows@).len() == rows.nodes.rows@.len());
    assert(rows_view(rows.values.rows@).len() == rows.values.rows@.len());
    if 0 <= i < batch.nodes@.len() {
        assert(rows_view(rows.nodes.rows@)[i] == batch.node_rows()[i]);
    }
    if 0 <= j < batch.values@.len() {
        assert(rows_view(rows.values.rows@)[j] == batch.value_rows()[j]);
        assert(value_fits(value_view(*batch.values@[j].2)));
        value_row_round_trip(value_view(*batch.values@[j].2));
    }
}

/// A batch can be written exactly if every node key can be encoded and no value
/// is too long.
pub proof fn batches_are_written_unless_too_long(
    store: &PruningTreeStore,
    batch: &NodeBatch,
    written: Result<TreeRows, PruneError>,
    keys: Seq<Result<Vec<u8>, PruneError>>,
)
    requires
        call_ensures(PruningTreeStore::write_node_batch, (store, batch), written),
        keys.len() == batch.nodes@.len(),
        forall|i: int|
            0 <= i < keys.len() ==> call_ensures(
                encode_from_node_key,
                (batch.nodes@[i].0,),
                #[trigger] keys[i],
            ),
    ensures
        written is Ok <==> (forall|i: int| 0 <= i < keys.len() ==> (#[trigger] keys[i]) is Ok) && (
        forall|j: int|
            0 <= j < batch.values@.len() ==> *(#[trigger] batch.values@[j]).2 is None
                || (*batch.values@[j].2)->0@.len() <= 0xffff_ffff),
        written is Err ==> written->Err_0 is Encode,
{
    if written is Ok {
        assert forall|i: int| 0 <= i < keys.len() implies (#[trigger] keys[i]) is Ok by {
            assert(batch.nodes@[i] == batch.nodes@[i]);
        }
        assert forall|j: int| 0 <= j < batch.values@.len() implies *(
        #[trigger] batch.values@[j]).2 is None || (*batch.values@[j].2)->0@.len()
            <= 0xffff_ffff by {
            assert(value_fits(value_view(*batch.values@[j].2)));
        }
    } else {
        if (forall|i: int| 0 <= i < keys.len() ==> (#[trigger] keys[i]) is Ok) && (forall|j: int|
            0 <= j < batch.values@.len() ==> *(#[trigger] batch.values@[j]).2 is None
                || (*batch.values@[j].2)->0@.len() <= 0xffff_ffff) {
            assert forall|i: int| 0 <= i < batch.nodes@.len() implies node_row_key(
                *(#[trigger] batch.nodes@[i]).0,
            ) is Some by {
                assert(keys[i] is Ok);
            }
            assert(batch.fits());
        }
    }
}

/// Reading a value finds the last row under the key hash and the version: its
/// value if it holds one, an error if it does not. Without such a row there is
/// no value.
pub proof fn values_are_read_at_exactly_their_version(
    store: &PruningTreeStore,
    db: &[ColumnFamily],
    max_version: u64,
    key_hash: &KeyHash,
    value: Result<Option<Vec<u8>>, PruneError>,
    i: int,
)
    requires
        call_ensures(
            PruningTreeStore::get_value_option,
            (store, db, max_version, key_hash),
            value,
        ),
        family_rows(db@, "substore-"@ + store.config.prefix@ + "-jmt-values"@) is Some,
    ensures
        ({
            let rows = family_rows(
                db@,
                "substore-"@ + store.config.prefix@ + "-jmt-values"@,
            )->0;
            let key = key_hash@ + be64(max_version);
            &&& (forall|j: int| 0 <= j < rows.len() ==> (#[trigger] rows[j]).key != key)
                ==> value is Ok && value->Ok_0 is None
            &&& 0 <= i < rows.len() && rows[i].key == key && (forall|j: int|
                i < j < rows.len() ==> (#[trigger] rows[j]).key != key) ==> match value_decoding(
                rows[i].value,
            ) {
                Some(held) => value is Ok && value_view(value->Ok_0) == held,
                None => value is Err && value->Err_0 is Decode,
            }
        }),
{
    let rows = family_rows(db@, "substore-"@ + store.config.prefix@ + "-jmt-values"@)->0;
    let key = key_hash@ + be64(max_version);
    contents_are_the_last_rows(rows, key, i);
    let read = read_value(contents(rows), key_hash@, max_version);
    if 0 <= i < rows.len() && rows[i].key == key && (forall|j: int|
        i < j < rows.len() ==> (#[trigger] rows[j]).key != key) {
        assert(contents(rows).contains_key(key));
        assert(read == value_decoding(rows[i].value));
    }
    if forall|j: int| 0 <= j < rows.len() ==> (#[trigger] rows[j]).key != key {
        assert(!contents(rows).contains_key(key));
        assert(read == Some(None::<Seq<u8>>));
        assert(value is Ok);
        assert(value_view(value->Ok_0) is None);
    }
}

/// Reading a node finds the last row under its key, and gives the node that was
/// encoded there. Without such a row there is no node.
pub proof fn nodes_are_read_under_their_key(
    store: &PruningTreeStore,
    db: &[ColumnFamily],
    node_key: &NodeKey,
    key: Result<Vec<u8>, PruneError>,
    found: Result<Option<Node>, PruneError>,
    node: &Node,
    bytes: Result<Vec<u8>, PruneError>,
    i: int,
)
    requires
        call_ensures(PruningTreeStore::get_node_option, (store, db, node_key), found),
        call_ensures(encode_from_node_key, (node_key,), key),
        call_ensures(encode_node, (node,), bytes),
        family_rows(db@, "substore-"@ + store.config.prefix@ + "-jmt"@) is Some,
    ensures
        key is Err ==> found is Err && found->Err_0 is Encode,
        key is Ok ==> {
            let rows = family_rows(db@, "substore-"@ + store.config.prefix@ + "-jmt"@)->0;
            &&& (forall|j: int| 0 <= j < rows.len() ==> (#[trigger] rows[j]).key != key->Ok_0@)
                ==> found is Ok && found->Ok_0 is None
            &&& 0 <= i < rows.len() && rows[i].key == key->Ok_0@ && (forall|j: int|
                i < j < rows.len() ==> (#[trigger] rows[j]).key != key->Ok_0@) ==> {
                &&& rows[i].value == bytes->Ok_0@ ==> found is Ok && found->Ok_0 == Some(*node)
                &&& found is Ok ==> found->Ok_0 is Some
                &&& found is Err ==> found->Err_0 is Decode
            }
        },
{
    if key is Ok {
        let rows = family_rows(db@, "substore-"@ + store.config.prefix@ + "-jmt"@)->0;
        contents_are_the_last_rows(rows, key->Ok_0@, i);
    }
}

/// What is found in a row does not depend on where the row was found.
pub proof fn rows_are_read_by_their_bytes(
    store: &PruningTreeStore,
    row: &[u8],
    value: Result<Option<Vec<u8>>, PruneError>,
    decoded: Result<Option<Vec<u8>>, PruneError>,
    missing: Result<Option<Vec<u8>>, PruneError>,
    node: &Node,
    bytes: Result<Vec<u8>, PruneError>,
    found: Result<Option<Node>, PruneError>,
    absent: Result<Option<Node>, PruneError>,
)
    requires
        call_ensures(PruningTreeStore::value_in_row, (store, Some(row)), value),
        call_ensures(decode_value, (row,), decoded),
        call_ensures(PruningTreeStore::value_in_row, (store, None), missing),
        call_ensures(encode_node, (node,), bytes),
        call_ensures(PruningTreeStore::node_in_row, (store, Some(row)), found),
        call_ensures(PruningTreeStore::node_in_row, (store, None), absent),
    ensures
        value is Ok <==> decoded is Ok,
        value is Ok ==> value_view(value->Ok_0) == value_view(decoded->Ok_0),
        value is Err ==> value->Err_0 is Decode,
        missing is Ok && missing->Ok_0 is None,
        row@ == bytes->Ok_0@ ==> found is Ok && found->Ok_0 == Some(*node),
        found is Ok ==> found->Ok_0 is Some,
        absent is Ok && absent->Ok_0 is None,
{
}

/// A store is that of the substore it was made for.
pub proof fn stores_keep_their_substore(config: SubstoreConfig, store: PruningTreeStore)
    requires
        call_ensures(PruningTreeStore::new, (config,), store),
    ensures
        store.config.prefix@ == config.prefix@,
{
}

/// The nodes of a substore are counted by the rows of its column family.
pub proof fn nodes_are_the_rows_of_their_family(
    db: &[ColumnFamily],
    config: &SubstoreConfig,
    count: u64,
)
    requires
        call_ensures(count_nodes, (db, config), count),
    ensures
        count == (family_rows(db@, "substore-"@ + config.prefix@ + "-jmt"@)->0).len(),
{
}

/// The read path agrees with a leaf exactly if it returns the bytes of its
/// value.
pub proof fn the_read_path_agrees_on_equal_bytes(
    read_path_value: &Option<Vec<u8>>,
    value: &Vec<u8>,
    same: bool,
)
    requires
        call_ensures(read_path_agrees, (read_path_value, value), same),
    ensures
        read_path_value is None ==> !same,
        read_path_value matches Some(read) ==> (same <==> read@ == value@),
{
}

/// A run starts exactly with the accepted chunk sizes, and with no leaf.
pub proof fn runs_start_empty(prune_config: &PruneConfig, pruner: Result<Pruner, PruneError>)
    requires
        call_ensures(Pruner::new, (prune_config,), pruner),
    ensures
        pruner is Ok <==> 1 <= prune_config.chunk_size <= 10_000_000,
        pruner matches Ok(p) ==> p.wf() && p.chunk_size() == prune_config.chunk_size
            && p.taken().len() == 0 && p.handed().len() == 0,
        prune_config.chunk_size < 1 ==> pruner is Err && pruner->Err_0 is ChunkSizeTooSmall,
        prune_config.chunk_size > 10_000_000 ==> pruner is Err
            && pruner->Err_0 is ChunkSizeTooLarge,
{
}

/// Taking a leaf counts it, and hands out a chunk exactly if this makes the
/// number of leaves a multiple of the chunk size. The chunk ends with the leaf.
pub proof fn leaves_are_taken_one_by_one(
    pruner: Pruner,
    key_hash: KeyHash,
    value: Vec<u8>,
    read_path_value: Option<Vec<u8>>,
    step: LeafStep,
    before: u64,
)
    requires
        pruner.wf(),
        pruner.chunk_size() > 0,
        call_ensures(Pruner::keys_processed, (&pruner,), before),
        call_ensures(Pruner::add_leaf, (pruner, key_hash, value, read_path_value), step),
    ensures
        before == pruner.taken().len(),
        match step {
            LeafStep::Continue(next) => {
                &&& (before + 1) % pruner.chunk_size() as int != 0
                &&& next.wf()
                &&& next.chunk_size() == pruner.chunk_size()
                &&& next.handed() == pruner.handed()
                &&& next.taken().len() == before + 1
                &&& next.taken().drop_last() == pruner.taken()
                &&& next.taken().last().key_hash == key_hash@
                &&& next.taken().last().value == value@
                &&& next.taken().last().read_path_value == value_view(read_path_value)
            },
            LeafStep::AddChunk(chunk, adding) => {
                let next = adding.pruner();
                &&& (before + 1) % pruner.chunk_size() as int == 0
                &&& next.wf()
                &&& next.chunk_size() == pruner.chunk_size()
                &&& next.handed().len() == pruner.handed().len() + 1
                &&& next.taken().len() == before + 1
                &&& next.taken().drop_last() == pruner.taken()
                &&& next.taken().last().key_hash == key_hash@
                &&& next.taken().last().value == value@
                &&& next.taken().last().read_path_value == value_view(read_path_value)
                &&& chunk.entries@.len() == pruner.chunk_size()
                &&& chunk.rightmost_key@ == key_hash@
                &&& chunk.entries@.last().0@ == key_hash@
                &&& chunk.entries@.last().1@ == value@
            },
        },
{
    let leaf = LeafView {
        key_hash: key_hash@,
        value: value@,
        read_path_value: value_view(read_path_value),
    };
    let taken = pruner.taken().push(leaf);
    assert(taken.drop_last() =~= pruner.taken());
    if let LeafStep::AddChunk(chunk, adding) = step {
        let entries = entries_view(chunk.entries@);
        let n = pruner.chunk_size() as int;
        let m = taken.len() as int;
        assert(n <= m) by {
            if m < n {
                vstd::arithmetic::div_mod::lemma_small_mod(m as nat, n as nat);
            }
        }
        assert(entries.len() == chunk.entries@.len());
        assert(entries == tree_entries(taken).skip(m - n));
        assert(entries[n - 1] == tree_entries(taken)[m - 1]);
        assert(entries[n - 1] == (chunk.entries@[n - 1].0@, chunk.entries@[n - 1].1@));
    }
}

/// A run goes on, and ends, exactly as the tree says.
pub proof fn runs_wait_for_the_tree<E>(
    adding: AddingChunk,
    accepted: Result<(), E>,
    next: Result<Pruner, E>,
    finishing: Finishing,
    finished: Result<(), E>,
    end: Result<PruneTotals, E>,
)
    requires
        call_ensures(AddingChunk::added::<E>, (adding, accepted), next),
        call_ensures(Finishing::finished::<E>, (finishing, finished), end),
    ensures
        accepted is Ok <==> next is Ok,
        next is Ok ==> next->Ok_0 == adding.pruner(),
        accepted matches Err(error) ==> next->Err_0 == error,
        finished is Ok <==> end is Ok,
        end is Ok ==> end->Ok_0 == finishing.totals(),
        finished matches Err(error) ==> end->Err_0 == error,
{
}

/// What is left over at the end of a run is the leaves since the last full
/// chunk; the totals count every leaf, and list those that read otherwise.
pub proof fn runs_end_with_what_is_left(
    pruner: Pruner,
    end: (Option<Chunk>, Finishing),
    key_hash: Seq<u8>,
    value: Option<Seq<u8>>,
)
    requires
        pruner.wf(),
        pruner.chunk_size() > 0,
        call_ensures(Pruner::end, (pruner,), end),
    ensures
        ({
            let leaves = pruner.taken();
            let left = leaves.len() as int % pruner.chunk_size() as int;
            let totals = end.1.totals();
            &&& end.0 is Some <==> left != 0
            &&& end.0 matches Some(chunk) ==> chunk.entries@.len() == left
                && chunk.rightmost_key@ == leaves.last().key_hash
            &&& totals.keys_processed == leaves.len()
            &&& overrides_view(totals.value_overrides@) == overrides_of(leaves)
            &&& overrides_of(leaves).contains((key_hash, value)) <==> exists|i: int|
                0 <= i < leaves.len() && (#[trigger] leaves[i]).read_path_value != Some(
                    leaves[i].value,
                ) && leaves[i].key_hash == key_hash && leaves[i].read_path_value == value
        }),
{
    let leaves = pruner.taken();
    let left = leaves.len() as int % pruner.chunk_size() as int;
    overrides_are_of_leaves_that_read_otherwise(leaves, key_hash, value);
    vstd::arithmetic::div_mod::lemma_mod_bound(leaves.len() as int, pruner.chunk_size() as int);
    if let Some(chunk) = end.0 {
        let entries = entries_view(chunk.entries@);
        vstd::arithmetic::div_mod::lemma_mod_decreases(leaves.len(), pruner.chunk_size());
        assert(entries == tree_entries(leaves).skip(leaves.len() - left));
        assert(entries.len() == chunk.entries@.len());
        assert(entries[left - 1] == tree_entries(leaves)[leaves.len() - 1]);
        assert(entries[left - 1] == (chunk.entries@[left - 1].0@, chunk.entries@[left - 1].1@));
    }
}

/// The rows that re-apply the read-path values are one for each override, under
/// its key at the version, and hold the overriding value.
pub proof fn overrides_become_rows(
    totals: &PruneTotals,
    version: u64,
    rows: Result<Vec<Row>, PruneError>,
)
    requires
        call_ensures(PruneTotals::override_rows, (totals, version), rows),
    ensures
        ({
            let overrides = totals.value_overrides@;
            &&& rows is Ok <==> forall|i: int|
                0 <= i < overrides.len() ==> (#[trigger] overrides[i]).1 is None
                    || overrides[i].1->0@.len() <= 0xffff_ffff
            &&& rows is Err ==> rows->Err_0 is Encode
            &&& rows matches Ok(r) ==> {
                &&& r@.len() == overrides.len()
                &&& forall|i: int|
                    0 <= i < r@.len() ==> (#[trigger] r@[i]).key@ == overrides[i].0@ + be64(version)
                        && value_decoding(r@[i].value@) == Some(value_view(overrides[i].1))
            }
        }),
{
    let overrides = totals.value_overrides@;
    let view = overrides_view(overrides);
    override_rows_hold_the_overrides(view, version);
    assert(view.len() == overrides.len());
    assert forall|i: int| 0 <= i < overrides.len() implies ((#[trigger] overrides[i]).1 is None
        || overrides[i].1->0@.len() <= 0xffff_ffff) == (view[i].1 is None || view[i].1->0.len()
        <= 0xffff_ffff) by {
        assert(view[i].1 == value_view(overrides[i].1));
    }
    if forall|i: int|
        0 <= i < overrides.len() ==> (#[trigger] overrides[i]).1 is None
            || overrides[i].1->0@.len() <= 0xffff_ffff {
        assert forall|i: int| 0 <= i < view.len() implies (#[trigger] view[i]).1 is None
            || view[i].1->0.len() <= 0xffff_ffff by {
            assert(overrides[i] == overrides[i]);
        }
    } else {
        let i: int = choose|i: int|
            0 <= i < overrides.len() && !((#[trigger] overrides[i]).1 is None
                || overrides[i].1->0@.len() <= 0xffff_ffff);
        assert(view[i].1 == value_view(overrides[i].1));
    }
    if rows is Ok {
        let r = rows->Ok_0;
        assert(rows_view(r@).len() == r@.len());
        assert forall|i: int| 0 <= i < r@.len() implies (#[trigger] r@[i]).key@ == overrides[i].0@
            + be64(version) && value_decoding(r@[i].value@) == Some(
            value_view(overrides[i].1),
        ) by {
            assert(rows_view(r@)[i] == r@[i]@);
            assert(view[i] == (overrides[i].0@, value_view(overrides[i].1)));
        }
    }
}

/// A report is made of what it is given, each in its place.
pub proof fn reports_hold_what_they_are_given(
    totals: PruneTotals,
    root: [u8; 32],
    version: u64,
    nodes_before: u64,
    nodes_after: u64,
    report: PruneReport,
)
    requires
        call_ensures(
            PruneTotals::report,
            (totals, root, version, nodes_before, nodes_after),
            report,
        ),
    ensures
        report.root == root,
        report.version == version,
        report.keys_processed == totals.keys_processed,
        report.nodes_before == nodes_before,
        report.nodes_after == nodes_after,
        report.value_overrides == totals.value_overrides,
{
}

/// Pruning needs a chunk size from one to ten million. If the tree does not
/// refuse, it succeeds exactly if no value to re-apply is too long; if the tree
/// refuses, it ends there with the reason.
pub proof fn pruning_succeeds_unless_refused(
    old_db: &[ColumnFamily],
    snapshot: &SubstoreSnapshot,
    new_db: &[ColumnFamily],
    refusal: &Option<Refusal>,
    config: &SubstoreConfig,
    version: u64,
    prune_config: &PruneConfig,
    run: PruneRun,
)
    requires
        call_ensures(
            prune_substore,
            (old_db, snapshot, new_db, refusal, config, version, prune_config),
            run,
        ),
    ensures
        ({
            let n = prune_config.chunk_size as int;
            let leaves = snapshot.leaves@;
            let fits = forall|i: int|
                0 <= i < leaves.len() ==> {
                    let leaf = (#[trigger] leaves[i])@;
                    ||| leaf.read_path_value == Some(leaf.value)
                    ||| leaf.read_path_value is None
                    ||| leaf.read_path_value->0.len() <= 0xffff_ffff
                };
            &&& n < 1 <==> run.result is Err && run.result->Err_0 is ChunkSizeTooSmall
            &&& n > 10_000_000 <==> run.result is Err && run.result->Err_0 is ChunkSizeTooLarge
            &&& !(1 <= n <= 10_000_000) ==> run.chunks@.len() == 0
            &&& 1 <= n <= 10_000_000 && refusal is None ==> (run.result is Ok <==> fits)
            &&& 1 <= n <= 10_000_000 && refusal is None && !fits ==> run.result->Err_0 is Encode
            &&& 1 <= n <= 10_000_000 && refusal is Some ==> {
                let r = refusal->0;
                if r.step == 0 || (r.step - 1) * n < leaves.len() {
                    &&& run.result matches Err(PruneError::Refused(reason))
                    &&& reason@ == r.reason@
                    &&& run.chunks@.len() == if r.step * n < leaves.len() {
                        r.step + 1
                    } else {
                        r.step as int
                    }
                } else {
                    run.result is Ok <==> fits
                }
            }
        }),
{
    runs_need_a_valid_chunk_size(
        run,
        old_db@,
        *snapshot,
        new_db@,
        *refusal,
        config.prefix@,
        version,
        *prune_config,
    );
    if 1 <= prune_config.chunk_size <= 10_000_000 {
        runs_succeed_unless_refused_or_too_long(
            run,
            old_db@,
            *snapshot,
            new_db@,
            *refusal,
            config.prefix@,
            version,
            *prune_config,
        );
    }
}

/// Each entry that pruning hands to the new tree is the leaf at its place.
pub proof fn pruning_hands_over_the_leaves_in_their_places(
    old_db: &[ColumnFamily],
    snapshot: &SubstoreSnapshot,
    new_db: &[ColumnFamily],
    refusal: &Option<Refusal>,
    config: &SubstoreConfig,
    version: u64,
    prune_config: &PruneConfig,
    run: PruneRun,
    k: int,
    j: int,
)
    requires
        call_ensures(
            prune_substore,
            (old_db, snapshot, new_db, refusal, config, version, prune_config),
            run,
        ),
        1 <= prune_config.chunk_size <= 10_000_000,
        0 <= k < run.chunks@.len(),
    ensures
        ({
            let n = prune_config.chunk_size as int;
            let leaves = snapshot.leaves@;
            let entries = run.chunks@[k].entries@;
            &&& 0 < entries.len() <= n
            &&& entries.len() == n || k * n + entries.len() == leaves.len()
            &&& run.chunks@[k].rightmost_key@ == entries.last().0@
            &&& 0 <= j < entries.len() ==> {
                &&& 0 <= k * n + j < leaves.len()
                &&& entries[j].0@ == leaves[k * n + j].key_hash@
                &&& entries[j].1@ == leaves[k * n + j].value@
            }
            &&& refusal is None ==> (run.chunks@.len() - 1) * n < leaves.len() <= run.chunks@.len()
                * n
        }),
{
    chunks_hold_the_leaves_in_their_places(
        run,
        old_db@,
        *snapshot,
        new_db@,
        *refusal,
        config.prefix@,
        version,
        *prune_config,
        k,
        j,
    );
}

/// What pruning reports is the root hash of the source, the version, the number
/// of leaves and the numbers of node rows. A key is overridden exactly if its
/// leaf has another value than the read path returns, and then with what the
/// read path returns; a consistent store has no overrides, and nothing is
/// written over its new tree.
pub proof fn pruning_reports_the_leaves_that_read_otherwise(
    old_db: &[ColumnFamily],
    snapshot: &SubstoreSnapshot,
    new_db: &[ColumnFamily],
    refusal: &Option<Refusal>,
    config: &SubstoreConfig,
    version: u64,
    prune_config: &PruneConfig,
    run: PruneRun,
    key_hash: Seq<u8>,
    value: Option<Seq<u8>>,
)
    requires
        call_ensures(
            prune_substore,
            (old_db, snapshot, new_db, refusal, config, version, prune_config),
            run,
        ),
        run.result is Ok,
    ensures
        ({
            let (written, report) = run.result->Ok_0;
            let leaves = snapshot.leaves@;
            let overridden = exists|i: int|
                0 <= i < report.value_overrides@.len() && (
                #[trigger] report.value_overrides@[i]).0@ == key_hash && value_view(
                    report.value_overrides@[i].1,
                ) == value;
            let otherwise = exists|i: int|
                0 <= i < leaves.len() && (#[trigger] leaves[i]).key_hash@ == key_hash
                    && leaves[i]@.read_path_value == value && leaves[i]@.read_path_value != Some(
                    leaves[i].value@,
                );
            &&& report.root == snapshot.root_hash
            &&& report.version == version
            &&& report.keys_processed == leaves.len()
            &&& report.nodes_before == (family_rows(
                old_db@,
                "substore-"@ + config.prefix@ + "-jmt"@,
            )->0).len()
            &&& report.nodes_after == (family_rows(
                new_db@,
                "substore-"@ + config.prefix@ + "-jmt"@,
            )->0).len()
            &&& overridden <==> otherwise
            &&& report.value_overrides@.len() <= leaves.len()
            &&& (forall|i: int|
                0 <= i < leaves.len() ==> (#[trigger] leaves[i])@.read_path_value == Some(
                    leaves[i].value@,
                )) ==> report.value_overrides@.len() == 0
            &&& written.rows@.len() == report.value_overrides@.len()
            &&& written.family@ == "substore-"@ + config.prefix@ + "-jmt-values"@
            &&& forall|i: int|
                0 <= i < written.rows@.len() ==> (#[trigger] written.rows@[i]).key@
                    == report.value_overrides@[i].0@ + be64(version) && value_decoding(
                    written.rows@[i].value@,
                ) == Some(value_view(report.value_overrides@[i].1))
        }),
{
    runs_report_the_source_and_the_nodes(
        run,
        old_db@,
        *snapshot,
        new_db@,
        *refusal,
        config.prefix@,
        version,
        *prune_config,
    );
    let report = run.result->Ok_0.1;
    let view = overrides_view(report.value_overrides@);
    let leaves = leaves_view(snapshot.leaves@);
    overrides_are_of_leaves_that_read_otherwise(leaves, key_hash, value);
    assert(view.len() == report.value_overrides@.len());
    if exists|i: int|
        0 <= i < report.value_overrides@.len() && (#[trigger] report.value_overrides@[i]).0@
            == key_hash && value_view(report.value_overrides@[i].1) == value {
        let i: int = choose|i: int|
            0 <= i < report.value_overrides@.len() && (#[trigger] report.value_overrides@[i]).0@
                == key_hash && value_view(report.value_overrides@[i].1) == value;
        assert(view[i] == (key_hash, value));
        let k: int = choose|k: int|
            0 <= k < leaves.len() && (#[trigger] leaves[k]).read_path_value != Some(leaves[k].value)
                && leaves[k].key_hash == key_hash && leaves[k].read_path_value == value;
        assert(snapshot.leaves@[k]@ == leaves[k]);
        assert(snapshot.leaves@[k].key_hash@ == key_hash);
    }
    if exists|i: int|
        0 <= i < snapshot.leaves@.len() && (#[trigger] snapshot.leaves@[i]).key_hash@ == key_hash
            && snapshot.leaves@[i]@.read_path_value == value
            && snapshot.leaves@[i]@.read_path_value != Some(snapshot.leaves@[i].value@) {
        let i: int = choose|i: int|
            0 <= i < snapshot.leaves@.len() && (#[trigger] snapshot.leaves@[i]).key_hash@
                == key_hash && snapshot.leaves@[i]@.read_path_value == value
                && snapshot.leaves@[i]@.read_path_value != Some(snapshot.leaves@[i].value@);
        assert(leaves[i] == snapshot.leaves@[i]@);
        let k: int = choose|k: int| 0 <= k < view.len() && view[k] == (key_hash, value);
        assert(view[k] == (
            report.value_overrides@[k].0@,
            value_view(report.value_overrides@[k].1),
        ));
        assert(report.value_overrides@[k].0@ == key_hash);
    }
    if forall|i: int|
        0 <= i < snapshot.leaves@.len() ==> (#[trigger] snapshot.leaves@[i])@.read_path_value
            == Some(snapshot.leaves@[i].value@) {
        assert forall|i: int| 0 <= i < leaves.len() implies (#[trigger] leaves[i]).read_path_value
            == Some(leaves[i].value) by {
            assert(snapshot.leaves@[i]@ == leaves[i]);
        }
        leaves_that_read_as_they_are_have_no_overrides(leaves);
    }
}

/// Once the write of a successful pruning is applied to the destination, by
/// the name of its column family, every key of the substore reads there as at
/// the source, and no column family of another substore has changed.
pub proof fn pruning_keeps_reads_and_other_substores(
    old_db: &[ColumnFamily],
    snapshot: &SubstoreSnapshot,
    new_db: &[ColumnFamily],
    refusal: &Option<Refusal>,
    config: &SubstoreConfig,
    version: u64,
    prune_config: &PruneConfig,
    run: PruneRun,
    db: Map<Seq<char>, Map<Seq<u8>, Seq<u8>>>,
    values: Map<Seq<u8>, Seq<u8>>,
    i: int,
    other: Seq<char>,
)
    requires
        call_ensures(
            prune_substore,
            (old_db, snapshot, new_db, refusal, config, version, prune_config),
            run,
        ),
        run.result is Ok,
        0 <= i < snapshot.leaves@.len(),
        distinct_keys(leaves_view(snapshot.leaves@)),
        snapshot.leaves@[i].value@.len() <= 0xffff_ffff,
        db.contains_key("substore-"@ + config.prefix@ + "-jmt-values"@),
        db["substore-"@ + config.prefix@ + "-jmt-values"@] == put_rows(
            values,
            restored_rows(leaves_view(snapshot.leaves@), version),
        ),
    ensures
        ({
            let own = "substore-"@ + config.prefix@ + "-jmt-values"@;
            let after = with_write(db, run.result->Ok_0.0@);
            let leaf = snapshot.leaves@[i]@;
            &&& after.dom() == db.dom()
            &&& after[own].contains_key(leaf.key_hash + be64(version))
            &&& value_decoding(after[own][leaf.key_hash + be64(version)]) == Some(
                leaf.read_path_value,
            )
            &&& read_value(after[own], leaf.key_hash, version) == Some(leaf.read_path_value)
            &&& other != own ==> after[other] == db[other]
            &&& other != config.prefix@ ==> {
                let theirs = "substore-"@ + other + "-jmt-values"@;
                after[theirs] == db[theirs]
            }
            &&& after["substore-"@ + other + "-jmt"@] == db["substore-"@ + other + "-jmt"@]
        }),
{
    runs_write_into_their_own_substore(
        run,
        old_db@,
        *snapshot,
        new_db@,
        *refusal,
        config.prefix@,
        version,
        *prune_config,
        db,
        values,
        i,
        other,
    );
}

/// Pruning the main store is pruning the substore with the empty prefix.
pub proof fn pruning_the_main_store_is_pruning_the_empty_prefix(
    old_db: &[ColumnFamily],
    snapshot: &SubstoreSnapshot,
    new_db: &[ColumnFamily],
    refusal: &Option<Refusal>,
    config: &SubstoreConfig,
    version: u64,
    prune_config: &PruneConfig,
    main: PruneRun,
    run: PruneRun,
)
    requires
        call_ensures(
            prune_main_substore,
            (old_db, snapshot, new_db, refusal, version, prune_config),
            main,
        ),
        config.prefix@.len() == 0,
        call_ensures(
            prune_substore,
            (old_db, snapshot, new_db, refusal, config, version, prune_config),
            run,
        ),
    ensures
        main.chunks@.len() == run.chunks@.len(),
        forall|k: int|
            0 <= k < run.chunks@.len() ==> entries_view((#[trigger] main.chunks@[k]).entries@)
                == entries_view(run.chunks@[k].entries@),
        main.result is Ok <==> run.result is Ok,
        main.result is Err ==> {
            let (a, b) = (main.result->Err_0, run.result->Err_0);
            &&& a is ChunkSizeTooSmall <==> b is ChunkSizeTooSmall
            &&& a is ChunkSizeTooLarge <==> b is ChunkSizeTooLarge
            &&& a is Encode <==> b is Encode
            &&& a is Refused <==> b is Refused
        },
        main.result is Ok ==> {
            let (main_rows, main_report) = main.result->Ok_0;
            let (rows, report) = run.result->Ok_0;
            &&& main_rows.family@ == "substore-"@ + ""@ + "-jmt-values"@
            &&& rows_view(main_rows.rows@) == rows_view(rows.rows@)
            &&& main_report.root == report.root
            &&& main_report.version == report.version
            &&& main_report.keys_processed == report.keys_processed
            &&& main_report.nodes_before == report.nodes_before
            &&& main_report.nodes_after == report.nodes_after
            &&& overrides_view(main_report.value_overrides@) == overrides_view(
                report.value_overrides@,
            )
        },
{
    reveal_strlit("");
    assert(config.prefix@ =~= ""@);
    let a = chunks_entries(main.chunks@);
    let b = chunks_entries(run.chunks@);
    assert(a == b);
    assert(a.len() == main.chunks@.len() && b.len() == run.chunks@.len());
    assert forall|k: int| 0 <= k < run.chunks@.len() implies entries_view(
        (#[trigger] main.chunks@[k]).entries@,
    ) == entries_view(run.chunks@[k].entries@) by {
        assert(a[k] == b[k]);
    }
}

/// Taking a row counts it, and adds it after those taken before.
pub proof fn fingerprints_take_rows_one_by_one(
    fingerprinter: &mut Fingerprinter,
    key: &[u8],
    value: &[u8],
)
    requires
        call_ensures(Fingerprinter::add_row, (fingerprinter, key, value), ()),
    ensures
        ({
            let before = (*old(fingerprinter)).rows();
            let after = (*final(fingerprinter)).rows();
            &&& (*final(fingerprinter)).wf()
            &&& after.len() == before.len() + 1
            &&& after.drop_last() == before
            &&& after.last().key == key@
            &&& after.last().value == value@
        }),
{
    let before = (*old(fingerprinter)).rows();
    let after = (*final(fingerprinter)).rows();
    assert(after.drop_last() =~= before);
}

/// Taking a row of a column family counts it, and hands out a batch exactly at
/// every ten thousandth row: the ten thousand rows up to it.
pub proof fn copies_take_rows_one_by_one(
    copy: &mut FamilyCopy,
    row: Row,
    batch: Option<Vec<Row>>,
)
    requires
        call_ensures(FamilyCopy::add_row, (copy, row), batch),
    ensures
        ({
            let before = (*old(copy)).taken();
            let after = (*final(copy)).taken();
            &&& (*final(copy)).wf()
            &&& (*final(copy)).name() == (*old(copy)).name()
            &&& after.len() == before.len() + 1
            &&& after.drop_last() == before
            &&& after.last().key == row.key@
            &&& after.last().value == row.value@
            &&& batch is Some <==> after.len() % 10_000 == 0
            &&& batch matches Some(rows) ==> rows@.len() == 10_000 && rows_view(rows@)
                == after.skip(after.len() - 10_000)
        }),
{
    let before = (*old(copy)).taken();
    let after = (*final(copy)).taken();
    assert(after.drop_last() =~= before);
    if let Some(rows) = batch {
        assert(rows_view(rows@).len() == rows@.len());
    }
}

} // verus!
