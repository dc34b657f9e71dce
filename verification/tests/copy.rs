use cnidarium::copy::{families_to_carry, FamilyCopy, COPY_BATCH};
use cnidarium::rows::{ColumnFamily, Row};
use cnidarium::{copy_column_families, verify_column_families, PruneError};
use std::collections::BTreeMap;

fn numbered(n: u64) -> Row {
    Row {
        key: n.to_be_bytes().to_vec(),
        value: vec![n as u8, 0xff],
    }
}

fn family(name: &str, rows: u64) -> ColumnFamily {
    ColumnFamily {
        name: name.to_string(),
        rows: (0..rows).map(numbered).collect(),
    }
}

fn names(list: &[&str]) -> Vec<String> {
    list.iter().map(|name| name.to_string()).collect()
}

#[test]
fn only_listed_families_that_are_not_rebuilt_are_carried() {
    let cf_names = names(&[
        "default",
        "substore--jmt",
        "substore--jmt-values",
        "substore--nonverifiable",
    ]);
    let rebuilt = names(&["substore--jmt", "substore--jmt-values", "absent"]);
    assert_eq!(
        families_to_carry(&cf_names, &rebuilt),
        names(&["default", "substore--nonverifiable"])
    );
    assert_eq!(families_to_carry(&cf_names, &[]), cf_names);
    assert!(families_to_carry(&[], &rebuilt).is_empty());
}

#[test]
fn rows_are_copied_byte_for_byte_and_counted() {
    let old = vec![
        family("default", 0),
        family("substore--jmt", 4),
        family("substore--nonverifiable", 3),
    ];
    let new = vec![
        family("default", 0),
        family("substore--jmt", 0),
        family("substore--nonverifiable", 0),
    ];
    let run = copy_column_families(
        &old,
        &new,
        &names(&["default", "substore--jmt", "substore--nonverifiable"]),
        &names(&["substore--jmt"]),
    );
    assert_eq!(
        run.result.unwrap(),
        vec![
            ("default".to_string(), 0),
            ("substore--nonverifiable".to_string(), 3)
        ]
    );
    assert_eq!(run.writes.len(), 1);
    assert_eq!(run.writes[0].family, "substore--nonverifiable");
    for (n, row) in run.writes[0].rows.iter().enumerate() {
        assert_eq!(row.key, numbered(n as u64).key);
        assert_eq!(row.value, numbered(n as u64).value);
    }
}

fn batch_sizes(rows: u64) -> Vec<usize> {
    let old = vec![family("big", rows)];
    let new = vec![family("big", 0)];
    let run = copy_column_families(&old, &new, &names(&["big"]), &[]);
    assert_eq!(run.result.unwrap(), vec![("big".to_string(), rows)]);
    let mut copied = 0u64;
    for write in &run.writes {
        for row in &write.rows {
            assert_eq!(row.key, numbered(copied).key);
            copied += 1;
        }
    }
    assert_eq!(copied, rows);
    run.writes.iter().map(|write| write.rows.len()).collect()
}

#[test]
fn rows_are_written_in_batches() {
    assert_eq!(COPY_BATCH, 10_000);
    assert_eq!(batch_sizes(1), vec![1]);
    assert_eq!(batch_sizes(9_999), vec![9_999]);
    assert_eq!(batch_sizes(10_000), vec![10_000]);
    assert_eq!(batch_sizes(10_001), vec![10_000, 1]);
    assert_eq!(batch_sizes(20_000), vec![10_000, 10_000]);
}

#[test]
fn stepwise_copy_hands_out_full_batches() {
    let mut copy = FamilyCopy::begin("big".to_string(), true, true).unwrap();
    for n in 0..9_999 {
        assert!(copy.add_row(numbered(n)).is_none());
    }
    assert_eq!(copy.count(), 9_999);
    assert_eq!(copy.add_row(numbered(9_999)).unwrap().len(), 10_000);
    assert!(copy.add_row(numbered(10_000)).is_none());
    let copied = copy.end();
    assert_eq!(copied.name, "big");
    assert_eq!(copied.count, 10_001);
    assert_eq!(copied.last.unwrap().len(), 1);
}

#[test]
fn family_missing_in_the_source_stops_the_copy() {
    let old = vec![family("first", 2)];
    let new = vec![family("first", 0), family("second", 0)];
    let run = copy_column_families(&old, &new, &names(&["first", "second"]), &[]);
    // What came before it has been written.
    assert_eq!(run.writes.len(), 1);
    let error = run.result.unwrap_err();
    assert!(matches!(&error, PruneError::MissingInOld(name) if name == "second"));
    assert_eq!(
        error.message(),
        "column family 'second' not found in old database"
    );
}

#[test]
fn family_missing_in_the_destination_stops_the_copy() {
    let old = vec![family("first", 2)];
    let run = copy_column_families(&old, &[], &names(&["first"]), &[]);
    assert!(run.writes.is_empty());
    let error = run.result.unwrap_err();
    assert!(matches!(&error, PruneError::MissingInNew(name) if name == "first"));
    assert_eq!(
        error.message(),
        "column family 'first' not found in new database"
    );
}

#[test]
fn family_missing_in_both_is_reported_for_the_source() {
    let run = copy_column_families(&[], &[], &names(&["first"]), &[]);
    assert!(matches!(
        run.result,
        Err(PruneError::MissingInOld(name)) if name == "first"
    ));
}

#[test]
fn missing_family_does_not_matter_if_it_is_rebuilt() {
    let run = copy_column_families(&[], &[], &names(&["first"]), &names(&["first"]));
    assert!(run.writes.is_empty());
    assert_eq!(run.result.unwrap(), vec![]);
}

fn stored_after(
    mut stored: BTreeMap<String, BTreeMap<Vec<u8>, Vec<u8>>>,
    old: &[ColumnFamily],
    new: &[ColumnFamily],
    cf_names: &[String],
) -> BTreeMap<String, BTreeMap<Vec<u8>, Vec<u8>>> {
    let run = copy_column_families(old, new, cf_names, &[]);
    assert!(run.result.is_ok());
    for write in run.writes {
        let rows = stored.entry(write.family).or_default();
        for row in write.rows {
            rows.insert(row.key, row.value);
        }
    }
    stored
}

#[test]
fn copying_twice_is_copying_once() {
    let old = vec![family("a", 12_345), family("b", 2)];
    let new = vec![family("a", 0), family("b", 0)];
    let cf_names = names(&["a", "b", "a"]);
    let mut before = BTreeMap::new();
    before.insert(
        "b".to_string(),
        BTreeMap::from([(b"kept".to_vec(), b"1".to_vec())]),
    );
    let once = stored_after(before, &old, &new, &cf_names);
    assert_eq!(once["a"].len(), 12_345);
    assert_eq!(once["b"].len(), 3);
    assert_eq!(stored_after(once.clone(), &old, &new, &cf_names), once);
}

#[test]
fn copy_over_older_values_of_the_same_keys_verifies() {
    let old = vec![family("a", 5)];
    let new = vec![family("a", 2)];
    let cf_names = names(&["a"]);
    let mut before = BTreeMap::new();
    let older = BTreeMap::from([
        (numbered(1).key, b"older".to_vec()),
        (numbered(4).key, b"older".to_vec()),
    ]);
    before.insert("a".to_string(), older.clone());
    let stored = stored_after(before, &old, &new, &cf_names);
    assert!(verify_column_families(&old, &walked(stored), &cf_names, &[]).is_ok());

    // A key that the source lacks stays, and is found.
    let mut other = older;
    other.insert(b"other".to_vec(), vec![]);
    let stored = stored_after(
        BTreeMap::from([("a".to_string(), other)]),
        &old,
        &new,
        &cf_names,
    );
    assert!(verify_column_families(&old, &walked(stored), &cf_names, &[]).is_err());
}

fn walked(stored: BTreeMap<String, BTreeMap<Vec<u8>, Vec<u8>>>) -> Vec<ColumnFamily> {
    stored
        .into_iter()
        .map(|(name, rows)| ColumnFamily {
            name,
            rows: rows
                .into_iter()
                .map(|(key, value)| Row { key, value })
                .collect(),
        })
        .collect()
}

#[test]
fn copy_into_empty_families_verifies() {
    let old = vec![family("a", 12_345), family("b", 1), family("c", 0)];
    let empty = vec![family("a", 0), family("b", 0), family("c", 0)];
    let cf_names = names(&["a", "b", "c"]);
    // Walk the result in the order of the keys.
    let mut stored = stored_after(BTreeMap::new(), &old, &empty, &cf_names);
    let new: Vec<ColumnFamily> = cf_names
        .iter()
        .map(|name| ColumnFamily {
            name: name.clone(),
            rows: stored
                .remove(name)
                .unwrap_or_default()
                .into_iter()
                .map(|(key, value)| Row { key, value })
                .collect(),
        })
        .collect();
    assert!(verify_column_families(&old, &new, &cf_names, &[]).is_ok());
    assert!(verify_column_families(&old, &empty, &cf_names, &[]).is_err());
}
