use cnidarium::rows::{ColumnFamily, Row};
use cnidarium::verify::{compare_fingerprints, conclude};
use cnidarium::{fingerprint_column_family, verify_column_families, PruneError};

const DIGEST_A1: &str = "0e9c3156ac694b081269e7631db910df955a4df29e20086134d7aa57f4e54795";
const DIGEST_A2: &str = "7a2d798cba5f5ef8cd6b7ae0ea630584b7784d56398d7e45e94470584834bc44";
const DIGEST_NONE: &str = "e3b0c44298fc1c149afbf4c8996fb92427ae41e4649b934ca495991b7852b855";

fn family(name: &str, rows: &[(&str, &str)]) -> ColumnFamily {
    ColumnFamily {
        name: name.to_string(),
        rows: rows
            .iter()
            .map(|(key, value)| Row {
                key: key.as_bytes().to_vec(),
                value: value.as_bytes().to_vec(),
            })
            .collect(),
    }
}

fn names(list: &[&str]) -> Vec<String> {
    list.iter().map(|name| name.to_string()).collect()
}

#[test]
fn identical_families_pass() {
    let old = vec![family("x", &[("a", "1")]), family("y", &[])];
    let new = vec![family("y", &[]), family("x", &[("a", "1")])];
    assert!(verify_column_families(&old, &new, &names(&["x", "y"]), &[]).is_ok());
}

#[test]
fn every_differing_family_is_reported() {
    let old = vec![
        family("x", &[("a", "1")]),
        family("same", &[("k", "v")]),
        family("y", &[("a", "1")]),
    ];
    let new = vec![
        family("x", &[("a", "2")]),
        family("same", &[("k", "v")]),
        family("y", &[]),
    ];
    let error = verify_column_families(&old, &new, &names(&["x", "same", "y"]), &[]).unwrap_err();
    let line_x = format!(
        "x: 1 entries / {DIGEST_A1} in the source, 1 entries / {DIGEST_A2} in the pruned database"
    );
    let line_y = format!(
        "y: 1 entries / {DIGEST_A1} in the source, 0 entries / {DIGEST_NONE} in the pruned database"
    );
    assert_eq!(
        error.message(),
        format!(
            "pruned database does not match the source in 2 column families: {line_x}; {line_y}"
        )
    );
    assert!(matches!(error, PruneError::Mismatch(lines) if lines == vec![line_x, line_y]));
}

#[test]
fn rebuilt_families_are_not_compared() {
    let old = vec![family("x", &[("a", "1")])];
    let new = vec![family("x", &[("a", "2")])];
    assert!(verify_column_families(&old, &new, &names(&["x"]), &names(&["x"])).is_ok());
    // Nor do they have to exist.
    assert!(verify_column_families(&[], &[], &names(&["x"]), &names(&["x"])).is_ok());
}

#[test]
fn missing_family_fails_before_differences_are_reported() {
    let old = vec![family("x", &[("a", "1")]), family("y", &[])];
    let new = vec![family("x", &[("a", "2")])];
    let error = verify_column_families(&old, &new, &names(&["x", "y"]), &[]).unwrap_err();
    assert!(matches!(&error, PruneError::Missing(name) if name == "y"));
    assert_eq!(error.message(), "column family 'y' not found");
    let error = verify_column_families(&new, &old, &names(&["x", "y"]), &[]).unwrap_err();
    assert!(matches!(error, PruneError::Missing(name) if name == "y"));
}

#[test]
fn one_fingerprint_describes_no_difference() {
    let db = vec![family("x", &[("a", "1")])];
    let fingerprint = fingerprint_column_family(&db, "x").unwrap();
    assert_eq!(compare_fingerprints("x", &fingerprint, &fingerprint), None);
}

#[test]
fn counts_are_written_in_decimal() {
    let line = compare_fingerprints("x", &(10_987_654_321, [0xab; 32]), &(u64::MAX, [0xab; 32]));
    let digest = "ab".repeat(32);
    assert_eq!(
        line.unwrap(),
        format!(
            "x: 10987654321 entries / {digest} in the source, \
             18446744073709551615 entries / {digest} in the pruned database"
        )
    );
}

#[test]
fn a_difference_in_one_byte_is_found() {
    let mut digest = [0u8; 32];
    digest[31] = 1;
    let line = compare_fingerprints("x", &(0, [0u8; 32]), &(0, digest)).unwrap();
    assert!(line.ends_with("01 in the pruned database"));
}

#[test]
fn verdict_depends_on_the_list_of_differences() {
    assert!(conclude(vec![]).is_ok());
    let error = conclude(names(&["first", "second", "third"])).unwrap_err();
    assert_eq!(
        error.message(),
        "pruned database does not match the source in 3 column families: first; second; third"
    );
}
