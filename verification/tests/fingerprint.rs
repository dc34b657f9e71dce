use cnidarium::fingerprint::Fingerprinter;
use cnidarium::rows::{ColumnFamily, Row};
use cnidarium::{fingerprint_column_family, PruneError};

fn family(name: &str, rows: &[(&[u8], &[u8])]) -> ColumnFamily {
    ColumnFamily {
        name: name.to_string(),
        rows: rows
            .iter()
            .map(|(key, value)| Row {
                key: key.to_vec(),
                value: value.to_vec(),
            })
            .collect(),
    }
}

fn digest_of(rows: &[(&[u8], &[u8])]) -> String {
    let db = vec![family("default", rows)];
    let (count, digest) = fingerprint_column_family(&db, "default").unwrap();
    assert_eq!(count, rows.len() as u64);
    hex::encode(digest)
}

#[test]
fn empty_family_hashes_to_the_digest_of_nothing() {
    assert_eq!(
        digest_of(&[]),
        "e3b0c44298fc1c149afbf4c8996fb92427ae41e4649b934ca495991b7852b855"
    );
}

#[test]
fn rows_are_hashed_with_their_lengths() {
    assert_eq!(
        digest_of(&[(b"a", b"1")]),
        "0e9c3156ac694b081269e7631db910df955a4df29e20086134d7aa57f4e54795"
    );
    assert_eq!(
        digest_of(&[(b"a", b"1"), (b"b", b"")]),
        "8d792d649dace668665ca2144af2648966377651fefd588cc0ec0b9731479143"
    );
}

#[test]
fn splitting_the_same_bytes_otherwise_gives_another_digest() {
    assert_eq!(
        digest_of(&[(b"ab", b"c")]),
        "601d5476e2ccfe2c87a2bba7a322659734a05749d5b5aa781f513e4912db0d5f"
    );
    assert_eq!(
        digest_of(&[(b"a", b"bc")]),
        "3fafa1cf2f19a7c1129beb20cf0983f73a489a221fc0dd2f16d1be292d089205"
    );
    assert_ne!(
        digest_of(&[(b"a", b"b"), (b"c", b"d")]),
        digest_of(&[(b"a", b"bcd")])
    );
}

#[test]
fn taking_rows_one_by_one_gives_the_same_fingerprint() {
    let db = vec![
        family("other", &[(b"z", b"9")]),
        family("default", &[(b"a", b"1"), (b"b", b"")]),
    ];
    let mut fingerprinter = Fingerprinter::new();
    assert_eq!(fingerprinter.count(), 0);
    fingerprinter.add_row(b"a", b"1");
    fingerprinter.add_row(b"b", b"");
    assert_eq!(fingerprinter.count(), 2);
    assert_eq!(
        fingerprinter.finish(),
        fingerprint_column_family(&db, "default").unwrap()
    );
}

#[test]
fn fingerprinting_a_missing_family_fails() {
    let db = vec![family("default", &[])];
    let error = fingerprint_column_family(&db, "absent").unwrap_err();
    assert!(matches!(&error, PruneError::Missing(name) if name == "absent"));
    assert_eq!(error.message(), "column family 'absent' not found");
}
