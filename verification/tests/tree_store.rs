use cnidarium::copy::FamilyWrite;
use cnidarium::rows::{ColumnFamily, Row};
use cnidarium::tree_store::{
    encode_from_keyhash, encode_from_node_key, encode_value_row, NodeBatch, PruningTreeStore,
    SubstoreConfig,
};
use cnidarium::PruneError;
use jmt::storage::{LeafNode, Node, NodeKey};
use jmt::{KeyHash, ValueHash};

#[test]
fn families_are_named_after_the_substore() {
    let main = SubstoreConfig::new("");
    assert_eq!(main.cf_jmt(), "substore--jmt");
    assert_eq!(main.cf_jmt_values(), "substore--jmt-values");
    let ibc = SubstoreConfig::new("ibc");
    assert_eq!(ibc.cf_jmt(), "substore-ibc-jmt");
    assert_eq!(ibc.cf_jmt_values(), "substore-ibc-jmt-values");
}

#[test]
fn value_row_keys_end_with_the_version() {
    let key_hash = KeyHash::with::<sha2::Sha256>(b"key_01").0;
    let version = 19u64;
    let mut row = key_hash.to_vec();
    row.extend_from_slice(&version.to_be_bytes());
    assert_eq!(encode_from_keyhash(&key_hash, version), row);
    assert_eq!(
        &encode_from_keyhash(&[0; 32], 0x0102_0304_0506_0708)[32..],
        &[1, 2, 3, 4, 5, 6, 7, 8]
    );
}

#[test]
fn different_keys_and_versions_have_different_rows() {
    let a = encode_from_keyhash(&[1; 32], 5);
    assert_ne!(a, encode_from_keyhash(&[1; 32], 6));
    assert_ne!(a, encode_from_keyhash(&[2; 32], 5));
    assert_ne!(a, encode_from_keyhash(&[1; 32], 5 << 8));
}

/// A node key with that version and path.
fn node_key(version: u64, nibbles: u64, path: &[u8]) -> NodeKey {
    let mut bytes = version.to_le_bytes().to_vec();
    bytes.extend_from_slice(&nibbles.to_le_bytes());
    bytes.extend_from_slice(&(path.len() as u32).to_le_bytes());
    bytes.extend_from_slice(path);
    borsh::from_slice(&bytes).unwrap()
}

/// Column families with these rows written over what they hold.
fn written(mut db: Vec<ColumnFamily>, writes: Vec<FamilyWrite>) -> Vec<ColumnFamily> {
    for write in writes {
        let family = db.iter_mut().find(|cf| cf.name == write.family).unwrap();
        family.rows.extend(write.rows);
    }
    db
}

fn empty_db(config: &SubstoreConfig) -> Vec<ColumnFamily> {
    [config.cf_jmt(), config.cf_jmt_values()]
        .into_iter()
        .map(|name| ColumnFamily { name, rows: vec![] })
        .collect()
}

#[test]
fn node_row_keys_start_with_the_version() {
    let key = node_key(0x0102_0304_0506_0708, 3, &[0xab, 0xc0]);
    let row = encode_from_node_key(&key).unwrap();
    assert_eq!(&row[..8], &[1, 2, 3, 4, 5, 6, 7, 8]);
    assert_eq!(&row[8..], &borsh::to_vec(&key).unwrap()[..]);
    assert_eq!(row.len(), 8 + 8 + 8 + 4 + 2);
}

#[test]
fn different_node_keys_have_different_rows() {
    let keys = vec![
        node_key(1, 0, &[]),
        node_key(2, 0, &[]),
        node_key(1, 1, &[0x00]),
        node_key(1, 2, &[0x00]),
        node_key(1, 2, &[0x01]),
    ];
    for (i, a) in keys.iter().enumerate() {
        for (j, b) in keys.iter().enumerate() {
            let same = encode_from_node_key(a).unwrap() == encode_from_node_key(b).unwrap();
            assert_eq!(same, i == j);
        }
    }
}

#[test]
fn written_batches_are_read_back_and_leave_the_rest() {
    let store = PruningTreeStore::new(SubstoreConfig::new("ibc"));
    let leaf = Node::Leaf(LeafNode::new(KeyHash([7; 32]), ValueHash([9; 32])));
    let (root_key, child_key) = (node_key(4, 0, &[]), node_key(4, 1, &[0x70]));
    let old_key = node_key(3, 0, &[]);
    let present = Some(b"v".to_vec());
    let earlier = Some(b"earlier".to_vec());
    let deleted = None;

    // What was there before.
    let before = NodeBatch {
        nodes: vec![(&old_key, &leaf), (&root_key, &leaf)],
        values: vec![(3, [7; 32], &earlier), (4, [7; 32], &earlier)],
    };
    let rows = store.write_node_batch(&before).unwrap();
    let db = written(empty_db(&store.config), vec![rows.nodes, rows.values]);
    assert_eq!(
        store.get_node_option(&db, &root_key).unwrap(),
        Some(leaf.clone())
    );
    assert_eq!(store.get_node_option(&db, &child_key).unwrap(), None);

    let batch = NodeBatch {
        nodes: vec![(&root_key, &Node::Null), (&child_key, &leaf)],
        values: vec![(4, [7; 32], &present), (4, [8; 32], &deleted)],
    };
    let rows = store.write_node_batch(&batch).unwrap();
    assert_eq!(rows.nodes.family, "substore-ibc-jmt");
    assert_eq!(rows.values.family, "substore-ibc-jmt-values");
    assert_eq!(rows.nodes.rows.len(), 2);
    assert_eq!(rows.values.rows.len(), 2);
    assert_eq!(
        rows.nodes.rows[1].key,
        encode_from_node_key(&child_key).unwrap()
    );
    assert_eq!(rows.values.rows[0].value, vec![1, 1, 0, 0, 0, b'v']);
    assert_eq!(rows.values.rows[1].value, vec![0]);
    let db = written(db, vec![rows.nodes, rows.values]);

    // What was written is read back, and the rest as before.
    assert_eq!(
        store.get_node_option(&db, &root_key).unwrap(),
        Some(Node::Null)
    );
    assert_eq!(
        store.get_node_option(&db, &child_key).unwrap(),
        Some(leaf.clone())
    );
    assert_eq!(store.get_node_option(&db, &old_key).unwrap(), Some(leaf));
    assert_eq!(store.get_value_option(&db, 4, &[7; 32]).unwrap(), present);
    assert_eq!(store.get_value_option(&db, 4, &[8; 32]).unwrap(), None);
    assert_eq!(store.get_value_option(&db, 3, &[7; 32]).unwrap(), earlier);
    // Values are looked for at exactly the version that is asked for.
    assert_eq!(store.get_value_option(&db, 5, &[7; 32]).unwrap(), None);
    assert_eq!(store.get_value_option(&db, 4, &[9; 32]).unwrap(), None);
}

#[test]
fn damaged_rows_are_refused() {
    let store = PruningTreeStore::new(SubstoreConfig::new(""));
    let key = node_key(1, 0, &[]);
    let mut db = empty_db(&store.config);
    db[0].rows.push(Row {
        key: encode_from_node_key(&key).unwrap(),
        value: vec![7],
    });
    db[1].rows.push(Row {
        key: encode_from_keyhash(&[1; 32], 5),
        value: vec![7],
    });
    assert!(matches!(
        store.get_node_option(&db, &key),
        Err(PruneError::Decode(_))
    ));
    assert!(matches!(
        store.get_value_option(&db, 5, &[1; 32]),
        Err(PruneError::Decode(_))
    ));
    assert_eq!(store.get_value_option(&db, 6, &[1; 32]).unwrap(), None);
    assert!(matches!(
        store.node_in_row(Some(&[9])),
        Err(PruneError::Decode(_))
    ));
    assert!(matches!(
        store.value_in_row(Some(&[9])),
        Err(PruneError::Decode(_))
    ));
}

#[test]
fn nothing_is_found_without_a_row() {
    let store = PruningTreeStore::new(SubstoreConfig::new(""));
    assert_eq!(store.node_in_row(None).unwrap(), None);
    assert_eq!(store.value_in_row(None).unwrap(), None);
}

#[test]
fn later_write_of_a_value_is_the_one_read() {
    let store = PruningTreeStore::new(SubstoreConfig::new(""));
    let first = encode_value_row(3, &[1; 32], &Some(b"first".to_vec())).unwrap();
    let second = encode_value_row(3, &[1; 32], &Some(b"second".to_vec())).unwrap();
    assert_eq!(first.key, second.key);
    let mut db = empty_db(&store.config);
    db[1].rows = vec![first, second];
    assert_eq!(
        store.get_value_option(&db, 3, &[1; 32]).unwrap(),
        Some(b"second".to_vec())
    );
}
