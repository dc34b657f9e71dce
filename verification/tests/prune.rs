use cnidarium::codec::decode_value;
use cnidarium::copy::FamilyWrite;
use cnidarium::prune::{
    read_path_agrees, Chunk, LeafStep, PruneTotals, Pruner, Refusal, SubstoreSnapshot, TreeLeaf,
};
use cnidarium::rows::{ColumnFamily, Row};
use cnidarium::tree_store::{
    self, encode_from_keyhash, encode_from_node_key, encode_value_row, PruningTreeStore,
};
use cnidarium::{
    copy_column_families, prune_main_substore, prune_substore, verify_column_families,
    PruneConfig, PruneError, PruneReport, SubstoreConfig,
};
use jmt::mock::MockTreeStore;
use jmt::restore::{JellyfishMerkleRestore, StateSnapshotReceiver};
use jmt::storage::{LeafNode, Node, NodeBatch, NodeKey, TreeReader, TreeWriter};
use jmt::{JellyfishMerkleIterator, JellyfishMerkleTree, KeyHash, OwnedValue, RootHash};
use sha2::Sha256;
use std::collections::BTreeMap;
use std::sync::{Arc, Mutex};

/// Number of versions (commits) to write before pruning.
const NUM_VERSIONS: u64 = 20;
/// Number of distinct keys to cycle updates over.
const NUM_KEYS: u64 = 10;

fn key_hash(key: &str) -> KeyHash {
    KeyHash::with::<Sha256>(key.as_bytes())
}

fn commit(storage: &MockTreeStore, changes: Vec<(String, Option<Vec<u8>>)>, version: u64) {
    let tree = JellyfishMerkleTree::<_, Sha256>::new(storage);
    let changes: Vec<(KeyHash, Option<OwnedValue>)> = changes
        .into_iter()
        .map(|(key, value)| (key_hash(&key), value))
        .collect();
    let (_, batch) = tree.put_value_set(changes, version).unwrap();
    storage.write_tree_update_batch(batch).unwrap();
}

/// Populate storage with several versions of overlapping writes, so that
/// the tree accumulates stale internal nodes, then return the expected final
/// key-value contents.
fn populate(storage: &MockTreeStore) -> Vec<(String, Vec<u8>)> {
    for version in 0..NUM_VERSIONS {
        let mut changes = Vec::new();
        // Update a rotating subset of keys each version, so most keys are
        // written multiple times and produce stale ancestor stacks.
        for k in 0..NUM_KEYS {
            if (k + version) % 3 == 0 {
                changes.push((
                    format!("key_{k:02}"),
                    Some(format!("value_{k:02}_v{version}").into_bytes()),
                ));
            }
        }
        // Exercise deletion markers: key_00 is deleted on the last version.
        if version == NUM_VERSIONS - 1 {
            changes.push(("key_00".to_string(), None));
        }
        commit(storage, changes, version);
    }

    // Reconstruct the expected final contents.
    let mut expected = Vec::new();
    for k in 0..NUM_KEYS {
        if k == 0 {
            // deleted on the final version
            continue;
        }
        // The last version in which this key was written.
        let last_written = (0..NUM_VERSIONS)
            .rev()
            .find(|version| (k + version) % 3 == 0);
        if let Some(version) = last_written {
            expected.push((
                format!("key_{k:02}"),
                format!("value_{k:02}_v{version}").into_bytes(),
            ));
        }
    }
    expected
}

/// A destination that keeps its column families in memory.
struct MemoryStore {
    store: PruningTreeStore,
    families: Mutex<BTreeMap<String, Rows>>,
}

impl MemoryStore {
    fn new(prefix: &str) -> Arc<Self> {
        Arc::new(MemoryStore {
            store: PruningTreeStore::new(SubstoreConfig::new(prefix)),
            families: Mutex::new(BTreeMap::new()),
        })
    }

    fn put(&self, write: FamilyWrite) {
        let mut families = self.families.lock().unwrap();
        let rows = families.entry(write.family).or_default();
        for row in write.rows {
            rows.insert(row.key, row.value);
        }
    }

    fn row(&self, family: &str, key: &[u8]) -> Option<Vec<u8>> {
        let families = self.families.lock().unwrap();
        families.get(family).and_then(|rows| rows.get(key).cloned())
    }

    fn num_nodes(&self) -> u64 {
        let families = self.families.lock().unwrap();
        families[&self.store.config.cf_jmt()].len() as u64
    }

    fn root_hash(&self, version: u64) -> RootHash {
        JellyfishMerkleTree::<_, Sha256>::new(self)
            .get_root_hash(version)
            .unwrap()
    }

    fn get(&self, key: &str, version: u64) -> Option<Vec<u8>> {
        self.get_value_option(version, key_hash(key)).unwrap()
    }
}

impl TreeWriter for MemoryStore {
    fn write_node_batch(&self, node_batch: &NodeBatch) -> anyhow::Result<()> {
        let batch = tree_store::NodeBatch {
            nodes: node_batch.nodes().iter().collect(),
            values: node_batch
                .values()
                .iter()
                .map(|((version, key_hash), value)| (*version, key_hash.0, value))
                .collect(),
        };
        let rows = self.store.write_node_batch(&batch).unwrap();
        self.put(rows.nodes);
        self.put(rows.values);
        Ok(())
    }
}

impl TreeReader for MemoryStore {
    fn get_node_option(&self, node_key: &NodeKey) -> anyhow::Result<Option<Node>> {
        let key = encode_from_node_key(node_key).unwrap();
        let row = self.row(&self.store.config.cf_jmt(), &key);
        Ok(self.store.node_in_row(row.as_deref()).unwrap())
    }

    fn get_value_option(
        &self,
        max_version: u64,
        key_hash: KeyHash,
    ) -> anyhow::Result<Option<OwnedValue>> {
        let key = encode_from_keyhash(&key_hash.0, max_version);
        let row = self.row(&self.store.config.cf_jmt_values(), &key);
        Ok(self.store.value_in_row(row.as_deref()).unwrap())
    }

    fn get_rightmost_leaf(&self) -> anyhow::Result<Option<(NodeKey, LeafNode)>> {
        Ok(None)
    }
}

/// Adds a chunk to the new tree, with a range proof against the source.
fn add_chunk<R: TreeReader>(
    tree: &JellyfishMerkleTree<'_, R, Sha256>,
    restore: &mut JellyfishMerkleRestore<Sha256>,
    version: u64,
    chunk: Chunk,
) -> anyhow::Result<()> {
    let proof = tree.get_range_proof(KeyHash(chunk.rightmost_key), version)?;
    let entries = chunk
        .entries
        .into_iter()
        .map(|(key, value)| (KeyHash(key), value))
        .collect();
    restore.add_chunk(entries, proof)
}

/// What a store holds at a version.
fn snapshot_of<R: TreeReader>(source: &Arc<R>, version: u64) -> SubstoreSnapshot {
    let root = JellyfishMerkleTree::<_, Sha256>::new(source.as_ref())
        .get_root_hash(version)
        .unwrap();
    SubstoreSnapshot {
        root_hash: root.0,
        leaves: JellyfishMerkleIterator::new(source.clone(), version, KeyHash([0u8; 32]))
            .unwrap()
            .map(|leaf| {
                let (key, value) = leaf.unwrap();
                TreeLeaf {
                    key_hash: key.0,
                    value,
                    read_path_value: source.get_value_option(version, key).unwrap(),
                }
            })
            .collect(),
    }
}

/// Prunes from one store into the other, with a range proof for each chunk.
fn prune(
    source: &Arc<MockTreeStore>,
    destination: &Arc<MemoryStore>,
    version: u64,
    prune_config: &PruneConfig,
) -> PruneReport {
    let nodes_before = source.num_nodes() as u64;
    let tree = JellyfishMerkleTree::<_, Sha256>::new(source.as_ref());
    let root = tree.get_root_hash(version).unwrap();
    let mut restore =
        JellyfishMerkleRestore::<Sha256>::new(destination.clone(), version, root).unwrap();
    let mut pruner = Pruner::new(prune_config).unwrap();
    let leaves =
        JellyfishMerkleIterator::new(source.clone(), version, KeyHash([0u8; 32])).unwrap();
    for leaf in leaves {
        let (key, value) = leaf.unwrap();
        let read = source.get_value_option(version, key).unwrap();
        pruner = match pruner.add_leaf(key.0, value, read) {
            LeafStep::Continue(next) => next,
            LeafStep::AddChunk(chunk, adding) => {
                assert_eq!(chunk.entries.len(), prune_config.chunk_size);
                assert_eq!(chunk.rightmost_key, key.0);
                adding
                    .added(add_chunk(&tree, &mut restore, version, chunk))
                    .unwrap()
            }
        };
    }
    let (last, finishing) = pruner.end();
    let outcome = match last {
        Some(chunk) => add_chunk(&tree, &mut restore, version, chunk),
        None => Ok(()),
    };
    let totals = finishing
        .finished(outcome.and_then(|()| restore.finish()))
        .unwrap();
    destination.put(FamilyWrite {
        family: destination.store.config.cf_jmt_values(),
        rows: totals.override_rows(version).unwrap(),
    });
    totals.report(root.0, version, nodes_before, destination.num_nodes())
}

/// Prune the main store and check that:
/// - the reported root hash matches the original root hash
/// - the pruned store contains fewer nodes
/// - the pruned store yields the same root hash and contents
#[test]
fn test_prune_main_store_preserves_root_and_contents() {
    let storage = Arc::new(MockTreeStore::default());
    let expected = populate(&storage);
    let version = NUM_VERSIONS - 1;
    let original_root = JellyfishMerkleTree::<_, Sha256>::new(storage.as_ref())
        .get_root_hash(version)
        .unwrap();

    // A small chunk size forces multiple range-proof-verified chunks.
    let prune_config = PruneConfig {
        chunk_size: 3,
        ..Default::default()
    };
    let pruned = MemoryStore::new("");
    let report = prune(&storage, &pruned, version, &prune_config);

    assert_eq!(
        report.root, original_root.0,
        "pruned root hash must match original"
    );
    assert_eq!(report.version, version);
    assert_eq!(report.keys_processed, expected.len() as u64);
    assert!(
        report.nodes_after < report.nodes_before,
        "pruning should reduce node count: before={} after={}",
        report.nodes_before,
        report.nodes_after
    );
    assert!(report.value_overrides.is_empty());

    assert_eq!(
        pruned.root_hash(version),
        original_root,
        "pruned database must report the original root hash"
    );
    for (key, value) in &expected {
        assert_eq!(
            pruned.get(key, version).as_ref(),
            Some(value),
            "pruned database must contain {key}"
        );
    }
    // The deleted key must stay deleted.
    assert_eq!(pruned.get("key_00", version), None);
}

/// Prune with a chunk size larger than the number of keys, so that all
/// entries are processed in the single final chunk.
#[test]
fn test_prune_single_chunk() {
    let storage = Arc::new(MockTreeStore::default());
    let expected = populate(&storage);
    let version = NUM_VERSIONS - 1;
    let original_root = JellyfishMerkleTree::<_, Sha256>::new(storage.as_ref())
        .get_root_hash(version)
        .unwrap();

    let pruned = MemoryStore::new("");
    let report = prune(&storage, &pruned, version, &PruneConfig::default());

    assert_eq!(report.root, original_root.0);
    assert_eq!(report.keys_processed, expected.len() as u64);
    assert_eq!(pruned.root_hash(version), original_root);
}

/// Prune a named substore and verify that its contents survive.
#[test]
fn test_prune_substore_preserves_contents() {
    let storage = Arc::new(MockTreeStore::default());
    // Write several versions of keys into the substore.
    for version in 0..NUM_VERSIONS {
        commit(
            &storage,
            vec![(
                format!("client_{}", version % 4),
                Some(format!("state_v{version}").into_bytes()),
            )],
            version,
        );
    }
    let version = NUM_VERSIONS - 1;
    let pruned = MemoryStore::new("ibc");
    let report = prune(
        &storage,
        &pruned,
        version,
        &PruneConfig {
            chunk_size: 2,
            ..Default::default()
        },
    );
    assert_eq!(report.keys_processed, 4);
    assert!(report.nodes_after < report.nodes_before);
    for k in 0..4u64 {
        assert_eq!(
            pruned.get(&format!("client_{k}"), version),
            Some(format!("state_v{}", 16 + k).into_bytes())
        );
    }
    let families = pruned.families.lock().unwrap();
    let names: Vec<&String> = families.keys().collect();
    assert_eq!(names, vec!["substore-ibc-jmt", "substore-ibc-jmt-values"]);
}

/// The tree and the value rows can disagree: the leaf commits to one value
/// (and with it the root hash) while the read path returns another. The pruned
/// store must keep both halves.
#[test]
fn test_prune_preserves_read_path_when_leaf_and_value_disagree() {
    let storage = Arc::new(MockTreeStore::default());
    let expected = populate(&storage);
    let version = NUM_VERSIONS - 1;
    let original_root = JellyfishMerkleTree::<_, Sha256>::new(storage.as_ref())
        .get_root_hash(version)
        .unwrap();

    // `key_01` was last written before the final version. Write a *newer*
    // value row for it, at the final version, without touching the tree.
    let post_migration = b"post_migration_value".to_vec();
    let mut batch = NodeBatch::default();
    batch.insert_value(version, key_hash("key_01"), post_migration.clone());
    storage.write_node_batch(&batch).unwrap();
    assert_eq!(
        storage
            .get_value_option(version, key_hash("key_01"))
            .unwrap(),
        Some(post_migration.clone()),
        "precondition: the read path must return the newer value row"
    );

    let pruned = MemoryStore::new("");
    let report = prune(
        &storage,
        &pruned,
        version,
        &PruneConfig {
            chunk_size: 3,
            ..Default::default()
        },
    );

    assert_eq!(
        report.root, original_root.0,
        "pruning must not change the root hash"
    );
    assert_eq!(
        report.value_overrides.len(),
        1,
        "exactly one key diverges, got {:?}",
        report.value_overrides
    );
    assert_eq!(report.value_overrides[0].0, key_hash("key_01").0);
    assert_eq!(
        report.value_overrides[0].1.as_ref(),
        Some(&post_migration),
        "the override must carry the read-path value"
    );
    let mut old: BTreeMap<String, Rows> = BTreeMap::new();
    for name in ["default", "substore--jmt", "substore--jmt-values"] {
        old.insert(name.to_string(), Rows::new());
    }
    let copied = carry_over(&old, &mut pruned.families.lock().unwrap());
    assert_eq!(copied, vec![("default".to_string(), 0)]);
    assert_eq!(
        pruned.root_hash(version),
        original_root,
        "the pruned store must still agree with the chain's app hash"
    );
    assert_eq!(
        pruned.get("key_01", version),
        Some(post_migration),
        "the pruned store must read what the source read, not what the leaf commits to"
    );
    for (key, value) in &expected {
        if key == "key_01" {
            continue;
        }
        assert_eq!(pruned.get(key, version).as_ref(), Some(value));
    }
}

fn family(name: &str, rows: &[(&str, &str)]) -> ColumnFamily {
    ColumnFamily {
        name: name.to_string(),
        rows: rows
            .iter()
            .map(|(key, value)| Row {
                key: key.as_bytes().to_vec(),
                value: value.as_bytes().to_vec(),
            })
            .collect(),
    }
}

type Rows = BTreeMap<Vec<u8>, Vec<u8>>;

/// The column families the main-store pruner rebuilds from scratch. Everything
/// else has to be copied across verbatim.
const REBUILT_BY_MAIN_STORE_PRUNE: [&str; 2] = ["substore--jmt", "substore--jmt-values"];

fn rebuilt() -> Vec<String> {
    REBUILT_BY_MAIN_STORE_PRUNE
        .iter()
        .map(|s| s.to_string())
        .collect()
}

fn walk(families: &BTreeMap<String, Rows>) -> Vec<ColumnFamily> {
    families
        .iter()
        .map(|(name, rows)| ColumnFamily {
            name: name.clone(),
            rows: rows
                .iter()
                .map(|(key, value)| Row {
                    key: key.clone(),
                    value: value.clone(),
                })
                .collect(),
        })
        .collect()
}

/// Copies everything that is not rebuilt into the families of the destination,
/// and checks the result.
fn carry_over(
    old: &BTreeMap<String, Rows>,
    new: &mut BTreeMap<String, Rows>,
) -> Vec<(String, u64)> {
    let cfs: Vec<String> = old.keys().cloned().collect();
    for name in &cfs {
        new.entry(name.clone()).or_default();
    }
    let run = copy_column_families(&walk(old), &walk(new), &cfs, &rebuilt());
    for write in run.writes {
        let rows = new.get_mut(&write.family).unwrap();
        for row in write.rows {
            rows.insert(row.key, row.value);
        }
    }
    verify_column_families(&walk(old), &walk(new), &cfs, &rebuilt()).unwrap();
    run.result.unwrap()
}

/// Nonverifiable data is never covered by the tree or by the pruner's range
/// proofs: it lives in its own column family and is only ever carried across by
/// the copy. Write it, prune, copy, and require every value to come back,
/// including deletions staying deleted.
#[test]
fn test_prune_preserves_nonverifiable_data() {
    let storage = Arc::new(MockTreeStore::default());
    let mut old: BTreeMap<String, Rows> = BTreeMap::new();
    let mut main = Rows::new();
    let mut ibc = Rows::new();
    for version in 0..NUM_VERSIONS {
        commit(
            &storage,
            vec![(
                format!("key_{}", version % 5),
                Some(format!("v{version}").into_bytes()),
            )],
            version,
        );
        main.insert(
            format!("consensus_set_index/{}", version % 5).into_bytes(),
            format!("member_v{version}").into_bytes(),
        );
        ibc.insert(
            format!("ibc/nv/{}", version % 3).into_bytes(),
            format!("substore_nv_v{version}").into_bytes(),
        );
    }
    // The migration removes one index entry and rewrites another, in place.
    main.remove(b"consensus_set_index/0".as_slice());
    main.insert(b"consensus_set_index/1".to_vec(), b"rewritten".to_vec());
    old.insert("substore--jmt".to_string(), Rows::new());
    old.insert("substore--jmt-values".to_string(), Rows::new());
    old.insert("substore--nonverifiable".to_string(), main);
    old.insert("substore-ibc-nonverifiable".to_string(), ibc);

    let version = NUM_VERSIONS - 1;
    let pruned = MemoryStore::new("");
    prune(&storage, &pruned, version, &sized(2));

    let mut families = pruned.families.lock().unwrap();
    let copied = carry_over(&old, &mut families);
    assert!(
        copied
            .iter()
            .any(|(name, count)| name == "substore--nonverifiable" && *count > 0),
        "the main store's nonverifiable column family must be copied and non-empty: {copied:?}"
    );
    assert!(
        copied
            .iter()
            .any(|(name, count)| name == "substore-ibc-nonverifiable" && *count > 0),
        "the substore's nonverifiable column family must be copied and non-empty: {copied:?}"
    );

    let nonverifiable = &families["substore--nonverifiable"];
    assert_eq!(
        nonverifiable.get(b"consensus_set_index/0".as_slice()),
        None,
        "a key the migration deleted must stay deleted"
    );
    assert_eq!(
        nonverifiable.get(b"consensus_set_index/1".as_slice()),
        Some(&b"rewritten".to_vec()),
        "a key the migration rewrote in place must keep the migrated value"
    );
    for k in 2..5u64 {
        let key = format!("consensus_set_index/{k}");
        assert!(
            nonverifiable.contains_key(key.as_bytes()),
            "{key} must survive pruning"
        );
    }
    for k in 0..3u64 {
        let key = format!("ibc/nv/{k}");
        assert!(
            families["substore-ibc-nonverifiable"].contains_key(key.as_bytes()),
            "substore key {key} must survive pruning"
        );
    }
    // The tree that was rebuilt is still there.
    assert!(!families["substore--jmt"].is_empty());
}

fn leaf(n: u8, value: &str, read: Option<&str>) -> TreeLeaf {
    TreeLeaf {
        key_hash: [n; 32],
        value: value.as_bytes().to_vec(),
        read_path_value: read.map(|text| text.as_bytes().to_vec()),
    }
}

fn sized(chunk_size: usize) -> PruneConfig {
    PruneConfig {
        chunk_size,
        ..Default::default()
    }
}

#[test]
fn whole_run_hands_out_chunks_and_reports() {
    let old = vec![family(
        "substore--jmt",
        &[("n1", ""), ("n2", ""), ("n3", "")],
    )];
    let new = vec![family("substore--jmt", &[("n1", "")])];
    let snapshot = SubstoreSnapshot {
        root_hash: [0xcc; 32],
        leaves: vec![
            leaf(1, "a", Some("a")),
            leaf(2, "b", Some("newer")),
            leaf(3, "c", None),
            leaf(4, "", Some("")),
            leaf(5, "e", Some("")),
        ],
    };
    let run = prune_main_substore(&old, &snapshot, &new, &None, 7, &sized(2));
    let sizes: Vec<usize> = run.chunks.iter().map(|c| c.entries.len()).collect();
    assert_eq!(sizes, vec![2, 2, 1]);
    let rightmost: Vec<u8> = run.chunks.iter().map(|c| c.rightmost_key[0]).collect();
    assert_eq!(rightmost, vec![2, 4, 5]);
    assert_eq!(run.chunks[1].entries[0], ([3; 32], b"c".to_vec()));

    let (written, report) = run.result.unwrap();
    assert_eq!(report.root, [0xcc; 32]);
    assert_eq!(report.version, 7);
    assert_eq!(report.keys_processed, 5);
    assert_eq!(report.nodes_before, 3);
    assert_eq!(report.nodes_after, 1);
    assert_eq!(
        report.value_overrides,
        vec![
            ([2; 32], Some(b"newer".to_vec())),
            ([3; 32], None),
            ([5; 32], Some(vec![]))
        ]
    );
    assert_eq!(written.family, "substore--jmt-values");
    assert_eq!(written.rows.len(), 3);
    assert_eq!(written.rows[0].key, encode_from_keyhash(&[2; 32], 7));
    assert_eq!(
        decode_value(&written.rows[0].value).unwrap(),
        Some(b"newer".to_vec())
    );
    assert_eq!(decode_value(&written.rows[1].value).unwrap(), None);
}

#[test]
fn overrides_restore_what_the_source_read() {
    let leaves = vec![
        leaf(1, "a", Some("a")),
        leaf(2, "b", Some("newer")),
        leaf(3, "c", None),
    ];
    let mut values: BTreeMap<Vec<u8>, Vec<u8>> = BTreeMap::new();
    let unrelated = encode_from_keyhash(&[9; 32], 7);
    values.insert(unrelated.clone(), vec![1, 1, 0, 0, 0, b'z']);
    for entry in &leaves {
        let row = encode_value_row(7, &entry.key_hash, &Some(entry.value.clone())).unwrap();
        values.insert(row.key, row.value);
    }
    let db = vec![family("substore-s-jmt", &[])];
    let expected: Vec<_> = leaves
        .iter()
        .map(|entry| (entry.key_hash, entry.read_path_value.clone()))
        .collect();
    let snapshot = SubstoreSnapshot {
        root_hash: [0; 32],
        leaves,
    };
    let run = prune_substore(
        &db,
        &snapshot,
        &db,
        &None,
        &SubstoreConfig::new("s"),
        7,
        &sized(1),
    );
    let (written, _) = run.result.unwrap();
    assert_eq!(written.family, "substore-s-jmt-values");
    for row in written.rows {
        values.insert(row.key, row.value);
    }
    for (key, read) in expected {
        let row = &values[&encode_from_keyhash(&key, 7)];
        assert_eq!(decode_value(row).unwrap(), read);
    }
    assert_eq!(values[&unrelated], vec![1, 1, 0, 0, 0, b'z']);
}

#[test]
fn chunk_size_changes_nothing_but_the_chunks() {
    let old = vec![family("substore--jmt", &[("n1", ""), ("n2", "")])];
    let new = vec![family("substore--jmt", &[("n1", "")])];
    let snapshot = SubstoreSnapshot {
        root_hash: [3; 32],
        leaves: (1..=9)
            .map(|n| leaf(n, "v", if n % 4 == 0 { None } else { Some("v") }))
            .collect(),
    };
    let mut reports = Vec::new();
    for chunk_size in [1, 2, 4, 9, 100] {
        let run = prune_main_substore(&old, &snapshot, &new, &None, 1, &sized(chunk_size));
        let keys: Vec<u8> = run
            .chunks
            .iter()
            .flat_map(|chunk| chunk.entries.iter().map(|(key, _)| key[0]))
            .collect();
        assert_eq!(keys, (1..=9).collect::<Vec<u8>>());
        assert_eq!(run.chunks.len(), (9 + chunk_size - 1) / chunk_size);
        let (written, report) = run.result.unwrap();
        assert_eq!(written.rows.len(), 2);
        reports.push(format!("{report:?}"));
    }
    assert!(reports.iter().all(|report| *report == reports[0]));
}

#[test]
fn read_path_is_compared_byte_by_byte() {
    assert!(read_path_agrees(&Some(b"ab".to_vec()), &b"ab".to_vec()));
    assert!(read_path_agrees(&Some(vec![]), &vec![]));
    assert!(!read_path_agrees(&Some(b"ab".to_vec()), &b"ac".to_vec()));
    assert!(!read_path_agrees(&Some(b"ab".to_vec()), &b"a".to_vec()));
    assert!(!read_path_agrees(&None, &vec![]));
}

#[test]
fn consistent_store_overrides_nothing() {
    let db = vec![family("substore--jmt", &[])];
    let snapshot = SubstoreSnapshot {
        root_hash: [0; 32],
        leaves: (1..=4).map(|n| leaf(n, "v", Some("v"))).collect(),
    };
    let run = prune_main_substore(&db, &snapshot, &db, &None, 0, &sized(4));
    assert_eq!(run.chunks.len(), 1);
    let (written, report) = run.result.unwrap();
    assert!(written.rows.is_empty());
    assert!(report.value_overrides.is_empty());
}

#[test]
fn empty_tree_has_no_chunks() {
    let db = vec![family("substore--jmt", &[])];
    let snapshot = SubstoreSnapshot {
        root_hash: [0; 32],
        leaves: vec![],
    };
    let run = prune_main_substore(&db, &snapshot, &db, &None, 0, &sized(4));
    assert!(run.chunks.is_empty());
    let (_, report) = run.result.unwrap();
    assert_eq!(report.keys_processed, 0);
}

#[test]
fn invalid_configuration_is_refused_before_anything_is_read() {
    let snapshot = SubstoreSnapshot {
        root_hash: [0; 32],
        leaves: vec![leaf(1, "a", None)],
    };
    let run = prune_main_substore(&[], &snapshot, &[], &None, 0, &sized(0));
    assert!(run.chunks.is_empty());
    assert!(matches!(run.result, Err(PruneError::ChunkSizeTooSmall)));
    assert!(matches!(
        Pruner::new(&sized(10_000_001)),
        Err(PruneError::ChunkSizeTooLarge)
    ));
}

#[test]
fn chunks_hold_every_leaf_whatever_their_size() {
    for chunk_size in 1..=7 {
        let mut pruner = Pruner::new(&sized(chunk_size)).unwrap();
        let mut chunks = Vec::new();
        for n in 1..=5u8 {
            let value = vec![n];
            pruner = match pruner.add_leaf([n; 32], value.clone(), Some(value)) {
                LeafStep::Continue(next) => next,
                LeafStep::AddChunk(chunk, adding) => {
                    assert_eq!(chunk.entries.len(), chunk_size);
                    assert_eq!(chunk.entries[chunk_size - 1].0, [n; 32]);
                    chunks.push(chunk);
                    adding.added(Ok::<(), String>(())).unwrap()
                }
            };
            assert_eq!(pruner.keys_processed(), n as u64);
        }
        let (last, finishing) = pruner.end();
        assert_eq!(last.is_some(), 5 % chunk_size != 0);
        chunks.extend(last);
        let totals = finishing.finished(Ok::<(), String>(())).unwrap();
        assert_eq!(totals.keys_processed, 5);
        let keys: Vec<u8> = chunks
            .iter()
            .flat_map(|chunk| chunk.entries.iter().map(|(key, _)| key[0]))
            .collect();
        assert_eq!(keys, vec![1, 2, 3, 4, 5]);
    }
}

#[test]
fn refused_chunk_ends_the_steps() {
    let pruner = Pruner::new(&sized(1)).unwrap();
    match pruner.add_leaf([1; 32], vec![1], None) {
        LeafStep::AddChunk(_, adding) => {
            assert_eq!(adding.added(Err("no")).err(), Some("no"));
        }
        LeafStep::Continue(_) => panic!("the chunk is full"),
    }
    let (last, finishing) = Pruner::new(&sized(1)).unwrap().end();
    assert!(last.is_none());
    assert_eq!(finishing.finished(Err("not done")).err(), Some("not done"));
}

#[test]
fn refused_chunk_ends_the_run() {
    let db = vec![family("substore--jmt", &[])];
    let snapshot = SubstoreSnapshot {
        root_hash: [0; 32],
        leaves: (1..=5).map(|n| leaf(n, "v", None)).collect(),
    };
    // Three chunks, and then the end of the tree.
    for step in 0..=3 {
        let refusal = Some(Refusal {
            step,
            reason: format!("refused at {step}"),
        });
        let run = prune_main_substore(&db, &snapshot, &db, &refusal, 0, &sized(2));
        assert_eq!(run.chunks.len(), (step + 1).min(3));
        let error = run.result.err().unwrap();
        assert!(matches!(&error, PruneError::Refused(_)));
        assert_eq!(error.message(), format!("refused at {step}"));
    }
    // There is no such step.
    let refusal = Some(Refusal {
        step: 4,
        reason: "never".to_string(),
    });
    let run = prune_main_substore(&db, &snapshot, &db, &refusal, 0, &sized(2));
    assert_eq!(run.chunks.len(), 3);
    assert!(run.result.is_ok());
}

/// The nodes of a store as a column family, of which only the number counts.
fn node_family(count: u64) -> Vec<ColumnFamily> {
    let names: Vec<String> = (0..count).map(|n| format!("{n:08}")).collect();
    let rows: Vec<(&str, &str)> = names.iter().map(|name| (name.as_str(), "")).collect();
    vec![family("substore--jmt", &rows)]
}

/// Runs the whole of it on a snapshot of a real tree: the chunks go to a
/// restore, the rows over its values.
fn prune_snapshot<R: TreeReader>(
    source: &Arc<R>,
    nodes_before: u64,
    destination: &Arc<MemoryStore>,
    version: u64,
    prune_config: &PruneConfig,
) -> PruneReport {
    let snapshot = snapshot_of(source, version);
    let old_db = node_family(nodes_before);
    // What is built does not depend on the number of nodes that is reported.
    let run = prune_main_substore(
        &old_db,
        &snapshot,
        &node_family(0),
        &None,
        version,
        prune_config,
    );
    let tree = JellyfishMerkleTree::<_, Sha256>::new(source.as_ref());
    let root = RootHash(snapshot.root_hash);
    let mut restore =
        JellyfishMerkleRestore::<Sha256>::new(destination.clone(), version, root).unwrap();
    for chunk in run.chunks {
        add_chunk(&tree, &mut restore, version, chunk).unwrap();
    }
    restore.finish().unwrap();
    let new_db = node_family(destination.num_nodes());
    let run = prune_main_substore(&old_db, &snapshot, &new_db, &None, version, prune_config);
    let (written, report) = run.result.unwrap();
    destination.put(written);
    report
}

#[test]
fn whole_run_prunes_a_real_tree() {
    let storage = Arc::new(MockTreeStore::default());
    let expected = populate(&storage);
    let version = NUM_VERSIONS - 1;
    let post_migration = b"post_migration_value".to_vec();
    let mut batch = NodeBatch::default();
    batch.insert_value(version, key_hash("key_01"), post_migration.clone());
    storage.write_node_batch(&batch).unwrap();

    let nodes = storage.num_nodes() as u64;
    let pruned = MemoryStore::new("");
    let report = prune_snapshot(&storage, nodes, &pruned, version, &sized(3));
    assert_eq!(report.root, pruned.root_hash(version).0);
    assert_eq!(report.keys_processed, expected.len() as u64);
    assert_eq!(report.nodes_before, nodes);
    assert!(report.nodes_after < report.nodes_before);
    assert_eq!(
        report.value_overrides,
        vec![(key_hash("key_01").0, Some(post_migration.clone()))]
    );
    for (key, value) in &expected {
        let read = pruned.get(key, version);
        if key == "key_01" {
            assert_eq!(read.as_ref(), Some(&post_migration));
        } else {
            assert_eq!(read.as_ref(), Some(value));
        }
    }
    // The library reads the same from the rows themselves.
    let db = walk(&pruned.families.lock().unwrap());
    let read = pruned
        .store
        .get_value_option(&db, version, &key_hash("key_01").0);
    assert_eq!(read.unwrap(), Some(post_migration));
}

#[test]
fn pruning_a_pruned_store_changes_nothing() {
    let storage = Arc::new(MockTreeStore::default());
    populate(&storage);
    let version = NUM_VERSIONS - 1;
    let once = MemoryStore::new("");
    let first = prune_snapshot(
        &storage,
        storage.num_nodes() as u64,
        &once,
        version,
        &sized(3),
    );
    assert!(first.value_overrides.is_empty());
    let twice = MemoryStore::new("");
    let second = prune_snapshot(&once, once.num_nodes(), &twice, version, &sized(4));
    assert_eq!(second.root, first.root);
    assert_eq!(second.keys_processed, first.keys_processed);
    assert!(second.value_overrides.is_empty());
    assert_eq!(second.nodes_before, first.nodes_after);
    assert_eq!(second.nodes_after, first.nodes_after);
    let once = once.families.lock().unwrap();
    let twice = twice.families.lock().unwrap();
    assert_eq!(*once, *twice);
}

#[test]
fn totals_turn_into_rows_and_a_report() {
    let totals = PruneTotals {
        keys_processed: 8,
        value_overrides: vec![([4; 32], Some(b"x".to_vec()))],
    };
    let rows = totals.override_rows(2).unwrap();
    assert_eq!(rows.len(), 1);
    assert_eq!(rows[0].key, encode_from_keyhash(&[4; 32], 2));
    assert_eq!(rows[0].value, vec![1, 1, 0, 0, 0, b'x']);
    let report = totals.report([1; 32], 2, 30, 10);
    assert_eq!(report.root, [1; 32]);
    assert_eq!(report.version, 2);
    assert_eq!(report.keys_processed, 8);
    assert_eq!(report.nodes_before, 30);
    assert_eq!(report.nodes_after, 10);
    assert_eq!(report.value_overrides, vec![([4; 32], Some(b"x".to_vec()))]);
}
