//! The rows in which a tree is stored, for one substore.
use crate::codec::{
    be64, be64_is_injective, be64_is_the_number, big_endian, decode_node, decode_value,
    encode_node, encode_node_key, encode_value, node_encoding, node_key_encoding,
    node_key_version, push_be64, value_decoding, value_encoding, value_fits,
    value_row_round_trip, value_view, version_of_node_key,
};
use crate::copy::FamilyWrite;
use crate::error::PruneError;
use crate::rows::{
    contents, family_rows, find_family, find_row, last_row_put_stays, other_keys_stay, put_rows,
    rows_view, ColumnFamily, Row, RowView,
};
use jmt::storage::{Node, NodeKey};
use vstd::prelude::*;

verus! {

/// The hash of a key, which is its path in the tree.
pub type KeyHash = [u8; 32];

/// The name of a column family of a substore.
pub open spec fn substore_family(prefix: Seq<char>, suffix: Seq<char>) -> Seq<char> {
    "substore-"@ + prefix + suffix
}

/// A substore, named by its prefix. The main store has the empty prefix.
pub struct SubstoreConfig {
    pub prefix: String,
}

impl SubstoreConfig {
    /// The substore with that prefix.
    pub fn new(prefix: &str) -> (config: Self)
        ensures
            config.prefix@ == prefix@,
    {
        SubstoreConfig { prefix: prefix.to_owned() }
    }

    fn family(&self, suffix: &str) -> (name: String)
        ensures
            name@ == substore_family(self.prefix@, suffix@),
    {
        let mut name = "substore-".to_owned();
        name.append(self.prefix.as_str());
        name.append(suffix);
        name
    }

    /// The column family of the tree nodes.
    pub fn cf_jmt(&self) -> (name: String)
        ensures
            name@ == substore_family(self.prefix@, "-jmt"@),
    {
        self.family("-jmt")
    }

    /// The column family of the values.
    pub fn cf_jmt_values(&self) -> (name: String)
        ensures
            name@ == substore_family(self.prefix@, "-jmt-values"@),
    {
        self.family("-jmt-values")
    }
}

/// The key of a value row: the key hash, then the version in eight bytes.
pub open spec fn value_row_key(key_hash: Seq<u8>, version: u64) -> Seq<u8> {
    key_hash + be64(version)
}

/// Different key hashes or versions never share a value row.
pub proof fn value_row_key_is_injective(a: Seq<u8>, x: u64, b: Seq<u8>, y: u64)
    requires
        value_row_key(a, x) == value_row_key(b, y),
    ensures
        a == b,
        x == y,
{
    let s = value_row_key(a, x);
    let t = value_row_key(b, y);
    assert(s.len() == a.len() + 8 && t.len() == b.len() + 8);
    assert(s.subrange(0, a.len() as int) =~= a);
    assert(t.subrange(0, b.len() as int) =~= b);
    assert(s.subrange(a.len() as int, s.len() as int) =~= be64(x));
    assert(t.subrange(b.len() as int, t.len() as int) =~= be64(y));
    be64_is_injective(x, y);
}

/// Encodes the key of a value row.
pub fn encode_from_keyhash(key_hash: &KeyHash, version: u64) -> (key: Vec<u8>)
    ensures
        key@ == value_row_key(key_hash@, version),
{
    let mut key: Vec<u8> = Vec::new();
    key.extend_from_slice(key_hash.as_slice());
    push_be64(&mut key, version);
    assert(key@ =~= value_row_key(key_hash@, version));
    key
}

/// The key of a node row: the version in eight bytes, so that the nodes of a
/// version stand together, then the whole node key. Nothing for a node key that
/// cannot be encoded.
pub open spec fn node_row_key(key: NodeKey) -> Option<Seq<u8>> {
    match node_key_encoding(key) {
        Some(bytes) => Some(be64(node_key_version(key)) + bytes),
        None => None,
    }
}

/// Encodes the key of a node row. No other node key has the same row.
pub fn encode_from_node_key(key: &NodeKey) -> (row: Result<Vec<u8>, PruneError>)
    ensures
        row is Ok <==> node_row_key(*key) is Some,
        match row {
            Ok(bytes) => {
                &&& node_row_key(*key) == Some(bytes@)
                &&& forall|other: NodeKey| #[trigger]
                    node_row_key(other) == Some(bytes@) ==> other == *key
            },
            Err(error) => error is Encode,
        },
{
    let rest: Vec<u8> = match encode_node_key(key) {
        Ok(rest) => rest,
        Err(error) => {
            return Err(error);
        },
    };
    let mut row: Vec<u8> = Vec::new();
    push_be64(&mut row, version_of_node_key(key));
    row.extend_from_slice(rest.as_slice());
    proof {
        assert(row@ =~= be64(node_key_version(*key)) + rest@);
        assert forall|other: NodeKey| #[trigger] node_row_key(other) == Some(row@) implies other
            == *key by {
            let bytes = node_key_encoding(other)->0;
            assert(row@.skip(8) =~= rest@);
            assert(row@.skip(8) =~= bytes);
        }
    }
    Ok(row)
}

/// Nodes and values of a tree that are written together.
pub struct NodeBatch<'a> {
    /// Each node with its key.
    pub nodes: Vec<(&'a NodeKey, &'a Node)>,
    /// Each value with its version and the hash of its key; nothing for a
    /// deleted one.
    pub values: Vec<(u64, KeyHash, &'a Option<Vec<u8>>)>,
}

/// The rows of a node batch, by column family.
pub struct TreeRows {
    pub nodes: FamilyWrite,
    pub values: FamilyWrite,
}

/// The row of a node.
pub open spec fn node_row(key: NodeKey, node: Node) -> RowView {
    RowView { key: node_row_key(key)->0, value: node_encoding(node) }
}

/// The row of a value.
pub open spec fn value_row(version: u64, key_hash: Seq<u8>, value: Option<Seq<u8>>) -> RowView {
    RowView { key: value_row_key(key_hash, version), value: value_encoding(value) }
}

impl<'a> NodeBatch<'a> {
    /// The rows of the nodes.
    pub open spec fn node_rows(&self) -> Seq<RowView> {
        Seq::new(self.nodes@.len(), |i: int| node_row(*self.nodes@[i].0, *self.nodes@[i].1))
    }

    /// The rows of the values.
    pub open spec fn value_rows(&self) -> Seq<RowView> {
        Seq::new(
            self.values@.len(),
            |i: int|
                value_row(
                    self.values@[i].0,
                    self.values@[i].1@,
                    value_view(*self.values@[i].2),
                ),
        )
    }

    /// Whether every node key and every value can be written.
    pub open spec fn fits(&self) -> bool {
        &&& forall|i: int|
            0 <= i < self.nodes@.len() ==> node_row_key(*(#[trigger] self.nodes@[i]).0) is Some
        &&& forall|i: int|
            0 <= i < self.values@.len() ==> value_fits(value_view(*(#[trigger] self.values@[i]).2))
    }

    /// Whether no other node key has the row of a node of the batch.
    pub open spec fn rows_are_apart(&self) -> bool {
        forall|i: int, other: NodeKey|
            #![trigger self.nodes@[i], node_row_key(other)]
            0 <= i < self.nodes@.len() && node_row_key(other) == node_row_key(*self.nodes@[i].0)
                ==> other == *self.nodes@[i].0
    }
}

/// Encodes a value as a row.
pub fn encode_value_row(version: u64, key_hash: &KeyHash, value: &Option<Vec<u8>>) -> (row: Result<
    Row,
    PruneError,
>)
    ensures
        row is Ok <==> value_fits(value_view(*value)),
        row matches Ok(r) ==> r@ == value_row(version, key_hash@, value_view(*value)),
        row matches Err(error) ==> error is Encode,
{
    let key: Vec<u8> = encode_from_keyhash(key_hash, version);
    match encode_value(value) {
        Ok(content) => Ok(Row { key, value: content }),
        Err(error) => Err(error),
    }
}

/// The store that the pruner reads and writes, for one substore.
pub struct PruningTreeStore {
    pub config: SubstoreConfig,
}

impl PruningTreeStore {
    /// The store of that substore.
    pub fn new(config: SubstoreConfig) -> (store: Self)
        ensures
            store.config == config,
    {
        PruningTreeStore { config }
    }

    /// The rows that a node batch writes: nodes first, then values.
    pub fn write_node_batch(&self, node_batch: &NodeBatch) -> (rows: Result<TreeRows, PruneError>)
        ensures
            rows is Ok <==> node_batch.fits(),
            match rows {
                Ok(written) => {
                    &&& written.nodes@.family == substore_family(self.config.prefix@, "-jmt"@)
                    &&& written.nodes@.rows == node_batch.node_rows()
                    &&& written.values@.family == substore_family(
                        self.config.prefix@,
                        "-jmt-values"@,
                    )
                    &&& written.values@.rows == node_batch.value_rows()
                    &&& node_batch.rows_are_apart()
                },
                Err(error) => error is Encode,
            },
    {
        let mut nodes: Vec<Row> = Vec::new();
        let mut i: usize = 0;
        while i < node_batch.nodes.len()
            invariant
                i <= node_batch.nodes@.len(),
                rows_view(nodes@) == node_batch.node_rows().take(i as int),
                forall|k: int|
                    0 <= k < i ==> node_row_key(*(#[trigger] node_batch.nodes@[k]).0) is Some,
                forall|k: int, other: NodeKey|
                    #![trigger node_batch.nodes@[k], node_row_key(other)]
                    0 <= k < i && node_row_key(other) == node_row_key(*node_batch.nodes@[k].0)
                        ==> other == *node_batch.nodes@[k].0,
            decreases node_batch.nodes@.len() - i,
        {
            let entry = &node_batch.nodes[i];
            let key: Vec<u8> = match encode_from_node_key(entry.0) {
                Ok(key) => key,
                Err(error) => {
                    assert(node_row_key(*node_batch.nodes@[i as int].0) is None);
                    return Err(error);
                },
            };
            match encode_node(entry.1) {
                Ok(value) => {
                    let ghost before = rows_view(nodes@);
                    nodes.push(Row { key, value });
                    assert(rows_view(nodes@) =~= before.push(node_batch.node_rows()[i as int]));
                },
                Err(error) => {
                    return Err(error);
                },
            }
            assert(node_batch.node_rows().take(i + 1) =~= node_batch.node_rows().take(
                i as int,
            ).push(node_batch.node_rows()[i as int]));
            i = i + 1;
        }
        assert(node_batch.node_rows().take(i as int) =~= node_batch.node_rows());

        let mut values: Vec<Row> = Vec::new();
        let mut j: usize = 0;
        while j < node_batch.values.len()
            invariant
                j <= node_batch.values@.len(),
                rows_view(values@) == node_batch.value_rows().take(j as int),
                forall|k: int|
                    0 <= k < j ==> value_fits(
                        value_view(*(#[trigger] node_batch.values@[k]).2),
                    ),
                node_batch.rows_are_apart(),
                forall|k: int|
                    0 <= k < node_batch.nodes@.len() ==> node_row_key(
                        *(#[trigger] node_batch.nodes@[k]).0,
                    ) is Some,
            decreases node_batch.values@.len() - j,
        {
            let entry = &node_batch.values[j];
            match encode_value_row(entry.0, &entry.1, entry.2) {
                Ok(row) => {
                    let ghost before = rows_view(values@);
                    values.push(row);
                    assert(rows_view(values@) =~= before.push(node_batch.value_rows()[j as int]));
                },
                Err(error) => {
                    assert(!value_fits(value_view(*node_batch.values@[j as int].2)));
                    return Err(error);
                },
            }
            assert(node_batch.value_rows().take(j + 1) =~= node_batch.value_rows().take(
                j as int,
            ).push(node_batch.value_rows()[j as int]));
            j = j + 1;
        }
        assert(node_batch.value_rows().take(j as int) =~= node_batch.value_rows());

        Ok(
            TreeRows {
                nodes: FamilyWrite { family: self.config.cf_jmt(), rows: nodes },
                values: FamilyWrite { family: self.config.cf_jmt_values(), rows: values },
            },
        )
    }

    /// The node in the row that was found under its key, if one was found.
    pub fn node_in_row(&self, row: Option<&[u8]>) -> (node: Result<Option<Node>, PruneError>)
        ensures
            is_node_in_row(
                node,
                match row {
                    Some(bytes) => Some(bytes@),
                    None => None,
                },
            ),
    {
        match row {
            Some(bytes) => match decode_node(bytes) {
                Ok(node) => Ok(Some(node)),
                Err(error) => Err(error),
            },
            None => Ok(None),
        }
    }

    /// The value in the row that was found under its key, if one was found. A
    /// row that marks a deleted value gives none.
    pub fn value_in_row(&self, row: Option<&[u8]>) -> (value: Result<Option<Vec<u8>>, PruneError>)
        ensures
            match row {
                None => value matches Ok(v) && v is None,
                Some(bytes) => {
                    &&& value is Ok <==> value_decoding(bytes@) is Some
                    &&& value matches Ok(v) ==> value_decoding(bytes@) == Some(value_view(v))
                    &&& value matches Err(error) ==> error is Decode
                },
            },
    {
        match row {
            Some(bytes) => decode_value(bytes),
            None => Ok(None),
        }
    }

    /// Reads the node under a node key, if there is one.
    pub fn get_node_option(&self, db: &[ColumnFamily], node_key: &NodeKey) -> (node: Result<
        Option<Node>,
        PruneError,
    >)
        requires
            has_nodes(db@, self.config.prefix@),
        ensures
            is_node_read(node, stored_nodes(db@, self.config.prefix@), *node_key),
    {
        let name: String = self.config.cf_jmt();
        let position: usize = find_family(db, &name).unwrap();
        let rows: &Vec<Row> = &db[position].rows;
        match encode_from_node_key(node_key) {
            Err(error) => Err(error),
            Ok(key) => match find_row(rows, key.as_slice()) {
                Some(i) => self.node_in_row(Some(rows[i].value.as_slice())),
                None => self.node_in_row(None),
            },
        }
    }

    /// Reads the value of a key at exactly `max_version`, if there is one.
    pub fn get_value_option(
        &self,
        db: &[ColumnFamily],
        max_version: u64,
        key_hash: &KeyHash,
    ) -> (value: Result<Option<Vec<u8>>, PruneError>)
        requires
            has_values(db@, self.config.prefix@),
        ensures
            ({
                let read = read_value(
                    stored_values(db@, self.config.prefix@),
                    key_hash@,
                    max_version,
                );
                match value {
                    Ok(v) => read == Some(value_view(v)),
                    Err(error) => read is None && error is Decode,
                }
            }),
    {
        let name: String = self.config.cf_jmt_values();
        let position: usize = find_family(db, &name).unwrap();
        let rows: &Vec<Row> = &db[position].rows;
        let key: Vec<u8> = encode_from_keyhash(key_hash, max_version);
        match find_row(rows, key.as_slice()) {
            Some(i) => self.value_in_row(Some(rows[i].value.as_slice())),
            None => self.value_in_row(None),
        }
    }
}

/// Whether a database has the column family of a substore's nodes.
pub open spec fn has_nodes(db: Seq<ColumnFamily>, prefix: Seq<char>) -> bool {
    family_rows(db, substore_family(prefix, "-jmt"@)) is Some
}

/// Whether a database has the column family of a substore's values.
pub open spec fn has_values(db: Seq<ColumnFamily>, prefix: Seq<char>) -> bool {
    family_rows(db, substore_family(prefix, "-jmt-values"@)) is Some
}

/// What the column family of a substore's nodes maps each key to.
pub open spec fn stored_nodes(db: Seq<ColumnFamily>, prefix: Seq<char>) -> Map<Seq<u8>, Seq<u8>> {
    contents(family_rows(db, substore_family(prefix, "-jmt"@))->0)
}

/// What the column family of a substore's values maps each key to.
pub open spec fn stored_values(db: Seq<ColumnFamily>, prefix: Seq<char>) -> Map<
    Seq<u8>,
    Seq<u8>,
> {
    contents(family_rows(db, substore_family(prefix, "-jmt-values"@))->0)
}

/// Whether this is what reading a node row gives: no node without a row, the
/// node whose bytes the row holds, and an error for a row that holds no node.
pub open spec fn is_node_in_row(
    node: Result<Option<Node>, PruneError>,
    row: Option<Seq<u8>>,
) -> bool {
    match row {
        None => node matches Ok(n) && n is None,
        Some(bytes) => {
            &&& node matches Ok(n) ==> n is Some && node_encoding(n->0) == bytes
            &&& node matches Err(error) ==> error is Decode
            &&& forall|n: Node| #[trigger]
                node_encoding(n) == bytes ==> node is Ok && node->Ok_0 == Some(n)
        },
    }
}

/// Whether this is what reading the node under a node key gives, when the
/// column family of the nodes holds these rows.
pub open spec fn is_node_read(
    node: Result<Option<Node>, PruneError>,
    nodes: Map<Seq<u8>, Seq<u8>>,
    key: NodeKey,
) -> bool {
    match node_row_key(key) {
        None => node matches Err(error) && error is Encode,
        Some(row_key) => is_node_in_row(
            node,
            if nodes.contains_key(row_key) {
                Some(nodes[row_key])
            } else {
                None
            },
        ),
    }
}

/// What reading a value at a version gives, when the column family of the
/// values holds these rows: `Some` of the value or of its absence, which a row
/// can mark and a missing row stands for too, and `None` where reading is an
/// error because the row holds no value.
pub open spec fn read_value(
    values: Map<Seq<u8>, Seq<u8>>,
    key_hash: Seq<u8>,
    version: u64,
) -> Option<Option<Seq<u8>>> {
    let key = value_row_key(key_hash, version);
    if values.contains_key(key) {
        value_decoding(values[key])
    } else {
        Some(None)
    }
}

/// Whether there is a row for a value at a version, and it holds this value.
pub open spec fn holds_value(
    values: Map<Seq<u8>, Seq<u8>>,
    key_hash: Seq<u8>,
    version: u64,
    value: Option<Seq<u8>>,
) -> bool {
    let key = value_row_key(key_hash, version);
    values.contains_key(key) && value_decoding(values[key]) == Some(value)
}

/// A value that was written with a node batch is what its row holds, and what
/// reading it at its version gives, whatever the column family held before.
pub proof fn written_value_is_read_back(
    values: Map<Seq<u8>, Seq<u8>>,
    batch: NodeBatch,
    i: int,
)
    requires
        0 <= i < batch.values@.len(),
        batch.fits(),
        forall|j: int|
            i < j < batch.values@.len() ==> {
                ||| (#[trigger] batch.values@[j]).0 != batch.values@[i].0
                ||| batch.values@[j].1@ != batch.values@[i].1@
            },
    ensures
        ({
            let (version, key_hash, value) = batch.values@[i];
            let after = put_rows(values, batch.value_rows());
            &&& holds_value(after, key_hash@, version, value_view(*value))
            &&& read_value(after, key_hash@, version) == Some(value_view(*value))
        }),
{
    let rows = batch.value_rows();
    let (version, key_hash, value) = batch.values@[i];
    assert forall|j: int| i < j < rows.len() implies (#[trigger] rows[j]).key != rows[i].key by {
        if rows[j].key == rows[i].key {
            value_row_key_is_injective(
                batch.values@[j].1@,
                batch.values@[j].0,
                key_hash@,
                version,
            );
        }
    }
    last_row_put_stays(values, rows, i);
    value_row_round_trip(value_view(*value));
}

/// A value that a node batch does not hold reads as before the batch was
/// written.
pub proof fn other_values_read_as_before(
    values: Map<Seq<u8>, Seq<u8>>,
    batch: NodeBatch,
    key_hash: Seq<u8>,
    version: u64,
)
    requires
        forall|j: int|
            0 <= j < batch.values@.len() ==> {
                ||| (#[trigger] batch.values@[j]).0 != version
                ||| batch.values@[j].1@ != key_hash
            },
    ensures
        read_value(put_rows(values, batch.value_rows()), key_hash, version) == read_value(
            values,
            key_hash,
            version,
        ),
{
    let rows = batch.value_rows();
    let key = value_row_key(key_hash, version);
    assert forall|j: int| 0 <= j < rows.len() implies (#[trigger] rows[j]).key != key by {
        if rows[j].key == key {
            value_row_key_is_injective(
                batch.values@[j].1@,
                batch.values@[j].0,
                key_hash,
                version,
            );
        }
    }
    other_keys_stay(values, rows, key);
}

/// A node that was written with a node batch is read back under its key,
/// whatever the column family held before.
pub proof fn written_node_is_read_back(
    nodes: Map<Seq<u8>, Seq<u8>>,
    batch: NodeBatch,
    i: int,
    read: Result<Option<Node>, PruneError>,
)
    requires
        0 <= i < batch.nodes@.len(),
        batch.fits(),
        batch.rows_are_apart(),
        forall|j: int| i < j < batch.nodes@.len() ==> (#[trigger] batch.nodes@[j]).0
            != batch.nodes@[i].0,
        is_node_read(read, put_rows(nodes, batch.node_rows()), *batch.nodes@[i].0),
    ensures
        read is Ok,
        read->Ok_0 == Some(*batch.nodes@[i].1),
{
    let rows = batch.node_rows();
    let key = *batch.nodes@[i].0;
    assert(node_row_key(key) is Some);
    assert forall|j: int| i < j < rows.len() implies (#[trigger] rows[j]).key != rows[i].key by {
        let other = *batch.nodes@[j].0;
        assert(batch.nodes@[j].0 != batch.nodes@[i].0);
        assert(node_row_key(other) is Some);
    }
    last_row_put_stays(nodes, rows, i);
    assert(rows[i].value == node_encoding(*batch.nodes@[i].1));
}

/// A node key that a node batch does not hold reads as before the batch was
/// written.
pub proof fn other_nodes_read_as_before(
    nodes: Map<Seq<u8>, Seq<u8>>,
    batch: NodeBatch,
    key: NodeKey,
    read: Result<Option<Node>, PruneError>,
)
    requires
        batch.fits(),
        batch.rows_are_apart(),
        forall|j: int| 0 <= j < batch.nodes@.len() ==> *(#[trigger] batch.nodes@[j]).0 != key,
    ensures
        is_node_read(read, put_rows(nodes, batch.node_rows()), key) <==> is_node_read(
            read,
            nodes,
            key,
        ),
{
    if let Some(row_key) = node_row_key(key) {
        let rows = batch.node_rows();
        assert forall|j: int| 0 <= j < rows.len() implies (#[trigger] rows[j]).key != row_key by {
            assert(*batch.nodes@[j].0 != key);
            assert(node_row_key(*batch.nodes@[j].0) is Some);
        }
        other_keys_stay(nodes, rows, row_key);
    }
}

/// The name of a column family starts with the same word for every substore,
/// then gives the prefix, then what it is for.
pub proof fn family_names_hold_the_prefix(prefix: Seq<char>, suffix: Seq<char>)
    ensures
        ({
            let name = substore_family(prefix, suffix);
            let n = prefix.len() as int;
            &&& name.len() == 9 + n + suffix.len()
            &&& name.subrange(0, 9) == "substore-"@
            &&& name.subrange(9, 9 + n) == prefix
            &&& name.subrange(9 + n, name.len() as int) == suffix
        }),
{
    reveal_strlit("substore-");
    let name = substore_family(prefix, suffix);
    let n = prefix.len() as int;
    assert(name.subrange(0, 9) =~= "substore-"@);
    assert(name.subrange(9, 9 + n) =~= prefix);
    assert(name.subrange(9 + n, name.len() as int) =~= suffix);
}

/// No column family of nodes or values belongs to two substores, and none
/// holds both nodes and values.
pub proof fn substores_share_no_family(a: Seq<char>, b: Seq<char>)
    ensures
        substore_family(a, "-jmt"@) == substore_family(b, "-jmt"@) ==> a == b,
        substore_family(a, "-jmt-values"@) == substore_family(b, "-jmt-values"@) ==> a == b,
        substore_family(a, "-jmt"@) != substore_family(b, "-jmt-values"@),
{
    reveal_strlit("-jmt");
    reveal_strlit("-jmt-values");
    family_names_hold_the_prefix(a, "-jmt"@);
    family_names_hold_the_prefix(b, "-jmt"@);
    family_names_hold_the_prefix(a, "-jmt-values"@);
    family_names_hold_the_prefix(b, "-jmt-values"@);
    let x = substore_family(a, "-jmt"@);
    let y = substore_family(b, "-jmt-values"@);
    if x == y {
        assert(x.subrange(9 + a.len() as int, x.len() as int)[3] == 't');
        assert(y.subrange(9 + b.len() as int, y.len() as int)[10] == 's');
        assert(x[x.len() - 1] == 't');
        assert(y[y.len() - 1] == 's');
    }
}

/// The key of a value row is the key hash followed by the digits of the
/// version in base 256.
pub proof fn value_row_keys_hold_hash_and_version(key_hash: Seq<u8>, version: u64)
    ensures
        ({
            let key = value_row_key(key_hash, version);
            let n = key_hash.len() as int;
            &&& key.len() == n + 8
            &&& key.subrange(0, n) == key_hash
            &&& big_endian(key.subrange(n, n + 8)) == version
        }),
{
    let key = value_row_key(key_hash, version);
    let n = key_hash.len() as int;
    be64_is_the_number(version);
    assert(key.subrange(0, n) =~= key_hash);
    assert(key.subrange(n, n + 8) =~= be64(version));
}

/// The key of a node row is the digits of the version in base 256, followed
/// by the encoded node key.
pub proof fn node_row_keys_hold_version_and_key(key: NodeKey)
    ensures
        node_row_key(key) is Some <==> node_key_encoding(key) is Some,
        node_row_key(key) matches Some(row) ==> {
            &&& row.len() == 8 + (node_key_encoding(key)->0).len()
            &&& big_endian(row.subrange(0, 8)) == node_key_version(key)
            &&& row.subrange(8, row.len() as int) == node_key_encoding(key)->0
        },
{
    if let Some(row) = node_row_key(key) {
        be64_is_the_number(node_key_version(key));
        assert(row.subrange(0, 8) =~= be64(node_key_version(key)));
        assert(row.subrange(8, row.len() as int) =~= node_key_encoding(key)->0);
    }
}

/// A batch has one row for each node and one for each value, in their order,
/// under their keys.
pub proof fn batches_have_a_row_for_each(batch: NodeBatch)
    ensures
        batch.node_rows().len() == batch.nodes@.len(),
        forall|i: int|
            0 <= i < batch.nodes@.len() ==> (#[trigger] batch.node_rows()[i]).key == node_row_key(
                *batch.nodes@[i].0,
            )->0 && batch.node_rows()[i].value == node_encoding(*batch.nodes@[i].1),
        batch.value_rows().len() == batch.values@.len(),
        forall|i: int|
            0 <= i < batch.values@.len() ==> (#[trigger] batch.value_rows()[i]).key
                == value_row_key(batch.values@[i].1@, batch.values@[i].0)
                && batch.value_rows()[i].value == value_encoding(value_view(*batch.values@[i].2)),
        batch.fits() <==> (forall|i: int|
            0 <= i < batch.nodes@.len() ==> node_key_encoding(
                *(#[trigger] batch.nodes@[i]).0,
            ) is Some) && (forall|i: int|
            0 <= i < batch.values@.len() ==> value_fits(
                value_view(*(#[trigger] batch.values@[i]).2),
            )),
{
    if forall|i: int|
        0 <= i < batch.nodes@.len() ==> node_key_encoding(
            *(#[trigger] batch.nodes@[i]).0,
        ) is Some {
        assert forall|i: int| 0 <= i < batch.nodes@.len() implies node_row_key(
            *(#[trigger] batch.nodes@[i]).0,
        ) is Some by {
            node_row_keys_hold_version_and_key(*batch.nodes@[i].0);
        }
    }
    if batch.fits() {
        assert forall|i: int| 0 <= i < batch.nodes@.len() implies node_key_encoding(
            *(#[trigger] batch.nodes@[i]).0,
        ) is Some by {
            node_row_keys_hold_version_and_key(*batch.nodes@[i].0);
        }
    }
}

/// Reading a value looks at the row under the key hash and the version and at
/// no other: without it there is no value, and with it the value is the one
/// that the row holds.
pub proof fn values_are_read_from_their_row(
    values: Map<Seq<u8>, Seq<u8>>,
    key_hash: Seq<u8>,
    version: u64,
    value: Option<Seq<u8>>,
)
    ensures
        ({
            let key = key_hash + be64(version);
            let read = read_value(values, key_hash, version);
            &&& !values.contains_key(key) ==> read == Some(None::<Seq<u8>>)
            &&& values.contains_key(key) ==> read == value_decoding(values[key])
            &&& holds_value(values, key_hash, version, value) <==> values.contains_key(key)
                && value_decoding(values[key]) == Some(value)
        }),
{
}

/// Reading a node looks at the row under its key and at no other: without it
/// there is no node, and a row with the bytes of a node gives that node.
pub proof fn nodes_are_read_from_their_row(
    nodes: Map<Seq<u8>, Seq<u8>>,
    key: NodeKey,
    node: Node,
    read: Result<Option<Node>, PruneError>,
)
    requires
        is_node_read(read, nodes, key),
    ensures
        node_row_key(key) is None ==> read is Err,
        node_row_key(key) matches Some(row) ==> {
            &&& !nodes.contains_key(row) ==> read is Ok && read->Ok_0 is None
            &&& nodes.contains_key(row) && nodes[row] == node_encoding(node) ==> read is Ok
                && read->Ok_0 == Some(node)
            &&& nodes.contains_key(row) && read is Ok ==> read->Ok_0 is Some && node_encoding(
                read->Ok_0->0,
            ) == nodes[row]
            &&& nodes.contains_key(row) && (forall|n: Node| #[trigger]
                node_encoding(n) != nodes[row]) ==> read is Err
        },
{
    if let Some(row) = node_row_key(key) {
        if nodes.contains_key(row) && read is Ok {
            assert(node_encoding(read->Ok_0->0) == nodes[row]);
        }
    }
}

/// Nodes and values of a substore are those of the column families that carry
/// its prefix.
pub proof fn substores_are_stored_under_their_prefix(db: Seq<ColumnFamily>, prefix: Seq<char>)
    ensures
        ({
            let nodes = family_rows(db, "substore-"@ + prefix + "-jmt"@);
            let values = family_rows(db, "substore-"@ + prefix + "-jmt-values"@);
            &&& has_nodes(db, prefix) <==> nodes is Some
            &&& has_values(db, prefix) <==> values is Some
            &&& stored_nodes(db, prefix) == contents(nodes->0)
            &&& stored_values(db, prefix) == contents(values->0)
        }),
{
}

} // verus!
