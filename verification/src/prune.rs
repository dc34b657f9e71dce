//! Pruning a substore's tree to a single version.
//!
//! A versioned tree keeps the nodes of every version. Pruning reads all
//! key-value pairs of one version and builds a fresh tree from them in another
//! database, chunk by chunk, each chunk with a range proof against the root of
//! the source. The code here decides what happens to each leaf; reading the
//! source and writing the destination is up to the caller.
use crate::codec::{
    be64, value_decoding, value_encoding, value_fits, value_row_round_trip, value_view,
};
use crate::config::PruneConfig;
use crate::copy::{FamilyWrite, FamilyWriteView};
use crate::error::PruneError;
use crate::rows::{
    family_rows, find_family, full_pieces_and_rest, full_pieces_come_first, last_row_put_stays,
    other_keys_stay, pieces, pieces_are_full_but_the_last, pieces_are_stretches,
    pieces_lose_nothing, put_rows, rows_view, same_bytes, with_last, ColumnFamily, Row, RowView,
};
use crate::tree_store::{
    encode_value_row, has_nodes, holds_value, read_value, substore_family,
    substores_share_no_family, value_row, value_row_key, value_row_key_is_injective, KeyHash,
    SubstoreConfig,
};
use vstd::prelude::*;

verus! {

/// A leaf of the tree, and what reading its key gives.
pub struct TreeLeaf {
    /// The hash of the key.
    pub key_hash: KeyHash,
    /// The value that the leaf commits to.
    pub value: Vec<u8>,
    /// The value that the read path returns at the version to prune to.
    pub read_path_value: Option<Vec<u8>>,
}

/// The bytes of a leaf.
#[verifier::ext_equal]
pub struct LeafView {
    pub key_hash: Seq<u8>,
    pub value: Seq<u8>,
    pub read_path_value: Option<Seq<u8>>,
}

impl View for TreeLeaf {
    type V = LeafView;

    open spec fn view(&self) -> LeafView {
        LeafView {
            key_hash: self.key_hash@,
            value: self.value@,
            read_path_value: value_view(self.read_path_value),
        }
    }
}

/// The bytes of each leaf of a list.
pub open spec fn leaves_view(leaves: Seq<TreeLeaf>) -> Seq<LeafView> {
    Seq::new(leaves.len(), |i: int| leaves[i]@)
}

/// The keys and values that the tree is built from.
pub open spec fn tree_entries(leaves: Seq<LeafView>) -> Seq<(Seq<u8>, Seq<u8>)> {
    Seq::new(leaves.len(), |i: int| (leaves[i].key_hash, leaves[i].value))
}

/// The bytes of keys and values.
pub open spec fn entries_view(entries: Seq<(KeyHash, Vec<u8>)>) -> Seq<(Seq<u8>, Seq<u8>)> {
    Seq::new(entries.len(), |i: int| (entries[i].0@, entries[i].1@))
}

/// Whether the read path returns another value than the leaf commits to.
pub open spec fn diverges(leaf: LeafView) -> bool {
    leaf.read_path_value != Some(leaf.value)
}

/// The keys whose leaf commits to another value than the read path returns,
/// each with what the read path returns, in the order of the leaves.
pub open spec fn overrides_of(leaves: Seq<LeafView>) -> Seq<(Seq<u8>, Option<Seq<u8>>)>
    decreases leaves.len(),
{
    if leaves.len() == 0 {
        seq![]
    } else {
        let before = overrides_of(leaves.drop_last());
        if diverges(leaves.last()) {
            before.push((leaves.last().key_hash, leaves.last().read_path_value))
        } else {
            before
        }
    }
}

/// The bytes of overrides.
pub open spec fn overrides_view(overrides: Seq<(KeyHash, Option<Vec<u8>>)>) -> Seq<
    (Seq<u8>, Option<Seq<u8>>),
> {
    Seq::new(overrides.len(), |i: int| (overrides[i].0@, value_view(overrides[i].1)))
}

/// Keys and values to add to the new tree at once.
pub struct Chunk {
    /// The last key of the chunk, up to which it has to be proved.
    pub rightmost_key: KeyHash,
    /// The keys and their values.
    pub entries: Vec<(KeyHash, Vec<u8>)>,
}

impl Chunk {
    /// The chunk has entries, and its rightmost key is the last of them.
    pub open spec fn wf(&self) -> bool {
        &&& self.entries@.len() > 0
        &&& self.rightmost_key@ == self.entries@.last().0@
    }
}

/// The entries of a chunk, if there is one.
pub open spec fn chunk_entries(chunk: Option<Chunk>) -> Option<Seq<(Seq<u8>, Seq<u8>)>> {
    match chunk {
        Some(c) => Some(entries_view(c.entries@)),
        None => None,
    }
}

/// The entries of each chunk of a list.
pub open spec fn chunks_entries(chunks: Seq<Chunk>) -> Seq<Seq<(Seq<u8>, Seq<u8>)>> {
    Seq::new(chunks.len(), |i: int| entries_view(chunks[i].entries@))
}

/// Report returned after pruning a substore.
#[derive(Debug, Clone)]
pub struct PruneReport {
    /// The root hash after pruning, which is that of the source.
    pub root: [u8; 32],
    /// The version that was pruned to.
    pub version: u64,
    /// Total number of keys processed.
    pub keys_processed: u64,
    /// Number of nodes before pruning.
    pub nodes_before: u64,
    /// Number of nodes after pruning.
    pub nodes_after: u64,
    /// Keys whose leaf commits to a *different* value than the one the read
    /// path returns at `version`.
    ///
    /// A consistent store has none. They appear when something wrote a value
    /// row without rebuilding the leaf above it. Both halves are kept: the
    /// rebuilt tree has the leaf of the source (so the root hash is
    /// unchanged), and the value row is overwritten with what the read path
    /// returns (so that the pruned store answers what the source answered).
    pub value_overrides: Vec<(KeyHash, Option<Vec<u8>>)>,
}

/// Whether the read path returns the value that the leaf commits to.
pub fn read_path_agrees(read_path_value: &Option<Vec<u8>>, value: &Vec<u8>) -> (same: bool)
    ensures
        same <==> value_view(*read_path_value) == Some(value@),
{
    match read_path_value {
        None => false,
        Some(read) => same_bytes(read.as_slice(), value.as_slice()),
    }
}

/// A pruning run. It takes the leaves of the source one by one, in the order
/// of the tree, and says when a chunk of them has to be added to the new tree.
/// The run goes on only once the tree has accepted the chunk.
pub struct Pruner {
    chunk_size: usize,
    chunk: Vec<(KeyHash, Vec<u8>)>,
    keys_processed: u64,
    value_overrides: Vec<(KeyHash, Option<Vec<u8>>)>,
    taken: Ghost<Seq<LeafView>>,
    handed: Ghost<Seq<Seq<(Seq<u8>, Seq<u8>)>>>,
}

/// What a pruning run adds up to once all leaves were taken.
pub struct PruneTotals {
    /// Total number of keys processed.
    pub keys_processed: u64,
    /// Keys whose value row has to be overwritten, with the value for it.
    pub value_overrides: Vec<(KeyHash, Option<Vec<u8>>)>,
}

/// A pruning run that waits for the new tree to accept a chunk.
pub struct AddingChunk {
    pruner: Pruner,
}

/// A pruning run that waits for the new tree to accept what is left over and
/// to be finished.
pub struct Finishing {
    totals: PruneTotals,
}

/// What comes after a leaf was taken.
pub enum LeafStep {
    /// The next leaf can be taken.
    Continue(Pruner),
    /// The chunk has to be added to the new tree first.
    AddChunk(Chunk, AddingChunk),
}

impl AddingChunk {
    /// The run once the chunk is accepted.
    pub closed spec fn pruner(&self) -> Pruner {
        self.pruner
    }

    /// Takes the outcome of adding the chunk: the run goes on if the tree
    /// accepted it, and ends with the tree's error if it refused.
    pub fn added<E>(self, outcome: Result<(), E>) -> (next: Result<Pruner, E>)
        ensures
            match outcome {
                Ok(_) => next matches Ok(pruner) && pruner == self.pruner(),
                Err(error) => next matches Err(e) && e == error,
            },
    {
        match outcome {
            Ok(_) => Ok(self.pruner),
            Err(error) => Err(error),
        }
    }
}

impl Finishing {
    /// What the run adds up to once the tree is finished.
    pub closed spec fn totals(&self) -> PruneTotals {
        self.totals
    }

    /// Takes the outcome of adding what was left over and of finishing the
    /// tree: totals if both worked, otherwise the tree's error.
    pub fn finished<E>(self, outcome: Result<(), E>) -> (end: Result<PruneTotals, E>)
        ensures
            match outcome {
                Ok(_) => end matches Ok(totals) && totals == self.totals(),
                Err(error) => end matches Err(e) && e == error,
            },
    {
        match outcome {
            Ok(_) => Ok(self.totals),
            Err(error) => Err(error),
        }
    }
}

impl Pruner {
    /// The configured number of entries per chunk.
    pub closed spec fn chunk_size(&self) -> nat {
        self.chunk_size as nat
    }

    /// The leaves taken so far.
    pub closed spec fn taken(&self) -> Seq<LeafView> {
        self.taken@
    }

    /// The entries of each chunk handed out so far.
    pub closed spec fn handed(&self) -> Seq<Seq<(Seq<u8>, Seq<u8>)>> {
        self.handed@
    }

    /// The leaves taken are those handed out, in full chunks, followed by
    /// those that wait for the next chunk; the totals are those of the leaves
    /// taken.
    pub closed spec fn wf(&self) -> bool {
        &&& tree_entries(self.taken@) == self.handed@.flatten() + entries_view(self.chunk@)
        &&& forall|i: int|
            0 <= i < self.handed@.len() ==> (#[trigger] self.handed@[i]).len() == self.chunk_size
        &&& self.chunk@.len() < self.chunk_size
        &&& self.taken@.len() == self.handed@.len() * self.chunk_size + self.chunk@.len()
        &&& self.keys_processed == self.taken@.len()
        &&& overrides_view(self.value_overrides@) == overrides_of(self.taken@)
    }

    /// Starts a run with a valid configuration.
    pub fn new(prune_config: &PruneConfig) -> (pruner: Result<Self, PruneError>)
        ensures
            pruner is Ok <==> prune_config.is_valid(),
            match pruner {
                Ok(p) => {
                    &&& p.wf()
                    &&& p.chunk_size() == prune_config.chunk_size
                    &&& p.taken() == Seq::<LeafView>::empty()
                    &&& p.handed() == Seq::<Seq<(Seq<u8>, Seq<u8>)>>::empty()
                },
                Err(error) => prune_config.refused_with(error),
            },
    {
        match prune_config.validate() {
            Err(error) => Err(error),
            Ok(_) => {
                let pruner = Pruner {
                    chunk_size: prune_config.chunk_size,
                    chunk: Vec::new(),
                    keys_processed: 0,
                    value_overrides: Vec::new(),
                    taken: Ghost(Seq::empty()),
                    handed: Ghost(Seq::empty()),
                };
                assert(tree_entries(pruner.taken@) =~= pruner.handed@.flatten() + entries_view(
                    pruner.chunk@,
                ));
                assert(overrides_view(pruner.value_overrides@) =~= overrides_of(pruner.taken@));
                Ok(pruner)
            },
        }
    }

    /// The number of leaves taken so far.
    pub fn keys_processed(&self) -> (count: u64)
        requires
            self.wf(),
        ensures
            count == self.taken().len(),
    {
        self.keys_processed
    }

    /// Takes the next leaf: its key, the value that it commits to, and what
    /// the read path returns for the key. A chunk that comes back holds the
    /// leaves taken since the one before it.
    pub fn add_leaf(
        self,
        key_hash: KeyHash,
        value: Vec<u8>,
        read_path_value: Option<Vec<u8>>,
    ) -> (step: LeafStep)
        requires
            self.wf(),
            self.taken().len() < u64::MAX,
        ensures
            ({
                let leaf = LeafView {
                    key_hash: key_hash@,
                    value: value@,
                    read_path_value: value_view(read_path_value),
                };
                let taken = self.taken().push(leaf);
                match step {
                    LeafStep::Continue(next) => {
                        &&& next.wf()
                        &&& next.chunk_size() == self.chunk_size()
                        &&& next.taken() == taken
                        &&& next.handed() == self.handed()
                        &&& taken.len() % self.chunk_size() != 0
                    },
                    LeafStep::AddChunk(chunk, adding) => {
                        &&& adding.pruner().wf()
                        &&& adding.pruner().chunk_size() == self.chunk_size()
                        &&& adding.pruner().taken() == taken
                        &&& adding.pruner().handed() == self.handed().push(
                            entries_view(chunk.entries@),
                        )
                        &&& taken.len() % self.chunk_size() == 0
                        &&& chunk.wf()
                        &&& entries_view(chunk.entries@) == tree_entries(taken).skip(
                            taken.len() - self.chunk_size(),
                        )
                    },
                }
            }),
    {
        let mut pruner = self;
        match pruner.take_leaf(key_hash, value, read_path_value) {
            Some(chunk) => LeafStep::AddChunk(chunk, AddingChunk { pruner }),
            None => LeafStep::Continue(pruner),
        }
    }

    fn take_leaf(
        &mut self,
        key_hash: KeyHash,
        value: Vec<u8>,
        read_path_value: Option<Vec<u8>>,
    ) -> (chunk: Option<Chunk>)
        requires
            old(self).wf(),
            old(self).taken().len() < u64::MAX,
        ensures
            final(self).wf(),
            final(self).chunk_size() == old(self).chunk_size(),
            final(self).taken() == old(self).taken().push(
                LeafView {
                    key_hash: key_hash@,
                    value: value@,
                    read_path_value: value_view(read_path_value),
                },
            ),
            final(self).handed() == with_last(old(self).handed(), chunk_entries(chunk)),
            chunk is Some <==> final(self).taken().len() % final(self).chunk_size() == 0,
            chunk matches Some(c) ==> c.wf(),
            chunk matches Some(c) ==> entries_view(c.entries@) == tree_entries(
                final(self).taken(),
            ).skip(final(self).taken().len() - final(self).chunk_size()),
    {
        let ghost leaf = LeafView {
            key_hash: key_hash@,
            value: value@,
            read_path_value: value_view(read_path_value),
        };
        let ghost waiting = entries_view(self.chunk@);
        let ghost earlier = overrides_view(self.value_overrides@);
        let ghost leaves = self.taken@.push(leaf);
        assert(leaves.drop_last() =~= self.taken@);
        if !read_path_agrees(&read_path_value, &value) {
            self.value_overrides.push((key_hash, read_path_value));
            assert(overrides_view(self.value_overrides@) =~= earlier.push(
                (leaf.key_hash, leaf.read_path_value),
            ));
        }
        self.chunk.push((key_hash, value));
        self.keys_processed = self.keys_processed + 1;
        self.taken = Ghost(leaves);
        assert(entries_view(self.chunk@) =~= waiting.push((leaf.key_hash, leaf.value)));
        assert(tree_entries(leaves) =~= tree_entries(old(self).taken@).push(
            (leaf.key_hash, leaf.value),
        ));
        assert(tree_entries(leaves) =~= self.handed@.flatten() + entries_view(self.chunk@));
        if self.chunk.len() == self.chunk_size {
            let mut entries: Vec<(KeyHash, Vec<u8>)> = Vec::new();
            std::mem::swap(&mut entries, &mut self.chunk);
            let ghost full = entries_view(entries@);
            proof {
                let before = self.handed@;
                let now = before.push(full);
                before.lemma_flatten_push(full);
                assert(tree_entries(leaves) =~= now.flatten() + entries_view(self.chunk@));
                assert(full =~= tree_entries(leaves).skip(leaves.len() - self.chunk_size));
                let n = self.chunk_size as int;
                let q = before.len() as int;
                assert(q * n + n == (q + 1) * n) by (nonlinear_arith);
                vstd::arithmetic::div_mod::lemma_mod_multiples_basic(q + 1, n);
            }
            self.handed = Ghost(self.handed@.push(full));
            let rightmost_key: KeyHash = entries[entries.len() - 1].0;
            Some(Chunk { rightmost_key, entries })
        } else {
            proof {
                let n = self.chunk_size as int;
                let q = self.handed@.len() as int;
                vstd::arithmetic::div_mod::lemma_fundamental_div_mod_converse_mod(
                    leaves.len() as int,
                    n,
                    q,
                    self.chunk@.len() as int,
                );
            }
            None
        }
    }

    /// Ends the run once the source has no more leaves. What is left over is a
    /// last chunk, which the tree has to accept before it is finished.
    pub fn end(self) -> (end: (Option<Chunk>, Finishing))
        requires
            self.wf(),
        ensures
            with_last(self.handed(), chunk_entries(end.0)) == pieces(
                tree_entries(self.taken()),
                self.chunk_size(),
            ),
            end.0 is Some <==> self.taken().len() % self.chunk_size() != 0,
            end.0 matches Some(c) ==> {
                &&& c.wf()
                &&& entries_view(c.entries@) == tree_entries(self.taken()).skip(
                    self.taken().len() - self.taken().len() % self.chunk_size(),
                )
            },
            end.1.totals().keys_processed == self.taken().len(),
            overrides_view(end.1.totals().value_overrides@) == overrides_of(self.taken()),
    {
        proof {
            full_pieces_and_rest(self.handed@, entries_view(self.chunk@), self.chunk_size as nat);
            vstd::arithmetic::div_mod::lemma_fundamental_div_mod_converse_mod(
                self.taken@.len() as int,
                self.chunk_size as int,
                self.handed@.len() as int,
                self.chunk@.len() as int,
            );
            assert(entries_view(self.chunk@) =~= tree_entries(self.taken@).skip(
                self.taken@.len() - self.chunk@.len(),
            ));
        }
        let totals = PruneTotals {
            keys_processed: self.keys_processed,
            value_overrides: self.value_overrides,
        };
        if self.chunk.len() == 0 {
            (None, Finishing { totals })
        } else {
            let rightmost_key: KeyHash = self.chunk[self.chunk.len() - 1].0;
            (Some(Chunk { rightmost_key, entries: self.chunk }), Finishing { totals })
        }
    }
}

/// The rows that overwrite values with what the read path returns.
pub open spec fn override_rows(overrides: Seq<(Seq<u8>, Option<Seq<u8>>)>, version: u64) -> Seq<
    RowView,
> {
    Seq::new(overrides.len(), |i: int| value_row(version, overrides[i].0, overrides[i].1))
}

/// Whether every overriding value can be written.
pub open spec fn overrides_fit(overrides: Seq<(Seq<u8>, Option<Seq<u8>>)>) -> bool {
    forall|i: int| 0 <= i < overrides.len() ==> value_fits((#[trigger] overrides[i]).1)
}

impl PruneTotals {
    /// The rows that re-apply the read-path values on top of the value rows of
    /// the new tree. The nodes are already written, so this changes no hash.
    pub fn override_rows(&self, version: u64) -> (rows: Result<Vec<Row>, PruneError>)
        ensures
            rows is Ok <==> overrides_fit(overrides_view(self.value_overrides@)),
            match rows {
                Ok(r) => rows_view(r@) == override_rows(
                    overrides_view(self.value_overrides@),
                    version,
                ),
                Err(error) => error is Encode,
            },
    {
        let ghost overrides = overrides_view(self.value_overrides@);
        let ghost all = override_rows(overrides, version);
        let mut rows: Vec<Row> = Vec::new();
        let mut i: usize = 0;
        assert(rows_view(rows@) =~= all.take(0));
        while i < self.value_overrides.len()
            invariant
                i <= self.value_overrides@.len(),
                overrides == overrides_view(self.value_overrides@),
                all == override_rows(overrides, version),
                rows_view(rows@) == all.take(i as int),
                forall|j: int| 0 <= j < i ==> value_fits((#[trigger] overrides[j]).1),
            decreases self.value_overrides@.len() - i,
        {
            let entry = &self.value_overrides[i];
            assert(overrides[i as int] == (entry.0@, value_view(entry.1)));
            match encode_value_row(version, &entry.0, &entry.1) {
                Ok(row) => {
                    let ghost before = rows_view(rows@);
                    rows.push(row);
                    assert(rows_view(rows@) =~= before.push(all[i as int]));
                },
                Err(error) => {
                    return Err(error);
                },
            }
            assert(all.take(i + 1) =~= all.take(i as int).push(all[i as int]));
            i = i + 1;
        }
        assert(all.take(i as int) =~= all);
        Ok(rows)
    }

    /// The report of the run, given the root hash of the source, the version,
    /// and the numbers of nodes in the source and in the destination.
    pub fn report(self, root: [u8; 32], version: u64, nodes_before: u64, nodes_after: u64) -> (
    report: PruneReport)
        ensures
            report.root == root,
            report.version == version,
            report.keys_processed == self.keys_processed,
            report.nodes_before == nodes_before,
            report.nodes_after == nodes_after,
            report.value_overrides == self.value_overrides,
    {
        PruneReport {
            root,
            version,
            keys_processed: self.keys_processed,
            nodes_before,
            nodes_after,
            value_overrides: self.value_overrides,
        }
    }
}

/// The number of tree nodes of a substore.
pub open spec fn node_count(db: Seq<ColumnFamily>, prefix: Seq<char>) -> nat {
    (family_rows(db, substore_family(prefix, "-jmt"@))->0).len()
}

/// Counts the number of tree nodes in a substore.
pub fn count_nodes(db: &[ColumnFamily], config: &SubstoreConfig) -> (count: u64)
    requires
        has_nodes(db@, config.prefix@),
    ensures
        count == node_count(db@, config.prefix@),
{
    let name: String = config.cf_jmt();
    let position: usize = find_family(db, &name).unwrap();
    db[position].rows.len() as u64
}

/// What a substore holds at the version to prune to.
pub struct SubstoreSnapshot {
    /// The root hash of the tree.
    pub root_hash: [u8; 32],
    /// The leaves in the order of their keys.
    pub leaves: Vec<TreeLeaf>,
}

/// Where building the new tree fails: at adding the chunk of that number, or,
/// if this is the number of chunks, at finishing the tree.
pub struct Refusal {
    /// How many chunks were added before.
    pub step: usize,
    /// The error of the tree.
    pub reason: String,
}

/// Whether building a tree of that many chunks fails.
pub open spec fn refuses(refusal: Option<Refusal>, chunks: nat) -> bool {
    refusal matches Some(r) && r.step <= chunks
}

/// The error of a step of building the tree, if this is where it fails.
fn refused_at(refusal: &Option<Refusal>, step: usize) -> (outcome: Result<(), PruneError>)
    ensures
        match *refusal {
            Some(r) if r.step == step => {
                outcome matches Err(PruneError::Refused(reason)) && reason@ == r.reason@
            },
            _ => outcome is Ok,
        },
{
    match refusal {
        Some(r) => if r.step == step {
            Err(PruneError::Refused(r.reason.clone()))
        } else {
            Ok(())
        },
        None => Ok(()),
    }
}

/// What pruning a substore did.
pub struct PruneRun {
    /// The chunks that were handed to the new tree, in order. If the tree
    /// refused one, it is the last of them.
    pub chunks: Vec<Chunk>,
    /// The rows that were written over those of the new tree, and the report;
    /// neither if the tree refused a chunk or could not be finished.
    pub result: Result<(FamilyWrite, PruneReport), PruneError>,
}

/// Whether this is what pruning the substore of that prefix has to do.
///
/// The new tree is built from the keys and values of the leaves, in chunks of
/// the configured size; then the values that the read path does not return
/// are overwritten with those that it does. A refused chunk ends the run with
/// the error of the tree: nothing is overwritten, and there is no report.
pub open spec fn is_prune_run(
    run: PruneRun,
    old_db: Seq<ColumnFamily>,
    snapshot: SubstoreSnapshot,
    new_db: Seq<ColumnFamily>,
    refusal: Option<Refusal>,
    prefix: Seq<char>,
    version: u64,
    prune_config: PruneConfig,
) -> bool {
    let leaves = leaves_view(snapshot.leaves@);
    let overrides = overrides_of(leaves);
    let all = pieces(tree_entries(leaves), prune_config.chunk_size as nat);
    if !prune_config.is_valid() {
        &&& run.chunks@.len() == 0
        &&& run.result matches Err(error)
        &&& prune_config.refused_with(error)
    } else if refuses(refusal, all.len()) {
        let step = refusal->0.step as int;
        &&& chunks_entries(run.chunks@) == if step < all.len() {
            all.take(step + 1)
        } else {
            all
        }
        &&& forall|i: int| 0 <= i < run.chunks@.len() ==> (#[trigger] run.chunks@[i]).wf()
        &&& run.result matches Err(PruneError::Refused(reason))
        &&& reason@ == refusal->0.reason@
    } else {
        &&& chunks_entries(run.chunks@) == all
        &&& forall|i: int| 0 <= i < run.chunks@.len() ==> (#[trigger] run.chunks@[i]).wf()
        &&& run.result is Ok <==> overrides_fit(overrides)
        &&& match run.result {
            Ok((written, report)) => {
                &&& written@ == FamilyWriteView {
                    family: substore_family(prefix, "-jmt-values"@),
                    rows: override_rows(overrides, version),
                }
                &&& report.root == snapshot.root_hash
                &&& report.version == version
                &&& report.keys_processed == leaves.len()
                &&& report.nodes_before == node_count(old_db, prefix)
                &&& report.nodes_after == node_count(new_db, prefix)
                &&& overrides_view(report.value_overrides@) == overrides
            },
            Err(error) => error is Encode,
        }
    }
}

fn clone_value(value: &Option<Vec<u8>>) -> (copy: Option<Vec<u8>>)
    ensures
        value_view(copy) == value_view(*value),
{
    match value {
        Some(bytes) => {
            let copy: Vec<u8> = bytes.clone();
            assert(copy@ =~= bytes@);
            Some(copy)
        },
        None => None,
    }
}

/// Prunes a substore's tree to a single version.
///
/// All key-value pairs of the source at that version go to a fresh tree in
/// the destination. `new_db` is what the destination holds once its tree is
/// built, and `refusal` says where building it fails, if it does.
pub fn prune_substore(
    old_db: &[ColumnFamily],
    old_snapshot: &SubstoreSnapshot,
    new_db: &[ColumnFamily],
    refusal: &Option<Refusal>,
    config: &SubstoreConfig,
    version: u64,
    prune_config: &PruneConfig,
) -> (run: PruneRun)
    requires
        prune_config.is_valid() ==> has_nodes(old_db@, config.prefix@),
        prune_config.is_valid() ==> has_nodes(new_db@, config.prefix@),
    ensures
        is_prune_run(
            run,
            old_db@,
            *old_snapshot,
            new_db@,
            *refusal,
            config.prefix@,
            version,
            *prune_config,
        ),
{
    let mut chunks: Vec<Chunk> = Vec::new();
    let mut pruner = match Pruner::new(prune_config) {
        Ok(pruner) => pruner,
        Err(error) => {
            return PruneRun { chunks, result: Err(error) };
        },
    };
    let nodes_before: u64 = count_nodes(old_db, config);
    let ghost leaves = leaves_view(old_snapshot.leaves@);
    let ghost n = prune_config.chunk_size as nat;
    let ghost all = pieces(tree_entries(leaves), n);
    let mut i: usize = 0;
    assert(leaves.take(0) =~= Seq::<LeafView>::empty());
    assert(chunks_entries(chunks@) =~= pruner.handed());
    while i < old_snapshot.leaves.len()
        invariant
            i <= old_snapshot.leaves@.len(),
            leaves == leaves_view(old_snapshot.leaves@),
            prune_config.is_valid(),
            n == prune_config.chunk_size,
            all == pieces(tree_entries(leaves), n),
            pruner.wf(),
            pruner.chunk_size() == n,
            pruner.taken() == leaves.take(i as int),
            chunks_entries(chunks@) == pruner.handed(),
            forall|j: int| 0 <= j < chunks@.len() ==> (#[trigger] chunks@[j]).wf(),
            refusal matches Some(r) ==> r.step >= chunks@.len(),
        decreases old_snapshot.leaves@.len() - i,
    {
        let leaf = &old_snapshot.leaves[i];
        let value: Vec<u8> = leaf.value.clone();
        assert(value@ =~= leaf.value@);
        let read_path_value = clone_value(&leaf.read_path_value);
        assert(leaves.take(i + 1) =~= leaves.take(i as int).push(leaves[i as int]));
        pruner = match pruner.add_leaf(leaf.key_hash, value, read_path_value) {
            LeafStep::Continue(next) => next,
            LeafStep::AddChunk(chunk, adding) => {
                let ghost before = chunks@;
                let step: usize = chunks.len();
                chunks.push(chunk);
                assert(chunks_entries(chunks@) =~= chunks_entries(before).push(
                    entries_view(chunk.entries@),
                ));
                match adding.added(refused_at(refusal, step)) {
                    Ok(next) => next,
                    Err(error) => {
                        proof {
                            chunks_so_far(adding.pruner(), leaves, i + 1);
                        }
                        return PruneRun { chunks, result: Err(error) };
                    },
                }
            },
        };
        i = i + 1;
    }
    assert(leaves.take(i as int) =~= leaves);
    let ghost before = chunks@;
    let (last, finishing) = pruner.end();
    let mut outcome: Result<(), PruneError> = Ok(());
    if let Some(chunk) = last {
        let step: usize = chunks.len();
        chunks.push(chunk);
        assert(chunks_entries(chunks@) =~= chunks_entries(before).push(
            entries_view(chunk.entries@),
        ));
        outcome = refused_at(refusal, step);
    }
    if outcome.is_ok() {
        outcome = refused_at(refusal, chunks.len());
    }
    assert(chunks_entries(chunks@) == all);
    assert(all.take(all.len() as int) =~= all);
    assert(chunks@.len() == all.len());
    let totals = match finishing.finished(outcome) {
        Ok(totals) => totals,
        Err(error) => {
            return PruneRun { chunks, result: Err(error) };
        },
    };
    match totals.override_rows(version) {
        Err(error) => PruneRun { chunks, result: Err(error) },
        Ok(rows) => {
            let written = FamilyWrite { family: config.cf_jmt_values(), rows };
            let nodes_after: u64 = count_nodes(new_db, config);
            let report = totals.report(
                old_snapshot.root_hash,
                version,
                nodes_before,
                nodes_after,
            );
            PruneRun { chunks, result: Ok((written, report)) }
        },
    }
}

/// The chunks handed out before the source ends are the first ones of the
/// whole tree.
proof fn chunks_so_far(pruner: Pruner, leaves: Seq<LeafView>, k: int)
    requires
        pruner.wf(),
        0 <= k <= leaves.len(),
        pruner.taken() == leaves.take(k),
        pruner.taken().len() % pruner.chunk_size() == 0,
    ensures
        ({
            let all = pieces(tree_entries(leaves), pruner.chunk_size());
            &&& pruner.handed().len() <= all.len()
            &&& pruner.handed() == all.take(pruner.handed().len() as int)
        }),
{
    let n = pruner.chunk_size();
    let full = pruner.handed();
    vstd::arithmetic::div_mod::lemma_fundamental_div_mod_converse_mod(
        k,
        n as int,
        full.len() as int,
        pruner.chunk@.len() as int,
    );
    let rest = tree_entries(leaves).skip(k);
    assert(entries_view(pruner.chunk@).len() == 0);
    assert(tree_entries(leaves) =~= full.flatten() + rest) by {
        assert(tree_entries(leaves.take(k)) =~= tree_entries(leaves).take(k));
        assert(full.flatten() =~= full.flatten() + entries_view(pruner.chunk@));
    }
    full_pieces_come_first(full, rest, n);
    let all = pieces(tree_entries(leaves), n);
    assert(full =~= all.take(full.len() as int));
}

/// Prunes the main store's tree to a single version.
///
/// This is [`prune_substore`] for the main store (empty prefix).
pub fn prune_main_substore(
    old_db: &[ColumnFamily],
    old_snapshot: &SubstoreSnapshot,
    new_db: &[ColumnFamily],
    refusal: &Option<Refusal>,
    version: u64,
    prune_config: &PruneConfig,
) -> (run: PruneRun)
    requires
        prune_config.is_valid() ==> has_nodes(old_db@, ""@),
        prune_config.is_valid() ==> has_nodes(new_db@, ""@),
    ensures
        is_prune_run(
            run,
            old_db@,
            *old_snapshot,
            new_db@,
            *refusal,
            ""@,
            version,
            *prune_config,
        ),
{
    let main_store_config = SubstoreConfig::new("");
    prune_substore(
        old_db,
        old_snapshot,
        new_db,
        refusal,
        &main_store_config,
        version,
        prune_config,
    )
}

/// A store whose read path returns what the leaves commit to has nothing to
/// override.
pub proof fn consistent_store_has_no_overrides(leaves: Seq<LeafView>)
    requires
        forall|i: int| 0 <= i < leaves.len() ==> !diverges(#[trigger] leaves[i]),
    ensures
        overrides_of(leaves).len() == 0,
    decreases leaves.len(),
{
    if leaves.len() > 0 {
        let front = leaves.drop_last();
        assert forall|i: int| 0 <= i < front.len() implies !diverges(#[trigger] front[i]) by {
            assert(front[i] == leaves[i]);
        }
        assert(!diverges(leaves[leaves.len() - 1]));
        consistent_store_has_no_overrides(front);
    }
}

/// A key is overridden exactly when its leaf and the read path disagree, and
/// then with what the read path returns.
pub proof fn overrides_are_the_diverging_leaves(
    leaves: Seq<LeafView>,
    key_hash: Seq<u8>,
    value: Option<Seq<u8>>,
)
    ensures
        overrides_of(leaves).contains((key_hash, value)) <==> exists|i: int|
            0 <= i < leaves.len() && diverges(#[trigger] leaves[i]) && leaves[i].key_hash
                == key_hash && leaves[i].read_path_value == value,
    decreases leaves.len(),
{
    let all = overrides_of(leaves);
    if leaves.len() > 0 {
        let front = leaves.drop_last();
        let before = overrides_of(front);
        let n = leaves.len() - 1;
        overrides_are_the_diverging_leaves(front, key_hash, value);
        if all.contains((key_hash, value)) {
            if before.contains((key_hash, value)) {
                let i: int = choose|i: int|
                    0 <= i < front.len() && diverges(#[trigger] front[i]) && front[i].key_hash
                        == key_hash && front[i].read_path_value == value;
                assert(leaves[i] == front[i]);
            } else {
                let k: int = choose|k: int| 0 <= k < all.len() && all[k] == (key_hash, value);
                if k < before.len() {
                    assert(before[k] == (key_hash, value));
                }
                assert(diverges(leaves[n]));
            }
        }
        if exists|i: int|
            0 <= i < leaves.len() && diverges(#[trigger] leaves[i]) && leaves[i].key_hash
                == key_hash && leaves[i].read_path_value == value {
            let i: int = choose|i: int|
                0 <= i < leaves.len() && diverges(#[trigger] leaves[i]) && leaves[i].key_hash
                    == key_hash && leaves[i].read_path_value == value;
            if i < n {
                assert(front[i] == leaves[i]);
                let k: int = choose|k: int|
                    0 <= k < before.len() && before[k] == (key_hash, value);
                assert(all[k] == (key_hash, value));
            } else {
                assert(all[all.len() - 1] == (key_hash, value));
            }
        }
    }
}

/// The value rows of a tree that was built from these leaves.
pub open spec fn restored_rows(leaves: Seq<LeafView>, version: u64) -> Seq<RowView> {
    Seq::new(
        leaves.len(),
        |i: int| value_row(version, leaves[i].key_hash, Some(leaves[i].value)),
    )
}

/// What the column family of the values holds after pruning: the values of
/// the new tree, then the overrides.
pub open spec fn pruned_values(
    values: Map<Seq<u8>, Seq<u8>>,
    leaves: Seq<LeafView>,
    version: u64,
) -> Map<Seq<u8>, Seq<u8>> {
    put_rows(
        put_rows(values, restored_rows(leaves, version)),
        override_rows(overrides_of(leaves), version),
    )
}

/// Whether no two leaves have the same key.
pub open spec fn distinct_keys(leaves: Seq<LeafView>) -> bool {
    forall|i: int, j: int|
        0 <= i < j < leaves.len() ==> (#[trigger] leaves[i]).key_hash != (
        #[trigger] leaves[j]).key_hash
}

proof fn overrides_leave_others(
    values: Map<Seq<u8>, Seq<u8>>,
    leaves: Seq<LeafView>,
    version: u64,
    key: Seq<u8>,
)
    requires
        forall|j: int|
            0 <= j < leaves.len() ==> value_row_key((#[trigger] leaves[j]).key_hash, version)
                != key,
    ensures
        ({
            let after = put_rows(values, override_rows(overrides_of(leaves), version));
            after.contains_key(key) == values.contains_key(key) && after[key] == values[key]
        }),
{
    let overrides = overrides_of(leaves);
    let rows = override_rows(overrides, version);
    assert forall|j: int| 0 <= j < rows.len() implies (#[trigger] rows[j]).key != key by {
        assert(overrides.contains(overrides[j]));
        overrides_are_the_diverging_leaves(leaves, overrides[j].0, overrides[j].1);
    }
    other_keys_stay(values, rows, key);
}

proof fn overrides_of_leaf(
    values: Map<Seq<u8>, Seq<u8>>,
    leaves: Seq<LeafView>,
    version: u64,
    i: int,
)
    requires
        0 <= i < leaves.len(),
        distinct_keys(leaves),
    ensures
        ({
            let after = put_rows(values, override_rows(overrides_of(leaves), version));
            let key = value_row_key(leaves[i].key_hash, version);
            if diverges(leaves[i]) {
                &&& after.contains_key(key)
                &&& after[key] == value_encoding(leaves[i].read_path_value)
            } else {
                &&& after.contains_key(key) == values.contains_key(key)
                &&& after[key] == values[key]
            }
        }),
    decreases leaves.len(),
{
    let key = value_row_key(leaves[i].key_hash, version);
    let front = leaves.drop_last();
    let last = leaves.last();
    let rows = override_rows(overrides_of(leaves), version);
    let earlier = override_rows(overrides_of(front), version);
    if diverges(last) {
        assert(rows.drop_last() =~= earlier);
        assert(rows.last() == value_row(version, last.key_hash, last.read_path_value));
    } else {
        assert(rows =~= earlier);
    }
    if i < leaves.len() - 1 {
        assert(front[i] == leaves[i]);
        assert(leaves[i].key_hash != leaves[leaves.len() - 1].key_hash);
        if value_row_key(last.key_hash, version) == key {
            value_row_key_is_injective(last.key_hash, version, leaves[i].key_hash, version);
        }
        overrides_of_leaf(values, front, version, i);
    } else {
        assert forall|j: int| 0 <= j < front.len() implies value_row_key(
            (#[trigger] front[j]).key_hash,
            version,
        ) != key by {
            assert(front[j] == leaves[j]);
            assert(leaves[j].key_hash != leaves[i].key_hash);
            if value_row_key(front[j].key_hash, version) == key {
                value_row_key_is_injective(front[j].key_hash, version, leaves[i].key_hash, version);
            }
        }
        overrides_leave_others(values, front, version, key);
    }
}

/// The pruned store reads what the source read: for every key of the tree,
/// reading its value at the version that was pruned to gives what the read
/// path of the source returned, even where the leaf commits to another value.
pub proof fn pruned_store_reads_what_the_source_read(
    values: Map<Seq<u8>, Seq<u8>>,
    leaves: Seq<LeafView>,
    version: u64,
    i: int,
)
    requires
        0 <= i < leaves.len(),
        distinct_keys(leaves),
        value_fits(Some(leaves[i].value)),
        value_fits(leaves[i].read_path_value),
    ensures
        ({
            let pruned = pruned_values(values, leaves, version);
            let (key_hash, read) = (leaves[i].key_hash, leaves[i].read_path_value);
            &&& holds_value(pruned, key_hash, version, read)
            &&& read_value(pruned, key_hash, version) == Some(read)
        }),
{
    let key = value_row_key(leaves[i].key_hash, version);
    let rows = restored_rows(leaves, version);
    let restored = put_rows(values, rows);
    assert forall|j: int| i < j < rows.len() implies (#[trigger] rows[j]).key != rows[i].key by {
        assert(leaves[i].key_hash != leaves[j].key_hash);
        if rows[j].key == rows[i].key {
            value_row_key_is_injective(leaves[j].key_hash, version, leaves[i].key_hash, version);
        }
    }
    last_row_put_stays(values, rows, i);
    overrides_of_leaf(restored, leaves, version, i);
    value_row_round_trip(leaves[i].read_path_value);
    value_row_round_trip(Some(leaves[i].value));
}

/// Pruning writes no value row but those of the tree's keys at the version
/// that is pruned to.
pub proof fn pruning_leaves_other_rows_alone(
    values: Map<Seq<u8>, Seq<u8>>,
    leaves: Seq<LeafView>,
    version: u64,
    key: Seq<u8>,
)
    requires
        forall|j: int|
            0 <= j < leaves.len() ==> value_row_key((#[trigger] leaves[j]).key_hash, version)
                != key,
    ensures
        pruned_values(values, leaves, version).contains_key(key) == values.contains_key(key),
        pruned_values(values, leaves, version)[key] == values[key],
{
    let rows = restored_rows(leaves, version);
    assert forall|j: int| 0 <= j < rows.len() implies (#[trigger] rows[j]).key != key by {
        assert(value_row_key(leaves[j].key_hash, version) != key);
    }
    other_keys_stay(values, rows, key);
    overrides_leave_others(put_rows(values, rows), leaves, version, key);
}

/// Whether the tree refused a chunk of a run, or could not be finished.
pub open spec fn was_refused(run: PruneRun) -> bool {
    run.result matches Err(error) && error is Refused
}

/// Whatever the chunk size, the chunks of a run whose tree was built hold every
/// key and value of the tree exactly once and in order. None of them is empty,
/// and all but the last have the configured size.
pub proof fn chunks_hold_the_whole_tree(
    run: PruneRun,
    old_db: Seq<ColumnFamily>,
    snapshot: SubstoreSnapshot,
    new_db: Seq<ColumnFamily>,
    refusal: Option<Refusal>,
    prefix: Seq<char>,
    version: u64,
    prune_config: PruneConfig,
)
    requires
        prune_config.is_valid(),
        is_prune_run(run, old_db, snapshot, new_db, refusal, prefix, version, prune_config),
        !was_refused(run),
    ensures
        chunks_entries(run.chunks@).flatten() == tree_entries(leaves_view(snapshot.leaves@)),
        forall|i: int|
            0 <= i < run.chunks@.len() ==> 0 < (#[trigger] run.chunks@[i]).entries@.len()
                <= prune_config.chunk_size,
        forall|i: int|
            0 <= i < run.chunks@.len() - 1 ==> (#[trigger] run.chunks@[i]).entries@.len()
                == prune_config.chunk_size,
{
    let entries = tree_entries(leaves_view(snapshot.leaves@));
    let n = prune_config.chunk_size as nat;
    pieces_lose_nothing(entries, n);
    assert forall|i: int| 0 <= i < run.chunks@.len() implies 0 < (
    #[trigger] run.chunks@[i]).entries@.len() <= n && (i < run.chunks@.len() - 1
        ==> run.chunks@[i].entries@.len() == n) by {
        assert(chunks_entries(run.chunks@)[i].len() == run.chunks@[i].entries@.len());
        pieces_are_full_but_the_last(entries, n, i);
    }
}

/// A chunk that the tree refuses ends the run: the chunks before it are those
/// of a run that is not refused, and nothing is written or reported.
pub proof fn a_refused_chunk_ends_the_run(
    refused: PruneRun,
    full: PruneRun,
    old_db: Seq<ColumnFamily>,
    snapshot: SubstoreSnapshot,
    new_db: Seq<ColumnFamily>,
    refusal: Refusal,
    prefix: Seq<char>,
    version: u64,
    prune_config: PruneConfig,
)
    requires
        prune_config.is_valid(),
        is_prune_run(
            refused,
            old_db,
            snapshot,
            new_db,
            Some(refusal),
            prefix,
            version,
            prune_config,
        ),
        is_prune_run(full, old_db, snapshot, new_db, None, prefix, version, prune_config),
        refusal.step < full.chunks@.len(),
    ensures
        chunks_entries(refused.chunks@) == chunks_entries(full.chunks@).take(refusal.step + 1),
        refused.result matches Err(PruneError::Refused(reason)) && reason@ == refusal.reason@,
{
    assert(chunks_entries(full.chunks@).len() == full.chunks@.len());
}

/// After a successful run the pruned store reads what the source read: once
/// the values of the new tree are in place and the rows of the run are written
/// over them, every key of the tree has a value row at the version that was
/// pruned to, and reads as it did at the source.
pub proof fn a_run_keeps_what_is_read(
    run: PruneRun,
    old_db: Seq<ColumnFamily>,
    snapshot: SubstoreSnapshot,
    new_db: Seq<ColumnFamily>,
    refusal: Option<Refusal>,
    prefix: Seq<char>,
    version: u64,
    prune_config: PruneConfig,
    values: Map<Seq<u8>, Seq<u8>>,
    i: int,
)
    requires
        is_prune_run(run, old_db, snapshot, new_db, refusal, prefix, version, prune_config),
        run.result is Ok,
        0 <= i < snapshot.leaves@.len(),
        distinct_keys(leaves_view(snapshot.leaves@)),
        value_fits(Some(snapshot.leaves@[i].value@)),
    ensures
        ({
            let leaf = leaves_view(snapshot.leaves@)[i];
            let pruned = values_after(run, snapshot, version, values);
            &&& holds_value(pruned, leaf.key_hash, version, leaf.read_path_value)
            &&& read_value(pruned, leaf.key_hash, version) == Some(leaf.read_path_value)
        }),
{
    let leaves = leaves_view(snapshot.leaves@);
    let overrides = overrides_of(leaves);
    let leaf = leaves[i];
    if diverges(leaf) {
        overrides_are_the_diverging_leaves(leaves, leaf.key_hash, leaf.read_path_value);
        let k: int = choose|k: int|
            0 <= k < overrides.len() && overrides[k] == (leaf.key_hash, leaf.read_path_value);
        assert(value_fits(overrides[k].1));
    }
    pruned_store_reads_what_the_source_read(values, leaves, version, i);
}

/// What the column family of the values holds after a successful run, if it
/// held `values` before: the values of the new tree, then the rows of the run.
pub open spec fn values_after(
    run: PruneRun,
    snapshot: SubstoreSnapshot,
    version: u64,
    values: Map<Seq<u8>, Seq<u8>>,
) -> Map<Seq<u8>, Seq<u8>> {
    put_rows(
        put_rows(values, restored_rows(leaves_view(snapshot.leaves@), version)),
        run.result->Ok_0.0@.rows,
    )
}

/// The chunk size decides only how the tree is cut into chunks: runs with
/// other chunk sizes succeed alike, write the same rows and report the same.
pub proof fn chunk_size_changes_only_the_chunks(
    a: PruneRun,
    b: PruneRun,
    old_db: Seq<ColumnFamily>,
    snapshot: SubstoreSnapshot,
    new_db: Seq<ColumnFamily>,
    refusal_a: Option<Refusal>,
    refusal_b: Option<Refusal>,
    prefix: Seq<char>,
    version: u64,
    config_a: PruneConfig,
    config_b: PruneConfig,
)
    requires
        config_a.is_valid(),
        config_b.is_valid(),
        is_prune_run(a, old_db, snapshot, new_db, refusal_a, prefix, version, config_a),
        is_prune_run(b, old_db, snapshot, new_db, refusal_b, prefix, version, config_b),
        !was_refused(a),
        !was_refused(b),
    ensures
        chunks_entries(a.chunks@).flatten() == chunks_entries(b.chunks@).flatten(),
        a.result is Ok == b.result is Ok,
        a.result is Ok ==> {
            let (rows_a, report_a) = a.result->Ok_0;
            let (rows_b, report_b) = b.result->Ok_0;
            &&& rows_a@ == rows_b@
            &&& report_a.root == report_b.root
            &&& report_a.version == report_b.version
            &&& report_a.keys_processed == report_b.keys_processed
            &&& report_a.nodes_before == report_b.nodes_before
            &&& report_a.nodes_after == report_b.nodes_after
            &&& overrides_view(report_a.value_overrides@) == overrides_view(
                report_b.value_overrides@,
            )
        },
{
    chunks_hold_the_whole_tree(
        a,
        old_db,
        snapshot,
        new_db,
        refusal_a,
        prefix,
        version,
        config_a,
    );
    chunks_hold_the_whole_tree(
        b,
        old_db,
        snapshot,
        new_db,
        refusal_b,
        prefix,
        version,
        config_b,
    );
}

/// Whether a snapshot is what a pruned store gives at the version that was
/// pruned to: the tree of the source, with the reads of the pruned values.
pub open spec fn is_pruned_snapshot(
    pruned: SubstoreSnapshot,
    source: SubstoreSnapshot,
    values: Map<Seq<u8>, Seq<u8>>,
    version: u64,
) -> bool {
    &&& pruned.root_hash == source.root_hash
    &&& tree_entries(leaves_view(pruned.leaves@)) == tree_entries(leaves_view(source.leaves@))
    &&& forall|i: int|
        0 <= i < pruned.leaves@.len() ==> read_value(
            values,
            (#[trigger] pruned.leaves@[i])@.key_hash,
            version,
        ) == Some(pruned.leaves@[i]@.read_path_value)
}

/// Pruning a pruned store changes nothing. A second run, from the first run's
/// destination into a third database and with any valid configuration, hands
/// the same entries to the tree, writes the same rows over it and reports the
/// same root, the same number of keys and the same overrides: none if the first
/// run had none. Over the same column family both leave the same value rows.
/// It starts from the nodes that the first run left, and ends with as many if
/// the tree builds as many from the same entries.
pub proof fn pruning_again_changes_nothing(
    first: PruneRun,
    again: PruneRun,
    source_db: Seq<ColumnFamily>,
    source: SubstoreSnapshot,
    pruned_db: Seq<ColumnFamily>,
    pruned: SubstoreSnapshot,
    third_db: Seq<ColumnFamily>,
    first_refusal: Option<Refusal>,
    again_refusal: Option<Refusal>,
    prefix: Seq<char>,
    version: u64,
    first_config: PruneConfig,
    again_config: PruneConfig,
    values: Map<Seq<u8>, Seq<u8>>,
)
    requires
        first_config.is_valid(),
        again_config.is_valid(),
        is_prune_run(
            first,
            source_db,
            source,
            pruned_db,
            first_refusal,
            prefix,
            version,
            first_config,
        ),
        is_prune_run(
            again,
            pruned_db,
            pruned,
            third_db,
            again_refusal,
            prefix,
            version,
            again_config,
        ),
        first.result is Ok,
        !was_refused(again),
        distinct_keys(leaves_view(source.leaves@)),
        forall|i: int|
            0 <= i < source.leaves@.len() ==> value_fits(
                Some((#[trigger] source.leaves@[i]).value@),
            ),
        is_pruned_snapshot(pruned, source, values_after(first, source, version, values), version),
    ensures
        again.result is Ok,
        chunks_entries(again.chunks@).flatten() == chunks_entries(first.chunks@).flatten(),
        ({
            let (first_rows, first_report) = first.result->Ok_0;
            let (again_rows, again_report) = again.result->Ok_0;
            &&& again_rows@ == first_rows@
            &&& again_report.root == first_report.root
            &&& again_report.version == first_report.version
            &&& again_report.keys_processed == first_report.keys_processed
            &&& again_report.nodes_before == first_report.nodes_after
            &&& node_count(third_db, prefix) == node_count(pruned_db, prefix)
                ==> again_report.nodes_after == first_report.nodes_after
            &&& overrides_view(again_report.value_overrides@) == overrides_view(
                first_report.value_overrides@,
            )
            &&& first_report.value_overrides@.len() == 0
                ==> again_report.value_overrides@.len() == 0
        }),
        forall|other: Map<Seq<u8>, Seq<u8>>| #[trigger]
            values_after(again, pruned, version, other) == values_after(
                first,
                source,
                version,
                other,
            ),
{
    let a = leaves_view(source.leaves@);
    let b = leaves_view(pruned.leaves@);
    assert(tree_entries(a).len() == tree_entries(b).len());
    assert forall|i: int| 0 <= i < a.len() implies a[i] == b[i] by {
        assert(tree_entries(a)[i] == tree_entries(b)[i]);
        a_run_keeps_what_is_read(
            first,
            source_db,
            source,
            pruned_db,
            first_refusal,
            prefix,
            version,
            first_config,
            values,
            i,
        );
        assert(pruned.leaves@[i]@ == b[i]);
        assert(a[i] =~= b[i]);
    }
    assert(a =~= b);
    chunks_hold_the_whole_tree(
        first,
        source_db,
        source,
        pruned_db,
        first_refusal,
        prefix,
        version,
        first_config,
    );
    chunks_hold_the_whole_tree(
        again,
        pruned_db,
        pruned,
        third_db,
        again_refusal,
        prefix,
        version,
        again_config,
    );
    let overrides = overrides_view(first.result->Ok_0.1.value_overrides@);
    assert(overrides.len() == first.result->Ok_0.1.value_overrides@.len());
    assert(overrides.len() == again.result->Ok_0.1.value_overrides@.len()) by {
        assert(overrides_view(again.result->Ok_0.1.value_overrides@) == overrides);
    }
}

/// The views of leaves, entries, overrides and chunks are made of their bytes.
pub proof fn views_keep_the_bytes(
    leaves: Seq<TreeLeaf>,
    entries: Seq<(KeyHash, Vec<u8>)>,
    overrides: Seq<(KeyHash, Option<Vec<u8>>)>,
    chunks: Seq<Chunk>,
)
    ensures
        leaves_view(leaves).len() == leaves.len(),
        forall|i: int|
            0 <= i < leaves.len() ==> {
                let leaf = #[trigger] leaves_view(leaves)[i];
                &&& leaf.key_hash == leaves[i].key_hash@
                &&& leaf.value == leaves[i].value@
                &&& leaf.read_path_value is Some <==> leaves[i].read_path_value is Some
                &&& leaf.read_path_value is Some ==> leaf.read_path_value->0
                    == leaves[i].read_path_value->0@
            },
        entries_view(entries).len() == entries.len(),
        forall|i: int|
            0 <= i < entries.len() ==> #[trigger] entries_view(entries)[i] == (
                entries[i].0@,
                entries[i].1@,
            ),
        overrides_view(overrides).len() == overrides.len(),
        forall|i: int|
            0 <= i < overrides.len() ==> {
                let (key_hash, value) = #[trigger] overrides_view(overrides)[i];
                &&& key_hash == overrides[i].0@
                &&& value is Some <==> overrides[i].1 is Some
                &&& value is Some ==> value->0 == overrides[i].1->0@
            },
        chunks_entries(chunks).len() == chunks.len(),
        forall|i: int|
            0 <= i < chunks.len() ==> #[trigger] chunks_entries(chunks)[i] == entries_view(
                chunks[i].entries@,
            ),
        forall|i: int|
            0 <= i < leaves.len() ==> #[trigger] tree_entries(leaves_view(leaves))[i] == (
                leaves[i].key_hash@,
                leaves[i].value@,
            ),
        tree_entries(leaves_view(leaves)).len() == leaves.len(),
{
}

/// Overrides are decided leaf by leaf, in the order of the leaves: a leaf whose
/// value is what the read path returns has none, any other has one, with what
/// the read path returns.
pub proof fn overrides_are_decided_leaf_by_leaf(
    a: Seq<LeafView>,
    b: Seq<LeafView>,
    leaf: LeafView,
)
    ensures
        overrides_of(seq![]).len() == 0,
        leaf.read_path_value == Some(leaf.value) ==> overrides_of(seq![leaf]).len() == 0,
        leaf.read_path_value != Some(leaf.value) ==> overrides_of(seq![leaf]) == seq![
            (leaf.key_hash, leaf.read_path_value),
        ],
        overrides_of(a + b) == overrides_of(a) + overrides_of(b),
    decreases b.len(),
{
    let single = seq![leaf];
    assert(single.drop_last() =~= Seq::<LeafView>::empty());
    assert(single.last() == leaf);
    assert(overrides_of(single.drop_last()) =~= Seq::<(Seq<u8>, Option<Seq<u8>>)>::empty());
    assert(leaf.read_path_value != Some(leaf.value) ==> overrides_of(single) =~= seq![
        (leaf.key_hash, leaf.read_path_value),
    ]);
    if b.len() == 0 {
        assert(a + b =~= a);
        assert(overrides_of(a) + overrides_of(b) =~= overrides_of(a));
    } else {
        overrides_are_decided_leaf_by_leaf(a, b.drop_last(), leaf);
        assert((a + b).drop_last() =~= a + b.drop_last());
        assert((a + b).last() == b.last());
        assert(overrides_of(a + b) =~= overrides_of(a) + overrides_of(b));
    }
}

/// Where every leaf has the value that the read path returns, nothing is
/// overridden.
pub proof fn leaves_that_read_as_they_are_have_no_overrides(leaves: Seq<LeafView>)
    requires
        forall|i: int|
            0 <= i < leaves.len() ==> (#[trigger] leaves[i]).read_path_value == Some(
                leaves[i].value,
            ),
    ensures
        overrides_of(leaves).len() == 0,
{
    assert forall|i: int| 0 <= i < leaves.len() implies !diverges(#[trigger] leaves[i]) by {
        overrides_are_decided_leaf_by_leaf(seq![], seq![], leaves[i]);
    }
    consistent_store_has_no_overrides(leaves);
}

/// Every override is of a leaf whose value is not what the read path returns,
/// and every such leaf has its override.
pub proof fn overrides_are_of_leaves_that_read_otherwise(
    leaves: Seq<LeafView>,
    key_hash: Seq<u8>,
    value: Option<Seq<u8>>,
)
    ensures
        overrides_of(leaves).contains((key_hash, value)) <==> exists|i: int|
            0 <= i < leaves.len() && (#[trigger] leaves[i]).read_path_value != Some(leaves[i].value)
                && leaves[i].key_hash == key_hash && leaves[i].read_path_value == value,
        overrides_of(leaves).len() <= leaves.len(),
    decreases leaves.len(),
{
    overrides_are_the_diverging_leaves(leaves, key_hash, value);
    if leaves.len() > 0 {
        overrides_are_of_leaves_that_read_otherwise(leaves.drop_last(), key_hash, value);
    }
    if overrides_of(leaves).contains((key_hash, value)) {
        let i: int = choose|i: int|
            0 <= i < leaves.len() && diverges(#[trigger] leaves[i]) && leaves[i].key_hash
                == key_hash && leaves[i].read_path_value == value;
        assert(leaves[i].read_path_value != Some(leaves[i].value));
    }
    if exists|i: int|
        0 <= i < leaves.len() && (#[trigger] leaves[i]).read_path_value != Some(leaves[i].value)
            && leaves[i].key_hash == key_hash && leaves[i].read_path_value == value {
        let i: int = choose|i: int|
            0 <= i < leaves.len() && (#[trigger] leaves[i]).read_path_value != Some(leaves[i].value)
                && leaves[i].key_hash == key_hash && leaves[i].read_path_value == value;
        assert(diverges(leaves[i]));
    }
}

/// There is one row for each override, under its key at the version, and it
/// holds the overriding value; all can be written if none is longer than four
/// gigabytes.
pub proof fn override_rows_hold_the_overrides(
    overrides: Seq<(Seq<u8>, Option<Seq<u8>>)>,
    version: u64,
)
    ensures
        override_rows(overrides, version).len() == overrides.len(),
        forall|i: int|
            0 <= i < overrides.len() ==> (#[trigger] override_rows(overrides, version)[i]).key
                == overrides[i].0 + be64(version),
        overrides_fit(overrides) <==> forall|i: int|
            0 <= i < overrides.len() ==> (#[trigger] overrides[i]).1 is None
                || overrides[i].1->0.len() <= 0xffff_ffff,
        overrides_fit(overrides) ==> forall|i: int|
            0 <= i < overrides.len() ==> value_decoding(
                (#[trigger] override_rows(overrides, version)[i]).value,
            ) == Some(overrides[i].1),
{
    if overrides_fit(overrides) {
        assert forall|i: int| 0 <= i < overrides.len() implies value_decoding(
            (#[trigger] override_rows(overrides, version)[i]).value,
        ) == Some(overrides[i].1) by {
            assert(value_fits(overrides[i].1));
            value_row_round_trip(overrides[i].1);
        }
    }
}

/// The new tree has one value row for each leaf, under its key at the version
/// that is pruned to, and it holds the value of the leaf.
pub proof fn restored_rows_hold_the_leaves(leaves: Seq<LeafView>, version: u64, i: int)
    requires
        0 <= i < leaves.len(),
        leaves[i].value.len() <= 0xffff_ffff,
    ensures
        restored_rows(leaves, version).len() == leaves.len(),
        restored_rows(leaves, version)[i].key == leaves[i].key_hash + be64(version),
        value_decoding(restored_rows(leaves, version)[i].value) == Some(Some(leaves[i].value)),
{
    value_row_round_trip(Some(leaves[i].value));
}

/// Leaves have distinct keys if no two of them share one, and building a tree
/// of some chunks fails if the refused step is one of them or the end.
pub proof fn distinct_keys_and_refusals(
    leaves: Seq<LeafView>,
    refusal: Option<Refusal>,
    chunks: nat,
)
    ensures
        distinct_keys(leaves) <==> forall|i: int, j: int|
            0 <= i < leaves.len() && 0 <= j < leaves.len() && i != j ==> (
            #[trigger] leaves[i]).key_hash != (#[trigger] leaves[j]).key_hash,
        refuses(refusal, chunks) <==> refusal is Some && refusal->0.step <= chunks,
{
    if distinct_keys(leaves) {
        assert forall|i: int, j: int|
            0 <= i < leaves.len() && 0 <= j < leaves.len() && i != j implies (
        #[trigger] leaves[i]).key_hash != (#[trigger] leaves[j]).key_hash by {
            if i > j {
                assert(leaves[j].key_hash != leaves[i].key_hash);
            }
        }
    }
}

/// The number of nodes of a substore is that of the rows of its column family
/// of nodes.
pub proof fn nodes_are_counted_by_rows(db: Seq<ColumnFamily>, prefix: Seq<char>)
    ensures
        node_count(db, prefix) == (family_rows(db, "substore-"@ + prefix + "-jmt"@)->0).len(),
{
}

/// With an invalid chunk size nothing happens: no chunk is handed out, and the
/// error says on which side of the bounds the size is.
pub proof fn runs_need_a_valid_chunk_size(
    run: PruneRun,
    old_db: Seq<ColumnFamily>,
    snapshot: SubstoreSnapshot,
    new_db: Seq<ColumnFamily>,
    refusal: Option<Refusal>,
    prefix: Seq<char>,
    version: u64,
    prune_config: PruneConfig,
)
    requires
        is_prune_run(run, old_db, snapshot, new_db, refusal, prefix, version, prune_config),
    ensures
        prune_config.chunk_size < 1 <==> run.result is Err
            && run.result->Err_0 is ChunkSizeTooSmall,
        prune_config.chunk_size > 10_000_000 <==> run.result is Err
            && run.result->Err_0 is ChunkSizeTooLarge,
        !(1 <= prune_config.chunk_size <= 10_000_000) ==> run.chunks@.len() == 0,
{
}

/// Each entry of a chunk is the leaf at its place: as many chunks before it as
/// there are, of the configured size each, and its place in the chunk. The
/// rightmost key is that of the last entry. If the tree is not refused, the
/// chunks take up all leaves; each has the configured size, except that the
/// last may be shorter.
pub proof fn chunks_hold_the_leaves_in_their_places(
    run: PruneRun,
    old_db: Seq<ColumnFamily>,
    snapshot: SubstoreSnapshot,
    new_db: Seq<ColumnFamily>,
    refusal: Option<Refusal>,
    prefix: Seq<char>,
    version: u64,
    prune_config: PruneConfig,
    k: int,
    j: int,
)
    requires
        1 <= prune_config.chunk_size <= 10_000_000,
        is_prune_run(run, old_db, snapshot, new_db, refusal, prefix, version, prune_config),
        0 <= k < run.chunks@.len(),
    ensures
        ({
            let n = prune_config.chunk_size as int;
            let leaves = snapshot.leaves@;
            let entries = run.chunks@[k].entries@;
            &&& 0 < entries.len() <= n
            &&& entries.len() == n || k * n + entries.len() == leaves.len()
            &&& run.chunks@[k].rightmost_key@ == entries.last().0@
            &&& 0 <= j < entries.len() ==> {
                &&& 0 <= k * n + j < leaves.len()
                &&& entries[j].0@ == leaves[k * n + j].key_hash@
                &&& entries[j].1@ == leaves[k * n + j].value@
            }
            &&& refusal is None ==> (run.chunks@.len() - 1) * n < leaves.len() <= run.chunks@.len()
                * n
        }),
{
    let n = prune_config.chunk_size as nat;
    let leaves = leaves_view(snapshot.leaves@);
    let all = pieces(tree_entries(leaves), n);
    let entries = run.chunks@[k].entries@;
    assert(chunks_entries(run.chunks@).len() == run.chunks@.len());
    assert(k < all.len());
    assert(chunks_entries(run.chunks@)[k] == all[k]);
    assert(entries_view(entries) == all[k]);
    assert(entries_view(entries).len() == entries.len());
    pieces_are_stretches(tree_entries(leaves), n, k);
    assert((k + 1) * n == k * n + n) by (nonlinear_arith);
    assert(run.chunks@[k].wf());
    if 0 <= j < entries.len() {
        assert(all[k][j] == tree_entries(leaves)[k * n + j]);
        assert(entries_view(entries)[j] == (entries[j].0@, entries[j].1@));
    }
}

/// A successful run reports the root hash of the source, the version, the
/// number of leaves, the numbers of node rows before and after, and each leaf
/// that does not read as it is; it writes one row for each of these into the
/// column family of the substore's values.
pub proof fn runs_report_the_source_and_the_nodes(
    run: PruneRun,
    old_db: Seq<ColumnFamily>,
    snapshot: SubstoreSnapshot,
    new_db: Seq<ColumnFamily>,
    refusal: Option<Refusal>,
    prefix: Seq<char>,
    version: u64,
    prune_config: PruneConfig,
)
    requires
        is_prune_run(run, old_db, snapshot, new_db, refusal, prefix, version, prune_config),
        run.result is Ok,
    ensures
        ({
            let (written, report) = run.result->Ok_0;
            &&& report.root == snapshot.root_hash
            &&& report.version == version
            &&& report.keys_processed == snapshot.leaves@.len()
            &&& report.nodes_before == (family_rows(
                old_db,
                "substore-"@ + prefix + "-jmt"@,
            )->0).len()
            &&& report.nodes_after == (family_rows(
                new_db,
                "substore-"@ + prefix + "-jmt"@,
            )->0).len()
            &&& overrides_view(report.value_overrides@) == overrides_of(
                leaves_view(snapshot.leaves@),
            )
            &&& written.family@ == "substore-"@ + prefix + "-jmt-values"@
            &&& written.rows@.len() == report.value_overrides@.len()
            &&& forall|i: int|
                0 <= i < written.rows@.len() ==> (#[trigger] written.rows@[i]).key@
                    == report.value_overrides@[i].0@ + be64(version) && value_decoding(
                    written.rows@[i].value@,
                ) == Some(value_view(report.value_overrides@[i].1))
        }),
{
    let (written, report) = run.result->Ok_0;
    let overrides = overrides_of(leaves_view(snapshot.leaves@));
    override_rows_hold_the_overrides(overrides, version);
    let rows = override_rows(overrides, version);
    assert(rows_view(written.rows@) == rows);
    assert(rows_view(written.rows@).len() == written.rows@.len());
    assert(overrides_view(report.value_overrides@).len() == report.value_overrides@.len());
    assert forall|i: int| 0 <= i < written.rows@.len() implies (#[trigger] written.rows@[i]).key@
        == report.value_overrides@[i].0@ + be64(version) && value_decoding(
        written.rows@[i].value@,
    ) == Some(value_view(report.value_overrides@[i].1)) by {
        assert(rows_view(written.rows@)[i] == rows[i]);
        assert(overrides_view(report.value_overrides@)[i] == overrides[i]);
    }
}

/// A run that is not refused succeeds exactly if no overriding value is too
/// long to be written; a refused one ends with the reason of the tree.
pub proof fn runs_succeed_unless_refused_or_too_long(
    run: PruneRun,
    old_db: Seq<ColumnFamily>,
    snapshot: SubstoreSnapshot,
    new_db: Seq<ColumnFamily>,
    refusal: Option<Refusal>,
    prefix: Seq<char>,
    version: u64,
    prune_config: PruneConfig,
)
    requires
        1 <= prune_config.chunk_size <= 10_000_000,
        is_prune_run(run, old_db, snapshot, new_db, refusal, prefix, version, prune_config),
    ensures
        ({
            let n = prune_config.chunk_size as int;
            let leaves = snapshot.leaves@;
            let fits = forall|i: int|
                0 <= i < leaves.len() ==> {
                    let leaf = (#[trigger] leaves[i])@;
                    ||| leaf.read_path_value == Some(leaf.value)
                    ||| leaf.read_path_value is None
                    ||| leaf.read_path_value->0.len() <= 0xffff_ffff
                };
            &&& refusal is None ==> (run.result is Ok <==> fits)
            &&& refusal is None && !fits ==> run.result->Err_0 is Encode
            &&& run.result is Ok ==> fits
            // The steps are the chunks and the end: as many as it takes to hold
            // the leaves, and one more.
            &&& refusal is Some ==> {
                let r = refusal->0;
                if r.step == 0 || (r.step - 1) * n < leaves.len() {
                    &&& run.result matches Err(PruneError::Refused(reason))
                    &&& reason@ == r.reason@
                    &&& run.chunks@.len() == if r.step * n < leaves.len() {
                        r.step + 1
                    } else {
                        r.step as int
                    }
                } else {
                    run.result is Ok <==> fits
                }
            }
        }),
{
    let n = prune_config.chunk_size as nat;
    let leaves = leaves_view(snapshot.leaves@);
    let overrides = overrides_of(leaves);
    let all = pieces(tree_entries(leaves), n);
    pieces_are_stretches(tree_entries(leaves), n, 0);
    override_rows_hold_the_overrides(overrides, version);
    assert(chunks_entries(run.chunks@).len() == run.chunks@.len());
    if overrides_fit(overrides) {
        assert forall|i: int| 0 <= i < leaves.len() implies {
            let leaf = (#[trigger] snapshot.leaves@[i])@;
            ||| leaf.read_path_value == Some(leaf.value)
            ||| leaf.read_path_value is None
            ||| leaf.read_path_value->0.len() <= 0xffff_ffff
        } by {
            let leaf = leaves[i];
            if leaf.read_path_value != Some(leaf.value) {
                overrides_are_of_leaves_that_read_otherwise(
                    leaves,
                    leaf.key_hash,
                    leaf.read_path_value,
                );
                let k: int = choose|k: int|
                    0 <= k < overrides.len() && overrides[k] == (
                        leaf.key_hash,
                        leaf.read_path_value,
                    );
                assert(value_fits(overrides[k].1));
            }
        }
    } else {
        let k: int = choose|k: int|
            0 <= k < overrides.len() && !value_fits((#[trigger] overrides[k]).1);
        assert(overrides.contains(overrides[k]));
        overrides_are_of_leaves_that_read_otherwise(leaves, overrides[k].0, overrides[k].1);
        let i: int = choose|i: int|
            0 <= i < leaves.len() && (#[trigger] leaves[i]).read_path_value != Some(leaves[i].value)
                && leaves[i].key_hash == overrides[k].0 && leaves[i].read_path_value
                == overrides[k].1;
        assert(snapshot.leaves@[i]@ == leaves[i]);
    }
    if let Some(r) = refusal {
        let s = r.step as int;
        let m = all.len() as int;
        if s < m {
            assert(s * n < leaves.len() as int) by (nonlinear_arith)
                requires
                    s <= m - 1,
                    (m - 1) * n < leaves.len() as int,
                    n > 0,
            ;
        } else {
            assert(s * n >= leaves.len() as int) by (nonlinear_arith)
                requires
                    s >= m,
                    m * n >= leaves.len() as int,
                    n > 0,
            ;
        }
        if s > 0 {
            if (s - 1) * n < leaves.len() {
                assert(s <= m) by (nonlinear_arith)
                    requires
                        (s - 1) * n < leaves.len() as int,
                        m * n >= leaves.len() as int,
                        n > 0,
                ;
            } else if m > 0 {
                assert(s > m) by (nonlinear_arith)
                    requires
                        (s - 1) * n >= leaves.len() as int,
                        (m - 1) * n < leaves.len() as int,
                        n > 0,
                ;
            }
        }
    }
}

/// What a database holds after a write: the column family that it names has
/// the rows put into it.
pub open spec fn with_write(
    db: Map<Seq<char>, Map<Seq<u8>, Seq<u8>>>,
    write: FamilyWriteView,
) -> Map<Seq<char>, Map<Seq<u8>, Seq<u8>>> {
    db.insert(write.family, put_rows(db[write.family], write.rows))
}

/// The write of a successful run acts on the substore that was pruned and on
/// no other. Applied to a database whose column family of that substore's
/// values holds the values of the new tree, it makes every key read there as it
/// read at the source, and leaves every other column family as it was: those of
/// other substores, of nodes and of anything else.
pub proof fn runs_write_into_their_own_substore(
    run: PruneRun,
    old_db: Seq<ColumnFamily>,
    snapshot: SubstoreSnapshot,
    new_db: Seq<ColumnFamily>,
    refusal: Option<Refusal>,
    prefix: Seq<char>,
    version: u64,
    prune_config: PruneConfig,
    db: Map<Seq<char>, Map<Seq<u8>, Seq<u8>>>,
    values: Map<Seq<u8>, Seq<u8>>,
    i: int,
    other: Seq<char>,
)
    requires
        is_prune_run(run, old_db, snapshot, new_db, refusal, prefix, version, prune_config),
        run.result is Ok,
        0 <= i < snapshot.leaves@.len(),
        distinct_keys(leaves_view(snapshot.leaves@)),
        snapshot.leaves@[i].value@.len() <= 0xffff_ffff,
        db.contains_key("substore-"@ + prefix + "-jmt-values"@),
        db["substore-"@ + prefix + "-jmt-values"@] == put_rows(
            values,
            restored_rows(leaves_view(snapshot.leaves@), version),
        ),
    ensures
        ({
            let own = "substore-"@ + prefix + "-jmt-values"@;
            let after = with_write(db, run.result->Ok_0.0@);
            let leaf = snapshot.leaves@[i]@;
            &&& after.dom() == db.dom()
            &&& after[own].contains_key(leaf.key_hash + be64(version))
            &&& value_decoding(after[own][leaf.key_hash + be64(version)]) == Some(
                leaf.read_path_value,
            )
            &&& read_value(after[own], leaf.key_hash, version) == Some(leaf.read_path_value)
            &&& other != own ==> after[other] == db[other]
            &&& other != prefix ==> {
                let theirs = "substore-"@ + other + "-jmt-values"@;
                after[theirs] == db[theirs]
            }
            &&& after["substore-"@ + other + "-jmt"@] == db["substore-"@ + other + "-jmt"@]
        }),
{
    let own = "substore-"@ + prefix + "-jmt-values"@;
    let leaves = leaves_view(snapshot.leaves@);
    let after = with_write(db, run.result->Ok_0.0@);
    runs_report_the_source_and_the_nodes(
        run,
        old_db,
        snapshot,
        new_db,
        refusal,
        prefix,
        version,
        prune_config,
    );
    a_run_keeps_what_is_read(
        run,
        old_db,
        snapshot,
        new_db,
        refusal,
        prefix,
        version,
        prune_config,
        values,
        i,
    );
    assert(leaves[i] == snapshot.leaves@[i]@);
    assert(run.result->Ok_0.0@.family == own);
    assert(after.dom() =~= db.dom());
    substores_share_no_family(prefix, other);
    substores_share_no_family(other, prefix);
    assert(own == substore_family(prefix, "-jmt-values"@));
    assert("substore-"@ + other + "-jmt-values"@ == substore_family(other, "-jmt-values"@));
    assert("substore-"@ + other + "-jmt"@ == substore_family(other, "-jmt"@));
}

} // verus!
