use vstd::prelude::*;

use miden_objects::crypto::merkle::{Smt, SmtProof};

use crate::digest::{BlockNumber, Digest, Nullifier, Word};
use crate::errors::NullifierTreeError;
use crate::smt::{
    apply_updates, empty_word, has_repeated_key, keys_of, lookup, mutation_base_root,
    mutation_new_root, mutation_pairs, overlay, pairs_are_felts, proof_root, proof_value,
    root_of_entries, smt_apply_mutations, smt_compute_mutations, smt_entries, smt_get_value,
    smt_open, smt_proof_get, smt_proof_root, smt_root_of, smt_with_entries, word_is_felts,
    word_pairs, Mutations,
};

verus! {

/// The leaf value that records consumption at `block`: `[block, 0, 0, 0]`.
pub open spec fn leaf_of(block: BlockNumber) -> Seq<u64> {
    seq![block as u64, 0u64, 0u64, 0u64]
}

/// The block number recorded by a leaf value; the empty value records none.
pub open spec fn block_of(value: Seq<u64>) -> Option<BlockNumber> {
    if value == empty_word() {
        None
    } else {
        Some(value[0] as BlockNumber)
    }
}

/// The value is the encoding of some height (height zero encodes as empty).
pub open spec fn is_leaf(value: Seq<u64>) -> bool {
    value.len() == 4 && value[0] <= u32::MAX && value == leaf_of(value[0] as BlockNumber)
}

/// Every entry encodes a height other than genesis.
pub open spec fn entries_wf(m: Map<Digest, Seq<u64>>) -> bool {
    forall|k: Digest| #[trigger] m.contains_key(k) ==> is_leaf(m[k]) && m[k][0] != 0
}

/// Every value that the changes write encodes a non-genesis height.
pub open spec fn mutations_wf(m: Mutations) -> bool {
    forall|k: Digest| #[trigger]
        mutation_pairs(m).contains_key(k) ==> is_leaf(mutation_pairs(m)[k]) && mutation_pairs(m)[k][0]
            != 0
}

/// The pairs as the map stores them.
pub open spec fn encoded(pairs: Seq<(Nullifier, BlockNumber)>) -> Seq<(Digest, Seq<u64>)> {
    pairs.map_values(|p: (Nullifier, BlockNumber)| (p.0, leaf_of(p.1)))
}

pub open spec fn nullifiers_of(pairs: Seq<(Nullifier, BlockNumber)>) -> Seq<Digest> {
    pairs.map_values(|p: (Nullifier, BlockNumber)| p.0)
}

pub open spec fn all_wf(pairs: Seq<(Nullifier, BlockNumber)>) -> bool {
    forall|i: int| 0 <= i < pairs.len() ==> (#[trigger] pairs[i]).0.wf()
}

pub open spec fn has_genesis_height(pairs: Seq<(Nullifier, BlockNumber)>) -> bool {
    exists|i: int| 0 <= i < pairs.len() && (#[trigger] pairs[i]).1 == 0
}

/// An authenticated map from each consumed nullifier to the height of the
/// block that consumed it. A nullifier without an entry is unconsumed.
pub struct NullifierTree {
    smt: Smt,
    /// How many sets of changes have been applied; a set of changes is
    /// computed for one version and applies to that version only.
    version: u64,
}

/// Changes to a tracker, computed for one version of it and not yet applied.
pub struct NullifierMutations {
    version: u64,
    mutations: Mutations,
}

impl NullifierMutations {
    /// The version of the tracker that the changes were computed for.
    pub closed spec fn base_version(&self) -> u64 {
        self.version
    }

    /// The changes to the underlying map.
    pub closed spec fn changes(&self) -> Mutations {
        self.mutations
    }

    /// Every value that the changes write encodes a non-genesis height.
    pub open spec fn wf(&self) -> bool {
        mutations_wf(self.changes())
    }
}

impl NullifierTree {
    /// The entries of the underlying map.
    pub closed spec fn entries(&self) -> Map<Digest, Seq<u64>> {
        smt_entries(self.smt)
    }

    /// The authenticated root, which depends on the entries alone.
    pub open spec fn root_view(&self) -> Digest {
        root_of_entries(self.entries())
    }

    /// The number of sets of changes applied so far.
    pub closed spec fn version_view(&self) -> u64 {
        self.version
    }

    pub open spec fn wf(&self) -> bool {
        entries_wf(self.entries())
    }

    /// The height at which `n` was consumed, if it was.
    pub open spec fn block_num_of(&self, n: Nullifier) -> Option<BlockNumber> {
        block_of(lookup(self.entries(), n))
    }

    /// The tree holds exactly the given initial pairs, which are all valid.
    pub open spec fn built_from(&self, pairs: Seq<(Nullifier, BlockNumber)>) -> bool {
        &&& !has_genesis_height(pairs)
        &&& !has_repeated_key(nullifiers_of(pairs))
        &&& self.entries() == apply_updates(Map::empty(), encoded(pairs))
    }

    /// The changes were computed for the current version, against the current root.
    pub open spec fn accepts(&self, m: NullifierMutations) -> bool {
        &&& m.base_version() == self.version_view()
        &&& mutation_base_root(m.changes()) == self.root_view()
    }

    /// Encodes the pairs as leaf values, in order.
    fn leaf_pairs(pairs: &Vec<(Nullifier, BlockNumber)>) -> (r: Vec<(Digest, Word)>)
        requires
            all_wf(pairs@),
        ensures
            word_pairs(r@) == encoded(pairs@),
            keys_of(r@) == nullifiers_of(pairs@),
            pairs_are_felts(r@),
    {
        let mut r: Vec<(Digest, Word)> = Vec::new();
        let mut i: usize = 0;
        while i < pairs.len()
            invariant
                i <= pairs@.len(),
                r@.len() == i,
                all_wf(pairs@),
                word_pairs(r@) == encoded(pairs@.take(i as int)),
                keys_of(r@) == nullifiers_of(pairs@.take(i as int)),
                pairs_are_felts(r@),
            decreases pairs@.len() - i,
        {
            let (n, block) = pairs[i];
            let leaf = Self::block_num_to_leaf_value(block);
            let ghost prev = r@;
            r.push((n, leaf));
            proof {
                let t = pairs@.take(i + 1);
                let t0 = pairs@.take(i as int);
                assert forall|j: int| 0 <= j < r@.len() implies word_pairs(r@)[j] == encoded(t)[j]
                    && keys_of(r@)[j] == nullifiers_of(t)[j] by {
                    if j < i {
                        assert(word_pairs(prev)[j] == encoded(t0)[j]);
                        assert(keys_of(prev)[j] == nullifiers_of(t0)[j]);
                        assert(r@[j] == prev[j]);
                        assert(t[j] == t0[j]);
                    }
                }
                assert(word_pairs(r@) =~= encoded(t));
                assert(keys_of(r@) =~= nullifiers_of(t));
                assert(all_wf(pairs@) ==> pairs@[i as int].0.wf());
                assert forall|j: int| 0 <= j < r@.len() implies (#[trigger] r@[j]).0.wf()
                    && word_is_felts(r@[j].1@) by {
                    if j == i {
                        assert(word_is_felts(leaf@));
                    }
                }
            }
            i = i + 1;
        }
        assert(pairs@.take(pairs@.len() as int) == pairs@);
        r
    }

    /// Builds the tracker from the complete set of consumed nullifiers.
    pub fn with_entries(entries: Vec<(Nullifier, BlockNumber)>) -> (r: Result<Self, NullifierTreeError>)
        requires
            all_wf(entries@),
        ensures
            r is Ok <==> !has_genesis_height(entries@) && !has_repeated_key(nullifiers_of(entries@)),
            r matches Err(NullifierTreeError::GenesisBlockNumber { nullifier }) ==> has_genesis_height(
                entries@,
            ),
            has_genesis_height(entries@) ==> r matches Err(
                NullifierTreeError::GenesisBlockNumber { .. },
            ),
            !has_genesis_height(entries@) && has_repeated_key(nullifiers_of(entries@)) ==> r matches Err(
                NullifierTreeError::CreationFailed(_),
            ),
            r matches Ok(t) ==> t.built_from(entries@) && t.wf() && t.version_view() == 0,
    {
        let mut i: usize = 0;
        while i < entries.len()
            invariant
                i <= entries@.len(),
                forall|j: int| 0 <= j < i ==> (#[trigger] entries@[j]).1 != 0,
            decreases entries@.len() - i,
        {
            if entries[i].1 == 0 {
                return Err(NullifierTreeError::GenesisBlockNumber { nullifier: entries[i].0 });
            }
            i = i + 1;
        }
        let leaves = Self::leaf_pairs(&entries);
        match smt_with_entries(&leaves) {
            Ok(smt) => {
                let t = NullifierTree { smt, version: 0 };
                proof {
                    lemma_initial_entries(entries@);
                }
                Ok(t)
            },
            Err(e) => Err(NullifierTreeError::CreationFailed(e)),
        }
    }

    /// Returns the authenticated root.
    pub fn root(&self) -> (r: Digest)
        ensures
            r == self.root_view(),
            r.wf(),
    {
        smt_root_of(&self.smt)
    }

    /// Returns the opening of the leaf of `nullifier`: it states the current
    /// value of `nullifier` (the empty value when unconsumed) and leads to the
    /// current root.
    pub fn open(&self, nullifier: &Nullifier) -> (r: SmtProof)
        requires
            nullifier.wf(),
        ensures
            proof_value(r, *nullifier) == Some(lookup(self.entries(), *nullifier)),
            proof_root(r) == self.root_view(),
    {
        smt_open(&self.smt, nullifier)
    }

    /// Returns the height at which `nullifier` was consumed, or `None` when it
    /// was not consumed.
    pub fn get_block_num(&self, nullifier: &Nullifier) -> (r: Option<BlockNumber>)
        requires
            self.wf(),
            nullifier.wf(),
        ensures
            r == self.block_num_of(*nullifier),
            r != Some(0u32),
    {
        let value = smt_get_value(&self.smt, nullifier);
        proof {
            if self.entries().contains_key(*nullifier) {
                assert(is_leaf(self.entries()[*nullifier]));
            }
        }
        if value[0] == 0 && value[1] == 0 && value[2] == 0 && value[3] == 0 {
            assert(value@ =~= empty_word());
            return None;
        }
        assert(value@ != empty_word());
        Some(Self::leaf_value_to_block_num(value))
    }

    /// Computes, without changing the tracker, the changes that record each
    /// pair in order (a later pair for a nullifier wins). A pair at the
    /// genesis height is refused: genesis consumes no notes.
    pub fn compute_mutations(&self, kv_pairs: Vec<(Nullifier, BlockNumber)>) -> (r: Result<
        NullifierMutations,
        NullifierTreeError,
    >)
        requires
            all_wf(kv_pairs@),
        ensures
            r is Ok <==> !has_genesis_height(kv_pairs@),
            r is Err ==> r matches Err(NullifierTreeError::GenesisBlockNumber { .. }),
            r matches Ok(m) ==> {
                &&& m.base_version() == self.version_view()
                &&& mutation_base_root(m.changes()) == self.root_view()
                &&& overlay(self.entries(), mutation_pairs(m.changes())) == apply_updates(
                    self.entries(),
                    encoded(kv_pairs@),
                )
                &&& mutation_new_root(m.changes()) == root_of_entries(
                    apply_updates(self.entries(), encoded(kv_pairs@)),
                )
                &&& m.wf()
            },
    {
        let mut i: usize = 0;
        while i < kv_pairs.len()
            invariant
                i <= kv_pairs@.len(),
                forall|j: int| 0 <= j < i ==> (#[trigger] kv_pairs@[j]).1 != 0,
            decreases kv_pairs@.len() - i,
        {
            if kv_pairs[i].1 == 0 {
                return Err(NullifierTreeError::GenesisBlockNumber { nullifier: kv_pairs[i].0 });
            }
            i = i + 1;
        }
        let leaves = Self::leaf_pairs(&kv_pairs);
        proof {
            assert forall|j: int| 0 <= j < leaves@.len() implies (#[trigger] leaves@[j]).1@
                != empty_word() by {
                assert(word_pairs(leaves@).len() == leaves@.len());
                assert(encoded(kv_pairs@).len() == kv_pairs@.len());
                assert(word_pairs(leaves@)[j] == encoded(kv_pairs@)[j]);
                assert(kv_pairs@[j].1 != 0);
                assert(leaf_of(kv_pairs@[j].1)[0] != empty_word()[0]);
            }
        }
        let r = smt_compute_mutations(&self.smt, &leaves);
        proof {
            assert forall|k: Digest| #[trigger] mutation_pairs(r).contains_key(k) implies is_leaf(
                mutation_pairs(r)[k],
            ) && mutation_pairs(r)[k][0] != 0 by {
                let i = choose|i: int|
                    0 <= i < leaves@.len() && leaves@[i].0 == k && #[trigger] leaves@[i].1@
                        == mutation_pairs(r)[k];
                assert(word_pairs(leaves@)[i] == encoded(kv_pairs@)[i]);
                assert(kv_pairs@[i].1 != 0);
                lemma_leaf_round_trip(kv_pairs@[i].1);
            }
        }
        Ok(NullifierMutations { version: self.version, mutations: r })
    }

    /// Applies changes computed for the current version of the tracker.
    /// Changes computed for another version or against another root are
    /// refused and leave the tracker unchanged; so a set of changes applies
    /// once at most, and the version advances by one.
    pub fn apply_mutations(&mut self, mutations: NullifierMutations) -> (r: Result<
        (),
        NullifierTreeError,
    >)
        requires
            old(self).wf(),
            old(self).version_view() < u64::MAX,
            mutations.wf(),
        ensures
            final(self).wf(),
            r is Ok <==> old(self).accepts(mutations),
            r is Ok ==> final(self).entries() == overlay(
                old(self).entries(),
                mutation_pairs(mutations.changes()),
            ),
            r is Ok ==> final(self).root_view() == mutation_new_root(mutations.changes()),
            r is Ok ==> final(self).version_view() == old(self).version_view() + 1,
            r is Err ==> *final(self) == *old(self),
            mutations.base_version() != old(self).version_view() ==> r
                == Err::<(), NullifierTreeError>(NullifierTreeError::StaleMutations),
            mutations.base_version() == old(self).version_view() && r is Err ==> r matches Err(
                NullifierTreeError::MutationFailed(_),
            ),
    {
        if mutations.version != self.version {
            return Err(NullifierTreeError::StaleMutations);
        }
        let ghost m = mutation_pairs(mutations.mutations);
        let ghost before = self.entries();
        assert forall|k: Digest| #[trigger] m.contains_key(k) implies m[k] != empty_word() by {
            assert(is_leaf(m[k]) && m[k][0] != 0);
            assert(m[k][0] != empty_word()[0]);
        }
        match smt_apply_mutations(&mut self.smt, mutations.mutations) {
            Ok(()) => {
                proof {
                    assert forall|k: Digest| #[trigger] self.entries().contains_key(k) implies is_leaf(
                        self.entries()[k],
                    ) && self.entries()[k][0] != 0 by {
                        if m.contains_key(k) {
                            assert(is_leaf(m[k]));
                        } else {
                            assert(before.contains_key(k));
                        }
                    }
                }
                self.version = self.version + 1;
                Ok(())
            },
            Err(e) => Err(NullifierTreeError::MutationFailed(e)),
        }
    }

    /// Reads an opening as a verifier holding only a root does: the root it
    /// leads to, and what it states of `nullifier` (`Some(None)` for
    /// unconsumed, `Some(Some(h))` for consumed at `h`, `None` when it states
    /// nothing readable of `nullifier`).
    pub fn read_opening(proof: &SmtProof, nullifier: &Nullifier) -> (r: (
        Digest,
        Option<Option<BlockNumber>>,
    ))
        requires
            nullifier.wf(),
        ensures
            r.0 == proof_root(*proof),
            r.1 == opening_states(*proof, *nullifier),
    {
        let root = smt_proof_root(proof);
        let stated = match smt_proof_get(proof, nullifier) {
            None => None,
            Some(w) => {
                if w[0] == 0 && w[1] == 0 && w[2] == 0 && w[3] == 0 {
                    assert(w@ =~= empty_word());
                    Some(None)
                } else if w[1] == 0 && w[2] == 0 && w[3] == 0 && w[0] <= u32::MAX as u64 {
                    assert(w@ =~= leaf_of(w[0] as BlockNumber));
                    Some(Some(w[0] as BlockNumber))
                } else {
                    assert(!is_leaf(w@)) by {
                        if is_leaf(w@) {
                            assert(w@[1] == leaf_of(w@[0] as BlockNumber)[1]);
                        }
                    }
                    None
                }
            },
        };
        (root, stated)
    }

    /// Returns the leaf value that records consumption at `block`.
    pub fn block_num_to_leaf_value(block: BlockNumber) -> (r: Word)
        ensures
            r@ == leaf_of(block),
            word_is_felts(r@),
    {
        let r: Word = [block as u64, 0, 0, 0];
        assert(r@ =~= leaf_of(block));
        r
    }

    /// Returns the block number that a leaf value records; its first element
    /// must fit a block number.
    pub fn leaf_value_to_block_num(value: Word) -> (r: BlockNumber)
        requires
            value@[0] <= u32::MAX,
        ensures
            r as u64 == value@[0],
    {
        value[0] as BlockNumber
    }
}

/// What a leaf value says when read: `Some(None)` for the empty value,
/// `Some(Some(h))` for the encoding of a height `h`, `None` otherwise.
pub open spec fn read_leaf(value: Seq<u64>) -> Option<Option<BlockNumber>> {
    if value == empty_word() {
        Some(None)
    } else if is_leaf(value) {
        Some(Some(value[0] as BlockNumber))
    } else {
        None
    }
}

/// What an opening states of `n`.
pub open spec fn opening_states(p: SmtProof, n: Nullifier) -> Option<Option<BlockNumber>> {
    match proof_value(p, n) {
        None => None,
        Some(v) => read_leaf(v),
    }
}

/// Decoding the leaf value of a height gives that height back, and the empty
/// value decodes to no height.
pub proof fn lemma_leaf_round_trip(block: BlockNumber)
    ensures
        leaf_of(block)[0] == block as u64,
        block != 0 ==> block_of(leaf_of(block)) == Some(block),
        block_of(empty_word()) == None::<BlockNumber>,
        is_leaf(leaf_of(block)),
{
    if block != 0 {
        assert(leaf_of(block)[0] != empty_word()[0]);
    }
}

/// A tracker built from its initial pairs reports each pair's height for its
/// nullifier, and no height for a nullifier outside those pairs.
pub proof fn lemma_consumption(t: NullifierTree, pairs: Seq<(Nullifier, BlockNumber)>)
    requires
        t.built_from(pairs),
    ensures
        forall|i: int| 0 <= i < pairs.len() ==> t.block_num_of(#[trigger] pairs[i].0) == Some(pairs[i].1),
        forall|n: Nullifier| !nullifiers_of(pairs).contains(n) ==> #[trigger] t.block_num_of(n) is None,
{
    lemma_initial_entries(pairs);
    assert forall|i: int| 0 <= i < pairs.len() implies t.block_num_of(#[trigger] pairs[i].0) == Some(
        pairs[i].1,
    ) by {
        assert(lookup(t.entries(), pairs[i].0) == leaf_of(pairs[i].1));
        assert(pairs[i].1 != 0);
        lemma_leaf_round_trip(pairs[i].1);
    }
}

/// What a height written by a change records: height zero records none.
pub open spec fn written_height(block: BlockNumber) -> Option<BlockNumber> {
    if block == 0 {
        None
    } else {
        Some(block)
    }
}

/// The height that `n` has once the pairs are written in order over a state
/// in which it had `before`.
pub open spec fn height_after(
    pairs: Seq<(Nullifier, BlockNumber)>,
    n: Nullifier,
    before: Option<BlockNumber>,
) -> Option<BlockNumber>
    decreases pairs.len(),
{
    if pairs.len() == 0 {
        before
    } else if pairs.last().0 == n {
        written_height(pairs.last().1)
    } else {
        height_after(pairs.drop_last(), n, before)
    }
}

/// Once changes computed from state `s` for some pairs are applied, each
/// nullifier has the height of the last pair that names it, and a nullifier
/// that no pair names keeps its height.
pub proof fn lemma_applied_changes(
    s: NullifierTree,
    after: NullifierTree,
    pairs: Seq<(Nullifier, BlockNumber)>,
    m: NullifierMutations,
)
    requires
        overlay(s.entries(), mutation_pairs(m.changes())) == apply_updates(s.entries(), encoded(pairs)),
        after.entries() == overlay(s.entries(), mutation_pairs(m.changes())),
    ensures
        forall|n: Nullifier| #[trigger]
            after.block_num_of(n) == height_after(pairs, n, s.block_num_of(n)),
{
    assert forall|n: Nullifier| #[trigger]
        after.block_num_of(n) == height_after(pairs, n, s.block_num_of(n)) by {
        lemma_height_after(s.entries(), pairs, n);
    }
}

/// An opening of `n` taken from a tracker leads to the tracker's root and
/// states the height that the tracker records for `n`, whether `n` was
/// consumed or not.
pub proof fn lemma_opening_valid(t: NullifierTree, p: SmtProof, n: Nullifier)
    requires
        t.wf(),
        proof_value(p, n) == Some(lookup(t.entries(), n)),
        proof_root(p) == t.root_view(),
    ensures
        proof_root(p) == t.root_view(),
        opening_states(p, n) == Some(t.block_num_of(n)),
{
    if t.entries().contains_key(n) {
        let v = t.entries()[n];
        assert(is_leaf(v) && v[0] != 0);
        assert(v != empty_word()) by {
            assert(v[0] != empty_word()[0]);
        }
    }
}

/// Changes computed from no pairs keep the root.
pub proof fn lemma_empty_diff_keeps_root(
    t: NullifierTree,
    pairs: Seq<(Nullifier, BlockNumber)>,
    m: NullifierMutations,
)
    requires
        pairs.len() == 0,
        mutation_new_root(m.changes()) == root_of_entries(apply_updates(t.entries(), encoded(pairs))),
    ensures
        mutation_new_root(m.changes()) == t.root_view(),
{
    assert(encoded(pairs).len() == 0);
}

/// A tracker built from initial pairs and then changed by more pairs holds
/// the same entries, and has the same root, as the tracker built from all the
/// pairs at once.
pub proof fn lemma_rebuild(
    t: NullifierTree,
    after: NullifierTree,
    rebuilt: NullifierTree,
    initial: Seq<(Nullifier, BlockNumber)>,
    added: Seq<(Nullifier, BlockNumber)>,
)
    requires
        t.built_from(initial),
        after.entries() == apply_updates(t.entries(), encoded(added)),
        rebuilt.built_from(initial + added),
    ensures
        rebuilt.entries() == after.entries(),
        rebuilt.root_view() == after.root_view(),
{
    assert(encoded(initial + added) =~= encoded(initial) + encoded(added));
    lemma_updates_concat(Map::empty(), encoded(initial), encoded(added));
}

/// Trackers built from lists that hold the same pairs, in any order, hold
/// the same entries and have the same root.
pub proof fn lemma_same_pairs_same_root(
    t1: NullifierTree,
    t2: NullifierTree,
    e1: Seq<(Nullifier, BlockNumber)>,
    e2: Seq<(Nullifier, BlockNumber)>,
)
    requires
        t1.built_from(e1),
        t2.built_from(e2),
        forall|i: int| 0 <= i < e1.len() ==> e2.contains(#[trigger] e1[i]),
        forall|j: int| 0 <= j < e2.len() ==> e1.contains(#[trigger] e2[j]),
    ensures
        t1.entries() == t2.entries(),
        t1.root_view() == t2.root_view(),
{
    lemma_initial_entries(e1);
    lemma_initial_entries(e2);
    let m1 = t1.entries();
    let m2 = t2.entries();
    assert forall|n: Nullifier| #[trigger] m1.contains_key(n) == m2.contains_key(n) && (m1.contains_key(
        n,
    ) ==> m1[n] == m2[n]) by {
        if nullifiers_of(e1).contains(n) {
            let i = choose|i: int| 0 <= i < nullifiers_of(e1).len() && nullifiers_of(e1)[i] == n;
            assert(e2.contains(e1[i]));
            let j = choose|j: int| 0 <= j < e2.len() && e2[j] == e1[i];
            assert(lookup(m1, e1[i].0) == leaf_of(e1[i].1));
            assert(lookup(m2, e2[j].0) == leaf_of(e2[j].1));
            assert(e1[i].1 != 0);
            assert(leaf_of(e1[i].1) != empty_word()) by {
                assert(leaf_of(e1[i].1)[0] != empty_word()[0]);
            }
        } else {
            assert(!m1.contains_key(n));
            if nullifiers_of(e2).contains(n) {
                let j = choose|j: int| 0 <= j < nullifiers_of(e2).len() && nullifiers_of(e2)[j] == n;
                assert(e1.contains(e2[j]));
                let i = choose|i: int| 0 <= i < e1.len() && e1[i] == e2[j];
                assert(nullifiers_of(e1)[i] == n);
            }
        }
    }
    assert(m1 =~= m2);
}

/// Writing two lists of pairs one after the other is writing their concatenation.
proof fn lemma_updates_concat(
    m: Map<Digest, Seq<u64>>,
    a: Seq<(Digest, Seq<u64>)>,
    b: Seq<(Digest, Seq<u64>)>,
)
    ensures
        apply_updates(m, a + b) == apply_updates(apply_updates(m, a), b),
    decreases b.len(),
{
    if b.len() == 0 {
        assert(a + b =~= a);
    } else {
        assert((a + b).drop_last() =~= a + b.drop_last());
        assert((a + b).last() == b.last());
        lemma_updates_concat(m, a, b.drop_last());
    }
}

proof fn lemma_height_after(
    m: Map<Digest, Seq<u64>>,
    pairs: Seq<(Nullifier, BlockNumber)>,
    n: Nullifier,
)
    ensures
        block_of(lookup(apply_updates(m, encoded(pairs)), n)) == height_after(
            pairs,
            n,
            block_of(lookup(m, n)),
        ),
    decreases pairs.len(),
{
    if pairs.len() > 0 {
        let prev = pairs.drop_last();
        let last = pairs.last();
        assert(encoded(pairs).drop_last() =~= encoded(prev));
        assert(encoded(pairs).last() == (last.0, leaf_of(last.1)));
        lemma_height_after(m, prev, n);
        if last.0 == n {
            lemma_leaf_round_trip(last.1);
            if last.1 == 0 {
                assert(leaf_of(0) =~= empty_word());
            }
        }
    }
}

/// Changes computed from one state are accepted by that state only: a state
/// of another version or with another root refuses them, and so does the
/// state that applying them produced, even where they left the root as it was.
pub proof fn lemma_diff_single_use(
    s: NullifierTree,
    other: NullifierTree,
    after: NullifierTree,
    m: NullifierMutations,
)
    requires
        m.base_version() == s.version_view(),
        mutation_base_root(m.changes()) == s.root_view(),
        after.version_view() == s.version_view() + 1,
    ensures
        s.accepts(m),
        other.root_view() != s.root_view() || other.version_view() != s.version_view()
            ==> !other.accepts(m),
        !after.accepts(m),
{
}

/// The map built from valid initial pairs holds each pair's encoding, and
/// nothing else; every entry encodes a non-genesis height.
proof fn lemma_initial_entries(pairs: Seq<(Nullifier, BlockNumber)>)
    requires
        !has_genesis_height(pairs),
        !has_repeated_key(nullifiers_of(pairs)),
    ensures
        entries_wf(apply_updates(Map::empty(), encoded(pairs))),
        forall|i: int|
            0 <= i < pairs.len() ==> #[trigger] lookup(
                apply_updates(Map::empty(), encoded(pairs)),
                pairs[i].0,
            ) == leaf_of(pairs[i].1),
        forall|n: Nullifier|
            !nullifiers_of(pairs).contains(n) ==> !#[trigger] apply_updates(
                Map::empty(),
                encoded(pairs),
            ).contains_key(n),
    decreases pairs.len(),
{
    if pairs.len() > 0 {
        let prev = pairs.drop_last();
        assert(encoded(pairs).drop_last() =~= encoded(prev));
        assert(nullifiers_of(prev) =~= nullifiers_of(pairs).drop_last());
        assert(!has_genesis_height(prev)) by {
            if has_genesis_height(prev) {
                let i = choose|i: int| 0 <= i < prev.len() && (#[trigger] prev[i]).1 == 0;
                assert(pairs[i] == prev[i]);
            }
        }
        assert(!has_repeated_key(nullifiers_of(prev))) by {
            if has_repeated_key(nullifiers_of(prev)) {
                let (i, j) = choose|i: int, j: int|
                    0 <= i < j < nullifiers_of(prev).len() && #[trigger] nullifiers_of(prev)[i]
                        == #[trigger] nullifiers_of(prev)[j];
                assert(nullifiers_of(pairs)[i] == nullifiers_of(pairs)[j]);
            }
        }
        lemma_initial_entries(prev);
        let last = pairs.last();
        let m0 = apply_updates(Map::empty(), encoded(prev));
        assert(last.1 != 0) by {
            assert(pairs[pairs.len() - 1] == last);
        }
        lemma_leaf_round_trip(last.1);
        assert(leaf_of(last.1) != empty_word()) by {
            assert(leaf_of(last.1)[0] != empty_word()[0]);
        }
        assert(apply_updates(Map::empty(), encoded(pairs)) == m0.insert(last.0, leaf_of(last.1)));
        assert forall|i: int| 0 <= i < pairs.len() implies #[trigger] lookup(
            apply_updates(Map::empty(), encoded(pairs)),
            pairs[i].0,
        ) == leaf_of(pairs[i].1) by {
            if i == pairs.len() - 1 {
                assert(pairs[i] == last);
            } else {
                assert(prev[i] == pairs[i]);
                assert(lookup(m0, prev[i].0) == leaf_of(prev[i].1));
                assert(nullifiers_of(pairs)[i] == pairs[i].0);
                assert(nullifiers_of(pairs)[pairs.len() - 1] == last.0);
                assert(pairs[i].0 != last.0);
            }
        }
        assert forall|n: Nullifier| !nullifiers_of(pairs).contains(n) implies !#[trigger] apply_updates(
            Map::empty(),
            encoded(pairs),
        ).contains_key(n) by {
            assert(nullifiers_of(pairs)[pairs.len() - 1] == last.0);
            if nullifiers_of(prev).contains(n) {
                let i = choose|i: int| 0 <= i < nullifiers_of(prev).len() && nullifiers_of(prev)[i] == n;
                assert(nullifiers_of(pairs)[i] == n);
            }
        }
    } else {
        assert(apply_updates(Map::empty(), encoded(pairs)) == Map::<Digest, Seq<u64>>::empty());
    }
}

} // verus!
