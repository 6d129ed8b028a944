//! The authenticated sparse map of `miden_objects`, as the tracker uses it.
//!
//! Keys and leaf values cross into the map as four field elements each; every
//! element handed over is canonical, so the conversion is one to one.
use vstd::prelude::*;

use miden_objects::crypto::hash::rpo::RpoDigest;
use miden_objects::crypto::merkle::{MerkleError, MutationSet, Smt, SmtProof};
use miden_objects::{Felt, Word as FeltWord};

use crate::digest::{is_felt, Digest, Word};

verus! {

#[verifier::external_type_specification]
#[verifier::external_body]
pub struct ExSmt(Smt);

#[verifier::external_type_specification]
#[verifier::external_body]
pub struct ExSmtProof(SmtProof);

#[verifier::external_type_specification]
#[verifier::external_body]
pub struct ExMerkleError(MerkleError);

#[verifier::external_type_specification]
#[verifier::external_body]
pub struct ExRpoDigest(RpoDigest);

#[verifier::external_type_specification]
#[verifier::external_body]
pub struct ExFelt(Felt);

#[verifier::external_type_specification]
#[verifier::external_body]
#[verifier::reject_recursive_types(K)]
#[verifier::reject_recursive_types(V)]
pub struct ExMutationSet<const DEPTH: u8, K, V>(MutationSet<DEPTH, K, V>);

/// A set of prospective changes to the map, keyed and valued as the map is.
pub type Mutations = MutationSet<64, RpoDigest, FeltWord>;

/// The non-empty entries that the map holds.
pub uninterp spec fn smt_entries(t: Smt) -> Map<Digest, Seq<u64>>;

/// The root digest of a map that holds exactly these non-empty entries.
pub uninterp spec fn root_of_entries(entries: Map<Digest, Seq<u64>>) -> Digest;

/// The value that an opening states for a key, if the key belongs to its leaf.
pub uninterp spec fn proof_value(p: SmtProof, key: Digest) -> Option<Seq<u64>>;

/// The root that an opening's path computes from its leaf.
pub uninterp spec fn proof_root(p: SmtProof) -> Digest;

/// The key/value pairs that a set of changes writes (an empty value clears its key).
pub uninterp spec fn mutation_pairs(m: Mutations) -> Map<Digest, Seq<u64>>;

/// The root of the map that a set of changes was computed against.
pub uninterp spec fn mutation_base_root(m: Mutations) -> Digest;

/// The root that the map has once a set of changes is applied.
pub uninterp spec fn mutation_new_root(m: Mutations) -> Digest;

/// The value of a key that holds nothing.
pub open spec fn empty_word() -> Seq<u64> {
    seq![0u64, 0u64, 0u64, 0u64]
}

/// The value stored under `k`: the empty value where there is no entry.
pub open spec fn lookup(m: Map<Digest, Seq<u64>>, k: Digest) -> Seq<u64> {
    if m.contains_key(k) {
        m[k]
    } else {
        empty_word()
    }
}

/// Writes `v` under `k`; writing the empty value removes the entry.
pub open spec fn set_value(m: Map<Digest, Seq<u64>>, k: Digest, v: Seq<u64>) -> Map<Digest, Seq<u64>> {
    if v == empty_word() {
        m.remove(k)
    } else {
        m.insert(k, v)
    }
}

/// Writes the pairs in order, each later write to a key replacing earlier ones.
pub open spec fn apply_updates(m: Map<Digest, Seq<u64>>, pairs: Seq<(Digest, Seq<u64>)>) -> Map<
    Digest,
    Seq<u64>,
>
    decreases pairs.len(),
{
    if pairs.len() == 0 {
        m
    } else {
        set_value(apply_updates(m, pairs.drop_last()), pairs.last().0, pairs.last().1)
    }
}

/// The entries of `m` with every pair of `pairs` written over them.
pub open spec fn overlay(m: Map<Digest, Seq<u64>>, pairs: Map<Digest, Seq<u64>>) -> Map<
    Digest,
    Seq<u64>,
> {
    Map::new(
        |k: Digest|
            if pairs.contains_key(k) {
                pairs[k] != empty_word()
            } else {
                m.contains_key(k)
            },
        |k: Digest|
            if pairs.contains_key(k) {
                pairs[k]
            } else {
                m[k]
            },
    )
}

pub open spec fn word_pairs(pairs: Seq<(Digest, Word)>) -> Seq<(Digest, Seq<u64>)> {
    pairs.map_values(|p: (Digest, Word)| (p.0, p.1@))
}

pub open spec fn word_is_felts(w: Seq<u64>) -> bool {
    w.len() == 4 && forall|i: int| 0 <= i < 4 ==> is_felt(#[trigger] w[i])
}

/// Every key and every value element is a canonical field element.
pub open spec fn pairs_are_felts(pairs: Seq<(Digest, Word)>) -> bool {
    forall|i: int| 0 <= i < pairs.len() ==> (#[trigger] pairs[i]).0.wf() && word_is_felts(pairs[i].1@)
}

/// Some key occurs at two positions.
pub open spec fn has_repeated_key(keys: Seq<Digest>) -> bool {
    exists|i: int, j: int| 0 <= i < j < keys.len() && #[trigger] keys[i] == #[trigger] keys[j]
}

pub open spec fn keys_of(pairs: Seq<(Digest, Word)>) -> Seq<Digest> {
    pairs.map_values(|p: (Digest, Word)| p.0)
}

/// Relies on `Smt::with_entries`: it fails exactly when a key occurs twice, and
/// otherwise holds the given pairs, an empty value standing for no entry.
#[verifier::external_body]
pub(crate) fn smt_with_entries(pairs: &Vec<(Digest, Word)>) -> (r: Result<Smt, MerkleError>)
    requires
        pairs_are_felts(pairs@),
    ensures
        r is Ok <==> !has_repeated_key(keys_of(pairs@)),
        r matches Ok(t) ==> smt_entries(t) == apply_updates(Map::empty(), word_pairs(pairs@)),
{
    Smt::with_entries(pairs.iter().map(|(k, v)| {
        let key = RpoDigest::new([Felt::new(k.e0), Felt::new(k.e1), Felt::new(k.e2), Felt::new(k.e3)]);
        (key, [Felt::new(v[0]), Felt::new(v[1]), Felt::new(v[2]), Felt::new(v[3])])
    }))
}

/// Relies on `Smt::root`: the root digest, which depends on the entries alone
/// and whose elements are canonical.
#[verifier::external_body]
pub(crate) fn smt_root_of(t: &Smt) -> (r: Digest)
    ensures
        r == root_of_entries(smt_entries(*t)),
        r.wf(),
{
    let e = t.root();
    let e = e.as_elements();
    Digest { e0: e[0].as_int(), e1: e[1].as_int(), e2: e[2].as_int(), e3: e[3].as_int() }
}

/// Relies on `Smt::get_value`: the stored value, or the empty value.
#[verifier::external_body]
pub(crate) fn smt_get_value(t: &Smt, k: &Digest) -> (r: Word)
    requires
        k.wf(),
    ensures
        r@ == lookup(smt_entries(*t), *k),
{
    let key = RpoDigest::new([Felt::new(k.e0), Felt::new(k.e1), Felt::new(k.e2), Felt::new(k.e3)]);
    let v = t.get_value(&key);
    [v[0].as_int(), v[1].as_int(), v[2].as_int(), v[3].as_int()]
}

/// Relies on `Smt::open`: the opening holds the current leaf of `k`, so it
/// states the current value of `k`, and its path leads to the current root.
#[verifier::external_body]
pub(crate) fn smt_open(t: &Smt, k: &Digest) -> (r: SmtProof)
    requires
        k.wf(),
    ensures
        proof_value(r, *k) == Some(lookup(smt_entries(*t), *k)),
        proof_root(r) == root_of_entries(smt_entries(*t)),
{
    let key = RpoDigest::new([Felt::new(k.e0), Felt::new(k.e1), Felt::new(k.e2), Felt::new(k.e3)]);
    t.open(&key)
}

/// Relies on `SmtProof::get`: the value that the opening states for `k`, or
/// `None` when `k` does not belong to its leaf.
#[verifier::external_body]
pub(crate) fn smt_proof_get(p: &SmtProof, k: &Digest) -> (r: Option<Word>)
    requires
        k.wf(),
    ensures
        r is None <==> proof_value(*p, *k) is None,
        r matches Some(w) ==> proof_value(*p, *k) == Some(w@),
{
    let key = RpoDigest::new([Felt::new(k.e0), Felt::new(k.e1), Felt::new(k.e2), Felt::new(k.e3)]);
    p.get(&key).map(|v| [v[0].as_int(), v[1].as_int(), v[2].as_int(), v[3].as_int()])
}

/// Relies on `SmtProof::compute_root`: the root that the opening leads to.
#[verifier::external_body]
pub(crate) fn smt_proof_root(p: &SmtProof) -> (r: Digest)
    ensures
        r == proof_root(*p),
        r.wf(),
{
    let e = p.compute_root();
    let e = e.as_elements();
    Digest { e0: e[0].as_int(), e1: e[1].as_int(), e2: e[2].as_int(), e3: e[3].as_int() }
}

/// Relies on `Smt::compute_mutations`, for pairs that write no empty value
/// (a cleared key replayed into a shared leaf would stay in the leaf's hash):
/// the changes are computed against the
/// current root; written over the current entries they give the pairs written
/// in order, and their new root is the root of that result; each value they
/// write is the value of some pair for that key.
#[verifier::external_body]
pub(crate) fn smt_compute_mutations(t: &Smt, pairs: &Vec<(Digest, Word)>) -> (r: Mutations)
    requires
        pairs_are_felts(pairs@),
        forall|i: int| 0 <= i < pairs@.len() ==> (#[trigger] pairs@[i]).1@ != empty_word(),
    ensures
        mutation_base_root(r) == root_of_entries(smt_entries(*t)),
        overlay(smt_entries(*t), mutation_pairs(r)) == apply_updates(
            smt_entries(*t),
            word_pairs(pairs@),
        ),
        mutation_new_root(r) == root_of_entries(apply_updates(smt_entries(*t), word_pairs(pairs@))),
        forall|k: Digest| #[trigger]
            mutation_pairs(r).contains_key(k) ==> exists|i: int|
                0 <= i < pairs@.len() && pairs@[i].0 == k && #[trigger] pairs@[i].1@
                    == mutation_pairs(r)[k],
{
    t.compute_mutations(pairs.iter().map(|(k, v)| {
        let key = RpoDigest::new([Felt::new(k.e0), Felt::new(k.e1), Felt::new(k.e2), Felt::new(k.e3)]);
        (key, [Felt::new(v[0]), Felt::new(v[1]), Felt::new(v[2]), Felt::new(v[3])])
    }))
}

/// Relies on `Smt::apply_mutations`, for changes that write no empty value:
/// changes computed against another root are
/// refused and leave the map as it was; otherwise their pairs are written and
/// the root becomes their new root.
#[verifier::external_body]
pub(crate) fn smt_apply_mutations(t: &mut Smt, m: Mutations) -> (r: Result<(), MerkleError>)
    requires
        forall|k: Digest| #[trigger]
            mutation_pairs(m).contains_key(k) ==> mutation_pairs(m)[k] != empty_word(),
    ensures
        r is Ok <==> mutation_base_root(m) == root_of_entries(smt_entries(*old(t))),
        r is Ok ==> smt_entries(*final(t)) == overlay(smt_entries(*old(t)), mutation_pairs(m)),
        r is Ok ==> root_of_entries(smt_entries(*final(t))) == mutation_new_root(m),
        r is Err ==> *final(t) == *old(t),
{
    t.apply_mutations(m)
}

} // verus!
