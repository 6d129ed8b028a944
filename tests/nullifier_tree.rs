use miden_objects::crypto::hash::rpo::RpoDigest;
use miden_objects::Felt;
use nullifier_state::digest::{Digest, MODULUS};
use nullifier_state::errors::NullifierTreeError;
use nullifier_state::nullifier_tree::NullifierTree;

fn nullifier(seed: u64) -> Digest {
    Digest::new(seed, seed + 1, seed + 2, seed + 3)
}

fn rpo(d: &Digest) -> RpoDigest {
    RpoDigest::new([Felt::new(d.e0), Felt::new(d.e1), Felt::new(d.e2), Felt::new(d.e3)])
}

#[test]
fn test_leaf_value_encoding() {
    let block_num = 123;
    let nullifier_value = NullifierTree::block_num_to_leaf_value(block_num);

    assert_eq!(nullifier_value, [123, 0, 0, 0])
}

#[test]
fn test_leaf_value_decoding() {
    let block_num = 123;
    let nullifier_value = [block_num as u64, 0, 0, 0];
    let decoded_block_num = NullifierTree::leaf_value_to_block_num(nullifier_value);

    assert_eq!(decoded_block_num, block_num);
}

#[test]
fn leaf_round_trip_largest_height() {
    let leaf = NullifierTree::block_num_to_leaf_value(u32::MAX);
    assert_eq!(leaf, [u32::MAX as u64, 0, 0, 0]);
    assert_eq!(NullifierTree::leaf_value_to_block_num(leaf), u32::MAX);
}

#[test]
fn genesis_tracker_learns_a_consumed_nullifier() {
    let n1 = nullifier(7);
    let mut tree = NullifierTree::with_entries(vec![]).unwrap();
    assert_eq!(tree.get_block_num(&n1), None);
    let before = tree.root();

    let mutations = tree.compute_mutations(vec![(n1, 5)]).unwrap();
    assert_eq!(tree.root(), before);
    tree.apply_mutations(mutations).unwrap();

    assert_eq!(tree.get_block_num(&n1), Some(5));
    assert_ne!(tree.root(), before);
}

#[test]
fn initial_entries_are_reported() {
    let a = nullifier(1);
    let b = nullifier(100);
    let absent = nullifier(1000);
    let tree = NullifierTree::with_entries(vec![(a, 3), (b, 9)]).unwrap();
    assert_eq!(tree.get_block_num(&a), Some(3));
    assert_eq!(tree.get_block_num(&b), Some(9));
    assert_eq!(tree.get_block_num(&absent), None);
}

#[test]
fn initial_entries_refuse_a_repeated_nullifier() {
    let a = nullifier(1);
    let r = NullifierTree::with_entries(vec![(a, 3), (a, 4)]);
    assert!(matches!(r, Err(NullifierTreeError::CreationFailed(_))));
}

#[test]
fn initial_entries_refuse_genesis_height() {
    let a = nullifier(1);
    let r = NullifierTree::with_entries(vec![(nullifier(50), 2), (a, 0)]);
    assert!(matches!(r, Err(NullifierTreeError::GenesisBlockNumber { nullifier }) if nullifier == a));
}

#[test]
fn stale_mutations_are_refused_and_change_nothing() {
    let mut tree = NullifierTree::with_entries(vec![(nullifier(1), 2)]).unwrap();
    let first = tree.compute_mutations(vec![(nullifier(10), 3)]).unwrap();
    let second = tree.compute_mutations(vec![(nullifier(20), 3)]).unwrap();
    tree.apply_mutations(first).unwrap();
    let root = tree.root();

    let r = tree.apply_mutations(second);
    assert!(matches!(r, Err(NullifierTreeError::StaleMutations)));
    assert_eq!(tree.root(), root);
    assert_eq!(tree.get_block_num(&nullifier(20)), None);
    assert_eq!(tree.get_block_num(&nullifier(10)), Some(3));
}

#[test]
fn diff_that_keeps_the_root_applies_once() {
    let mut tree = NullifierTree::with_entries(vec![(nullifier(1), 2)]).unwrap();
    let root = tree.root();
    let first = tree.compute_mutations(vec![]).unwrap();
    let again = tree.compute_mutations(vec![(nullifier(1), 2)]).unwrap();
    assert!(tree.apply_mutations(first).is_ok());
    assert_eq!(tree.root(), root);
    assert!(matches!(tree.apply_mutations(again), Err(NullifierTreeError::StaleMutations)));
    assert_eq!(tree.root(), root);
}

#[test]
fn diff_from_another_tracker_is_refused() {
    let mut tree = NullifierTree::with_entries(vec![(nullifier(1), 2)]).unwrap();
    let other = NullifierTree::with_entries(vec![(nullifier(40), 2)]).unwrap();
    let m = other.compute_mutations(vec![(nullifier(10), 3)]).unwrap();
    let root = tree.root();
    assert!(matches!(tree.apply_mutations(m), Err(NullifierTreeError::MutationFailed(_))));
    assert_eq!(tree.root(), root);
    assert_eq!(tree.get_block_num(&nullifier(10)), None);
}

#[test]
fn diff_refuses_genesis_height() {
    let tree = NullifierTree::with_entries(vec![(nullifier(1), 2)]).unwrap();
    let r = tree.compute_mutations(vec![(nullifier(5), 3), (nullifier(1), 0)]);
    assert!(matches!(r, Err(NullifierTreeError::GenesisBlockNumber { nullifier: n }) if n == nullifier(1)));
}

#[test]
fn later_pair_for_a_nullifier_wins() {
    let mut tree = NullifierTree::with_entries(vec![(nullifier(1), 2)]).unwrap();
    let m = tree.compute_mutations(vec![(nullifier(5), 3), (nullifier(5), 8), (nullifier(1), 6)]).unwrap();
    tree.apply_mutations(m).unwrap();
    assert_eq!(tree.get_block_num(&nullifier(5)), Some(8));
    assert_eq!(tree.get_block_num(&nullifier(1)), Some(6));
}

#[test]
fn rebuilt_tracker_has_the_same_root() {
    let mut tree = NullifierTree::with_entries(vec![(nullifier(1), 2)]).unwrap();
    let m = tree.compute_mutations(vec![(nullifier(10), 3)]).unwrap();
    tree.apply_mutations(m).unwrap();
    let rebuilt = NullifierTree::with_entries(vec![(nullifier(1), 2), (nullifier(10), 3)]).unwrap();
    assert_eq!(rebuilt.root(), tree.root());
    let permuted = NullifierTree::with_entries(vec![(nullifier(10), 3), (nullifier(1), 2)]).unwrap();
    assert_eq!(permuted.root(), tree.root());
}

#[test]
fn openings_verify_against_the_root() {
    let present = nullifier(1);
    let absent = nullifier(500);
    let tree = NullifierTree::with_entries(vec![(present, 42)]).unwrap();
    let root = rpo(&tree.root());

    let proof = tree.open(&present);
    let value = [Felt::new(42), Felt::new(0), Felt::new(0), Felt::new(0)];
    assert!(proof.verify_membership(&rpo(&present), &value, &root));
    assert_eq!(NullifierTree::read_opening(&proof, &present), (tree.root(), Some(Some(42))));

    let proof = tree.open(&absent);
    let empty = [Felt::new(0); 4];
    assert!(proof.verify_membership(&rpo(&absent), &empty, &root));
    assert_eq!(NullifierTree::read_opening(&proof, &absent), (tree.root(), Some(None)));
}

#[test]
fn root_elements_are_canonical() {
    let tree = NullifierTree::with_entries(vec![(nullifier(MODULUS - 10), 1)]).unwrap();
    let r = tree.root();
    assert!(r.e0 < MODULUS && r.e1 < MODULUS && r.e2 < MODULUS && r.e3 < MODULUS);
}
