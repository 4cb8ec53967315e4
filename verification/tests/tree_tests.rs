use ruint::aliases::U256;
use semaphore_mock::error::SemaphoreError;
use semaphore_mock::field::{hash_to_field, FieldElement};
use semaphore_mock::identity::Identity;
use semaphore_mock::tree::{CommitmentTree, Direction};
use semaphore_rs::poseidon_tree::{Branch, LazyPoseidonTree};

fn to_u256(f: &FieldElement) -> U256 {
    U256::from_limbs(f.to_limbs())
}

fn from_u256(u: U256) -> FieldElement {
    FieldElement::from_limbs(u.into_limbs()).unwrap()
}

fn pair(a: &FieldElement, b: &FieldElement) -> FieldElement {
    from_u256(semaphore_rs_poseidon::poseidon::hash2(to_u256(a), to_u256(b)))
}

fn naive_root(leaves: &[FieldElement]) -> FieldElement {
    let mut level: Vec<FieldElement> = leaves.to_vec();
    while level.len() > 1 {
        let mut next = Vec::new();
        for k in 0..level.len() / 2 {
            next.push(pair(&level[2 * k], &level[2 * k + 1]));
        }
        level = next;
    }
    level[0]
}

#[test]
fn new_tree_root_is_the_naive_root_of_empty_leaves() {
    for depth in 0..=8usize {
        let empty = FieldElement::from_u64(0);
        let tree = CommitmentTree::new(depth, empty);
        let leaves = vec![empty; 1usize << depth];
        assert_eq!(tree.root(), naive_root(&leaves));
        assert_eq!(tree.depth(), depth);
        assert_eq!(tree.empty_leaf(), empty);
    }
}

#[test]
fn new_tree_root_with_another_empty_leaf() {
    let empty = FieldElement::from_u64(77);
    let tree = CommitmentTree::new(3, empty);
    assert_eq!(tree.root(), naive_root(&vec![empty; 8]));
    assert_ne!(tree.root(), CommitmentTree::new(3, FieldElement::zero()).root());
}

#[test]
fn setting_every_leaf_to_empty_keeps_the_root() {
    let empty = FieldElement::zero();
    let mut tree = CommitmentTree::new(5, empty);
    let root = tree.root();
    for i in 0..32usize {
        assert_eq!(tree.update(i, empty), Ok(()));
    }
    assert_eq!(tree.root(), root);
}

#[test]
fn depth_one_root_is_the_hash_of_the_two_leaves() {
    let mut tree = CommitmentTree::new(1, FieldElement::zero());
    let a = FieldElement::from_u64(5);
    let b = FieldElement::from_u64(9);
    tree.update(0, a).unwrap();
    tree.update(1, b).unwrap();
    assert_eq!(tree.root(), pair(&a, &b));
    assert_ne!(tree.root(), pair(&b, &a));
    assert_ne!(tree.root(), a);
}

#[test]
fn root_agrees_with_the_lazy_poseidon_tree() {
    let mut ours = CommitmentTree::new(16, FieldElement::zero());
    let mut theirs = LazyPoseidonTree::new(16, U256::from(0u64)).derived();
    assert_eq!(to_u256(&ours.root()), theirs.root());
    for (i, v) in [(0usize, 11u64), (3, 12), (65535, 13), (40000, 14), (3, 15)] {
        ours.update(i, FieldElement::from_u64(v)).unwrap();
        theirs = theirs.update(i, &U256::from(v));
        assert_eq!(to_u256(&ours.root()), theirs.root());
    }
    let ours_path = ours.path(40000).unwrap();
    let theirs_path = theirs.proof(40000);
    assert_eq!(ours_path.len(), 16);
    assert_eq!(theirs_path.0.len(), 16);
    for l in 0..16 {
        let step = ours_path.steps[l];
        match theirs_path.0[l] {
            Branch::Left(sibling) => {
                assert_eq!(step.direction, Direction::Right);
                assert_eq!(to_u256(&step.sibling), sibling);
            }
            Branch::Right(sibling) => {
                assert_eq!(step.direction, Direction::Left);
                assert_eq!(to_u256(&step.sibling), sibling);
            }
        }
    }
}

#[test]
fn root_does_not_depend_on_update_order() {
    let values = [(0usize, 3u64), (7, 4), (9, 5), (15, 6), (8, 7)];
    let mut forward = CommitmentTree::new(4, FieldElement::zero());
    for (i, v) in values.iter() {
        forward.update(*i, FieldElement::from_u64(*v)).unwrap();
    }
    let mut backward = CommitmentTree::new(4, FieldElement::zero());
    for (i, v) in values.iter().rev() {
        backward.update(*i, FieldElement::from_u64(*v)).unwrap();
    }
    assert_eq!(forward.root(), backward.root());
    let mut leaves = vec![FieldElement::zero(); 16];
    for (i, v) in values.iter() {
        leaves[*i] = FieldElement::from_u64(*v);
    }
    assert_eq!(forward.root(), naive_root(&leaves));
}

#[test]
fn overwriting_a_leaf_keeps_only_the_last_value() {
    let mut tree = CommitmentTree::new(3, FieldElement::zero());
    tree.update(2, FieldElement::from_u64(1)).unwrap();
    tree.update(2, FieldElement::from_u64(2)).unwrap();
    let mut once = CommitmentTree::new(3, FieldElement::zero());
    once.update(2, FieldElement::from_u64(2)).unwrap();
    assert_eq!(tree.root(), once.root());
}

#[test]
fn path_of_an_updated_leaf_leads_to_the_root() {
    for depth in [1usize, 4, 7] {
        let mut tree = CommitmentTree::new(depth, FieldElement::zero());
        for i in 0..(1usize << depth) {
            let v = FieldElement::from_u64(1000 + i as u64);
            tree.update(i, v).unwrap();
            let path = tree.path(i).unwrap();
            assert_eq!(path.len(), depth);
            assert_eq!(path.compute_root(v), tree.root());
            assert_ne!(path.compute_root(FieldElement::from_u64(1)), tree.root());
        }
    }
}

#[test]
fn path_of_an_unset_leaf_leads_from_the_empty_leaf_to_the_root() {
    let mut tree = CommitmentTree::new(6, FieldElement::zero());
    tree.update(17, FieldElement::from_u64(5)).unwrap();
    let path = tree.path(40).unwrap();
    assert_eq!(path.compute_root(FieldElement::zero()), tree.root());
}

#[test]
fn path_directions_follow_the_bits_of_the_index() {
    let tree = CommitmentTree::new(4, FieldElement::zero());
    let path = tree.path(0b0101).unwrap();
    let directions: Vec<Direction> = path.steps.iter().map(|s| s.direction).collect();
    assert_eq!(
        directions,
        vec![Direction::Left, Direction::Right, Direction::Left, Direction::Right]
    );
}

#[test]
fn update_elsewhere_keeps_siblings_off_its_path() {
    let mut tree = CommitmentTree::new(4, FieldElement::zero());
    tree.update(0, FieldElement::from_u64(1)).unwrap();
    let before = tree.path(0).unwrap();
    tree.update(5, FieldElement::from_u64(2)).unwrap();
    let after = tree.path(0).unwrap();
    assert_eq!(before.steps[0], after.steps[0]);
    assert_eq!(before.steps[1], after.steps[1]);
    assert_ne!(before.steps[2], after.steps[2]);
    assert_eq!(before.steps[3], after.steps[3]);
}

#[test]
fn out_of_range_index_is_refused() {
    let mut tree = CommitmentTree::new(4, FieldElement::zero());
    tree.update(3, FieldElement::from_u64(8)).unwrap();
    let root = tree.root();
    assert_eq!(tree.update(16, FieldElement::from_u64(1)), Err(SemaphoreError::IndexOutOfRange));
    assert_eq!(tree.root(), root);
    assert_eq!(tree.path(16).err(), Some(SemaphoreError::IndexOutOfRange));
    assert_eq!(tree.update(usize::MAX, FieldElement::zero()), Err(SemaphoreError::IndexOutOfRange));
    assert!(tree.update(15, FieldElement::from_u64(1)).is_ok());
    assert!(tree.path(15).is_ok());
}

#[test]
fn depth_zero_tree_is_its_one_leaf() {
    let mut tree = CommitmentTree::new(0, FieldElement::from_u64(4));
    assert_eq!(tree.root(), FieldElement::from_u64(4));
    assert_eq!(tree.update(1, FieldElement::zero()), Err(SemaphoreError::IndexOutOfRange));
    tree.update(0, FieldElement::from_u64(6)).unwrap();
    assert_eq!(tree.root(), FieldElement::from_u64(6));
    assert_eq!(tree.path(0).unwrap().len(), 0);
    assert!(tree.path(1).is_err());
}

#[test]
fn deep_tree_takes_every_index() {
    let mut tree = CommitmentTree::new(70, FieldElement::zero());
    tree.update(usize::MAX, FieldElement::from_u64(3)).unwrap();
    let path = tree.path(usize::MAX).unwrap();
    assert_eq!(path.len(), 70);
    assert_eq!(path.compute_root(FieldElement::from_u64(3)), tree.root());
}

#[test]
fn three_identities_in_a_tree_of_depth_four() {
    let mut tree = CommitmentTree::new(4, FieldElement::zero());
    let mut theirs = LazyPoseidonTree::new(4, U256::from(0u64)).derived();
    let mut identities = Vec::new();
    for (i, byte) in [1u8, 2, 3].iter().enumerate() {
        let id = Identity::derive(&[*byte; 32]).unwrap();
        tree.update(i, id.commitment()).unwrap();
        theirs = theirs.update(i, &to_u256(&id.commitment()));
        identities.push(id);
    }
    assert_eq!(to_u256(&tree.root()), theirs.root());
    let path = tree.path(1).unwrap();
    assert_eq!(path.steps.len(), 4);
    assert_eq!(path.steps[0].sibling, identities[0].commitment());
    assert_eq!(path.steps[0].direction, Direction::Left);
    assert_eq!(path.compute_root(identities[1].commitment()), tree.root());
    let root = tree.root();
    let fourth = Identity::derive(&[4u8; 32]).unwrap();
    tree.update(3, fourth.commitment()).unwrap();
    assert_ne!(tree.root(), root);
    assert_ne!(path.compute_root(identities[1].commitment()), tree.root());
}

#[test]
fn hash_to_field_is_the_shifted_keccak_digest() {
    for data in [&b"xxx"[..], &b"appId"[..], &b""[..]] {
        assert_eq!(to_u256(&hash_to_field(data)), semaphore_rs::hash_to_field(data));
    }
    assert_ne!(hash_to_field(b"xxx"), hash_to_field(b"appId"));
}

#[test]
fn leaf_reads_back_what_was_set() {
    let mut tree = CommitmentTree::new(5, FieldElement::from_u64(9));
    assert_eq!(tree.leaf(0), Ok(FieldElement::from_u64(9)));
    assert_eq!(tree.leaf(31), Ok(FieldElement::from_u64(9)));
    tree.update(21, FieldElement::from_u64(4)).unwrap();
    tree.update(20, FieldElement::from_u64(5)).unwrap();
    assert_eq!(tree.leaf(21), Ok(FieldElement::from_u64(4)));
    assert_eq!(tree.leaf(20), Ok(FieldElement::from_u64(5)));
    assert_eq!(tree.leaf(22), Ok(FieldElement::from_u64(9)));
    assert_eq!(tree.leaf(5), Ok(FieldElement::from_u64(9)));
    assert_eq!(tree.leaf(32), Err(SemaphoreError::IndexOutOfRange));
}
