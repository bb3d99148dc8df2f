use protocol_ink::merkle_tree::{zero_table, MerkleTree};
use protocol_ink::poseidon::{Poseidon, PoseidonError};
use protocol_ink::root_history::same_element;

fn leaf(i: u8) -> [u8; 32] {
    let mut l = [i; 32];
    l[31] = 0;
    l
}

fn hash(l: &[u8; 32], r: &[u8; 32]) -> [u8; 32] {
    Poseidon::new().hash_left_right(l, r).unwrap()
}

/// Recomputes the root of a tree of height `levels` over `leaves`, empty
/// positions holding the all-zero leaf.
fn recompute_root(levels: u32, leaves: &[[u8; 32]]) -> [u8; 32] {
    let mut layer: Vec<[u8; 32]> = leaves.to_vec();
    let mut zero = [0u8; 32];
    for _ in 0..levels {
        if layer.len() % 2 == 1 {
            layer.push(zero);
        }
        if layer.is_empty() {
            layer.push(zero);
            layer.push(zero);
        }
        layer = layer.chunks(2).map(|p| hash(&p[0], &p[1])).collect();
        zero = hash(&zero, &zero);
    }
    layer[0]
}

#[test]
fn poseidon_hash_rejects_other_widths() {
    let p = Poseidon::new();
    assert_eq!(p.hash(vec![leaf(1)]), Err(PoseidonError::InvalidHashInputWidth));
    assert_eq!(p.hash(vec![leaf(1), leaf(2), leaf(3)]), Err(PoseidonError::InvalidHashInputWidth));
    assert_eq!(p.hash(vec![leaf(1), leaf(2)]), p.hash_left_right(&leaf(1), &leaf(2)));
}

#[test]
fn poseidon_hash_rejects_values_outside_the_field() {
    let p = Poseidon::new();
    assert_eq!(p.hash_left_right(&[0xff; 32], &leaf(1)), Err(PoseidonError::HashError));
    assert_eq!(p.hash_left_right(&leaf(1), &[0xff; 32]), Err(PoseidonError::HashError));
}

#[test]
fn poseidon_hash_is_ordered_and_not_identity() {
    let a = hash(&leaf(1), &leaf(2));
    let b = hash(&leaf(2), &leaf(1));
    assert_ne!(a, b);
    assert_ne!(a, leaf(1));
    assert_ne!(a, leaf(2));
}

#[test]
fn zero_table_chains_hashes() {
    let table = zero_table(4);
    assert_eq!(table.len(), 5);
    assert_eq!(table[0], [0u8; 32]);
    for h in 0..4 {
        assert_eq!(table[h + 1], hash(&table[h], &table[h]));
    }
}

#[test]
fn insert_returns_consecutive_indices_and_recomputed_roots() {
    let mut tree = MerkleTree::new(3);
    assert_eq!(tree.get_last_root(), [0u8; 32]);
    let mut leaves = Vec::new();
    for i in 0..5u8 {
        let l = leaf(i + 1);
        assert_eq!(tree.insert(l), Ok(i as u32));
        leaves.push(l);
        assert_eq!(tree.get_last_root(), recompute_root(3, &leaves));
    }
    assert_eq!(tree.next_index(), 5);
}

#[test]
fn first_root_of_height_one_tree() {
    let mut tree = MerkleTree::new(1);
    tree.insert(leaf(7)).unwrap();
    assert_eq!(tree.get_last_root(), hash(&leaf(7), &[0u8; 32]));
    tree.insert(leaf(8)).unwrap();
    assert_eq!(tree.get_last_root(), hash(&leaf(7), &leaf(8)));
}

#[test]
fn full_tree_refuses_insert() {
    let mut tree = MerkleTree::new(1);
    assert_eq!(tree.insert(leaf(1)), Ok(0));
    assert_eq!(tree.insert(leaf(2)), Ok(1));
    let root = tree.get_last_root();
    assert_eq!(tree.insert(leaf(3)), Err(protocol_ink::error::Error::TreeFull));
    assert_eq!(tree.get_last_root(), root);
    assert_eq!(tree.next_index(), 2);
}

#[test]
fn leaf_outside_the_field_is_refused() {
    let mut tree = MerkleTree::new(2);
    assert_eq!(tree.insert([0xff; 32]), Err(protocol_ink::error::Error::HashError));
    assert_eq!(tree.next_index(), 0);
    assert_eq!(tree.insert(leaf(1)), Ok(0));
}

#[test]
fn zero_is_never_a_known_root() {
    let mut tree = MerkleTree::new(2);
    assert!(!tree.is_known_root([0u8; 32]));
    tree.insert(leaf(1)).unwrap();
    assert!(!tree.is_known_root([0u8; 32]));
    assert!(tree.is_known_root(tree.get_last_root()));
    assert!(!tree.is_known_root(leaf(9)));
}

#[test]
fn root_history_keeps_the_last_hundred_roots() {
    let mut tree = MerkleTree::new(8);
    let mut roots = Vec::new();
    for i in 0..120u32 {
        let mut l = [0u8; 32];
        l[0] = (i % 256) as u8;
        l[1] = 1;
        tree.insert(l).unwrap();
        roots.push(tree.get_last_root());
    }
    for (k, r) in roots.iter().enumerate() {
        assert_eq!(tree.is_known_root(*r), k >= 20, "root {}", k);
    }
}

#[test]
fn scenario_deposits_on_a_deep_tree() {
    let mut tree = MerkleTree::new(30);
    let c1 = [0x11u8, 0x5a, 0x3c, 0x7e, 0x01, 0x99, 0x42, 0xde, 0x10, 0x2f, 0x88, 0x61, 0x07, 0xc4, 0x3b, 0x5d,
        0xe2, 0x19, 0x74, 0xa0, 0x0b, 0x56, 0xf3, 0x28, 0x6e, 0x91, 0xcd, 0x04, 0x37, 0xb8, 0x4a, 0x1f];
    let c2 = [0x23u8, 0x04, 0xee, 0x51, 0x9c, 0x7a, 0x30, 0x16, 0xf9, 0x85, 0x2d, 0x6b, 0xc1, 0x48, 0x0e, 0x77,
        0x93, 0x5f, 0xa6, 0x1c, 0xd2, 0x39, 0x64, 0x8b, 0x02, 0xe7, 0x4c, 0xb5, 0x70, 0x1a, 0x96, 0x2b];
    assert_eq!(tree.insert(c1), Ok(0));
    let r1 = tree.get_last_root();
    assert_eq!(tree.insert(c2), Ok(1));
    let r2 = tree.get_last_root();
    assert_ne!(r1, r2);
    assert!(tree.is_known_root(r1));
    // r1 was produced by the first insertion; 99 more keep it, the 100th evicts it.
    for i in 0..98u32 {
        let mut l = [0u8; 32];
        l[0] = (i % 256) as u8;
        l[1] = 2;
        tree.insert(l).unwrap();
    }
    assert!(tree.is_known_root(r1));
    let mut l = [0u8; 32];
    l[1] = 3;
    tree.insert(l).unwrap();
    assert!(!tree.is_known_root(r1));
    assert!(tree.is_known_root(r2));
    assert!(same_element(&r2, &r2));
}
