use ghost_agent::merkle::MerkleTree;
use sha2::{Digest, Sha256};

fn leaf_digest(identity: &[u8], token_id: u64, balance: u64) -> Vec<u8> {
    let mut h = Sha256::new();
    h.update(identity);
    h.update(token_id.to_be_bytes());
    h.update(balance.to_be_bytes());
    h.finalize().to_vec()
}

fn pair_digest(left: &[u8], right: &[u8]) -> Vec<u8> {
    let mut h = Sha256::new();
    h.update(left);
    h.update(right);
    h.finalize().to_vec()
}

#[test]
fn empty_tree_has_no_root() {
    let tree = MerkleTree::new();
    assert!(tree.root_hash().is_none());
}

#[test]
fn single_leaf_root_is_leaf_hash() {
    let mut tree = MerkleTree::new();
    tree.add_balance(vec![65], 1, 10);
    assert_eq!(tree.root_hash().unwrap(), leaf_digest(&[65], 1, 10));
}

#[test]
fn three_leaves_promote_odd_node() {
    // Balances [10, 20, 30] for assets (A,1), (B,1), (C,1).
    let mut tree = MerkleTree::new();
    tree.add_balance(vec![65], 1, 10);
    tree.add_balance(vec![66], 1, 20);
    tree.add_balance(vec![67], 1, 30);

    let ha = leaf_digest(&[65], 1, 10);
    let hb = leaf_digest(&[66], 1, 20);
    let hc = leaf_digest(&[67], 1, 30);
    let inner = pair_digest(&ha, &hb);
    // The unpaired third leaf is promoted unchanged to the next level.
    let root = pair_digest(&inner, &hc);
    assert_eq!(tree.root_hash().unwrap(), root);

    // The promoted leaf's proof skips the bottom level entirely; its one
    // entry pairs it with the other subtree's hash at the next level.
    let (siblings, sides) = tree.generate_proof(&vec![67], 1).unwrap();
    assert_eq!(siblings, vec![inner.clone()]);
    assert_eq!(sides, vec![false]);
    assert!(MerkleTree::verify_inclusion(&hc, &siblings, &sides, &root));

    // The first leaf's proof walks both levels.
    let (siblings_a, sides_a) = tree.generate_proof(&vec![65], 1).unwrap();
    assert_eq!(siblings_a, vec![hb.clone(), hc.clone()]);
    assert_eq!(sides_a, vec![true, true]);
    assert!(MerkleTree::verify_inclusion(&ha, &siblings_a, &sides_a, &root));

    let (siblings_b, sides_b) = tree.generate_proof(&vec![66], 1).unwrap();
    assert!(MerkleTree::verify_inclusion(&hb, &siblings_b, &sides_b, &root));

    // A proof folded against the wrong leaf hash does not reach the root.
    assert!(!MerkleTree::verify_inclusion(&ha, &siblings, &sides, &root));
}

#[test]
fn insertion_order_changes_the_root() {
    let mut forward = MerkleTree::new();
    forward.add_balance(vec![65], 1, 10);
    forward.add_balance(vec![66], 1, 20);

    let mut backward = MerkleTree::new();
    backward.add_balance(vec![66], 1, 20);
    backward.add_balance(vec![65], 1, 10);

    assert_ne!(forward.root_hash().unwrap(), backward.root_hash().unwrap());
}

#[test]
fn update_balance_rewrites_in_place() {
    let mut tree = MerkleTree::new();
    tree.add_balance(vec![65], 1, 10);
    tree.add_balance(vec![66], 1, 20);

    assert!(tree.update_balance(&vec![65], 1, 99));

    let mut expected = MerkleTree::new();
    expected.add_balance(vec![65], 1, 99);
    expected.add_balance(vec![66], 1, 20);
    assert_eq!(tree.root_hash(), expected.root_hash());

    // An absent key reports not found and leaves the root alone.
    let before = tree.root_hash();
    assert!(!tree.update_balance(&vec![68], 1, 5));
    assert_eq!(tree.root_hash(), before);
}

#[test]
fn five_leaves_verify_at_every_position() {
    let mut tree = MerkleTree::new();
    let mut leaf_hashes = Vec::new();
    for i in 0u8..5 {
        tree.add_balance(vec![i], 1, (i as u64) * 10);
        leaf_hashes.push(leaf_digest(&[i], 1, (i as u64) * 10));
    }
    // Two promotions on the way up: at the five-entry level and again at the
    // level of three.
    let l1 = vec![
        pair_digest(&leaf_hashes[0], &leaf_hashes[1]),
        pair_digest(&leaf_hashes[2], &leaf_hashes[3]),
        leaf_hashes[4].clone(),
    ];
    let l2 = vec![pair_digest(&l1[0], &l1[1]), l1[2].clone()];
    let root = pair_digest(&l2[0], &l2[1]);
    assert_eq!(tree.root_hash().unwrap(), root);

    for i in 0u8..5 {
        let (siblings, sides) = tree.generate_proof(&vec![i], 1).unwrap();
        assert!(MerkleTree::verify_inclusion(
            &leaf_hashes[i as usize],
            &siblings,
            &sides,
            &root
        ));
    }
    // The last leaf is promoted twice, so its proof has a single entry.
    let (siblings, _) = tree.generate_proof(&vec![4], 1).unwrap();
    assert_eq!(siblings, vec![l2[0].clone()]);
}

#[test]
fn proof_for_absent_key_is_none() {
    let mut tree = MerkleTree::new();
    tree.add_balance(vec![65], 1, 10);
    assert!(tree.generate_proof(&vec![65], 2).is_none());
    assert!(tree.generate_proof(&vec![66], 1).is_none());
}
