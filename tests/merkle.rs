use padlock::digest::hash;
use padlock::merkle::{Layer, MerkleProof, MerkleTree};

fn leaves(items: &[(u8, usize)]) -> Vec<Vec<u8>> {
    items.iter().map(|&(b, n)| vec![b; n]).collect()
}

fn join(l: &[u8; 28], r: &[u8; 28]) -> [u8; 28] {
    let mut both = l.to_vec();
    both.extend_from_slice(r);
    hash(&both)
}

#[test]
fn test() {
    let test_data = leaves(&[(0x0, 2), (0x0a, 5), (0xa2, 2), (0x1, 12), (0xfe, 27)]);
    let merkle_tree = MerkleTree::new(&test_data);
    let leaf = hash(&[0x0a; 5]);
    assert_eq!(leaf.len(), 28);
    let merkle_proof = merkle_tree.get_proof(leaf).expect("Couldn't get merkle proof");
    assert!(merkle_proof.is_proof(&merkle_tree.root));
    assert!(!merkle_proof.is_proof(&[0u8; 28]));
}

#[test]
fn five_leaves_promote_the_last_node_of_odd_layers() {
    let data = leaves(&[(0x0, 2), (0x0a, 5), (0xa2, 2), (0x1, 12), (0xfe, 27)]);
    let tree = MerkleTree::new(&data);
    let h: Vec<[u8; 28]> = data.iter().map(|d| hash(d)).collect();
    let a = join(&h[0], &h[1]);
    let b = join(&h[2], &h[3]);
    let c = h[4];
    let upper = join(&a, &b);
    assert_eq!(tree.root, join(&upper, &c));
    let sizes: Vec<usize> = tree.layers.iter().map(|l| l.0.len()).collect();
    assert_eq!(sizes, vec![5, 3, 2, 1]);
    let proof = tree.get_proof(h[1]).unwrap();
    assert_eq!(proof.0.len(), 3);
}

#[test]
fn single_leaf_tree_is_its_own_root() {
    let data = vec![vec![0x00u8, 0x00]];
    let tree = MerkleTree::new(&data);
    assert_eq!(tree.root, hash(&[0x00, 0x00]));
    assert_eq!(tree.layers.len(), 1);
    let proof = tree.get_proof(hash(&[0x00, 0x00])).unwrap();
    assert_eq!(proof.0.len(), 1);
    assert!(proof.is_proof(&tree.root));
    assert!(!proof.is_proof(&[0u8; 28]));
}

#[test]
fn three_leaves_carry_the_third_up_unhashed() {
    let data = leaves(&[(1, 3), (2, 3), (3, 3)]);
    let tree = MerkleTree::new(&data);
    let h: Vec<[u8; 28]> = data.iter().map(|d| hash(d)).collect();
    assert_eq!(tree.root, join(&join(&h[0], &h[1]), &h[2]));
    assert_ne!(tree.root, join(&join(&h[0], &h[1]), &join(&h[2], &h[2])));
}

#[test]
fn no_proof_for_an_unknown_leaf() {
    let data = leaves(&[(1, 3), (2, 3)]);
    let tree = MerkleTree::new(&data);
    assert!(tree.get_proof(hash(&[9, 9])).is_none());
}

#[test]
fn tampered_left_hash_is_rejected() {
    let data = leaves(&[(0x0, 2), (0x0a, 5), (0xa2, 2), (0x1, 12), (0xfe, 27)]);
    let tree = MerkleTree::new(&data);
    let proof = tree.get_proof(hash(&[0x0a; 5])).unwrap();
    for k in 0..proof.0.len() {
        let mut steps = proof.0.clone();
        steps[k].left_hash[0] ^= 0xff;
        assert!(!MerkleProof(steps).is_proof(&tree.root));
    }
}

#[test]
fn a_step_without_right_hash_stands_for_its_left_hash() {
    let step = Layer { left_hash: [7u8; 28], right_hash: None };
    assert_eq!(step.hash(), [7u8; 28]);
    let step = Layer { left_hash: [7u8; 28], right_hash: Some([8u8; 28]) };
    assert_eq!(step.hash(), join(&[7u8; 28], &[8u8; 28]));
}

#[test]
fn the_digest_is_not_the_identity() {
    let d = hash(&[0u8; 28]);
    assert_ne!(d, [0u8; 28]);
}

#[test]
fn root_depends_only_on_leaf_bytes() {
    let a = leaves(&[(3, 4), (4, 4), (5, 1)]);
    let b: Vec<Vec<u8>> = vec![vec![3, 3, 3, 3], vec![4, 4, 4, 4], vec![5]];
    assert_eq!(MerkleTree::new(&a).root, MerkleTree::new(&b).root);
    let c = leaves(&[(4, 4), (3, 4), (5, 1)]);
    assert_ne!(MerkleTree::new(&a).root, MerkleTree::new(&c).root);
}
