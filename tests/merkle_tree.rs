use fuel_vm::merkle::{MerkleTree, MerkleTreeError, Node, StorageMap};
use sha2::{Digest, Sha256};

const TEST_DATA: [&[u8]; 10] = [
    b"Frankly, my dear, I don't give a damn.",
    b"Toto, I've got a feeling we're not in Kansas anymore.",
    b"Here's looking at you, kid.",
    b"Go ahead, make my day.",
    b"May the Force be with you.",
    b"You talking to me?",
    b"What we've got here is failure to communicate.",
    b"I love the smell of napalm in the morning.",
    b"Greed, for lack of a better word, is good.",
    b"Keep your friends close, but your enemies closer.",
];

fn empty_sum() -> [u8; 32] {
    Sha256::digest([]).into()
}

fn leaf_sum(data: &[u8]) -> [u8; 32] {
    let mut h = Sha256::new();
    h.update([0u8]);
    h.update(data);
    h.finalize().into()
}

fn node_sum(left: &[u8; 32], right: &[u8; 32]) -> [u8; 32] {
    let mut h = Sha256::new();
    h.update([1u8]);
    h.update(left);
    h.update(right);
    h.finalize().into()
}

fn tree_with(n: usize) -> MerkleTree {
    let mut tree = MerkleTree::new(StorageMap::new());
    for datum in TEST_DATA[0..n].iter() {
        let _ = tree.push(datum);
    }
    tree
}

#[test]
fn test_push_builds_internal_tree_structure() {
    let tree = tree_with(7);
    let data = &TEST_DATA[0..7];

    let leaf_0 = leaf_sum(data[0]);
    let leaf_1 = leaf_sum(data[1]);
    let leaf_2 = leaf_sum(data[2]);
    let leaf_3 = leaf_sum(data[3]);
    let leaf_4 = leaf_sum(data[4]);
    let leaf_5 = leaf_sum(data[5]);
    let leaf_6 = leaf_sum(data[6]);
    let node_1 = node_sum(&leaf_0, &leaf_1);
    let node_5 = node_sum(&leaf_2, &leaf_3);
    let node_3 = node_sum(&node_1, &node_5);
    let node_9 = node_sum(&leaf_4, &leaf_5);

    let storage = tree.into_storage();
    let hash_at = |k: u64| storage.get(k).unwrap().hash;
    assert_eq!(hash_at(0), leaf_0);
    assert_eq!(hash_at(2), leaf_1);
    assert_eq!(hash_at(4), leaf_2);
    assert_eq!(hash_at(6), leaf_3);
    assert_eq!(hash_at(8), leaf_4);
    assert_eq!(hash_at(10), leaf_5);
    assert_eq!(hash_at(12), leaf_6);
    assert_eq!(hash_at(1), node_1);
    assert_eq!(hash_at(5), node_5);
    assert_eq!(hash_at(9), node_9);
    assert_eq!(hash_at(3), node_3);
}

#[test]
fn load_returns_a_valid_tree() {
    const LEAVES_COUNT: u64 = 2u64.pow(16) - 1;

    let mut tree = MerkleTree::new(StorageMap::new());
    for i in 0u64..LEAVES_COUNT {
        let _ = tree.push(&i.to_be_bytes());
    }
    let expected_root = tree.root();
    let storage = tree.into_storage();

    let tree = MerkleTree::load(storage, LEAVES_COUNT).unwrap();
    assert_eq!(expected_root, tree.root());
}

#[test]
fn load_returns_empty_tree_for_0_leaves() {
    const LEAVES_COUNT: u64 = 0;

    let expected_root = MerkleTree::empty_root();
    let tree = MerkleTree::load(StorageMap::new(), LEAVES_COUNT).unwrap();
    assert_eq!(expected_root, tree.root());
}

#[test]
fn load_returns_a_load_error_if_the_storage_is_not_valid_for_the_leaves_count() {
    const LEAVES_COUNT: u64 = 5;

    let mut tree = MerkleTree::new(StorageMap::new());
    for i in 0u64..LEAVES_COUNT {
        let _ = tree.push(&i.to_be_bytes());
    }
    let storage = tree.into_storage();

    let err = MerkleTree::load(storage, LEAVES_COUNT * 2)
        .err()
        .expect("Expected load() to return Error; got Ok");
    assert!(matches!(err, MerkleTreeError::LoadError(_)));
}

#[test]
fn root_returns_the_empty_root_for_0_leaves() {
    let tree = MerkleTree::new(StorageMap::new());
    assert_eq!(tree.root(), empty_sum());
}

#[test]
fn root_returns_the_merkle_root_for_1_leaf() {
    let tree = tree_with(1);
    assert_eq!(tree.root(), leaf_sum(TEST_DATA[0]));
}

#[test]
fn root_returns_the_merkle_root_for_7_leaves() {
    let tree = tree_with(7);
    let data = &TEST_DATA[0..7];

    let leaf_0 = leaf_sum(data[0]);
    let leaf_1 = leaf_sum(data[1]);
    let leaf_2 = leaf_sum(data[2]);
    let leaf_3 = leaf_sum(data[3]);
    let leaf_4 = leaf_sum(data[4]);
    let leaf_5 = leaf_sum(data[5]);
    let leaf_6 = leaf_sum(data[6]);

    let node_1 = node_sum(&leaf_0, &leaf_1);
    let node_5 = node_sum(&leaf_2, &leaf_3);
    let node_3 = node_sum(&node_1, &node_5);
    let node_9 = node_sum(&leaf_4, &leaf_5);
    let node_11 = node_sum(&node_9, &leaf_6);
    let node_7 = node_sum(&node_3, &node_11);

    assert_eq!(tree.root(), node_7);
}

#[test]
fn prove_returns_invalid_proof_index_error_for_0_leaves() {
    let tree = MerkleTree::new(StorageMap::new());
    let err = tree
        .prove(0)
        .err()
        .expect("Expected prove() to return Error; got Ok");
    assert!(matches!(err, MerkleTreeError::InvalidProofIndex(0)));
}

#[test]
fn prove_returns_invalid_proof_index_error_when_index_is_greater_than_number_of_leaves() {
    let tree = tree_with(5);
    let err = tree
        .prove(10)
        .err()
        .expect("Expected prove() to return Error; got Ok");
    assert!(matches!(err, MerkleTreeError::InvalidProofIndex(10)))
}

#[test]
fn prove_returns_the_merkle_root_and_proof_set_for_1_leaf() {
    let tree = tree_with(1);
    let leaf_0 = leaf_sum(TEST_DATA[0]);
    let (root, proof_set) = tree.prove(0).unwrap();
    assert_eq!(root, leaf_0);
    assert!(proof_set.is_empty());
}

#[test]
fn prove_returns_the_merkle_root_and_proof_set_for_4_leaves() {
    let tree = tree_with(4);
    let data = &TEST_DATA[0..4];

    let leaf_0 = leaf_sum(data[0]);
    let leaf_1 = leaf_sum(data[1]);
    let leaf_2 = leaf_sum(data[2]);
    let leaf_3 = leaf_sum(data[3]);

    let node_1 = node_sum(&leaf_0, &leaf_1);
    let node_5 = node_sum(&leaf_2, &leaf_3);
    let node_3 = node_sum(&node_1, &node_5);

    {
        let (root, proof_set) = tree.prove(0).unwrap();
        assert_eq!(root, node_3);
        assert_eq!(proof_set[0], leaf_1);
        assert_eq!(proof_set[1], node_5);
    }
    {
        let (root, proof_set) = tree.prove(1).unwrap();
        assert_eq!(root, node_3);
        assert_eq!(proof_set[0], leaf_0);
        assert_eq!(proof_set[1], node_5);
    }
    {
        let (root, proof_set) = tree.prove(2).unwrap();
        assert_eq!(root, node_3);
        assert_eq!(proof_set[0], leaf_3);
        assert_eq!(proof_set[1], node_1);
    }
    {
        let (root, proof_set) = tree.prove(3).unwrap();
        assert_eq!(root, node_3);
        assert_eq!(proof_set[0], leaf_2);
        assert_eq!(proof_set[1], node_1);
    }
}

#[test]
fn prove_returns_the_merkle_root_and_proof_set_for_5_leaves() {
    let tree = tree_with(5);
    let data = &TEST_DATA[0..5];

    let leaf_0 = leaf_sum(data[0]);
    let leaf_1 = leaf_sum(data[1]);
    let leaf_2 = leaf_sum(data[2]);
    let leaf_3 = leaf_sum(data[3]);
    let leaf_4 = leaf_sum(data[4]);

    let node_1 = node_sum(&leaf_0, &leaf_1);
    let node_5 = node_sum(&leaf_2, &leaf_3);
    let node_3 = node_sum(&node_1, &node_5);
    let node_7 = node_sum(&node_3, &leaf_4);

    {
        let (root, proof_set) = tree.prove(0).unwrap();
        assert_eq!(root, node_7);
        assert_eq!(proof_set[0], leaf_1);
        assert_eq!(proof_set[1], node_5);
        assert_eq!(proof_set[2], leaf_4);
    }
    {
        let (root, proof_set) = tree.prove(1).unwrap();
        assert_eq!(root, node_7);
        assert_eq!(proof_set[0], leaf_0);
        assert_eq!(proof_set[1], node_5);
        assert_eq!(proof_set[2], leaf_4);
    }
    {
        let (root, proof_set) = tree.prove(2).unwrap();
        assert_eq!(root, node_7);
        assert_eq!(proof_set[0], leaf_3);
        assert_eq!(proof_set[1], node_1);
        assert_eq!(proof_set[2], leaf_4);
    }
    {
        let (root, proof_set) = tree.prove(3).unwrap();
        assert_eq!(root, node_7);
        assert_eq!(proof_set[0], leaf_2);
        assert_eq!(proof_set[1], node_1);
        assert_eq!(proof_set[2], leaf_4);
    }
    {
        let (root, proof_set) = tree.prove(4).unwrap();
        assert_eq!(root, node_7);
        assert_eq!(proof_set[0], node_3);
    }
}

#[test]
fn prove_returns_the_merkle_root_and_proof_set_for_7_leaves() {
    let tree = tree_with(7);
    let data = &TEST_DATA[0..7];

    let leaf_0 = leaf_sum(data[0]);
    let leaf_1 = leaf_sum(data[1]);
    let leaf_2 = leaf_sum(data[2]);
    let leaf_3 = leaf_sum(data[3]);
    let leaf_4 = leaf_sum(data[4]);
    let leaf_5 = leaf_sum(data[5]);
    let leaf_6 = leaf_sum(data[6]);

    let node_1 = node_sum(&leaf_0, &leaf_1);
    let node_5 = node_sum(&leaf_2, &leaf_3);
    let node_3 = node_sum(&node_1, &node_5);
    let node_9 = node_sum(&leaf_4, &leaf_5);
    let node_11 = node_sum(&node_9, &leaf_6);
    let node_7 = node_sum(&node_3, &node_11);

    {
        let (root, proof_set) = tree.prove(0).unwrap();
        assert_eq!(root, node_7);
        assert_eq!(proof_set[0], leaf_1);
        assert_eq!(proof_set[1], node_5);
        assert_eq!(proof_set[2], node_11);
    }
    {
        let (root, proof_set) = tree.prove(1).unwrap();
        assert_eq!(root, node_7);
        assert_eq!(proof_set[0], leaf_0);
        assert_eq!(proof_set[1], node_5);
        assert_eq!(proof_set[2], node_11);
    }
    {
        let (root, proof_set) = tree.prove(2).unwrap();
        assert_eq!(root, node_7);
        assert_eq!(proof_set[0], leaf_3);
        assert_eq!(proof_set[1], node_1);
        assert_eq!(proof_set[2], node_11);
    }
    {
        let (root, proof_set) = tree.prove(3).unwrap();
        assert_eq!(root, node_7);
        assert_eq!(proof_set[0], leaf_2);
        assert_eq!(proof_set[1], node_1);
        assert_eq!(proof_set[2], node_11);
    }
    {
        let (root, proof_set) = tree.prove(4).unwrap();
        assert_eq!(root, node_7);
        assert_eq!(proof_set[0], leaf_5);
        assert_eq!(proof_set[1], leaf_6);
        assert_eq!(proof_set[2], node_3);
    }
    {
        let (root, proof_set) = tree.prove(5).unwrap();
        assert_eq!(root, node_7);
        assert_eq!(proof_set[0], leaf_4);
        assert_eq!(proof_set[1], leaf_6);
        assert_eq!(proof_set[2], node_3);
    }
    {
        let (root, proof_set) = tree.prove(6).unwrap();
        assert_eq!(root, node_7);
        assert_eq!(proof_set[0], node_9);
        assert_eq!(proof_set[1], node_3);
    }
}

#[test]
fn reset_reverts_tree_to_empty_state() {
    let mut tree = tree_with(4);
    tree.reset();

    let expected_root = MerkleTree::empty_root();
    assert_eq!(tree.root(), expected_root);

    let data = &TEST_DATA[0..4];
    for datum in data.iter() {
        let _ = tree.push(datum);
    }

    let leaf_0 = leaf_sum(data[0]);
    let leaf_1 = leaf_sum(data[1]);
    let leaf_2 = leaf_sum(data[2]);
    let leaf_3 = leaf_sum(data[3]);

    let node_1 = node_sum(&leaf_0, &leaf_1);
    let node_5 = node_sum(&leaf_2, &leaf_3);
    let node_3 = node_sum(&node_1, &node_5);

    assert_eq!(tree.root(), node_3);
}

#[test]
fn load_overflows() {
    // Given
    const LEAVES_COUNT: u64 = u64::MAX;

    // When
    let result = MerkleTree::load(StorageMap::new(), LEAVES_COUNT).map(|_| ());

    // Then
    assert_eq!(result.err(), Some(MerkleTreeError::TooLarge));
}

#[test]
fn push_overflows() {
    // Given
    let build = |keys: &Vec<u64>| {
        let mut storage_map = StorageMap::new();
        for key in keys {
            storage_map.insert(*key, Node::default());
        }
        storage_map
    };
    let mut stored: Vec<u64> = Vec::new();
    const LEAVES_COUNT: u64 = u64::MAX / 2;
    loop {
        let result = MerkleTree::load(build(&stored), LEAVES_COUNT).map(|_| ());

        if let Err(MerkleTreeError::LoadError(index)) = result {
            stored.push(index);
        } else {
            break;
        }
    }

    // When
    let mut tree =
        MerkleTree::load(build(&stored), LEAVES_COUNT).expect("Expected `load()` to succeed");
    let _ = tree.push(&[]);
    let result = tree.push(&[]);

    // Then
    assert_eq!(result, Err(MerkleTreeError::TooLarge));
}

#[test]
fn proof_set_of_the_last_leaf_of_a_balanced_tree() {
    let tree = tree_with(8);
    let data = &TEST_DATA[0..8];
    let leaves: Vec<[u8; 32]> = data.iter().map(|d| leaf_sum(d)).collect();
    let n01 = node_sum(&leaves[0], &leaves[1]);
    let n23 = node_sum(&leaves[2], &leaves[3]);
    let n45 = node_sum(&leaves[4], &leaves[5]);
    let n67 = node_sum(&leaves[6], &leaves[7]);
    let n03 = node_sum(&n01, &n23);
    let n47 = node_sum(&n45, &n67);
    let (root, proof_set) = tree.prove(7).unwrap();
    assert_eq!(root, node_sum(&n03, &n47));
    assert_eq!(proof_set, vec![leaves[6], n45, n03]);
}

#[test]
fn reloaded_tree_keeps_root_and_proofs() {
    let tree = tree_with(10);
    let root = tree.root();
    let proof = tree.prove(9).unwrap();
    let tree = MerkleTree::load(tree.into_storage(), 10).unwrap();
    assert_eq!(tree.root(), root);
    assert_eq!(tree.prove(9).unwrap(), proof);
    assert_eq!(tree.leaves_count(), 10);
}

#[test]
fn default_node_is_zeroed() {
    let n = Node::default();
    assert_eq!(n.height, 0);
    assert_eq!(n.index, 0);
    assert_eq!(n.hash, [0u8; 32]);
}
