use fuel_vm::contract::{Contract, ContractFromTxError};
use fuel_vm::gtf::TxKind;
use fuel_vm::diff::{
    capture_map_state, capture_vec_state, invert_deltas, invert_map, invert_vec,
    reset_map_state, reset_vec_state, MapDelta, VecDelta, VecState,
};
use fuel_vm::merkle::{MerkleTree, StorageMap};
use fuel_vm::storage::{LogMap, MemoryStorage};
use sha2::Digest;

fn vec_case(a: &[u32], b: &[u32]) -> Vec<(usize, Option<u32>, Option<u32>)> {
    capture_vec_state(a, b)
        .into_iter()
        .map(|d: VecDelta<u32>| (d.index, d.from, d.to))
        .collect()
}

#[test]
fn test_capture_vec_state() {
    assert!(vec_case(&[], &[]).is_empty());
    assert_eq!(vec_case(&[1], &[]), vec![(0, Some(1), None)]);
    assert_eq!(vec_case(&[1, 2], &[]), vec![(0, Some(1), None), (1, Some(2), None)]);
    assert_eq!(vec_case(&[], &[1]), vec![(0, None, Some(1))]);
    assert_eq!(vec_case(&[], &[1, 2]), vec![(0, None, Some(1)), (1, None, Some(2))]);
    assert_eq!(vec_case(&[1], &[2]), vec![(0, Some(1), Some(2))]);
    assert_eq!(vec_case(&[1, 3], &[2]), vec![(0, Some(1), Some(2)), (1, Some(3), None)]);
    assert_eq!(vec_case(&[1], &[2, 4]), vec![(0, Some(1), Some(2)), (1, None, Some(4))]);
    assert_eq!(
        vec_case(&[1, 3], &[2, 4]),
        vec![(0, Some(1), Some(2)), (1, Some(3), Some(4))]
    );
    assert!(vec_case(&[5, 6], &[5, 6]).is_empty());
}

fn log_map(entries: &[(u32, u32)]) -> LogMap<u32, u32> {
    let mut m = LogMap::new();
    for (k, v) in entries {
        m.insert(*k, *v);
    }
    m
}

fn map_case(a: &[(u32, u32)], b: &[(u32, u32)]) -> Vec<(u32, Option<u32>, u32, Option<u32>)> {
    let a_keys: Vec<u32> = a.iter().map(|e| e.0).collect();
    let b_keys: Vec<u32> = b.iter().map(|e| e.0).collect();
    let mut v = capture_map_state(&log_map(a), &a_keys, &log_map(b), &b_keys)
        .into_iter()
        .map(|d: MapDelta<u32, u32>| (d.key, d.from, d.key, d.to))
        .collect::<Vec<_>>();
    v.sort_unstable_by_key(|k| k.0);
    v
}

#[test]
fn test_capture_map_state() {
    assert!(map_case(&[], &[]).is_empty());
    assert_eq!(map_case(&[(12, 22)], &[]), vec![(12, Some(22), 12, None)]);
    assert_eq!(
        map_case(&[(12, 22), (13, 23)], &[]),
        vec![(12, Some(22), 12, None), (13, Some(23), 13, None)]
    );
    assert_eq!(map_case(&[], &[(12, 22)]), vec![(12, None, 12, Some(22))]);
    assert_eq!(
        map_case(&[], &[(12, 22), (13, 23)]),
        vec![(12, None, 12, Some(22)), (13, None, 13, Some(23))]
    );
    assert_eq!(
        map_case(&[(12, 22)], &[(13, 22)]),
        vec![(12, Some(22), 12, None), (13, None, 13, Some(22))]
    );
    assert_eq!(
        map_case(&[(12, 22), (13, 23)], &[(14, 24)]),
        vec![(12, Some(22), 12, None), (13, Some(23), 13, None), (14, None, 14, Some(24))]
    );
}

fn invert_vec_case(v: &[u32], index: usize, value: Option<u32>) -> Vec<u32> {
    let mut v = v.to_vec();
    invert_vec(&mut v, &VecState { index, value });
    v
}

#[test]
fn test_invert_vec() {
    assert!(invert_vec_case(&[], 0, None).is_empty());
    assert!(invert_vec_case(&[12], 0, None).is_empty());
    assert!(invert_vec_case(&[12, 13], 0, None).is_empty());
    assert_eq!(invert_vec_case(&[], 0, Some(1)), vec![1]);
    assert_eq!(invert_vec_case(&[12], 0, Some(1)), vec![1]);
    assert_eq!(invert_vec_case(&[12, 13], 0, Some(1)), vec![1, 13]);
    assert_eq!(invert_vec_case(&[12, 13], 1, Some(1)), vec![12, 1]);
    assert_eq!(invert_vec_case(&[12, 13], 3, Some(1)), vec![12, 13, 1, 1]);
    assert_eq!(invert_vec_case(&[], 3, Some(1)), vec![1, 1, 1, 1]);
    assert!(invert_vec_case(&[], 3, None).is_empty());
    assert_eq!(invert_vec_case(&[12, 13, 14], 1, Some(1)), vec![12, 1, 14]);
    assert_eq!(invert_vec_case(&[12, 13, 14], 1, None), vec![12]);
}

fn invert_map_case(v: &[(u32, u32)], key: u32, value: Option<u32>) -> Vec<(u32, u32)> {
    let mut m = log_map(v);
    invert_map(&mut m, key, value);
    let mut keys: Vec<u32> = v.iter().map(|e| e.0).collect();
    keys.push(key);
    keys.sort_unstable();
    keys.dedup();
    keys.into_iter()
        .filter_map(|k| m.get(&k).map(|x| (k, x)))
        .collect()
}

#[test]
fn test_invert_map() {
    assert!(invert_map_case(&[], 0, None).is_empty());
    assert!(invert_map_case(&[(12, 22)], 12, None).is_empty());
    assert_eq!(invert_map_case(&[(12, 22), (15, 25)], 0, None), vec![(12, 22), (15, 25)]);
    assert_eq!(invert_map_case(&[], 0, Some(1)), vec![(0, 1)]);
    assert_eq!(invert_map_case(&[(12, 22)], 12, Some(1)), vec![(12, 1)]);
    assert_eq!(invert_map_case(&[(12, 22), (13, 23)], 12, Some(1)), vec![(12, 1), (13, 23)]);
    assert_eq!(invert_map_case(&[(12, 22), (13, 23)], 13, Some(1)), vec![(12, 22), (13, 1)]);
    assert_eq!(
        invert_map_case(&[(12, 22), (13, 23)], 24, Some(1)),
        vec![(12, 22), (13, 23), (24, 1)]
    );
    assert_eq!(invert_map_case(&[], 3, Some(1)), vec![(3, 1)]);
    assert!(invert_map_case(&[], 3, None).is_empty());
    assert_eq!(
        invert_map_case(&[(12, 22), (13, 23), (14, 24)], 13, Some(1)),
        vec![(12, 22), (13, 1), (14, 24)]
    );
    assert_eq!(
        invert_map_case(&[(12, 22), (13, 23), (14, 24)], 13, None),
        vec![(12, 22), (14, 24)]
    );
}

#[test]
fn reset_vec_state_restores_desired() {
    let desired: Vec<u64> = vec![0, 1, 0, 0, 5];
    let mut latest: Vec<u64> = vec![0, 1, 9, 0, 6, 7, 8];
    let diff = capture_vec_state(&desired, &latest);
    assert_ne!(desired, latest);
    reset_vec_state(&mut latest, &diff);
    assert_eq!(desired, latest);

    let desired: Vec<u64> = vec![3, 4, 5, 6];
    let mut latest: Vec<u64> = vec![3];
    let diff = capture_vec_state(&desired, &latest);
    reset_vec_state(&mut latest, &diff);
    assert_eq!(desired, latest);
}

#[test]
fn diff_round_trip() {
    let s: Vec<u64> = vec![1, 2, 3];
    let t: Vec<u64> = vec![1, 5];
    let diff = capture_vec_state(&s, &t);
    let mut v = s.clone();
    reset_vec_state(&mut v, &invert_deltas(&diff));
    assert_eq!(v, t);
    reset_vec_state(&mut v, &diff);
    assert_eq!(v, s);
}

#[test]
fn reset_map_state_restores_desired() {
    let desired = log_map(&[(1, 10), (2, 20), (3, 30)]);
    let mut latest = log_map(&[(2, 21), (3, 30), (4, 40)]);
    let diff = capture_map_state(&desired, &[1, 2, 3], &latest, &[2, 3, 4]);
    assert_eq!(diff.len(), 3);
    reset_map_state(&mut latest, &diff);
    for k in 0u32..6 {
        assert_eq!(latest.get(&k), desired.get(&k));
    }
}

fn coinbase() -> [u8; 32] {
    sha2::Sha256::digest(b"coinbase").into()
}

#[test]
fn storage_snapshots() {
    let contract = [3u8; 32];
    let key = [4u8; 32];
    let mut s = MemoryStorage::new(1, coinbase());
    assert_eq!(s.block_height(), 1);
    assert_eq!(s.coinbase(), coinbase());
    assert_eq!(s.contract_state(&contract, &key), [0u8; 32]);

    s.insert_state(&contract, &key, &[1u8; 32]);
    s.commit();
    s.insert_state(&contract, &key, &[2u8; 32]);
    assert_eq!(s.contract_state(&contract, &key), [2u8; 32]);
    s.revert();
    assert_eq!(s.contract_state(&contract, &key), [1u8; 32]);

    s.commit();
    s.revert();
    assert_eq!(s.contract_state(&contract, &key), [1u8; 32]);

    s.persist();
    s.insert_state(&contract, &key, &[9u8; 32]);
    s.commit();
    s.rollback();
    assert_eq!(s.contract_state(&contract, &key), [1u8; 32]);

    assert_eq!(s.remove_state(&contract, &key), Some([1u8; 32]));
    assert_eq!(s.contract_state(&contract, &key), [0u8; 32]);
    s.rollback();
    assert_eq!(s.contract_state(&contract, &key), [1u8; 32]);
}

#[test]
fn storage_balances_and_contracts() {
    let contract = [3u8; 32];
    let asset = [5u8; 32];
    let mut s = MemoryStorage::new(1, coinbase());
    assert_eq!(s.balance(&contract, &asset), 0);
    assert_eq!(s.insert_balance(&contract, &asset, 1000), None);
    assert_eq!(s.insert_balance(&contract, &asset, 900), Some(1000));
    assert_eq!(s.balance(&contract, &asset), 900);

    assert!(!s.contains_contract(&contract));
    s.insert_contract(&contract, Contract::from_bytes(&[1, 2, 3]));
    assert!(s.contains_contract(&contract));
    assert_eq!(s.contract(&contract).unwrap().into_bytes(), vec![1, 2, 3]);
    s.insert_code_root(&contract, &[7u8; 32], &[8u8; 32]);
    assert_eq!(s.code_root(&contract), Some(([7u8; 32], [8u8; 32])));
    s.revert();
    assert!(!s.contains_contract(&contract));
    assert_eq!(s.balance(&contract, &asset), 0);
}

#[test]
fn contract_root_is_the_merkle_root_of_its_words() {
    let code: Vec<u8> = (0u8..20).collect();
    let contract = Contract::from_bytes(&code);
    let mut tree = MerkleTree::new(StorageMap::new());
    tree.push(&code[0..8]).unwrap();
    tree.push(&code[8..16]).unwrap();
    let mut last = [0u8; 8];
    last[..4].copy_from_slice(&code[16..20]);
    tree.push(&last).unwrap();
    assert_eq!(contract.root(), tree.root());
    assert_eq!(Contract::from_bytes(&[]).root(), MerkleTree::empty_root());
}

#[test]
fn contract_id_hashes_seed_salt_and_root() {
    let contract = Contract::from_bytes(&[1, 2, 3, 4]);
    let salt = [9u8; 32];
    let root = contract.root();
    let mut h = sha2::Sha256::new();
    h.update(b"FUEL");
    h.update(salt);
    h.update(root);
    let expected: [u8; 32] = h.finalize().into();
    assert_eq!(contract.id(&salt, &root), expected);
}

fn tree_root(leaves: &[Vec<u8>]) -> [u8; 32] {
    let mut tree = MerkleTree::new(StorageMap::new());
    for leaf in leaves {
        tree.push(leaf).unwrap();
    }
    tree.root()
}

#[test]
fn balances_root_orders_assets_and_filters_contract() {
    let contract = [3u8; 32];
    let other = [4u8; 32];
    let mut s = MemoryStorage::default();
    s.insert_balance(&contract, &[9u8; 32], 7);
    s.insert_balance(&contract, &[1u8; 32], 5);
    s.insert_balance(&other, &[2u8; 32], 100);
    s.insert_balance(&contract, &[1u8; 32], 6);
    let expected = tree_root(&[6u64.to_be_bytes().to_vec(), 7u64.to_be_bytes().to_vec()]);
    assert_eq!(s.balances_root(&contract), Some(expected));
    assert_eq!(s.balances_root(&[8u8; 32]), Some(MerkleTree::empty_root()));
}

#[test]
fn state_root_orders_keys() {
    let contract = [3u8; 32];
    let mut s = MemoryStorage::default();
    s.insert_state(&contract, &[0xf0u8; 32], &[1u8; 32]);
    s.insert_state(&contract, &[0x0fu8; 32], &[2u8; 32]);
    s.insert_state(&contract, &[0x80u8; 32], &[3u8; 32]);
    s.remove_state(&contract, &[0x80u8; 32]);
    let expected = tree_root(&[vec![2u8; 32], vec![1u8; 32]]);
    assert_eq!(s.state_root(&contract), Some(expected));
}

#[test]
fn default_storage_and_block_hash() {
    let s = MemoryStorage::default();
    assert_eq!(s.block_height(), 1);
    assert_eq!(s.coinbase(), coinbase());
    let expected: [u8; 32] = sha2::Sha256::digest(7u32.to_be_bytes()).into();
    assert_eq!(s.block_hash(7), expected);
    assert_ne!(s.block_hash(7), s.block_hash(8));
}

#[test]
fn state_diff_round_trip_over_registers_and_balances() {
    // The desired state: registers and a balance map.
    let desired_regs: Vec<u64> = vec![0, 1, 0, 0, 0, 0, 0, 0, 0, 0, 0, 0, 0, 0, 0, 0, 0, 0];
    let desired_balances: LogMap<u32, u32> = log_map(&[]);
    // The latest state: an `ADDI 0x10 0x11 1` and one balance entry later.
    let mut latest_regs = desired_regs.clone();
    latest_regs[0x10] = latest_regs[0x11] + 1;
    let mut latest_balances = log_map(&[(0, 1)]);

    let reg_diff = capture_vec_state(&desired_regs, &latest_regs);
    let map_diff = capture_map_state(&desired_balances, &[], &latest_balances, &[0]);
    assert_ne!(desired_regs, latest_regs);

    reset_vec_state(&mut latest_regs, &reg_diff);
    reset_map_state(&mut latest_balances, &map_diff);
    assert_eq!(desired_regs, latest_regs);
    assert_eq!(latest_balances.get(&0), None);
}

#[test]
fn contract_from_vec() {
    let c = Contract::from(vec![4u8, 5, 6]);
    assert_eq!(c.into_bytes(), vec![4, 5, 6]);
}

#[test]
fn contract_from_transaction() {
    let witnesses = vec![vec![1u8, 2], vec![3u8, 4, 5]];
    let c = Contract::from_transaction(TxKind::Create, 1, &witnesses).unwrap();
    assert_eq!(c.into_bytes(), vec![3, 4, 5]);
    assert_eq!(
        Contract::from_transaction(TxKind::Create, 2, &witnesses).err(),
        Some(ContractFromTxError::BytecodeWitnessIndex)
    );
    assert_eq!(
        Contract::from_transaction(TxKind::Script, 0, &witnesses).err(),
        Some(ContractFromTxError::NotCreate)
    );
}
