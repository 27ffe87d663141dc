use contract_core::error::ContractError;
use contract_core::state::{StateManager, MAX_KEY_SIZE, MAX_VALUE_SIZE};
use contract_core::statemap::StateMap;

#[test]
fn test_state_snapshot_creation() {
    let mut manager = StateManager::new();
    let contract_addr = [0u8; 32];
    let version = "1.0.0".to_string();

    manager.update_state(contract_addr, b"key1".to_vec(), b"value1".to_vec()).unwrap();

    let snapshot = manager.create_snapshot(contract_addr, version, 1000).unwrap();

    assert_eq!(snapshot.contract_addr, contract_addr);
    assert_eq!(snapshot.version, "1.0.0");
    assert_eq!(snapshot.state.len(), 1);
    assert_eq!(snapshot.schema_version, 1);
}

#[test]
fn test_state_restoration() {
    let mut manager = StateManager::new();
    let contract_addr = [0u8; 32];
    let version = "1.0.0".to_string();

    manager.update_state(contract_addr, b"key1".to_vec(), b"value1".to_vec()).unwrap();

    let snapshot = manager.create_snapshot(contract_addr, version, 1000).unwrap();

    manager.update_state(contract_addr, b"key1".to_vec(), b"value2".to_vec()).unwrap();

    manager.restore_from_snapshot(contract_addr, snapshot.timestamp).unwrap();

    let restored_state = manager.get_state(&contract_addr).unwrap();
    assert_eq!(restored_state.get(&b"key1".to_vec()).unwrap(), &b"value1".to_vec());
}

#[test]
fn test_state_diff_tracking() {
    let mut manager = StateManager::new();
    let contract_addr = [0u8; 32];

    let mut old_state = StateMap::new();
    old_state.insert(b"key1".to_vec(), b"value1".to_vec());
    old_state.insert(b"key2".to_vec(), b"value2".to_vec());

    let mut new_state = old_state.clone();
    new_state.insert(b"key1".to_vec(), b"value1_modified".to_vec());
    new_state.insert(b"key3".to_vec(), b"value3".to_vec());
    new_state.remove(&b"key2".to_vec());

    manager.track_state_changes(contract_addr, &old_state, &new_state);

    let diffs = manager.get_state_diffs(&contract_addr).unwrap();
    assert_eq!(diffs.len(), 1);

    let diff = &diffs[0];
    assert_eq!(diff.added.len(), 1);
    assert_eq!(diff.modified.len(), 1);
    assert_eq!(diff.deleted.len(), 1);
}

#[test]
fn size_caps_are_enforced() {
    let mut manager = StateManager::new();
    let addr = [0u8; 32];
    let key_too_long = vec![0u8; MAX_KEY_SIZE + 1];
    assert!(matches!(manager.update_state(addr, key_too_long, vec![1]), Err(ContractError::StateError(_))));
    let value_too_long = vec![0u8; MAX_VALUE_SIZE + 1];
    assert!(matches!(manager.update_state(addr, vec![1], value_too_long), Err(ContractError::StateError(_))));
    assert!(manager.get_state(&addr).is_none());
    assert!(manager.update_state(addr, vec![0u8; MAX_KEY_SIZE], vec![7u8; MAX_VALUE_SIZE]).is_ok());
    assert_eq!(manager.get_state_size(&addr), MAX_KEY_SIZE + MAX_VALUE_SIZE);
}

#[test]
fn diff_of_single_update_is_recorded() {
    let mut manager = StateManager::new();
    let addr = [2u8; 32];
    manager.update_state(addr, b"a".to_vec(), b"1".to_vec()).unwrap();
    manager.update_state(addr, b"a".to_vec(), b"2".to_vec()).unwrap();
    manager.update_state(addr, b"a".to_vec(), b"2".to_vec()).unwrap();
    let diffs = manager.get_state_diffs(&addr).unwrap();
    assert_eq!(diffs.len(), 3);
    assert_eq!(diffs[0].added.len(), 1);
    assert_eq!(diffs[1].modified.len(), 1);
    assert_eq!(diffs[1].modified[0].1, b"1".to_vec());
    assert_eq!(diffs[1].modified[0].2, b"2".to_vec());
    assert_eq!(diffs[2].added.len() + diffs[2].modified.len() + diffs[2].deleted.len(), 0);
}

#[test]
fn snapshot_hash_is_sha256_of_sorted_entries() {
    let mut manager = StateManager::new();
    let addr = [3u8; 32];
    manager.update_state(addr, b"b".to_vec(), b"2".to_vec()).unwrap();
    manager.update_state(addr, b"a".to_vec(), b"1".to_vec()).unwrap();
    let snapshot = manager.create_snapshot(addr, "1.0.0".to_string(), 5).unwrap();
    // SHA-256 of "a1b2": entries in key order, each key followed by its value.
    let expected: [u8; 32] = [
        0x85, 0x33, 0x78, 0x16, 0xd2, 0x63, 0xd3, 0x62, 0xac, 0xb2, 0x3a, 0x42, 0x55, 0xa6, 0x36,
        0x19, 0x10, 0x75, 0xc2, 0xa9, 0x0c, 0x47, 0xf2, 0xee, 0x6d, 0xb3, 0x36, 0x2f, 0x7d, 0xf1,
        0x12, 0x03,
    ];
    assert_eq!(snapshot.state_hash, expected);
    assert_eq!(snapshot.state.key_at(0), &b"a".to_vec());
    assert_eq!(snapshot.state.to_bytes(), b"a1b2".to_vec());
    assert_eq!(StateManager::compute_state_hash(&snapshot.state), snapshot.state_hash);
    assert!(StateManager::verify_state_integrity(&snapshot));
}

#[test]
fn restore_errors() {
    let mut manager = StateManager::new();
    let addr = [4u8; 32];
    assert!(matches!(manager.create_snapshot(addr, "1.0.0".to_string(), 1), Err(ContractError::StateError(_))));
    assert!(matches!(manager.restore_from_snapshot(addr, 1), Err(ContractError::StateError(_))));
    manager.update_state(addr, b"k".to_vec(), b"v".to_vec()).unwrap();
    manager.create_snapshot(addr, "1.0.0".to_string(), 1).unwrap();
    assert!(matches!(manager.restore_from_snapshot(addr, 2), Err(ContractError::StateError(_))));
    assert_eq!(manager.get_snapshots(&addr).unwrap().len(), 1);
}
