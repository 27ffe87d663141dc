use contract_core::consensus::{ProofOfStake, ProofOfWork};
use contract_core::storage::Storage;

#[test]
fn in_memory_storage_round_trip() {
    let mut storage = Storage::new_in_memory().unwrap();
    storage.set(b"test_key", b"test_value").unwrap();
    assert_eq!(storage.get(b"test_key").unwrap(), Some(b"test_value".to_vec()));
    storage.delete(b"test_key").unwrap();
    assert_eq!(storage.get(b"test_key").unwrap(), None);
}

#[test]
fn pow_counts_leading_zero_bits() {
    let pow = ProofOfWork::new(12);
    assert_eq!(pow.get_difficulty(), 12);
    let mut hash = [0xffu8; 32];
    hash[0] = 0;
    hash[1] = 0x0f;
    assert!(pow.check_difficulty(&hash, 12));
    assert!(!pow.check_difficulty(&hash, 13));
    assert!(pow.check_difficulty(&[0u8; 32], 256));
    assert!(!pow.check_difficulty(&[0u8; 32], 257));
}

#[test]
fn pos_minimum_stake() {
    let pos = ProofOfStake::new(1000);
    assert!(pos.validate_stake(1500));
    assert!(pos.validate_stake(1000));
    assert!(!pos.validate_stake(500));
    assert_eq!(pos.get_difficulty(), 1000);
}
