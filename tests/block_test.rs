use contract_core::block::Block;
use contract_core::transaction::{Transaction, TransactionInput, TransactionOutput};

fn create_test_transaction() -> Transaction {
    Transaction::new(
        vec![TransactionInput {
            tx_hash: contract_core::crypto::Hash::new(b"previous_tx"),
            output_index: 0,
            signature: None,
        }],
        vec![TransactionOutput { amount: 50, recipient: vec![1, 2, 3, 4] }],
        1700000000,
        0,
    )
}

#[test]
fn test_block_creation() {
    let prev_hash = contract_core::crypto::Hash::new(b"previous block");
    let tx = create_test_transaction();
    let block = Block::new(1, prev_hash.clone(), vec![tx], 1, 1700000000);

    assert_eq!(block.header.version, 1);
    assert_eq!(block.header.prev_hash, prev_hash);
    assert_eq!(block.header.difficulty, 1);
    assert_eq!(block.transactions.len(), 1);
}

#[test]
fn test_block_mining() {
    let mut block = Block::genesis();
    assert!(block.mine());
    assert!(block.verify());
}

#[test]
fn test_merkle_root() {
    let tx1 = create_test_transaction();
    let tx2 = create_test_transaction();

    let block = Block::new(1, contract_core::crypto::Hash::new(b"prev"), vec![tx1, tx2], 1, 1700000000);
    assert_ne!(block.header.merkle_root, contract_core::crypto::Hash::new(&[0u8; 32]));
}

#[test]
fn test_block_verification() {
    let mut block = Block::genesis();
    assert!(block.mine());
    assert!(block.verify());

    block.header.nonce += 1;
    assert!(!block.verify());
}

#[test]
fn merkle_root_pairs_hashes() {
    let tx = create_test_transaction();
    let single = Block::calculate_merkle_root(&vec![tx.clone()]);
    assert_eq!(single, tx.hash);
    let mut data = Vec::new();
    data.extend_from_slice(tx.hash.to_bytes());
    data.extend_from_slice(tx.hash.to_bytes());
    let pair = contract_core::crypto::Hash::new(&data);
    assert_eq!(Block::calculate_merkle_root(&vec![tx.clone(), tx.clone()]), pair);
    let mut data2 = Vec::new();
    data2.extend_from_slice(pair.to_bytes());
    data2.extend_from_slice(pair.to_bytes());
    let top = contract_core::crypto::Hash::new(&data2);
    assert_eq!(Block::calculate_merkle_root(&vec![tx.clone(), tx.clone(), tx.clone()]), top);
    assert_eq!(Block::calculate_merkle_root(&vec![]), contract_core::crypto::Hash::new(&[0u8; 32]));
}
