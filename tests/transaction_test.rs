use contract_core::crypto::Signature;
use contract_core::transaction::{Transaction, TransactionInput, TransactionOutput};

fn create_test_transaction(nonce: u64) -> Transaction {
    let input = TransactionInput {
        tx_hash: contract_core::crypto::Hash::new(b"previous_tx"),
        output_index: 0,
        signature: None,
    };
    let output = TransactionOutput { amount: 100, recipient: vec![1, 2, 3, 4] };
    Transaction::new(vec![input], vec![output], 1700000000, nonce)
}

#[test]
fn test_transaction_creation() {
    let tx = create_test_transaction(0);
    assert_eq!(tx.inputs.len(), 1);
    assert_eq!(tx.outputs.len(), 1);
    assert_eq!(tx.outputs[0].amount, 100);
}

#[test]
fn test_transaction_hash() {
    let tx1 = create_test_transaction(0);
    let tx2 = create_test_transaction(1);

    assert_ne!(tx1.hash.to_bytes(), tx2.hash.to_bytes());

    let mut tx3 = tx1.clone();
    tx3.outputs[0].amount = 200;
    let stale_hash = tx3.hash.clone();
    tx3.hash = tx3.calculate_hash();
    assert_ne!(tx3.hash, stale_hash);
}

#[test]
fn hash_covers_the_encoded_fields() {
    let tx = Transaction::new(vec![], vec![], 1, 2);
    let mut data = Vec::new();
    data.extend_from_slice(&1u64.to_le_bytes());
    data.extend_from_slice(&2u64.to_le_bytes());
    assert_eq!(tx.hash, contract_core::crypto::Hash::new(&data));
}

#[test]
fn signing_data_leaves_out_signatures() {
    let input = TransactionInput {
        tx_hash: contract_core::crypto::Hash([3u8; 32]),
        output_index: 7,
        signature: Some(Signature(vec![9, 9])),
    };
    let output = TransactionOutput { amount: 5, recipient: vec![1] };
    let tx = Transaction::new(vec![input], vec![output], 1, 2);
    let mut expected = Vec::new();
    expected.extend_from_slice(&1u64.to_le_bytes());
    expected.extend_from_slice(&2u64.to_le_bytes());
    expected.extend_from_slice(&[3u8; 32]);
    expected.extend_from_slice(&7u32.to_le_bytes());
    expected.extend_from_slice(&5u64.to_le_bytes());
    expected.push(1);
    assert_eq!(tx.get_signing_data(), expected);
    let mut hashed = Vec::new();
    hashed.extend_from_slice(&1u64.to_le_bytes());
    hashed.extend_from_slice(&2u64.to_le_bytes());
    hashed.extend_from_slice(&[3u8; 32]);
    hashed.extend_from_slice(&7u32.to_le_bytes());
    hashed.extend_from_slice(&[9, 9]);
    hashed.extend_from_slice(&5u64.to_le_bytes());
    hashed.push(1);
    assert_eq!(tx.hash, contract_core::crypto::Hash::new(&hashed));
}
