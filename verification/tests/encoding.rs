use poh_ledger::codec::{encode_transaction, serialize_batch};
use poh_ledger::ledger::Transaction;

fn tx(from: &str, to: &str, amount: u64, anchor: u8) -> Transaction {
    Transaction {
        from: from.to_string(),
        to: to.to_string(),
        amount,
        recent_block_hash: vec![anchor; 32],
    }
}

#[test]
fn transaction_encoding_layout() {
    let t = tx("Alice", "Bob", 50, 7);
    let bytes = encode_transaction(&t);
    let mut expected: Vec<u8> = Vec::new();
    expected.extend_from_slice(&5u64.to_le_bytes());
    expected.extend_from_slice(b"Alice");
    expected.extend_from_slice(&3u64.to_le_bytes());
    expected.extend_from_slice(b"Bob");
    expected.extend_from_slice(&50u64.to_le_bytes());
    expected.extend_from_slice(&[7u8; 32]);
    assert_eq!(bytes, expected);
}

#[test]
fn transaction_encoding_matches_bincode() {
    let t = tx("Alice", "Bob", 50, 7);
    let mine = encode_transaction(&t);
    let reference = bincode::serialize(&(
        "Alice".to_string(),
        "Bob".to_string(),
        50u64,
        [7u8; 32],
    ))
    .unwrap();
    assert_eq!(mine, reference);
}

#[test]
fn batch_encoding_matches_bincode() {
    let batch = vec![tx("Alice", "Bob", 50, 1), tx("Bob", "Charlie", 10, 2)];
    let mine = serialize_batch(&batch);
    let reference = bincode::serialize(&vec![
        ("Alice".to_string(), "Bob".to_string(), 50u64, [1u8; 32]),
        ("Bob".to_string(), "Charlie".to_string(), 10u64, [2u8; 32]),
    ])
    .unwrap();
    assert_eq!(mine, reference);
}

#[test]
fn empty_batch_is_just_its_length() {
    let empty: Vec<Transaction> = Vec::new();
    assert_eq!(serialize_batch(&empty), 0u64.to_le_bytes().to_vec());
}

#[test]
fn batch_encoding_is_order_sensitive() {
    let a = tx("Bob", "Charlie", 10, 3);
    let b = tx("Charlie", "Alice", 10, 3);
    let ab = serialize_batch(&vec![a.clone(), b.clone()]);
    let ba = serialize_batch(&vec![b, a]);
    assert_ne!(ab, ba);
}
