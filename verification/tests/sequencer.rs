use poh_ledger::ledger::{hash_to_hex, verify_range, Ledger, Transaction, VerifyError};
use poh_ledger::poh::ProofOfHistory;

fn tx(from: &str, to: &str, amount: u64) -> Transaction {
    Transaction {
        from: from.to_string(),
        to: to.to_string(),
        amount,
        recent_block_hash: vec![0u8; 32],
    }
}

#[test]
fn genesis_is_deterministic() {
    let a = Ledger::new();
    let b = Ledger::new();
    assert_eq!(a.get_slots_height(), 1);
    let ga = &a.get_slots()[0];
    let gb = &b.get_slots()[0];
    assert_eq!(ga.slot_number, 0);
    assert_eq!(ga.end_poh_count, 0);
    assert!(ga.transactions.is_empty());
    assert_eq!(ga.slot_hash, ga.end_poh_hash);
    assert_eq!(ga.slot_hash, gb.slot_hash);
    let mut fresh = ProofOfHistory::new();
    let (first_tick_hash, first_tick_count) = fresh.tick();
    assert_eq!(first_tick_count, 0);
    assert_eq!(ga.slot_hash, first_tick_hash);
}

#[test]
fn example_scenario_with_tamper() {
    let mut ledger = Ledger::new();
    ledger.add_transaction(tx("Alice", "Bob", 50));
    let slot = ledger.create_slot();
    assert_eq!(slot.slot_number, 1);

    for _ in 0..1000 {
        ledger.tick();
    }

    ledger.add_transaction(tx("Bob", "Charlie", 10));
    ledger.add_transaction(tx("Charlie", "Alice", 10));
    let slot = ledger.create_slot();
    assert_eq!(slot.slot_number, 2);

    assert!(ledger.verify_proof_of_history_between_slots(0, ledger.get_slots_height() - 1));

    // mutate the amount of the Bob -> Charlie transaction after commit
    let mut slots = ledger.get_slots().clone();
    slots[2].transactions[0].amount = 11;
    assert_eq!(verify_range(&slots, 0, 2), Err(VerifyError::HashMismatch));
    // a range that excludes the mutated slot is unaffected
    assert_eq!(verify_range(&slots, 0, 1), Ok(()));
}

#[test]
fn round_trip_two_fresh_slots() {
    let mut ledger = Ledger::new();
    ledger.add_transaction(tx("Alice", "Bob", 50));
    ledger.create_slot();
    assert!(ledger.verify_proof_of_history_between_slots(0, 1));
    assert_eq!(verify_range(ledger.get_slots(), 0, 1), Ok(()));
}

#[test]
fn tampering_any_byte_in_a_slot_invalidates_spanning_ranges() {
    let mut ledger = Ledger::new();
    for name in ["Alice", "Bob", "Charlie"] {
        ledger.add_transaction(tx(name, "Dave", 7));
        ledger.create_slot();
    }
    assert_eq!(ledger.get_slots_height(), 4);
    assert_eq!(verify_range(ledger.get_slots(), 0, 3), Ok(()));

    // flip one byte inside slot 2's transaction identifier
    let mut slots = ledger.get_slots().clone();
    let mut name = slots[2].transactions[0].from.clone().into_bytes();
    name[0] ^= 1;
    slots[2].transactions[0].from = String::from_utf8(name).unwrap();
    assert_eq!(verify_range(&slots, 0, 3), Err(VerifyError::HashMismatch));
    assert_eq!(verify_range(&slots, 1, 2), Err(VerifyError::HashMismatch));
    assert_eq!(verify_range(&slots, 0, 2), Err(VerifyError::HashMismatch));
    // ranges that exclude slot 2 still verify
    assert_eq!(verify_range(&slots, 0, 1), Ok(()));
    assert_eq!(verify_range(&slots, 2, 3), Ok(()));
}

#[test]
fn invalid_ranges_are_reported_distinctly() {
    let mut ledger = Ledger::new();
    ledger.create_slot();
    let slots = ledger.get_slots();
    assert_eq!(verify_range(slots, 0, 0), Err(VerifyError::InvalidRange));
    assert_eq!(verify_range(slots, 1, 0), Err(VerifyError::InvalidRange));
    assert_eq!(verify_range(slots, 0, 2), Err(VerifyError::InvalidRange));
    assert!(!ledger.verify_proof_of_history_between_slots(0, 2));
}

#[test]
fn miscounted_slot_is_a_counter_mismatch() {
    let mut ledger = Ledger::new();
    ledger.add_transaction(tx("Alice", "Bob", 50));
    ledger.create_slot();
    let mut slots = ledger.get_slots().clone();
    slots[1].end_poh_count = 0;
    assert_eq!(verify_range(&slots, 0, 1), Err(VerifyError::CounterMismatch));
}

#[test]
fn submitted_transactions_are_anchored_to_last_slot() {
    let mut ledger = Ledger::new();
    ledger.add_transaction(tx("Alice", "Bob", 50));
    let first = ledger.create_slot();
    let mut garbage = tx("Bob", "Charlie", 10);
    garbage.recent_block_hash = vec![0xaa; 32];
    ledger.add_transaction(garbage);
    let second = ledger.create_slot();
    assert_eq!(second.transactions[0].recent_block_hash, first.slot_hash);
}

#[test]
fn reordering_transactions_changes_close_hash() {
    let mut a = Ledger::new();
    a.add_transaction(tx("Bob", "Charlie", 10));
    a.add_transaction(tx("Charlie", "Alice", 10));
    let slot_a = a.create_slot();

    let mut b = Ledger::new();
    b.add_transaction(tx("Charlie", "Alice", 10));
    b.add_transaction(tx("Bob", "Charlie", 10));
    let slot_b = b.create_slot();

    assert_eq!(slot_a.slot_hash, slot_b.slot_hash);
    assert_ne!(slot_a.end_poh_hash, slot_b.end_poh_hash);
}

#[test]
fn hex_rendering_of_hashes() {
    assert_eq!(hash_to_hex(&vec![]), "");
    assert_eq!(hash_to_hex(&vec![0x00, 0x1a, 0xff, 0x09]), "001aff09");
    let ledger = Ledger::new();
    let hex = hash_to_hex(&ledger.get_slots()[0].slot_hash);
    assert_eq!(hex.len(), 64);
    assert!(hex.chars().all(|c| c.is_ascii_hexdigit()));
}

#[test]
fn close_slot_drains_the_buffer() {
    let mut ledger = Ledger::new();
    ledger.add_transaction(tx("Alice", "Bob", 1));
    ledger.add_transaction(tx("Bob", "Alice", 2));
    let first = ledger.create_slot();
    assert_eq!(first.transactions.len(), 2);
    assert_eq!(first.transactions[0].from, "Alice");
    assert_eq!(first.transactions[1].from, "Bob");
    let second = ledger.create_slot();
    assert!(second.transactions.is_empty());
    assert_eq!(ledger.get_slots_height(), 3);
}

#[test]
fn chain_counter_tracks_operations() {
    let mut ledger = Ledger::new();
    assert_eq!(ledger.poh_count(), 1);
    ledger.tick();
    assert_eq!(ledger.poh_count(), 2);
    let slot = ledger.create_slot();
    assert_eq!(ledger.poh_count(), 4);
    assert_eq!(slot.end_poh_count, 3);
}
