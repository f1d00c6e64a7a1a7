use poh_ledger::poh::ProofOfHistory;

#[test]
fn counter_monotonic_over_many_steps() {
    let mut p = ProofOfHistory::new();
    for i in 0..100u64 {
        let (_, c) = if i % 3 == 0 {
            p.record_event(b"payload")
        } else {
            p.tick()
        };
        assert_eq!(c, i);
    }
}

#[test]
fn independent_engines_agree_step_by_step() {
    let mut a = ProofOfHistory::new();
    let mut b = ProofOfHistory::new();
    let (ha, ca) = a.tick();
    let (hb, cb) = b.tick();
    assert_eq!(ha, hb);
    assert_eq!(ca, cb);
    let (ha, ca) = a.record_event(b"same bytes");
    let (hb, cb) = b.record_event(b"same bytes");
    assert_eq!(ha, hb);
    assert_eq!(ca, cb);
    for _ in 0..50 {
        let (ha, ca) = a.tick();
        let (hb, cb) = b.tick();
        assert_eq!(ha, hb);
        assert_eq!(ca, cb);
    }
}

#[test]
fn snapshot_does_not_advance() {
    let mut p = ProofOfHistory::new();
    let (h, c) = p.tick();
    assert_eq!(c, 0);
    assert_eq!(p.snapshot_hash(), h);
    assert_eq!(p.snapshot_hash(), h);
    let (h2, c2) = p.tick();
    assert_eq!(c2, 1);
    assert_ne!(h2, h);
    assert_eq!(p.snapshot_hash(), h2);
}

#[test]
fn replay_reproduces_recorded_span() {
    let mut p = ProofOfHistory::new();
    let (start_h, start_c) = p.tick();
    p.record_event(b"event-1");
    p.tick();
    let (end_h, end_c) = p.tick();
    let events = vec![b"event-1".to_vec()];
    assert!(p.verify_sequence(&start_h, start_c, &end_h, end_c, &events));
}

#[test]
fn replay_rejects_tampered_event() {
    let mut p = ProofOfHistory::new();
    let (start_h, start_c) = p.tick();
    p.record_event(b"event-1");
    let (end_h, end_c) = p.tick();
    let mut event = b"event-1".to_vec();
    event[0] ^= 1;
    assert!(!p.verify_sequence(&start_h, start_c, &end_h, end_c, &vec![event]));
    let good = vec![b"event-1".to_vec()];
    assert!(p.verify_sequence(&start_h, start_c, &end_h, end_c, &good));
}

#[test]
fn replay_rejects_wrong_counter() {
    let mut p = ProofOfHistory::new();
    let (start_h, start_c) = p.tick();
    p.record_event(b"event-1");
    let (end_h, end_c) = p.tick();
    let events = vec![b"event-1".to_vec()];
    assert!(!p.verify_sequence(&start_h, start_c, &end_h, end_c + 1, &events));
    assert!(!p.verify_sequence(&start_h, start_c + 1, &end_h, end_c, &events));
}

#[test]
fn replay_rejects_reordered_events() {
    let mut p = ProofOfHistory::new();
    let (start_h, start_c) = p.tick();
    p.record_event(b"first");
    p.record_event(b"second");
    let (end_h, end_c) = p.tick();
    let in_order = vec![b"first".to_vec(), b"second".to_vec()];
    let swapped = vec![b"second".to_vec(), b"first".to_vec()];
    assert!(p.verify_sequence(&start_h, start_c, &end_h, end_c, &in_order));
    assert!(!p.verify_sequence(&start_h, start_c, &end_h, end_c, &swapped));
}
