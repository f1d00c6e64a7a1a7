//! The hash-chain engine.
//!
//! The chain state is a 32-byte digest together with a monotonic step
//! counter.  Step number `c` turns digest `h` into
//! `blake3_xof32(h ++ le64(c) ++ payload)`, where `le64` is the canonical
//! little-endian encoding of the counter and the payload is empty for a
//! `tick` and the event bytes for a `record_event`.  Because each step is a
//! function of the published `(hash, counter)` pair alone, any observer can
//! replay a claimed span of the chain from a snapshot and compare the
//! result against a claimed end state.

use vstd::prelude::*;
use crate::hashing::{blake3_xof32, hash_bytes};
use vstd::bytes::{spec_u64_to_le_bytes, u64_to_le_bytes};

verus! {

/// The digest a fresh engine starts from: the empty byte string.
pub open spec fn genesis_seed() -> Seq<u8> {
    Seq::<u8>::empty()
}

/// The byte string one chain step feeds into the hash: the previous
/// digest, the counter's little-endian bytes, and the step's payload.
pub open spec fn step_input(h: Seq<u8>, c: int, event: Seq<u8>) -> Seq<u8> {
    h + spec_u64_to_le_bytes(c as u64) + event
}

/// The digest after one chain step: step number `c` feeds the previous
/// digest, the counter's little-endian bytes, and the step's payload into
/// the hash.
pub open spec fn step_hash(h: Seq<u8>, c: int, event: Seq<u8>) -> Seq<u8> {
    blake3_xof32(step_input(h, c, event))
}

/// From one chain state, steps that fold different payloads hash different
/// byte strings: only a digest collision could make their outputs agree.
pub proof fn lemma_step_inputs_differ(h: Seq<u8>, c: int, e1: Seq<u8>, e2: Seq<u8>)
    requires
        e1 != e2,
    ensures
        step_input(h, c, e1) != step_input(h, c, e2),
{
    let p = h + spec_u64_to_le_bytes(c as u64);
    if step_input(h, c, e1) == step_input(h, c, e2) {
        assert((p + e1).len() == (p + e2).len());
        assert(e1.len() == e2.len());
        assert forall|i: int| 0 <= i < e1.len() implies e1[i] == e2[i] by {
            assert((p + e1)[p.len() + i] == e1[i]);
            assert((p + e2)[p.len() + i] == e2[i]);
        }
        assert(e1 =~= e2);
    }
}

/// The digest after the empty steps numbered `c + 1` up to `end`
/// (no steps when `end <= c`).
pub open spec fn pad_ticks(h: Seq<u8>, c: int, end: int) -> Seq<u8>
    decreases end - c,
{
    if c >= end {
        h
    } else {
        pad_ticks(step_hash(h, c + 1, Seq::<u8>::empty()), c + 1, end)
    }
}

/// The digest after folding each event in order, one step per event,
/// starting with step number `c + 1`.
pub open spec fn fold_events(h: Seq<u8>, c: int, events: Seq<Seq<u8>>) -> Seq<u8>
    decreases events.len(),
{
    if events.len() == 0 {
        h
    } else {
        fold_events(step_hash(h, c + 1, events[0]), c + 1, events.drop_first())
    }
}

/// The digest recomputed from the snapshot `(h, c)`: the events are folded
/// first, then empty steps advance the counter up to `end_c`.
pub open spec fn replay_hash(h: Seq<u8>, c: int, events: Seq<Seq<u8>>, end_c: int) -> Seq<u8> {
    pad_ticks(fold_events(h, c, events), c + events.len(), end_c)
}

/// Replay verification succeeds exactly when the events fit below the
/// claimed end counter and the recomputed digest matches the claimed end
/// digest.  A false result with the counters in range is a hash mismatch;
/// a counter overshoot (`c + |events| > end_c`) is a count mismatch.
pub open spec fn replay_ok(
    start_h: Seq<u8>,
    start_c: int,
    events: Seq<Seq<u8>>,
    end_h: Seq<u8>,
    end_c: int,
) -> bool {
    &&& start_c + events.len() <= end_c
    &&& replay_hash(start_h, start_c, events, end_c) == end_h
}

/// One step of the engine model: the digest advances by `step_hash` and the
/// counter by exactly one.
pub open spec fn engine_step(h: Seq<u8>, c: int, event: Seq<u8>) -> (Seq<u8>, int) {
    (step_hash(h, c, event), c + 1)
}

/// A run of the engine model: the calls are applied in order, a `tick`
/// being the empty payload.
pub open spec fn engine_run(h: Seq<u8>, c: int, calls: Seq<Seq<u8>>) -> (Seq<u8>, int)
    decreases calls.len(),
{
    if calls.len() == 0 {
        (h, c)
    } else {
        engine_run(engine_step(h, c, calls[0]).0, c + 1, calls.drop_first())
    }
}

/// Monotonicity: a run of N chain steps starting at counter `c0` ends at
/// counter `c0 + N`, for every N; the counter never skips and never
/// decreases.
pub proof fn lemma_counter_monotonic(h: Seq<u8>, c0: int, calls: Seq<Seq<u8>>)
    ensures
        engine_run(h, c0, calls).1 == c0 + calls.len(),
    decreases calls.len(),
{
    if calls.len() > 0 {
        lemma_counter_monotonic(engine_step(h, c0, calls[0]).0, c0 + 1, calls.drop_first());
    }
}

/// Determinism: two engines in equal states fed byte-identical call
/// sequences agree on the digest and counter after every prefix of the
/// calls.  The chain step is a function of the state and payload alone.
pub proof fn lemma_run_deterministic(
    h1: Seq<u8>,
    c1: int,
    calls1: Seq<Seq<u8>>,
    h2: Seq<u8>,
    c2: int,
    calls2: Seq<Seq<u8>>,
)
    requires
        h1 == h2,
        c1 == c2,
        calls1 == calls2,
    ensures
        forall|k: int|
            0 <= k <= calls1.len() ==> engine_run(h1, c1, calls1.take(k)) == engine_run(
                h2,
                c2,
                calls2.take(k),
            ),
{
}

/// The replay primitive agrees with the engine model: folding events from a
/// snapshot taken after step `c` performs the steps an engine at counter
/// `c + 1` would perform.
pub proof fn lemma_fold_matches_run(h: Seq<u8>, c: int, events: Seq<Seq<u8>>)
    ensures
        fold_events(h, c, events) == engine_run(h, c + 1, events).0,
    decreases events.len(),
{
    if events.len() > 0 {
        lemma_fold_matches_run(step_hash(h, c + 1, events[0]), c + 1, events.drop_first());
    }
}

/// Extending a span of empty steps by one more step at its end.
pub proof fn lemma_pad_ticks_snoc(h: Seq<u8>, c: int, end: int)
    requires
        c < end,
    ensures
        pad_ticks(h, c, end) == step_hash(pad_ticks(h, c, end - 1), end, Seq::<u8>::empty()),
    decreases end - c,
{
    let h1 = step_hash(h, c + 1, Seq::<u8>::empty());
    assert(pad_ticks(h, c, end) == pad_ticks(h1, c + 1, end));
    if c + 1 < end {
        lemma_pad_ticks_snoc(h1, c + 1, end);
        assert(pad_ticks(h, c, end - 1) == pad_ticks(h1, c + 1, end - 1));
    } else {
        assert(pad_ticks(h1, c + 1, end) == h1);
        assert(pad_ticks(h, c, end - 1) == h);
    }
}

/// Compares two byte vectors for equality of contents.
pub fn eq_bytes(a: &Vec<u8>, b: &Vec<u8>) -> (r: bool)
    ensures
        r == (a@ == b@),
{
    if a.len() != b.len() {
        return false;
    }
    let mut i: usize = 0;
    while i < a.len()
        invariant
            a.len() == b.len(),
            i <= a.len(),
            forall|j: int| 0 <= j < i ==> a@[j] == b@[j],
        decreases a.len() - i,
    {
        if a[i] != b[i] {
            return false;
        }
        i = i + 1;
    }
    proof {
        assert(a@ =~= b@);
    }
    true
}

/// One executable chain step: hashes the previous digest, the counter's
/// little-endian bytes, and the payload.
fn chain_step(h: &Vec<u8>, counter: u64, event: &[u8]) -> (r: Vec<u8>)
    ensures
        r@ == step_hash(h@, counter as int, event@),
        r@.len() == 32,
{
    let mut input = crate::copy_bytes(h);
    let mut le = u64_to_le_bytes(counter);
    input.append(&mut le);
    input.extend_from_slice(event);
    let r = hash_bytes(&input);
    proof {
        assert(input@ == h@ + spec_u64_to_le_bytes(counter) + event@);
    }
    r
}

/// Replays a claimed span of the chain from the snapshot
/// `(start_hash, start_count)`: each event is folded in order, one counter
/// step each, then empty steps advance the counter to `end_count`.  Returns
/// true exactly when the recomputed digest and counter both match the
/// claimed end state.
pub fn replay_check(
    start_hash: &Vec<u8>,
    start_count: u64,
    end_hash: &Vec<u8>,
    end_count: u64,
    events: &Vec<Vec<u8>>,
) -> (r: bool)
    ensures
        r == replay_ok(start_hash@, start_count as int, events.deep_view(), end_hash@,
            end_count as int),
{
    let n = events.len();
    if n as u64 > end_count || start_count > end_count - (n as u64) {
        return false;
    }
    let ghost evs = events.deep_view();
    let mut h = crate::copy_bytes(start_hash);
    let mut c = start_count;
    let mut i: usize = 0;
    proof {
        assert(evs.skip(0) =~= evs);
    }
    while i < n
        invariant
            n == events.len(),
            evs == events.deep_view(),
            evs.len() == n,
            i <= n,
            c == start_count + i,
            start_count + n <= end_count,
            fold_events(h@, c as int, evs.skip(i as int)) == fold_events(start_hash@,
                start_count as int, evs),
        decreases n - i,
    {
        let ghost h_before = h@;
        let ghost c_before = c as int;
        proof {
            assert(evs.skip(i as int).len() > 0);
            assert(events[i as int]@ =~= evs[i as int]);
            assert(evs.skip(i as int)[0] == evs[i as int]);
            assert(evs.skip(i as int).drop_first() =~= evs.skip(i as int + 1));
        }
        h = chain_step(&h, c + 1, events[i].as_slice());
        proof {
            assert(h@ == step_hash(h_before, c_before + 1, evs[i as int]));
            assert(fold_events(h_before, c_before, evs.skip(i as int)) == fold_events(h@,
                c_before + 1, evs.skip(i as int + 1)));
        }
        c = c + 1;
        i = i + 1;
    }
    proof {
        assert(evs.skip(n as int) =~= Seq::<Seq<u8>>::empty());
        assert(fold_events(h@, c as int, Seq::<Seq<u8>>::empty()) == h@);
    }
    while c < end_count
        invariant
            end_count <= u64::MAX,
            c <= end_count,
            pad_ticks(h@, c as int, end_count as int) == replay_hash(start_hash@,
                start_count as int, evs, end_count as int),
        decreases end_count - c,
    {
        let empty: [u8; 0] = [];
        h = chain_step(&h, c + 1, empty.as_slice());
        c = c + 1;
    }
    eq_bytes(&h, end_hash)
}

/// The hash-chain engine: one running digest and a counter with a single
/// writer.  `tick` and `record_event` each advance the chain by exactly one
/// step; the counter they return is the number of the step just taken.
pub struct ProofOfHistory {
    hash: Vec<u8>,
    count: u64,
}

impl ProofOfHistory {
    /// The engine's current digest.
    pub closed spec fn spec_hash(&self) -> Seq<u8> {
        self.hash@
    }

    /// The engine's current counter: the number of steps taken so far, and
    /// the number the next step will carry.
    pub closed spec fn spec_count(&self) -> u64 {
        self.count
    }

    /// A fresh engine: no steps taken, digest at the genesis seed.
    pub fn new() -> (r: ProofOfHistory)
        ensures
            r.spec_count() == 0,
            r.spec_hash() == genesis_seed(),
    {
        let r = ProofOfHistory { hash: Vec::new(), count: 0 };
        proof {
            assert(r.hash@ =~= Seq::<u8>::empty());
        }
        r
    }

    /// Advances the chain by one step with no payload.  Returns the new
    /// digest and the number of the step just taken.
    pub fn tick(&mut self) -> (r: (Vec<u8>, u64))
        requires
            old(self).spec_count() < u64::MAX,
        ensures
            final(self).spec_count() == old(self).spec_count() + 1,
            final(self).spec_hash() == step_hash(old(self).spec_hash(),
                old(self).spec_count() as int, Seq::<u8>::empty()),
            r.0@ == final(self).spec_hash(),
            r.1 == old(self).spec_count(),
    {
        let empty: [u8; 0] = [];
        let h = chain_step(&self.hash, self.count, empty.as_slice());
        let taken = self.count;
        self.hash = h;
        self.count = self.count + 1;
        (crate::copy_bytes(&self.hash), taken)
    }

    /// Advances the chain by one step, folding the event bytes into the
    /// digest.  Returns the new digest and the number of the step just
    /// taken.
    pub fn record_event(&mut self, event: &[u8]) -> (r: (Vec<u8>, u64))
        requires
            old(self).spec_count() < u64::MAX,
        ensures
            final(self).spec_count() == old(self).spec_count() + 1,
            final(self).spec_hash() == step_hash(old(self).spec_hash(),
                old(self).spec_count() as int, event@),
            r.0@ == final(self).spec_hash(),
            r.1 == old(self).spec_count(),
    {
        let h = chain_step(&self.hash, self.count, event);
        let taken = self.count;
        self.hash = h;
        self.count = self.count + 1;
        (crate::copy_bytes(&self.hash), taken)
    }

    /// The current counter, without advancing it.
    pub fn count_value(&self) -> (r: u64)
        ensures
            r == self.spec_count(),
    {
        self.count
    }

    /// The current digest, without advancing the counter.
    pub fn snapshot_hash(&self) -> (r: Vec<u8>)
        ensures
            r@ == self.spec_hash(),
    {
        crate::copy_bytes(&self.hash)
    }

    /// Replay verification of a claimed span of the chain; the engine's own
    /// state plays no part.  See [`replay_check`].
    pub fn verify_sequence(
        &self,
        start_hash: &Vec<u8>,
        start_count: u64,
        end_hash: &Vec<u8>,
        end_count: u64,
        events: &Vec<Vec<u8>>,
    ) -> (r: bool)
        ensures
            r == replay_ok(start_hash@, start_count as int, events.deep_view(), end_hash@,
                end_count as int),
    {
        replay_check(start_hash, start_count, end_hash, end_count, events)
    }
}

} // verus!
