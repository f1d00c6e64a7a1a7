//! The slot sequencer and the historical verifier.
//!
//! The ledger owns one hash-chain engine and drives it exclusively.  It
//! buffers submitted transactions and, on demand, closes a slot: one tick
//! gives the slot's opening digest, one record folds the batch's canonical
//! serialization into the chain and gives the closing digest and counter.
//! Committed slots are immutable and sequentially numbered; replaying their
//! serialized batches against the chain algorithm confirms that none was
//! inserted, removed, altered or reordered.

use vstd::prelude::*;
use crate::codec::{encode_batch, lemma_batch_order_sensitive, serialize_batch, tx_encodable};
use crate::poh::{
    fold_events, genesis_seed, lemma_pad_ticks_snoc, lemma_step_inputs_differ, pad_ticks,
    ProofOfHistory, replay_check, step_hash, step_input,
};

verus! {

/// A hash digest, always 32 bytes on untampered data.
pub type SlotHash = Vec<u8>;

/// The mathematical value of a [`Transaction`]: the identifiers as
/// character sequences, the anchor hash as a byte sequence.
pub struct TxView {
    pub from: Seq<char>,
    pub to: Seq<char>,
    pub amount: u64,
    pub recent_block_hash: Seq<u8>,
}

/// A transfer of some amount between two identified parties, anchored to
/// the hash of the most recently committed slot at submission time.
#[derive(Debug, Clone)]
pub struct Transaction {
    pub from: String,
    pub to: String,
    pub amount: u64,
    pub recent_block_hash: SlotHash,
}

impl View for Transaction {
    type V = TxView;

    open spec fn view(&self) -> TxView {
        TxView {
            from: self.from@,
            to: self.to@,
            amount: self.amount,
            recent_block_hash: self.recent_block_hash@,
        }
    }
}

impl DeepView for Transaction {
    type V = TxView;

    open spec fn deep_view(&self) -> TxView {
        self@
    }
}

/// The mathematical value of a [`Slot`].
pub struct SlotView {
    pub slot_number: u64,
    pub slot_hash: Seq<u8>,
    pub transactions: Seq<TxView>,
    pub end_poh_count: u64,
    pub end_poh_hash: Seq<u8>,
}

/// An immutable batch of transactions bound to the chain.  `slot_hash` is
/// the chain digest at the slot's opening tick; `end_poh_hash` and
/// `end_poh_count` are the chain state after the batch was folded in, one
/// counter step later.
#[derive(Debug, Clone)]
pub struct Slot {
    pub slot_number: u64,
    pub slot_hash: SlotHash,
    pub transactions: Vec<Transaction>,
    pub end_poh_count: u64,
    pub end_poh_hash: SlotHash,
}

impl View for Slot {
    type V = SlotView;

    open spec fn view(&self) -> SlotView {
        SlotView {
            slot_number: self.slot_number,
            slot_hash: self.slot_hash@,
            transactions: self.transactions.deep_view(),
            end_poh_count: self.end_poh_count,
            end_poh_hash: self.end_poh_hash@,
        }
    }
}

impl DeepView for Slot {
    type V = SlotView;

    open spec fn deep_view(&self) -> SlotView {
        self@
    }
}

/// The hexadecimal digit for a value below 16.
pub open spec fn hex_char(n: u8) -> char {
    if n == 0 {
        '0'
    } else if n == 1 {
        '1'
    } else if n == 2 {
        '2'
    } else if n == 3 {
        '3'
    } else if n == 4 {
        '4'
    } else if n == 5 {
        '5'
    } else if n == 6 {
        '6'
    } else if n == 7 {
        '7'
    } else if n == 8 {
        '8'
    } else if n == 9 {
        '9'
    } else if n == 10 {
        'a'
    } else if n == 11 {
        'b'
    } else if n == 12 {
        'c'
    } else if n == 13 {
        'd'
    } else if n == 14 {
        'e'
    } else {
        'f'
    }
}

/// The lower-case hexadecimal rendering of a byte sequence: two digits per
/// byte, high nibble first.
pub open spec fn hex_of(bytes: Seq<u8>) -> Seq<char>
    decreases bytes.len(),
{
    if bytes.len() == 0 {
        Seq::<char>::empty()
    } else {
        seq![hex_char(bytes[0] / 16), hex_char(bytes[0] % 16)] + hex_of(bytes.drop_first())
    }
}

/// A one-character string slice holding the hexadecimal digit for `n`.
fn nibble_str(n: u8) -> (r: &'static str)
    requires
        n < 16,
    ensures
        r@ == seq![hex_char(n)],
{
    proof {
        reveal_strlit("0");
        reveal_strlit("1");
        reveal_strlit("2");
        reveal_strlit("3");
        reveal_strlit("4");
        reveal_strlit("5");
        reveal_strlit("6");
        reveal_strlit("7");
        reveal_strlit("8");
        reveal_strlit("9");
        reveal_strlit("a");
        reveal_strlit("b");
        reveal_strlit("c");
        reveal_strlit("d");
        reveal_strlit("e");
        reveal_strlit("f");
    }
    if n == 0 {
        "0"
    } else if n == 1 {
        "1"
    } else if n == 2 {
        "2"
    } else if n == 3 {
        "3"
    } else if n == 4 {
        "4"
    } else if n == 5 {
        "5"
    } else if n == 6 {
        "6"
    } else if n == 7 {
        "7"
    } else if n == 8 {
        "8"
    } else if n == 9 {
        "9"
    } else if n == 10 {
        "a"
    } else if n == 11 {
        "b"
    } else if n == 12 {
        "c"
    } else if n == 13 {
        "d"
    } else if n == 14 {
        "e"
    } else {
        "f"
    }
}

/// Renders a hash as a lower-case hexadecimal string.
pub fn hash_to_hex(hash: &Vec<u8>) -> (r: String)
    ensures
        r@ == hex_of(hash@),
{
    let mut r = String::new();
    let mut i: usize = 0;
    proof {
        assert(hash@.skip(0) =~= hash@);
        assert(r@ + hex_of(hash@) =~= hex_of(hash@));
    }
    while i < hash.len()
        invariant
            i <= hash.len(),
            r@ + hex_of(hash@.skip(i as int)) == hex_of(hash@),
        decreases hash.len() - i,
    {
        let ghost r_before = r@;
        let b = hash[i];
        let hi = nibble_str(b / 16);
        let lo = nibble_str(b % 16);
        r.append(hi);
        r.append(lo);
        proof {
            let rest = hash@.skip(i as int);
            assert(rest[0] == hash@[i as int]);
            assert(rest.drop_first() =~= hash@.skip(i as int + 1));
            assert(hex_of(rest) == seq![hex_char(b / 16), hex_char(b % 16)] + hex_of(
                rest.drop_first()));
            assert(r@ =~= r_before + seq![hex_char(b / 16), hex_char(b % 16)]);
            assert(r@ + hex_of(hash@.skip(i as int + 1)) =~= r_before + hex_of(rest));
        }
        i = i + 1;
    }
    proof {
        assert(hash@.skip(hash@.len() as int) =~= Seq::<u8>::empty());
        assert(r@ + Seq::<char>::empty() =~= r@);
    }
    r
}

/// Copies a transaction field by field.
pub fn copy_transaction(t: &Transaction) -> (r: Transaction)
    ensures
        r@ == t@,
{
    Transaction {
        from: t.from.clone(),
        to: t.to.clone(),
        amount: t.amount,
        recent_block_hash: crate::copy_bytes(&t.recent_block_hash),
    }
}

/// Copies a vector of transactions element by element.
pub fn copy_transactions(v: &Vec<Transaction>) -> (r: Vec<Transaction>)
    ensures
        r.deep_view() == v.deep_view(),
{
    let mut r: Vec<Transaction> = Vec::new();
    let mut i: usize = 0;
    while i < v.len()
        invariant
            i <= v.len(),
            r.deep_view() == v.deep_view().take(i as int),
        decreases v.len() - i,
    {
        let ghost pre = r.deep_view();
        r.push(copy_transaction(&v[i]));
        proof {
            assert(v.deep_view().len() == v@.len());
            assert(v.deep_view().take(i as int).len() == i);
            assert(pre.len() == i);
            assert(r@.len() == i + 1);
            assert(r.deep_view().len() == i + 1);
            assert forall|j: int| 0 <= j < i + 1 implies r.deep_view()[j] == v.deep_view().take(
                i as int + 1,
            )[j] by {
                if j < i {
                    assert(pre[j] == v.deep_view()[j]);
                }
            }
            assert(r.deep_view() =~= v.deep_view().take(i as int + 1));
        }
        i = i + 1;
    }
    proof {
        assert(v.deep_view().take(v@.len() as int) =~= v.deep_view());
    }
    r
}

/// Copies a slot field by field.
pub fn copy_slot(s: &Slot) -> (r: Slot)
    ensures
        r@ == s@,
{
    Slot {
        slot_number: s.slot_number,
        slot_hash: crate::copy_bytes(&s.slot_hash),
        transactions: copy_transactions(&s.transactions),
        end_poh_count: s.end_poh_count,
        end_poh_hash: crate::copy_bytes(&s.end_poh_hash),
    }
}

/// The chain digest the genesis tick produces on a fresh engine.
pub open spec fn genesis_hash() -> Seq<u8> {
    step_hash(genesis_seed(), 0, Seq::<u8>::empty())
}

/// Slot `b` follows slot `a` on one chain: empty steps lead from `a`'s
/// close state to `b`'s opening digest one step before `b`'s close, and
/// `b`'s close digest folds exactly `b`'s canonical batch in at `b`'s
/// close counter.
pub open spec fn slot_linked(a: SlotView, b: SlotView) -> bool {
    &&& a.end_poh_count < b.end_poh_count
    &&& b.slot_hash == pad_ticks(a.end_poh_hash, a.end_poh_count as int, b.end_poh_count - 1)
    &&& b.end_poh_hash == step_hash(b.slot_hash, b.end_poh_count as int, encode_batch(
        b.transactions,
    ))
}

/// Every adjacent pair of slots with indices in `[start, end]` is linked.
pub open spec fn range_linked(slots: Seq<SlotView>, start: int, end: int) -> bool {
    forall|k: int| start <= k < end ==> slot_linked(#[trigger] slots[k], slots[k + 1])
}

/// The distinct ways a range verification can fail.
#[derive(Debug, PartialEq, Eq, Structural)]
pub enum VerifyError {
    /// The requested indices do not form a range of committed slots.
    InvalidRange,
    /// A slot's close counter does not advance past its predecessor's:
    /// a missing, duplicated or miscounted step.
    CounterMismatch,
    /// A recomputed digest differs from a stored one: event content or
    /// order was altered.
    HashMismatch,
}

/// Replays the chain across the committed slots with indices in
/// `(start_index, end_index]`, each slot checked from its predecessor's
/// close state through its opening digest to its close state, using the
/// engine's replay primitive.  Succeeds exactly when every adjacent pair in
/// `[start_index, end_index]` is linked.
pub fn verify_range(slots: &Vec<Slot>, start_index: usize, end_index: usize) -> (r: Result<
    (),
    VerifyError,
>)
    ensures
        r is Ok <==> {
            &&& start_index < end_index
            &&& end_index < slots.deep_view().len()
            &&& range_linked(slots.deep_view(), start_index as int, end_index as int)
        },
        r == Err::<(), VerifyError>(VerifyError::InvalidRange) <==> !(start_index < end_index
            && end_index < slots.deep_view().len()),
        r == Err::<(), VerifyError>(VerifyError::CounterMismatch) ==> exists|k: int|
            start_index <= k < end_index && !((#[trigger] slots.deep_view()[k]).end_poh_count
                < slots.deep_view()[k + 1].end_poh_count),
{
    let ghost dv = slots.deep_view();
    if start_index >= end_index || end_index >= slots.len() {
        return Err(VerifyError::InvalidRange);
    }
    let mut k = start_index;
    while k < end_index
        invariant
            dv == slots.deep_view(),
            dv.len() == slots@.len(),
            start_index <= k <= end_index,
            end_index < slots@.len(),
            range_linked(dv, start_index as int, k as int),
        decreases end_index - k,
    {
        let a = &slots[k];
        let b = &slots[k + 1];
        proof {
            assert(dv[k as int] == slots@[k as int]@);
            assert(dv[k as int + 1] == slots@[k as int + 1]@);
        }
        if b.end_poh_count <= a.end_poh_count {
            return Err(VerifyError::CounterMismatch);
        }
        let no_events: Vec<Vec<u8>> = Vec::new();
        let ok_open = replay_check(&a.end_poh_hash, a.end_poh_count, &b.slot_hash,
            b.end_poh_count - 1, &no_events);
        let batch = serialize_batch(&b.transactions);
        let ghost batch_view = batch@;
        let mut one_event: Vec<Vec<u8>> = Vec::new();
        one_event.push(batch);
        let ok_close = replay_check(&b.slot_hash, b.end_poh_count - 1, &b.end_poh_hash,
            b.end_poh_count, &one_event);
        proof {
            let av = dv[k as int];
            let bv = dv[k as int + 1];
            assert(no_events.deep_view() =~= Seq::<Seq<u8>>::empty());
            assert(fold_events(av.end_poh_hash, av.end_poh_count as int, Seq::<Seq<u8>>::empty())
                == av.end_poh_hash);
            assert(ok_open == (av.end_poh_count <= bv.end_poh_count - 1 && pad_ticks(
                av.end_poh_hash, av.end_poh_count as int, bv.end_poh_count - 1) == bv.slot_hash));
            let evs = one_event.deep_view();
            assert(evs.len() == 1);
            assert(evs[0] == one_event@[0].deep_view());
            assert(one_event@[0].deep_view() =~= batch_view);
            assert(evs =~= seq![batch_view]);
            assert(evs[0] == batch_view);
            assert(evs.drop_first() =~= Seq::<Seq<u8>>::empty());
            let c0 = bv.end_poh_count - 1;
            assert(fold_events(bv.slot_hash, c0, evs) == fold_events(step_hash(bv.slot_hash,
                c0 + 1, batch_view), c0 + 1, Seq::<Seq<u8>>::empty()));
            assert(pad_ticks(fold_events(bv.slot_hash, c0, evs), c0 + 1, c0 + 1) == fold_events(
                bv.slot_hash, c0, evs));
            assert(ok_close == (step_hash(bv.slot_hash, bv.end_poh_count as int, batch_view)
                == bv.end_poh_hash));
            assert(batch_view == encode_batch(bv.transactions));
        }
        if !ok_open || !ok_close {
            proof {
                assert(!slot_linked(dv[k as int], dv[k as int + 1]));
            }
            return Err(VerifyError::HashMismatch);
        }
        proof {
            assert(slot_linked(dv[k as int], dv[k as int + 1]));
            assert(range_linked(dv, start_index as int, k as int + 1));
        }
        k = k + 1;
    }
    Ok(())
}

/// The slot sequencer: one hash-chain engine with a single writer, a
/// buffer of pending transactions, and the append-only list of committed
/// slots, genesis included.
pub struct Ledger {
    slots: Vec<Slot>,
    current_transactions: Vec<Transaction>,
    poh: ProofOfHistory,
    current_slot_number: u64,
}

impl Ledger {
    /// The committed slots, genesis first.
    pub closed spec fn spec_slots(&self) -> Seq<SlotView> {
        self.slots.deep_view()
    }

    /// The buffered transactions awaiting the next slot close, in
    /// submission order.
    pub closed spec fn spec_pending(&self) -> Seq<TxView> {
        self.current_transactions.deep_view()
    }

    /// The engine's counter.
    pub closed spec fn spec_poh_count(&self) -> u64 {
        self.poh.spec_count()
    }

    /// The engine's current digest.
    pub closed spec fn spec_poh_hash(&self) -> Seq<u8> {
        self.poh.spec_hash()
    }

    /// The ledger's invariant: slots are numbered by position, the genesis
    /// slot closed the chain's step zero with an empty batch, every
    /// adjacent pair of slots is linked on one chain, and the engine sits
    /// some number of empty steps past the last close.
    pub closed spec fn wf(&self) -> bool {
        let slots = self.spec_slots();
        &&& slots.len() >= 1
        &&& slots.len() == self.current_slot_number
        &&& forall|i: int| 0 <= i < slots.len() ==> (#[trigger] slots[i]).slot_number == i
        &&& slots[0].end_poh_count == 0
        &&& slots[0].slot_hash == genesis_hash()
        &&& slots[0].end_poh_hash == genesis_hash()
        &&& slots[0].transactions.len() == 0
        &&& range_linked(slots, 0, slots.len() - 1)
        &&& self.poh.spec_count() > slots.last().end_poh_count
        &&& self.poh.spec_hash() == pad_ticks(slots.last().end_poh_hash,
            slots.last().end_poh_count as int, self.poh.spec_count() - 1)
    }

    /// A fresh ledger: one tick of a fresh engine gives the genesis
    /// digest, and the genesis slot commits it with an empty batch and
    /// close counter zero.
    pub fn new() -> (r: Ledger)
        ensures
            r.wf(),
            r.spec_slots().len() == 1,
            r.spec_slots()[0].slot_number == 0,
            r.spec_slots()[0].end_poh_count == 0,
            r.spec_slots()[0].slot_hash == genesis_hash(),
            r.spec_slots()[0].end_poh_hash == genesis_hash(),
            r.spec_slots()[0].transactions.len() == 0,
            r.spec_pending().len() == 0,
            r.spec_poh_count() == 1,
    {
        let mut poh = ProofOfHistory::new();
        let (genesis, _step) = poh.tick();
        let genesis_copy = crate::copy_bytes(&genesis);
        let genesis_slot = Slot {
            slot_number: 0,
            slot_hash: genesis,
            transactions: Vec::new(),
            end_poh_count: 0,
            end_poh_hash: genesis_copy,
        };
        let mut slots: Vec<Slot> = Vec::new();
        slots.push(genesis_slot);
        let r = Ledger {
            slots,
            current_transactions: Vec::new(),
            poh,
            current_slot_number: 1,
        };
        proof {
            assert(r.spec_slots().len() == 1);
            assert(r.spec_slots()[0] == r.slots@[0]@);
            assert(r.spec_pending() =~= Seq::<TxView>::empty());
            assert(pad_ticks(genesis_hash(), 0, 0) == genesis_hash());
        }
        r
    }

    /// Advances the chain by one free step between slot closes.  Returns
    /// the new digest and the number of the step just taken.
    pub fn tick(&mut self) -> (r: (SlotHash, u64))
        requires
            old(self).wf(),
            old(self).spec_poh_count() < u64::MAX,
        ensures
            final(self).wf(),
            final(self).spec_slots() == old(self).spec_slots(),
            final(self).spec_pending() == old(self).spec_pending(),
            final(self).spec_poh_count() == old(self).spec_poh_count() + 1,
            final(self).spec_poh_hash() == step_hash(old(self).spec_poh_hash(),
                old(self).spec_poh_count() as int, Seq::<u8>::empty()),
            r.0@ == final(self).spec_poh_hash(),
            r.1 == old(self).spec_poh_count(),
    {
        let r = self.poh.tick();
        proof {
            let last = self.spec_slots().last();
            lemma_pad_ticks_snoc(last.end_poh_hash, last.end_poh_count as int,
                self.poh.spec_count() - 1);
        }
        r
    }

    /// Buffers a transaction for the next slot, anchoring it to the most
    /// recently committed slot's opening digest.
    pub fn add_transaction(&mut self, transaction: Transaction)
        requires
            old(self).wf(),
        ensures
            final(self).wf(),
            final(self).spec_slots() == old(self).spec_slots(),
            final(self).spec_poh_count() == old(self).spec_poh_count(),
            final(self).spec_poh_hash() == old(self).spec_poh_hash(),
            final(self).spec_pending() == old(self).spec_pending().push(
                TxView {
                    from: transaction.from@,
                    to: transaction.to@,
                    amount: transaction.amount,
                    recent_block_hash: old(self).spec_slots().last().slot_hash,
                },
            ),
    {
        let mut transaction = transaction;
        let idx = self.slots.len() - 1;
        proof {
            assert(self.spec_slots()[idx as int] == self.slots@[idx as int]@);
        }
        transaction.recent_block_hash = crate::copy_bytes(&self.slots[idx].slot_hash);
        self.current_transactions.push(transaction);
        proof {
            assert(final(self).spec_pending() =~= old(self).spec_pending().push(
                TxView {
                    from: transaction.from@,
                    to: transaction.to@,
                    amount: transaction.amount,
                    recent_block_hash: old(self).spec_slots().last().slot_hash,
                },
            ));
        }
    }

    /// Closes a slot: one tick gives the opening digest, the pending
    /// buffer is drained atomically, its canonical serialization is folded
    /// into the chain by one record, and the slot is committed and
    /// returned.
    #[verifier::rlimit(50)]
    pub fn create_slot(&mut self) -> (s: Slot)
        requires
            old(self).wf(),
            old(self).spec_poh_count() < u64::MAX - 1,
        ensures
            final(self).wf(),
            final(self).spec_slots() == old(self).spec_slots().push(s@),
            final(self).spec_pending().len() == 0,
            final(self).spec_poh_count() == old(self).spec_poh_count() + 2,
            s@.slot_number == old(self).spec_slots().len(),
            s@.transactions == old(self).spec_pending(),
            s@.slot_hash == step_hash(old(self).spec_poh_hash(),
                old(self).spec_poh_count() as int, Seq::<u8>::empty()),
            s@.end_poh_count == old(self).spec_poh_count() + 1,
            s@.end_poh_hash == step_hash(s@.slot_hash, s@.end_poh_count as int, encode_batch(
                old(self).spec_pending())),
    {
        proof {
            lemma_close_counters_reach_index(self.spec_slots(),
                self.spec_slots().len() - 1);
        }
        let (slot_hash, _open_step) = self.poh.tick();
        let mut transactions: Vec<Transaction> = Vec::new();
        core::mem::swap(&mut transactions, &mut self.current_transactions);
        let serialized = serialize_batch(&transactions);
        let (end_poh_hash, end_poh_count) = self.poh.record_event(serialized.as_slice());
        let slot = Slot {
            slot_number: self.current_slot_number,
            slot_hash,
            transactions,
            end_poh_count,
            end_poh_hash,
        };
        let committed = copy_slot(&slot);
        let ghost committed_view = committed@;
        self.slots.push(committed);
        self.current_slot_number = self.current_slot_number + 1;
        proof {
            let old_slots = old(self).spec_slots();
            let old_last = old_slots.last();
            let new_slots = self.slots.deep_view();
            assert(old_slots.len() == old(self).slots@.len());
            assert(new_slots.len() == old_slots.len() + 1);
            assert(committed_view == slot@);
            assert forall|j: int| 0 <= j < new_slots.len() implies new_slots[j] == old_slots.push(
                slot@,
            )[j] by {
                assert(new_slots[j] == self.slots@[j]@);
                if j < old_slots.len() {
                    assert(self.slots@[j] == old(self).slots@[j]);
                    assert(old_slots[j] == old(self).slots@[j]@);
                } else {
                    assert(self.slots@[j] == old(self).slots@.push(committed)[j]);
                }
            }
            assert(new_slots =~= old_slots.push(slot@));
            assert(slot_linked(old_last, slot@)) by {
                lemma_pad_ticks_snoc(old_last.end_poh_hash, old_last.end_poh_count as int,
                    old(self).spec_poh_count() as int);
            }
            assert(final(self).spec_pending() =~= Seq::<TxView>::empty());
            assert forall|k: int| 0 <= k < new_slots.len() - 1 implies slot_linked(
                #[trigger] new_slots[k], new_slots[k + 1]) by {
                if k < old_slots.len() - 1 {
                    assert(slot_linked(old_slots[k], old_slots[k + 1]));
                    assert(new_slots[k] == old_slots[k]);
                    assert(new_slots[k + 1] == old_slots[k + 1]);
                } else {
                    assert(new_slots[k] == old_last);
                    assert(new_slots[k + 1] == slot@);
                }
            }
            assert(range_linked(new_slots, 0, new_slots.len() - 1));
            assert(pad_ticks(slot@.end_poh_hash, slot@.end_poh_count as int,
                final(self).spec_poh_count() - 1) == slot@.end_poh_hash);
            assert forall|i: int| 0 <= i < new_slots.len() implies (#[trigger] new_slots[i])
                .slot_number == i by {
                if i < old_slots.len() {
                    assert(old_slots[i].slot_number == i);
                }
            }
        }
        slot
    }

    /// The engine's current counter: the number of chain steps taken.
    pub fn poh_count(&self) -> (r: u64)
        ensures
            r == self.spec_poh_count(),
    {
        self.poh.count_value()
    }

    /// The number of committed slots, genesis included.
    pub fn get_slots_height(&self) -> (r: usize)
        ensures
            r == self.spec_slots().len(),
    {
        self.slots.len()
    }

    /// The committed slots, for independent replay by an observer.
    pub fn get_slots(&self) -> (r: &Vec<Slot>)
        ensures
            r.deep_view() == self.spec_slots(),
    {
        &self.slots
    }

    /// Replays the chain between two committed slots.  Returns true
    /// exactly when the indices form a valid range and every adjacent pair
    /// of slots in it is linked; on an untampered ledger every valid range
    /// verifies.
    pub fn verify_proof_of_history_between_slots(
        &self,
        start_slot_index: usize,
        end_slot_index: usize,
    ) -> (r: bool)
        ensures
            r == {
                &&& start_slot_index < end_slot_index
                &&& end_slot_index < self.spec_slots().len()
                &&& range_linked(self.spec_slots(), start_slot_index as int,
                    end_slot_index as int)
            },
            (self.wf() && start_slot_index < end_slot_index && end_slot_index
                < self.spec_slots().len()) ==> r,
    {
        let r = verify_range(&self.slots, start_slot_index, end_slot_index);
        proof {
            if self.wf() && start_slot_index < end_slot_index && end_slot_index
                < self.spec_slots().len() {
                assert(range_linked(self.spec_slots(), 0, self.spec_slots().len() - 1));
                assert forall|k: int|
                    start_slot_index <= k < end_slot_index implies slot_linked(
                    #[trigger] self.spec_slots()[k], self.spec_slots()[k + 1]) by {
                    assert(slot_linked(self.spec_slots()[k], self.spec_slots()[k + 1]));
                }
            }
        }
        match r {
            Ok(()) => true,
            Err(_) => false,
        }
    }
}

/// Order sensitivity at slot close: from the same opening digest and close
/// counter, batches holding the same two distinct transactions in the two
/// orders fold different byte strings into the chain, so the close digests
/// can agree only if the hash collides on distinct inputs.
pub proof fn lemma_swapped_batch_changes_fold(
    open_hash: Seq<u8>,
    close_counter: int,
    a: TxView,
    b: TxView,
)
    requires
        tx_encodable(a),
        tx_encodable(b),
        a != b,
    ensures
        step_input(open_hash, close_counter, encode_batch(seq![a, b])) != step_input(open_hash,
            close_counter, encode_batch(seq![b, a])),
{
    lemma_batch_order_sensitive(a, b);
    lemma_step_inputs_differ(open_hash, close_counter, encode_batch(seq![a, b]), encode_batch(
        seq![b, a]));
}

/// Tamper locality: whether a range of slots verifies depends on the slots
/// with indices in `[start, end]` alone, so altering a slot outside a range
/// leaves that range's verification unaffected.
pub proof fn lemma_range_locality(s1: Seq<SlotView>, s2: Seq<SlotView>, start: int, end: int)
    requires
        0 <= start <= end,
        end < s1.len(),
        end < s2.len(),
        forall|k: int| start <= k <= end ==> s1[k] == #[trigger] s2[k],
    ensures
        range_linked(s1, start, end) == range_linked(s2, start, end),
{
    if range_linked(s1, start, end) {
        assert forall|k: int| start <= k < end implies slot_linked(#[trigger] s2[k], s2[k + 1]) by {
            assert(slot_linked(s1[k], s1[k + 1]));
        }
    }
    if range_linked(s2, start, end) {
        assert forall|k: int| start <= k < end implies slot_linked(#[trigger] s1[k], s1[k + 1]) by {
            assert(slot_linked(s2[k], s2[k + 1]));
        }
    }
}

/// In a linked chain of slots whose genesis closed at counter zero, the
/// close counter of the slot at each position is at least that position.
proof fn lemma_close_counters_reach_index(slots: Seq<SlotView>, i: int)
    requires
        slots.len() >= 1,
        slots[0].end_poh_count == 0,
        range_linked(slots, 0, slots.len() - 1),
        0 <= i < slots.len(),
    ensures
        slots[i].end_poh_count >= i,
    decreases i,
{
    if i > 0 {
        lemma_close_counters_reach_index(slots, i - 1);
        assert(slot_linked(slots[i - 1], slots[i]));
    }
}

} // verus!
