//! The canonical serialization of transaction batches.
//!
//! This byte format is what `record` folds into the chain at slot close and
//! what replay verification recomputes, so it must be stable and
//! deterministic: a batch is its length as eight little-endian bytes
//! followed by each transaction in submission order; a transaction is each
//! field in declaration order, strings as a little-endian length followed
//! by their UTF-8 bytes, the amount as eight little-endian bytes, the
//! anchor hash as its raw bytes.

use vstd::prelude::*;
use vstd::bytes::{
    lemma_auto_spec_u64_to_from_le_bytes, spec_u64_from_le_bytes, spec_u64_to_le_bytes,
    u64_to_le_bytes,
};
use vstd::string::StringSliceAdditionalSpecFns;
use vstd::utf8::{encode_utf8, encode_utf8_decode_utf8};
use crate::ledger::{Transaction, TxView};

verus! {

/// A length as the eight little-endian bytes that prefix a variable-length
/// field.
pub open spec fn len_prefix(n: nat) -> Seq<u8> {
    spec_u64_to_le_bytes(n as u64)
}

/// The canonical serialization of one transaction.
pub open spec fn encode_tx(t: TxView) -> Seq<u8> {
    len_prefix(encode_utf8(t.from).len()) + (encode_utf8(t.from) + (len_prefix(
        encode_utf8(t.to).len(),
    ) + (encode_utf8(t.to) + (spec_u64_to_le_bytes(t.amount) + t.recent_block_hash))))
}

/// The transactions of a batch serialized in order.
pub open spec fn encode_txs(ts: Seq<TxView>) -> Seq<u8>
    decreases ts.len(),
{
    if ts.len() == 0 {
        Seq::<u8>::empty()
    } else {
        encode_tx(ts[0]) + encode_txs(ts.drop_first())
    }
}

/// The canonical serialization of a batch: its length, then its
/// transactions in submission order.
pub open spec fn encode_batch(ts: Seq<TxView>) -> Seq<u8> {
    len_prefix(ts.len()) + encode_txs(ts)
}

/// A transaction whose serialization is unambiguous: the anchor hash has
/// its full 32 bytes and the identifiers' byte lengths fit their
/// eight-byte prefixes.  Every transaction the sequencer commits satisfies
/// this; it matters only for reading a serialization back.
pub open spec fn tx_encodable(t: TxView) -> bool {
    &&& t.recent_block_hash.len() == 32
    &&& encode_utf8(t.from).len() <= u64::MAX
    &&& encode_utf8(t.to).len() <= u64::MAX
}

/// Appends the canonical serialization of one transaction.
pub fn encode_transaction_into(out: &mut Vec<u8>, t: &Transaction)
    ensures
        final(out)@ == old(out)@ + encode_tx(t@),
{
    let fb = t.from.as_str().as_bytes();
    let mut le = u64_to_le_bytes(fb.len() as u64);
    out.append(&mut le);
    out.extend_from_slice(fb);
    let tb = t.to.as_str().as_bytes();
    let mut le = u64_to_le_bytes(tb.len() as u64);
    out.append(&mut le);
    out.extend_from_slice(tb);
    let mut le = u64_to_le_bytes(t.amount);
    out.append(&mut le);
    out.extend_from_slice(t.recent_block_hash.as_slice());
    proof {
        assert(fb@ == encode_utf8(t.from@));
        assert(tb@ == encode_utf8(t.to@));
        assert(final(out)@ =~= old(out)@ + encode_tx(t@));
    }
}

/// The canonical serialization of one transaction.
pub fn encode_transaction(t: &Transaction) -> (r: Vec<u8>)
    ensures
        r@ == encode_tx(t@),
{
    let mut out: Vec<u8> = Vec::new();
    encode_transaction_into(&mut out, t);
    proof {
        assert(out@ =~= encode_tx(t@));
    }
    out
}

/// The canonical serialization of a batch of transactions, byte-identical
/// for byte-identical batches.
pub fn serialize_batch(ts: &Vec<Transaction>) -> (r: Vec<u8>)
    ensures
        r@ == encode_batch(ts.deep_view()),
{
    let ghost tvs = ts.deep_view();
    let mut out = u64_to_le_bytes(ts.len() as u64);
    let mut i: usize = 0;
    proof {
        assert(tvs.skip(0) =~= tvs);
        assert(out@ + encode_txs(tvs) =~= encode_batch(tvs));
    }
    while i < ts.len()
        invariant
            tvs == ts.deep_view(),
            tvs.len() == ts@.len(),
            i <= ts@.len(),
            out@ + encode_txs(tvs.skip(i as int)) == encode_batch(tvs),
        decreases ts@.len() - i,
    {
        let ghost out_before = out@;
        proof {
            assert(tvs.skip(i as int).len() > 0);
            assert(tvs.skip(i as int)[0] == tvs[i as int]);
            assert(tvs[i as int] == ts@[i as int]@);
            assert(tvs.skip(i as int).drop_first() =~= tvs.skip(i as int + 1));
        }
        encode_transaction_into(&mut out, &ts[i]);
        proof {
            assert(out@ + encode_txs(tvs.skip(i as int + 1)) =~= out_before + encode_txs(
                tvs.skip(i as int)));
        }
        i = i + 1;
    }
    proof {
        assert(tvs.skip(tvs.len() as int) =~= Seq::<TxView>::empty());
        assert(out@ + Seq::<u8>::empty() =~= out@);
    }
    out
}

/// Two concatenations with equally long first parts are equal exactly when
/// both parts are.
proof fn lemma_concat_split(x: Seq<u8>, y: Seq<u8>, x2: Seq<u8>, y2: Seq<u8>)
    requires
        x.len() == x2.len(),
        x + y == x2 + y2,
    ensures
        x == x2,
        y == y2,
{
    assert((x + y).len() == (x2 + y2).len());
    assert forall|i: int| 0 <= i < x.len() implies x[i] == x2[i] by {
        assert((x + y)[i] == x[i]);
        assert((x2 + y2)[i] == x2[i]);
    }
    assert(x =~= x2);
    assert((x + y).len() == x.len() + y.len());
    assert((x2 + y2).len() == x2.len() + y2.len());
    assert(y.len() == y2.len());
    assert forall|i: int| 0 <= i < y.len() implies y[i] == y2[i] by {
        let j = x.len() + i;
        assert((x + y)[j] == y[j - x.len()]);
        assert((x2 + y2)[j] == y2[j - x2.len()]);
    }
    assert(y =~= y2);
}

/// The eight-byte length prefix determines the length it encodes.
proof fn lemma_len_prefix_injective(x: nat, y: nat)
    requires
        x <= u64::MAX,
        y <= u64::MAX,
        len_prefix(x) == len_prefix(y),
    ensures
        x == y,
{
    lemma_auto_spec_u64_to_from_le_bytes();
    assert(spec_u64_from_le_bytes(spec_u64_to_le_bytes(x as u64)) == x as u64);
    assert(spec_u64_from_le_bytes(spec_u64_to_le_bytes(y as u64)) == y as u64);
}

/// The canonical serialization determines the transaction: two encodable
/// transactions with the same serialization are equal.
pub proof fn lemma_encode_tx_injective(a: TxView, b: TxView)
    requires
        tx_encodable(a),
        tx_encodable(b),
        encode_tx(a) == encode_tx(b),
    ensures
        a == b,
{
    lemma_auto_spec_u64_to_from_le_bytes();
    let fa = encode_utf8(a.from);
    let fb = encode_utf8(b.from);
    let ta = encode_utf8(a.to);
    let tb = encode_utf8(b.to);
    let resta = fa + (len_prefix(ta.len()) + (ta + (spec_u64_to_le_bytes(a.amount)
        + a.recent_block_hash)));
    let restb = fb + (len_prefix(tb.len()) + (tb + (spec_u64_to_le_bytes(b.amount)
        + b.recent_block_hash)));
    lemma_concat_split(len_prefix(fa.len()), resta, len_prefix(fb.len()), restb);
    lemma_len_prefix_injective(fa.len(), fb.len());
    let resta2 = len_prefix(ta.len()) + (ta + (spec_u64_to_le_bytes(a.amount)
        + a.recent_block_hash));
    let restb2 = len_prefix(tb.len()) + (tb + (spec_u64_to_le_bytes(b.amount)
        + b.recent_block_hash));
    lemma_concat_split(fa, resta2, fb, restb2);
    encode_utf8_decode_utf8(a.from);
    encode_utf8_decode_utf8(b.from);
    encode_utf8_decode_utf8(a.to);
    encode_utf8_decode_utf8(b.to);
    assert(a.from == b.from);
    let resta3 = ta + (spec_u64_to_le_bytes(a.amount) + a.recent_block_hash);
    let restb3 = tb + (spec_u64_to_le_bytes(b.amount) + b.recent_block_hash);
    lemma_concat_split(len_prefix(ta.len()), resta3, len_prefix(tb.len()), restb3);
    lemma_len_prefix_injective(ta.len(), tb.len());
    lemma_concat_split(ta, spec_u64_to_le_bytes(a.amount) + a.recent_block_hash, tb,
        spec_u64_to_le_bytes(b.amount) + b.recent_block_hash);
    assert(a.to == b.to);
    lemma_concat_split(spec_u64_to_le_bytes(a.amount), a.recent_block_hash,
        spec_u64_to_le_bytes(b.amount), b.recent_block_hash);
    assert(spec_u64_from_le_bytes(spec_u64_to_le_bytes(a.amount)) == a.amount);
    assert(spec_u64_from_le_bytes(spec_u64_to_le_bytes(b.amount)) == b.amount);
}

/// A transaction's serialization carries its own length in its first
/// bytes: two serializations that agree wherever both are defined have the
/// same length.
proof fn lemma_encode_prefix_same_len(a: TxView, b: TxView)
    requires
        tx_encodable(a),
        tx_encodable(b),
        forall|i: int|
            0 <= i < encode_tx(a).len() && i < encode_tx(b).len() ==> encode_tx(a)[i] == encode_tx(
                b,
            )[i],
    ensures
        encode_tx(a).len() == encode_tx(b).len(),
{
    lemma_auto_spec_u64_to_from_le_bytes();
    let ea = encode_tx(a);
    let eb = encode_tx(b);
    let fa = encode_utf8(a.from);
    let fb = encode_utf8(b.from);
    let ta = encode_utf8(a.to);
    let tb = encode_utf8(b.to);
    assert(ea.len() == 56 + fa.len() + ta.len());
    assert(eb.len() == 56 + fb.len() + tb.len());
    assert(ea.subrange(0, 8) =~= len_prefix(fa.len()));
    assert(eb.subrange(0, 8) =~= len_prefix(fb.len()));
    assert(ea.subrange(0, 8) =~= eb.subrange(0, 8));
    lemma_len_prefix_injective(fa.len(), fb.len());
    let l = fa.len() as int;
    assert(ea.subrange(8 + l, 16 + l) =~= len_prefix(ta.len()));
    assert(eb.subrange(8 + l, 16 + l) =~= len_prefix(tb.len()));
    assert(ea.subrange(8 + l, 16 + l) =~= eb.subrange(8 + l, 16 + l));
    lemma_len_prefix_injective(ta.len(), tb.len());
}

/// A two-transaction batch serializes to the two serializations in order.
proof fn lemma_encode_txs_pair(a: TxView, b: TxView)
    ensures
        encode_txs(seq![a, b]) == encode_tx(a) + encode_tx(b),
{
    let s = seq![a, b];
    assert(s.len() == 2);
    assert(s[0] == a);
    assert(s.drop_first() =~= seq![b]);
    let s1 = seq![b];
    assert(s1.len() == 1);
    assert(s1[0] == b);
    assert(s1.drop_first() =~= Seq::<TxView>::empty());
    assert(encode_txs(Seq::<TxView>::empty()) == Seq::<u8>::empty());
    assert(encode_txs(s1) == encode_tx(b) + Seq::<u8>::empty());
    assert(encode_tx(b) + Seq::<u8>::empty() =~= encode_tx(b));
    assert(encode_txs(s) == encode_tx(a) + encode_txs(s1));
}

/// Order sensitivity: swapping two distinct transactions in a batch
/// changes the canonical serialization, and with it the byte string the
/// chain folds in at slot close.
pub proof fn lemma_batch_order_sensitive(a: TxView, b: TxView)
    requires
        tx_encodable(a),
        tx_encodable(b),
        a != b,
    ensures
        encode_batch(seq![a, b]) != encode_batch(seq![b, a]),
{
    let ea = encode_tx(a);
    let eb = encode_tx(b);
    assert(encode_txs(seq![a, b]) == ea + eb) by {
        lemma_encode_txs_pair(a, b);
    }
    assert(encode_txs(seq![b, a]) == eb + ea) by {
        lemma_encode_txs_pair(b, a);
    }
    if encode_batch(seq![a, b]) == encode_batch(seq![b, a]) {
        lemma_concat_split(len_prefix(2), ea + eb, len_prefix(2), eb + ea);
        assert forall|i: int| 0 <= i < ea.len() && i < eb.len() implies ea[i] == eb[i] by {
            assert((ea + eb)[i] == ea[i]);
            assert((eb + ea)[i] == eb[i]);
        }
        lemma_encode_prefix_same_len(a, b);
        lemma_concat_split(ea, eb, eb, ea);
        lemma_encode_tx_injective(a, b);
        assert(false);
    }
}

} // verus!
