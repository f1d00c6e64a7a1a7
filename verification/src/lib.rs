//! A tamper-evident ledger built on a proof-of-history hash chain.
//!
//! A hash-chain engine advances a cryptographic digest one counter step at
//! a time, optionally folding event bytes into each step.  A slot sequencer
//! batches transactions into immutable, sequentially numbered slots, each
//! bound to the chain state at open and close.  A historical verifier
//! replays the canonical serialization of committed batches against the
//! chain algorithm to confirm that no slot was inserted, removed, altered
//! or reordered.

use vstd::prelude::*;

mod hashing;
pub mod codec;
pub mod ledger;
pub mod poh;

verus! {

/// Copies a byte vector element by element.
pub fn copy_bytes(v: &Vec<u8>) -> (r: Vec<u8>)
    ensures
        r@ == v@,
{
    let mut r: Vec<u8> = Vec::new();
    let mut i: usize = 0;
    while i < v.len()
        invariant
            i <= v.len(),
            r@ == v@.subrange(0, i as int),
        decreases v.len() - i,
    {
        r.push(v[i]);
        i = i + 1;
    }
    assert(r@ == v@);
    r
}

} // verus!
