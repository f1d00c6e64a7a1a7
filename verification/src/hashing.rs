//! The cryptographic digest behind the hash chain.
//!
//! Every chain step feeds one byte string into blake3 and reads a 32-byte
//! extendable-output digest.  The digest itself is opaque: the rest of the
//! library reasons about it only through the name `blake3_xof32`.

use vstd::prelude::*;

verus! {

/// The 32-byte extendable-output digest that blake3 computes for a byte
/// string.  The result depends on the input bytes alone.
pub uninterp spec fn blake3_xof32(input: Seq<u8>) -> Seq<u8>;

/// Relies on blake3's `Hasher`: hashing a byte string and reading 32 bytes
/// of extendable output is a deterministic function of the input bytes, and
/// fills exactly the 32 bytes asked for.
#[verifier::external_body]
pub fn hash_bytes(input: &Vec<u8>) -> (r: Vec<u8>)
    ensures
        r@ == blake3_xof32(input@),
        r@.len() == 32,
{
    let mut hasher = blake3::Hasher::new();
    hasher.update(input.as_slice());
    let mut out = [0u8; 32];
    hasher.finalize_xof().fill(&mut out);
    out.to_vec()
}

} // verus!
