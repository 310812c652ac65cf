//! Secret-key generation.

use vstd::prelude::*;

use crate::text::{hex_encode, hex_of, is_lower_hex, lemma_hex_of_shape};

verus! {

/// Relies on rand::rng and Rng::sample_iter over `StandardUniform`: taking `n`
/// draws gives `n` bytes.
#[verifier::external_body]
fn random_bytes(n: usize) -> (r: Vec<u8>)
    ensures
        r@.len() == n,
{
    rand::Rng::sample_iter(rand::rng(), rand::distr::StandardUniform).take(n).collect()
}

/// A fresh secret: `length` random bytes written as lowercase hexadecimal.
pub fn generate_hex_key(length: usize) -> (r: String)
    requires
        length <= usize::MAX / 2,
    ensures
        exists|b: Seq<u8>| b.len() == length && r@ == hex_of(b),
        r@.len() == 2 * length,
        is_lower_hex(r@),
{
    let bytes = random_bytes(length);
    let key = hex_encode(&bytes);
    proof {
        lemma_hex_of_shape(bytes@);
    }
    key
}

} // verus!
