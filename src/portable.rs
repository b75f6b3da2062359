use crate::wide::{limbs_value, WideUint};
use vstd::arithmetic::power2::pow2;
use vstd::prelude::*;

verus! {

/// Relies on `crypto_bigint::Uint::shr`, which computes `self >> shift` and
/// panics only when `shift >= Uint::<LIMBS>::BITS` (that is `64 * LIMBS`
/// where a word is 64 bits). `Uint::from_words` and `Uint::to_words` only
/// move the words in and out, least significant first.
#[verifier::external_body]
fn uint_shr<const LIMBS: usize>(words: [u64; LIMBS], shift: u32) -> (r: [u64; LIMBS])
    requires
        shift < 64 * LIMBS,
        64 * LIMBS <= u32::MAX,
    ensures
        limbs_value(r@) == limbs_value(words@) / pow2(shift as nat),
{
    crypto_bigint::Uint::<LIMBS>::from_words(words).shr(shift).to_words()
}

/// Shifts `val` right by `shift` bits through `crypto_bigint`'s own shift,
/// the reference that the limb engine is held to.
///
/// `crypto_bigint` counts the width of its integers in a `u32`, hence the
/// bound on `LIMBS`.
pub fn shr_portable<const LIMBS: usize>(val: &WideUint<LIMBS>, shift: u32) -> (r: WideUint<LIMBS>)
    requires
        shift < 64 * LIMBS,
        64 * LIMBS <= u32::MAX,
    ensures
        r@ == val@ / pow2(shift as nat),
{
    WideUint { limbs: uint_shr(val.limbs, shift) }
}

} // verus!
