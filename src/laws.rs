use crate::wide::{lemma_value_determines_limbs, WideUint};
use vstd::arithmetic::div_mod::lemma_div_is_ordered_by_denominator;
use vstd::arithmetic::power2::{lemma_pow2_pos, lemma_pow2_strictly_increases, pow2};
use vstd::prelude::*;

verus! {

/// The two shift paths agree limb for limb: two values of one width that
/// both equal `v` shifted right by `amount` hold the same limbs. The limb
/// engine behind `shr` and `crypto_bigint` behind `shr_portable` each
/// produce such a value.
pub proof fn lemma_paths_agree<const LIMBS: usize>(
    v: WideUint<LIMBS>,
    amount: nat,
    fast: WideUint<LIMBS>,
    portable: WideUint<LIMBS>,
)
    requires
        amount < 64 * LIMBS,
        fast@ == v@ / pow2(amount),
        portable@ == v@ / pow2(amount),
    ensures
        fast == portable,
{
    lemma_value_determines_limbs(fast.limbs@, portable.limbs@);
    assert(fast.limbs =~= portable.limbs);
}

/// Shifting further never gives a larger value: for `a1 < a2`, `v` shifted
/// right by `a1` is at least `v` shifted right by `a2`.
pub proof fn lemma_shift_monotonic<const LIMBS: usize>(v: WideUint<LIMBS>, a1: nat, a2: nat)
    requires
        a1 < a2 < 64 * LIMBS,
    ensures
        v@ / pow2(a1) >= v@ / pow2(a2),
{
    lemma_pow2_pos(a1);
    lemma_pow2_strictly_increases(a1, a2);
    lemma_div_is_ordered_by_denominator(v@ as int, pow2(a1) as int, pow2(a2) as int);
}

} // verus!
