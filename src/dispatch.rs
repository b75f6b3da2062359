use crate::engine::{limb_or_zero, shr_limbs};
use crate::wide::{lemma_value_from_drop, limbs_value, value_from, WideUint};
use vstd::arithmetic::div_mod::lemma_div_denominator;
use vstd::arithmetic::power2::{lemma2_to64, lemma_pow2_adds, lemma_pow2_pos, pow2};
use vstd::prelude::*;

verus! {

/// A sequence whose limb `i` is limb `i + k` of `l` (zero past the top) has,
/// from every index `j`, the value of `l` from `j + k`.
proof fn lemma_moved_limbs_value(l: Seq<u64>, r: Seq<u64>, k: nat, j: nat)
    requires
        r.len() == l.len(),
        j <= l.len(),
        forall|i: int| 0 <= i < l.len() ==> r[i] == #[trigger] limb_or_zero(l, i + k),
    ensures
        value_from(r, j) == value_from(l, j + k),
    decreases l.len() - j,
{
    if j < l.len() {
        lemma_moved_limbs_value(l, r, k, j + 1);
        assert(r[j as int] == limb_or_zero(l, (j + k) as int));
        assert(j + 1 + k == j + k + 1);
        assert(value_from(r, j) == r[j as int] + pow2(64) * value_from(r, j + 1));
        if j + k >= l.len() {
            assert(value_from(l, j + k + 1) == 0);
            assert(value_from(l, j + k) == 0);
            assert(r[j as int] == 0);
            assert(pow2(64) * 0 == 0);
        } else {
            assert(value_from(l, j + k) == l[(j + k) as int] + pow2(64) * value_from(l, j + k + 1));
        }
    } else {
        assert(value_from(l, j + k) == 0);
    }
}

/// Shifts the limbs right by `words` whole limbs, filling the top with zeros.
pub fn shr_words<const LIMBS: usize>(limbs: &[u64; LIMBS], words: usize) -> (r: [u64; LIMBS])
    requires
        words <= LIMBS,
    ensures
        limbs_value(r@) == limbs_value(limbs@) / pow2(64 * words as nat),
        forall|i: int| 0 <= i < LIMBS ==> r[i] == #[trigger] limb_or_zero(limbs@, i + words),
{
    let mut out: [u64; LIMBS] = [0u64; LIMBS];
    let mut i: usize = 0;
    while i < LIMBS
        invariant
            words <= LIMBS,
            i <= LIMBS,
            forall|j: int| 0 <= j < i ==> out[j] == #[trigger] limb_or_zero(limbs@, j + words),
            forall|j: int| i <= j < LIMBS ==> out[j] == 0,
        decreases LIMBS - i,
    {
        if i < LIMBS - words {
            out[i] = limbs[i + words];
        }
        i += 1;
    }
    proof {
        lemma_moved_limbs_value(limbs@, out@, words as nat, 0);
        lemma_value_from_drop(limbs@, 0, words as nat);
    }
    out
}

/// Shifts `val` right by `shift` bits, filling the vacated top bits with
/// zeros.
///
/// The whole-limb part of the shift moves limbs down; the part below the
/// limb width goes through the carrying limb engine.
pub fn shr<const LIMBS: usize>(val: &WideUint<LIMBS>, shift: u32) -> (r: WideUint<LIMBS>)
    requires
        shift < 64 * LIMBS,
    ensures
        r@ == val@ / pow2(shift as nat),
        shift == 0 ==> r == *val,
        val@ == 0 ==> r@ == 0,
{
    let words = (shift / 64) as usize;
    let bits = shift % 64;
    assert(words <= LIMBS) by (nonlinear_arith)
        requires
            words == shift / 64,
            shift < 64 * LIMBS,
    ;
    let moved = shr_words(&val.limbs, words);
    let limbs = shr_limbs(&moved, bits);
    proof {
        let x = limbs_value(val.limbs@);
        lemma_pow2_pos(64 * words as nat);
        lemma_pow2_pos(bits as nat);
        lemma_div_denominator(x as int, pow2(64 * words as nat) as int, pow2(bits as nat) as int);
        lemma_pow2_adds(64 * words as nat, bits as nat);
        assert(64 * words + bits == shift);
        if shift == 0 {
            assert forall|i: int| 0 <= i < LIMBS implies moved@[i] == val.limbs@[i] by {
                assert(moved[i] == limb_or_zero(val.limbs@, i + words));
            }
            assert(moved@ =~= val.limbs@);
            assert(limbs =~= val.limbs);
        }
        if x == 0 {
            lemma_pow2_pos(shift as nat);
            assert(0nat / pow2(shift as nat) == 0) by (nonlinear_arith)
                requires
                    pow2(shift as nat) > 0,
            ;
        }
    }
    WideUint { limbs }
}

} // verus!
