use crate::wide::{limbs_value, value_from};
use vstd::arithmetic::div_mod::{lemma_fundamental_div_mod, lemma_fundamental_div_mod_converse};
use vstd::arithmetic::power2::{lemma2_to64, lemma_pow2_adds, lemma_pow2_pos, pow2};
use vstd::bits::{
    lemma_u64_low_bits_mask_is_mod, lemma_u64_pow2_no_overflow, lemma_u64_shl_is_mul, lemma_u64_shr_is_div};
use vstd::prelude::*;

verus! {

/// The limb at index `i`, or zero above the top limb.
pub open spec fn limb_or_zero(l: Seq<u64>, i: int) -> u64 {
    if 0 <= i < l.len() {
        l[i]
    } else {
        0
    }
}

/// Limb `j` of `l` shifted right by `s` bits (`0 < s < 64`), its vacated top
/// filled with the low `s` bits of limb `j + 1`.
spec fn shifted_limb(l: Seq<u64>, j: int, s: u64) -> u64 {
    (l[j] >> s) | (limb_or_zero(l, j + 1) << ((64 - s) as u64))
}

/// Joining the kept high bits of `lo` with the low `s` bits of `hi` is a
/// sum of disjoint parts.
proof fn lemma_joined_limb(lo: u64, hi: u64, s: u64)
    requires
        0 < s < 64,
    ensures
        ((lo >> s) | (hi << ((64 - s) as u64))) as nat == lo as nat / pow2(s as nat) + (hi as nat
            % pow2(s as nat)) * pow2((64 - s) as nat),
{
    let t = (64 - s) as u64;
    lemma_u64_pow2_no_overflow(s as nat);
    lemma_u64_shl_is_mul(1, s);
    let mask = (pow2(s as nat) - 1) as u64;
    assert((lo >> s) | (hi << t) == (lo >> s) + ((hi & mask) << t)) by (bit_vector)
        requires
            0 < s < 64,
            t == 64 - s,
            mask + 1 == (1u64 << s),
    ;
    lemma_u64_low_bits_mask_is_mod(hi, s as nat);
    let m = hi & mask;
    assert(m as nat == hi as nat % pow2(s as nat));
    lemma_u64_shr_is_div(lo, s);
    lemma_pow2_adds(s as nat, t as nat);
    lemma2_to64();
    lemma_pow2_pos(t as nat);
    assert(m * pow2(t as nat) <= u64::MAX) by (nonlinear_arith)
        requires
            m < pow2(s as nat),
            pow2(s as nat) * pow2(t as nat) == 0x1_0000_0000_0000_0000,
            pow2(t as nat) > 0,
    ;
    lemma_u64_shl_is_mul(m, t);
}

/// A limb sequence whose limbs are the shifted limbs of `l` has the value of
/// `l` divided by `2^s`, from every index upward.
proof fn lemma_shifted_limbs_value(l: Seq<u64>, r: Seq<u64>, s: u64, j: nat)
    requires
        0 < s < 64,
        r.len() == l.len(),
        j <= l.len(),
        forall|i: int| 0 <= i < l.len() ==> r[i] == #[trigger] shifted_limb(l, i, s),
    ensures
        value_from(r, j) == value_from(l, j) / pow2(s as nat),
    decreases l.len() - j,
{
    let p = pow2(s as nat);
    let q = pow2((64 - s) as nat);
    lemma_pow2_pos(s as nat);
    lemma_pow2_pos((64 - s) as nat);
    lemma_pow2_adds(s as nat, (64 - s) as nat);
    let b = pow2(64);
    assert(b == p * q);
    if j == l.len() {
        assert(0nat / p == 0) by (nonlinear_arith)
            requires
                p > 0,
        ;
    } else {
        lemma_shifted_limbs_value(l, r, s, j + 1);
        let a = l[j as int] as nat;
        let v = value_from(l, j + 1);
        let hi = limb_or_zero(l, j + 1 as int);
        lemma_fundamental_div_mod(hi as int, p as int);
        lemma_fundamental_div_mod(a as int, p as int);
        lemma_fundamental_div_mod(v as int, p as int);
        // The low `s` bits of the value above `j` are those of limb `j + 1`.
        if j + 1 < l.len() {
            let w = value_from(l, j + 2);
            assert(v == (hi as nat % p) + p * ((hi as nat / p) + q * w)) by (nonlinear_arith)
                requires
                    v == hi as nat + b * w,
                    b == p * q,
                    hi as nat == p * (hi as nat / p) + hi as nat % p,
                    p > 0,
            ;
            lemma_fundamental_div_mod_converse(
                v as int,
                p as int,
                ((hi as nat / p) + q * w) as int,
                (hi as nat % p) as int,
            );
        } else {
            assert(v == 0);
            assert(hi == 0);
            assert(0nat % p == 0) by (nonlinear_arith)
                requires
                    p > 0,
            ;
        }
        let m = v % p;
        assert(m == hi as nat % p);
        lemma_joined_limb(l[j as int], hi, s);
        assert(r[j as int] == shifted_limb(l, j as int, s));
        assert(r[j as int] as nat == a / p + m * q);
        let x = value_from(l, j);
        assert(x == a + b * v);
        assert(x == (a / p + m * q + b * (v / p)) * p + a % p) by (nonlinear_arith)
            requires
                x == a + b * v,
                b == p * q,
                a == p * (a / p) + a % p,
                v == p * (v / p) + m,
                p > 0,
        ;
        assert(a % p < p) by (nonlinear_arith)
            requires
                p > 0,
        ;
        lemma_fundamental_div_mod_converse(
            x as int,
            p as int,
            (a / p + m * q + b * (v / p)) as int,
            (a % p) as int,
        );
    }
}

/// Shifts the limbs right by `shift` bits, `shift` below the limb width.
///
/// Walks from the most significant limb down; the bits that fall out of the
/// bottom of each limb are carried into the top of the limb below it. A
/// shift of zero copies the limbs, so the carry never needs a full-width
/// shift.
pub fn shr_limbs<const LIMBS: usize>(limbs: &[u64; LIMBS], shift: u32) -> (r: [u64; LIMBS])
    requires
        shift < 64,
    ensures
        limbs_value(r@) == limbs_value(limbs@) / pow2(shift as nat),
        shift == 0 ==> r@ == limbs@,
{
    if shift == 0 {
        proof {
            lemma2_to64();
            assert(limbs_value(limbs@) / 1 == limbs_value(limbs@));
        }
        return *limbs;
    }
    let s: u64 = shift as u64;
    let mut out: [u64; LIMBS] = [0u64; LIMBS];
    let mut carry: u64 = 0;
    let mut i: usize = LIMBS;
    proof {
        let t = (64 - s) as u64;
        assert(0u64 << t == 0) by (bit_vector);
    }
    while i > 0
        invariant
            i <= LIMBS,
            0 < s < 64,
            carry == limb_or_zero(limbs@, i as int) << ((64 - s) as u64),
            forall|j: int| i <= j < LIMBS ==> out[j] == #[trigger] shifted_limb(limbs@, j, s),
        decreases i,
    {
        i -= 1;
        let limb = limbs[i];
        out[i] = (limb >> s) | carry;
        carry = limb << (64 - s);
    }
    proof {
        lemma_shifted_limbs_value(limbs@, out@, s, 0);
    }
    out
}

} // verus!
