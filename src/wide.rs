use vstd::arithmetic::div_mod::{lemma_div_denominator, lemma_fundamental_div_mod_converse};
use vstd::arithmetic::power2::{lemma2_to64, lemma_pow2_adds, lemma_pow2_pos, pow2};
use vstd::prelude::*;

verus! {

/// The value of the limbs of `s` from index `i` upward, least significant
/// limb first.
pub open spec fn value_from(s: Seq<u64>, i: nat) -> nat
    decreases s.len() - i,
{
    if i >= s.len() {
        0
    } else {
        s[i as int] as nat + pow2(64) * value_from(s, i + 1)
    }
}

/// The unsigned value that a little-endian limb sequence stands for.
pub open spec fn limbs_value(s: Seq<u64>) -> nat {
    value_from(s, 0)
}

/// A fixed-width unsigned integer of `LIMBS` 64-bit limbs, least
/// significant limb first.
#[derive(Clone, Copy, Debug, PartialEq, Eq)]
pub struct WideUint<const LIMBS: usize> {
    pub limbs: [u64; LIMBS],
}

impl<const LIMBS: usize> View for WideUint<LIMBS> {
    type V = nat;

    open spec fn view(&self) -> nat {
        limbs_value(self.limbs@)
    }
}

impl<const LIMBS: usize> WideUint<LIMBS> {
    /// The value zero: every limb is zero.
    pub fn zero() -> (r: Self)
        ensures
            forall|i: int| 0 <= i < LIMBS ==> r.limbs[i] == 0,
            r@ == 0,
    {
        let r = WideUint { limbs: [0u64; LIMBS] };
        proof {
            lemma_zero_limbs_value(r.limbs@, 0);
        }
        r
    }
}

/// Limbs that are all zero from `i` upward have value zero there.
pub proof fn lemma_zero_limbs_value(s: Seq<u64>, i: nat)
    requires
        i <= s.len(),
        forall|j: int| i <= j < s.len() ==> s[j] == 0,
    ensures
        value_from(s, i) == 0,
    decreases s.len() - i,
{
    if i < s.len() {
        lemma_zero_limbs_value(s, i + 1);
        assert(pow2(64) * 0 == 0);
    }
}

/// A limb is below the limb base.
pub proof fn lemma_limb_bound(x: u64)
    ensures
        (x as nat) < pow2(64),
{
    lemma2_to64();
}

/// The limbs from `i` upward hold fewer than `64 * (len - i)` bits.
pub proof fn lemma_value_from_bound(s: Seq<u64>, i: nat)
    requires
        i <= s.len(),
    ensures
        value_from(s, i) < pow2(64 * (s.len() - i) as nat),
    decreases s.len() - i,
{
    if i == s.len() {
        lemma_pow2_pos(0);
    } else {
        lemma_value_from_bound(s, i + 1);
        lemma_limb_bound(s[i as int]);
        let rest = value_from(s, i + 1);
        let p = pow2(64 * (s.len() - i - 1) as nat);
        lemma_pow2_adds(64, 64 * (s.len() - i - 1) as nat);
        assert(64 + 64 * (s.len() - i - 1) == 64 * (s.len() - i));
        assert(s[i as int] as nat + pow2(64) * rest < pow2(64) * p) by (nonlinear_arith)
            requires
                (s[i as int] as nat) < pow2(64),
                rest < p,
        ;
    }
}

/// Dropping the `k - i` limbs below index `k` divides the value by
/// `2^(64 * (k - i))`.
pub proof fn lemma_value_from_drop(s: Seq<u64>, i: nat, k: nat)
    requires
        i <= k <= s.len(),
    ensures
        value_from(s, i) / pow2(64 * (k - i) as nat) == value_from(s, k),
    decreases k - i,
{
    if i == k {
        lemma2_to64();
        assert(64 * (k - i) as nat == 0);
        assert(value_from(s, i) / 1 == value_from(s, i));
    } else {
        lemma_value_from_drop(s, i + 1, k);
        lemma_limb_bound(s[i as int]);
        lemma_pow2_pos(64);
        lemma_pow2_pos(64 * (k - i - 1) as nat);
        let b = pow2(64);
        let p = pow2(64 * (k - i - 1) as nat);
        let v = value_from(s, i + 1);
        let x = value_from(s, i);
        assert(x == v * b + s[i as int]) by (nonlinear_arith)
            requires
                x == s[i as int] as nat + b * v,
        ;
        lemma_fundamental_div_mod_converse(x as int, b as int, v as int, s[i as int] as int);
        lemma_div_denominator(x as int, b as int, p as int);
        lemma_pow2_adds(64, 64 * (k - i - 1) as nat);
        assert(64 + 64 * (k - i - 1) == 64 * (k - i));
        assert(pow2(64 * (k - i) as nat) == b * p);
        assert(x / b == v);
    }
}

/// Two limb sequences of one length with the same value from `i` upward
/// hold the same limbs there.
pub proof fn lemma_value_from_injective(a: Seq<u64>, b: Seq<u64>, i: nat)
    requires
        a.len() == b.len(),
        i <= a.len(),
        value_from(a, i) == value_from(b, i),
    ensures
        forall|j: int| i <= j < a.len() ==> a[j] == b[j],
    decreases a.len() - i,
{
    if i < a.len() {
        lemma_limb_bound(a[i as int]);
        lemma_limb_bound(b[i as int]);
        let x = value_from(a, i) as int;
        let base = pow2(64) as int;
        let va = value_from(a, i + 1) as int;
        let vb = value_from(b, i + 1) as int;
        assert(x == va * base + a[i as int] && x == vb * base + b[i as int]) by (nonlinear_arith)
            requires
                x == a[i as int] + base * va,
                x == b[i as int] + base * vb,
        ;
        lemma_fundamental_div_mod_converse(x, base, va, a[i as int] as int);
        lemma_fundamental_div_mod_converse(x, base, vb, b[i as int] as int);
        lemma_value_from_injective(a, b, i + 1);
    }
}

/// The value of a limb sequence determines its limbs, for a fixed length.
pub proof fn lemma_value_determines_limbs(a: Seq<u64>, b: Seq<u64>)
    requires
        a.len() == b.len(),
        limbs_value(a) == limbs_value(b),
    ensures
        a == b,
{
    lemma_value_from_injective(a, b, 0);
    assert(a =~= b);
}

} // verus!
