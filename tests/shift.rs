use crypto_bigint::Uint;
use limb_shift::{shr, shr_limbs, shr_portable, shr_words, WideUint};

fn wide<const L: usize>(n: Uint<L>) -> WideUint<L> {
    WideUint { limbs: n.to_words() }
}

/// A small deterministic generator for spread-out limb values.
fn next(state: &mut u64) -> u64 {
    *state = state
        .wrapping_mul(6364136223846793005)
        .wrapping_add(1442695040888963407);
    *state ^ (*state >> 29)
}

fn sample<const L: usize>(state: &mut u64) -> WideUint<L> {
    let mut limbs = [0u64; L];
    for limb in limbs.iter_mut() {
        *limb = next(state);
    }
    WideUint { limbs }
}

fn paths_agree_for<const L: usize>(seed: u64) {
    let mut state = seed;
    for _ in 0..20 {
        let v = sample::<L>(&mut state);
        for amount in 0..(64 * L as u32) {
            assert_eq!(shr(&v, amount), shr_portable(&v, amount), "amount {}", amount);
        }
    }
}

#[test]
fn test_shr() {
    let num = wide(Uint::<4>::from(0x123456789ABCDEF0u128));
    let shifted = shr(&num, 4);
    assert_eq!(shifted, wide(Uint::<4>::from(0x0123456789ABCDEF0u128 >> 4)));
}

#[test]
fn test_shr_zero() {
    let num = wide(Uint::<4>::from(0u128));
    let shifted = shr(&num, 4);
    assert_eq!(shifted, WideUint::<4>::zero());
}

#[test]
fn paths_agree_one_limb() {
    paths_agree_for::<1>(1);
}

#[test]
fn paths_agree_two_limbs() {
    paths_agree_for::<2>(2);
}

#[test]
fn paths_agree_four_limbs() {
    paths_agree_for::<4>(3);
}

#[test]
fn paths_agree_seven_limbs() {
    paths_agree_for::<7>(4);
}

#[test]
fn zero_shift_is_identity() {
    let mut state = 11;
    for _ in 0..50 {
        let v = sample::<4>(&mut state);
        assert_eq!(shr(&v, 0), v);
        assert_eq!(shr_portable(&v, 0), v);
    }
}

#[test]
fn zero_value_stays_zero() {
    let zero = WideUint::<4>::zero();
    assert_eq!(zero.limbs, [0u64; 4]);
    for amount in 0..256 {
        assert_eq!(shr(&zero, amount), zero);
    }
}

#[test]
fn longer_shift_gives_smaller_value() {
    let mut state = 21;
    for _ in 0..10 {
        let v = sample::<3>(&mut state);
        for amount in 1..192 {
            let less = Uint::<3>::from_words(shr(&v, amount - 1).limbs);
            let more = Uint::<3>::from_words(shr(&v, amount).limbs);
            assert!(less >= more);
        }
    }
}

#[test]
fn carry_fills_lower_limb_top_from_higher_limb_bottom() {
    // Low bits of limb 1 are zero, top bits of limb 0 are set: after the
    // shift, the top of limb 0 takes limb 1's zero bottom bits.
    let v = WideUint::<4> { limbs: [0xF000_0000_0000_0000, 0xAB00, 0, 0] };
    assert_eq!(shr(&v, 8).limbs, [0x00F0_0000_0000_0000, 0xAB, 0, 0]);
    // Set low bits of limb 1 move into the top of limb 0.
    let w = WideUint::<4> { limbs: [0, 0xFF, 0, 0] };
    assert_eq!(shr(&w, 4).limbs, [0xF000_0000_0000_0000, 0xF, 0, 0]);
    assert_eq!(shr(&w, 4), shr_portable(&w, 4));
}

#[test]
fn shift_across_whole_limbs() {
    let v = WideUint::<4> { limbs: [1, 2, 3, 0x8000_0000_0000_0000] };
    assert_eq!(shr(&v, 64).limbs, [2, 3, 0x8000_0000_0000_0000, 0]);
    assert_eq!(shr(&v, 128).limbs, [3, 0x8000_0000_0000_0000, 0, 0]);
    assert_eq!(shr(&v, 255).limbs, [1, 0, 0, 0]);
    assert_eq!(shr(&v, 65).limbs, [0x8000_0000_0000_0001, 1, 0x4000_0000_0000_0000, 0]);
}

#[test]
fn single_limb_largest_shift() {
    let v = WideUint::<1> { limbs: [u64::MAX] };
    assert_eq!(shr(&v, 63).limbs, [1]);
    assert_eq!(shr_portable(&v, 63).limbs, [1]);
}

#[test]
fn engine_shifts_within_a_limb() {
    let limbs = [0x0123_4567_89AB_CDEF, 0xFEDC_BA98_7654_3210];
    assert_eq!(shr_limbs(&limbs, 0), limbs);
    assert_eq!(shr_limbs(&limbs, 4), [0x0012_3456_789A_BCDE, 0x0FED_CBA9_8765_4321]);
    assert_eq!(shr_limbs(&limbs, 63), [0xFDB9_7530_ECA8_6420, 1]);
}

#[test]
fn word_move_drops_low_limbs() {
    let limbs = [5u64, 6, 7];
    assert_eq!(shr_words(&limbs, 0), [5, 6, 7]);
    assert_eq!(shr_words(&limbs, 1), [6, 7, 0]);
    assert_eq!(shr_words(&limbs, 3), [0, 0, 0]);
}

#[test]
fn portable_path_shifts() {
    let v = WideUint::<2> { limbs: [0, 1] };
    assert_eq!(shr_portable(&v, 1).limbs, [0x8000_0000_0000_0000, 0]);
    assert_eq!(shr_portable(&v, 64).limbs, [1, 0]);
}
