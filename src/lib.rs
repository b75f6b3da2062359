//! Logical right shift of fixed-width multi-limb unsigned integers.
//!
//! A value is held as `LIMBS` 64-bit limbs, least significant first. The
//! shift is computed by a verified limb engine; a second path hands the
//! same work to `crypto_bigint`, and both are proved to agree.

mod dispatch;
mod engine;
mod laws;
mod portable;
mod wide;

pub use dispatch::{shr, shr_words};
pub use engine::{limb_or_zero, shr_limbs};
pub use laws::{lemma_paths_agree, lemma_shift_monotonic};
pub use portable::shr_portable;
pub use wide::{limbs_value, value_from, WideUint};
