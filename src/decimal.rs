//! Exact fixed-point ratios with eighteen fractional digits, and the rounded
//! products of an amount with such a ratio.
use vstd::prelude::*;

verus! {

/// The number of atomic units in one whole: a ratio holds `atomics / ONE_ATOMICS`.
pub const ONE_ATOMICS: u128 = 1_000_000_000_000_000_000;

/// Atomic units in one basis point (one ten-thousandth).
pub const BPS_ATOMICS: u128 = 100_000_000_000_000;

/// A non-negative rational number with eighteen fractional decimal digits.
#[derive(Clone, Copy, Debug, PartialEq, Eq)]
pub struct Ratio {
    pub atomics: u128,
}

/// `value * ratio`, rounded down, as an unbounded natural number.
pub open spec fn mul_floor_spec(value: nat, ratio: Ratio) -> nat {
    ((value * ratio.atomics) / (ONE_ATOMICS as int)) as nat
}

impl Ratio {
    /// The ratio `atomics / 10^18`.
    pub fn new(atomics: u128) -> (r: Ratio)
        ensures
            r.atomics == atomics,
    {
        Ratio { atomics }
    }

    /// The ratio `bps / 10000`.
    pub fn bps(bps: u64) -> (r: Ratio)
        ensures
            r.atomics == bps * BPS_ATOMICS,
    {
        Ratio { atomics: bps_atomics(bps) }
    }
}

/// Relies on `cosmwasm_std::Decimal::bps` and `Decimal::atomics`: a number of
/// basis points becomes `bps * 10^14` atomic units.
#[verifier::external_body]
fn bps_atomics(bps: u64) -> (r: u128)
    ensures
        r == bps * BPS_ATOMICS,
{
    cosmwasm_std::Decimal::bps(bps).atomics().u128()
}

/// Relies on `cosmwasm_std::Uint128::checked_mul_floor` with a `Decimal`: the
/// product of `value` and `atomics / 10^18`, rounded down, or an error when it
/// does not fit in 128 bits (the denominator `10^18` is never zero).
#[verifier::external_body]
pub(crate) fn mul_floor(value: u128, ratio: Ratio) -> (r: Option<u128>)
    ensures
        r == (if mul_floor_spec(value as nat, ratio) <= u128::MAX {
            Some(mul_floor_spec(value as nat, ratio) as u128)
        } else {
            None::<u128>
        }),
{
    cosmwasm_std::Uint128::new(value)
        .checked_mul_floor(cosmwasm_std::Decimal::raw(ratio.atomics))
        .ok()
        .map(|v| v.u128())
}

} // verus!
