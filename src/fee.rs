//! The fee policy: a protocol fee and a subject fee, each a fixed fraction of
//! a trade's price, rounded down.
use vstd::prelude::*;

use crate::decimal::{mul_floor, mul_floor_spec, ONE_ATOMICS};
use crate::state::Config;

verus! {

/// The protocol's fee on a trade at `price`.
pub open spec fn protocol_fee_of(price: nat, config: Config) -> nat {
    mul_floor_spec(price, config.protocol_fee_percent)
}

/// The subject's fee on a trade at `price`.
pub open spec fn subject_fee_of(price: nat, config: Config) -> nat {
    mul_floor_spec(price, config.subject_fee_percent)
}

/// What a buyer pays for shares priced at `price`.
pub open spec fn cost_with_fees(price: nat, config: Config) -> nat {
    price + protocol_fee_of(price, config) + subject_fee_of(price, config)
}

/// What a seller receives for shares priced at `price`.
pub open spec fn proceeds_after_fees(price: nat, config: Config) -> int {
    price - protocol_fee_of(price, config) - subject_fee_of(price, config)
}

/// Under a valid configuration the two fees together never exceed the price.
pub proof fn lemma_fees_within_price(price: nat, config: Config)
    requires
        config.valid(),
    ensures
        protocol_fee_of(price, config) + subject_fee_of(price, config) <= price,
{
    let p = price as int;
    let a = config.protocol_fee_percent.atomics as int;
    let b = config.subject_fee_percent.atomics as int;
    let d = ONE_ATOMICS as int;
    assert(p * a + p * b <= p * d) by (nonlinear_arith)
        requires
            a + b <= d,
            p >= 0,
            a >= 0,
            b >= 0,
    ;
    assert((p * a) / d * d <= p * a) by (nonlinear_arith)
        requires
            p * a >= 0,
            d > 0,
    ;
    assert((p * b) / d * d <= p * b) by (nonlinear_arith)
        requires
            p * b >= 0,
            d > 0,
    ;
}

/// The protocol fee and the subject fee on a trade at `price`.
pub fn split_fees(price: u128, config: &Config) -> (r: (u128, u128))
    requires
        config.valid(),
    ensures
        r.0 == protocol_fee_of(price as nat, *config),
        r.1 == subject_fee_of(price as nat, *config),
        r.0 + r.1 <= price,
{
    proof {
        lemma_fees_within_price(price as nat, *config);
    }
    let protocol_fee = match mul_floor(price, config.protocol_fee_percent) {
        Some(v) => v,
        None => 0,
    };
    let subject_fee = match mul_floor(price, config.subject_fee_percent) {
        Some(v) => v,
        None => 0,
    };
    (protocol_fee, subject_fee)
}

/// The price plus both fees, or `None` when that exceeds `u128::MAX`.
pub fn add_fees(price: u128, config: &Config) -> (r: Option<u128>)
    requires
        config.valid(),
    ensures
        r == (if cost_with_fees(price as nat, *config) <= u128::MAX {
            Some(cost_with_fees(price as nat, *config) as u128)
        } else {
            None::<u128>
        }),
{
    let (protocol_fee, subject_fee) = split_fees(price, config);
    match price.checked_add(protocol_fee) {
        Some(v) => v.checked_add(subject_fee),
        None => None,
    }
}

/// The price less both fees; never negative under a valid configuration.
pub fn deduct_fees(price: u128, config: &Config) -> (r: u128)
    requires
        config.valid(),
    ensures
        r == proceeds_after_fees(price as nat, *config),
{
    let (protocol_fee, subject_fee) = split_fees(price, config);
    price - protocol_fee - subject_fee
}

} // verus!
