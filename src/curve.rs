//! The bonding curve: what minting a block of shares costs at a given supply.
use vstd::arithmetic::div_mod::{lemma_div_is_ordered, lemma_div_plus_one};
use vstd::arithmetic::mul::lemma_mul_inequality;
use vstd::prelude::*;

use crate::decimal::{mul_floor, mul_floor_spec, Ratio, ONE_ATOMICS};

verus! {

/// Base monetary units that one unit of the curve is worth before the coefficient.
pub const SHARE_UNIT: u128 = 1_000_000;

/// The sum of the squares of the share indices being minted:
/// `supply^2 + (supply + 1)^2 + ... + (supply + amount - 1)^2`.
/// This equals `sum(supply + amount - 1) - sum(supply - 1)` for
/// `sum(x) = x (x + 1) (2x + 1) / 6`, with `sum(-1) = 0`.
pub open spec fn squares_from(supply: nat, amount: nat) -> nat
    decreases amount,
{
    if amount == 0 {
        0
    } else {
        let top = supply + amount - 1;
        (squares_from(supply, (amount - 1) as nat) + top * top) as nat
    }
}

/// The curve's value before the coefficient is applied.
pub open spec fn raw_price(supply: nat, amount: nat) -> nat {
    squares_from(supply, amount) * (SHARE_UNIT as nat)
}

/// The cost of moving a subject's supply from `supply` to `supply + amount`.
pub open spec fn price_of(supply: nat, amount: nat, coefficient: Ratio) -> nat {
    mul_floor_spec(raw_price(supply, amount), coefficient)
}

/// Whether the price and the curve's value before the coefficient both fit in 128 bits.
pub open spec fn price_fits(supply: nat, amount: nat, coefficient: Ratio) -> bool {
    &&& raw_price(supply, amount) <= u128::MAX
    &&& price_of(supply, amount, coefficient) <= u128::MAX
}

proof fn lemma_squares_closed_form(supply: nat, amount: nat)
    ensures
        6 * squares_from(supply, amount) == 6 * amount * supply * (supply + amount - 1) + (
        amount - 1) * amount * (2 * amount - 1),
    decreases amount,
{
    if amount > 0 {
        let n = (amount - 1) as nat;
        lemma_squares_closed_form(supply, n);
        let prev = squares_from(supply, n);
        let whole = squares_from(supply, amount);
        let s = supply as int;
        let a = amount as int;
        assert(whole == prev + (s + n) * (s + n));
        assert(6 * whole == 6 * a * s * (s + a - 1) + (a - 1) * a * (2 * a - 1)) by (nonlinear_arith)
            requires
                6 * prev == 6 * n * s * (s + n - 1) + (n - 1) * n * (2 * n - 1),
                whole == prev + (s + n) * (s + n),
                a == n + 1,
        ;
    } else {
        assert(6 * amount * supply * (supply + amount - 1) == 0) by (nonlinear_arith)
            requires
                amount == 0,
        ;
        assert((amount - 1) * amount * (2 * amount - 1) == 0) by (nonlinear_arith)
            requires
                amount == 0,
        ;
    }
}

proof fn lemma_last_square(supply: nat, amount: nat)
    requires
        amount > 0,
    ensures
        squares_from(supply, amount) >= (supply + amount - 1) * (supply + amount - 1),
{
    assert(squares_from(supply, amount) == squares_from(supply, (amount - 1) as nat) + (supply
        + amount - 1) * (supply + amount - 1));
}

/// The curve's value before the coefficient is at least the top index squared, times the unit.
pub(crate) proof fn lemma_top_square_bound(supply: nat, amount: nat)
    requires
        amount > 0,
    ensures
        raw_price(supply, amount) >= (supply + amount - 1) * (supply + amount - 1) * SHARE_UNIT,
{
    lemma_last_square(supply, amount);
}

/// Minting more shares from the same supply adds at least the square of the top index.
proof fn lemma_squares_grow_with_amount(supply: nat, smaller: nat, larger: nat)
    requires
        smaller < larger,
    ensures
        squares_from(supply, larger) >= squares_from(supply, smaller) + (supply + larger - 1) * (
        supply + larger - 1),
    decreases larger,
{
    let top = supply + larger - 1;
    assert(squares_from(supply, larger) == squares_from(supply, (larger - 1) as nat) + top * top);
    if smaller < larger - 1 {
        lemma_squares_grow_with_amount(supply, smaller, (larger - 1) as nat);
    }
    assert(top * top >= 0) by (nonlinear_arith);
}

proof fn lemma_squares_grow_with_supply(lower: nat, higher: nat, amount: nat)
    requires
        lower <= higher,
    ensures
        squares_from(lower, amount) <= squares_from(higher, amount),
    decreases amount,
{
    if amount > 0 {
        lemma_squares_grow_with_supply(lower, higher, (amount - 1) as nat);
        let a = lower + amount - 1;
        let b = higher + amount - 1;
        assert(a * a <= b * b) by (nonlinear_arith)
            requires
                0 <= a <= b,
        ;
    }
}

/// The first share of a subject is free, whatever the coefficient.
pub proof fn lemma_first_share_free(coefficient: Ratio)
    ensures
        price_of(0, 1, coefficient) == 0,
{
    assert(squares_from(0, 0) == 0);
    assert(squares_from(0, 1) == squares_from(0, 0) + 0 * 0);
    assert(0 * coefficient.atomics == 0);
}

/// For a fixed supply, the price never falls as the amount grows.
pub proof fn lemma_price_nondecreasing_in_amount(
    supply: nat,
    smaller: nat,
    larger: nat,
    coefficient: Ratio,
)
    requires
        smaller <= larger,
    ensures
        price_of(supply, smaller, coefficient) <= price_of(supply, larger, coefficient),
{
    if smaller < larger {
        lemma_squares_grow_with_amount(supply, smaller, larger);
    }
    lemma_mul_inequality(
        raw_price(supply, smaller) as int,
        raw_price(supply, larger) as int,
        coefficient.atomics as int,
    );
    lemma_div_is_ordered(
        raw_price(supply, smaller) * coefficient.atomics,
        raw_price(supply, larger) * coefficient.atomics,
        ONE_ATOMICS as int,
    );
}

/// For a positive supply and a coefficient of at least one millionth, the
/// price rises strictly with the amount.
pub proof fn lemma_price_increasing_in_amount(
    supply: nat,
    smaller: nat,
    larger: nat,
    coefficient: Ratio,
)
    requires
        supply > 0,
        smaller < larger,
        coefficient.atomics >= ONE_ATOMICS / SHARE_UNIT,
    ensures
        price_of(supply, smaller, coefficient) < price_of(supply, larger, coefficient),
{
    lemma_squares_grow_with_amount(supply, smaller, larger);
    let top = supply + larger - 1;
    assert(top * top >= 1) by (nonlinear_arith)
        requires
            top >= 1,
    ;
    let lo = raw_price(supply, smaller) as int;
    let hi = raw_price(supply, larger) as int;
    let c = coefficient.atomics as int;
    assert(lo + SHARE_UNIT <= hi);
    assert(lo * c + ONE_ATOMICS <= hi * c) by (nonlinear_arith)
        requires
            lo + 1_000_000 <= hi,
            c >= 1_000_000_000_000,
            lo >= 0,
    ;
    lemma_div_plus_one(lo * c, ONE_ATOMICS as int);
    lemma_div_is_ordered(lo * c + ONE_ATOMICS, hi * c, ONE_ATOMICS as int);
}

/// For a fixed amount, the price never falls as the supply grows.
pub proof fn lemma_price_nondecreasing_in_supply(
    lower: nat,
    higher: nat,
    amount: nat,
    coefficient: Ratio,
)
    requires
        lower <= higher,
    ensures
        price_of(lower, amount, coefficient) <= price_of(higher, amount, coefficient),
{
    lemma_squares_grow_with_supply(lower, higher, amount);
    lemma_mul_inequality(
        raw_price(lower, amount) as int,
        raw_price(higher, amount) as int,
        coefficient.atomics as int,
    );
    lemma_div_is_ordered(
        raw_price(lower, amount) * coefficient.atomics,
        raw_price(higher, amount) * coefficient.atomics,
        ONE_ATOMICS as int,
    );
}

/// `squares_from(supply, amount)`, computed as
/// `amount * supply * (supply + amount - 1) + (amount - 1) * amount * (2 * amount - 1) / 6`
/// with checked arithmetic; `None` only when six times the sum exceeds `u128::MAX`.
fn checked_squares(supply: u128, amount: u128) -> (r: Option<u128>)
    requires
        amount > 0,
    ensures
        r matches Some(v) ==> v == squares_from(supply as nat, amount as nat),
        r is None ==> 6 * squares_from(supply as nat, amount as nat) > u128::MAX,
{
    let ghost s = supply as int;
    let ghost n = amount as int;
    let ghost sq = squares_from(supply as nat, amount as nat) as int;
    let ghost tail_sum = squares_from(0, amount as nat) as int;
    proof {
        lemma_squares_closed_form(supply as nat, amount as nat);
        lemma_squares_closed_form(0, amount as nat);
        lemma_last_square(supply as nat, amount as nat);
        assert(6 * tail_sum == (n - 1) * n * (2 * n - 1)) by (nonlinear_arith)
            requires
                6 * tail_sum == 6 * n * 0 * (0 + n - 1) + (n - 1) * n * (2 * n - 1),
        ;
        assert(6 * sq == 6 * n * s * (s + n - 1) + 6 * tail_sum);
    }
    let top = match supply.checked_add(amount - 1) {
        Some(t) => t,
        None => {
            proof {
                let t = s + n - 1;
                assert(t * t >= t) by (nonlinear_arith)
                    requires
                        t >= 1,
                ;
            }
            return None;
        },
    };
    let ns = match amount.checked_mul(supply) {
        Some(v) => v,
        None => {
            proof {
                assert(6 * n * s * (s + n - 1) >= n * s) by (nonlinear_arith)
                    requires
                        n * s > 0,
                        n >= 1,
                        s >= 0,
                ;
            }
            return None;
        },
    };
    let head = match ns.checked_mul(top) {
        Some(v) => v,
        None => {
            proof {
                assert(6 * n * s * (s + n - 1) >= (n * s) * (s + n - 1)) by (nonlinear_arith)
                    requires
                        n * s >= 0,
                        n >= 1,
                        s >= 0,
                ;
            }
            return None;
        },
    };
    let pair = match (amount - 1).checked_mul(amount) {
        Some(v) => v,
        None => {
            proof {
                assert(6 * tail_sum >= (n - 1) * n) by (nonlinear_arith)
                    requires
                        6 * tail_sum == (n - 1) * n * (2 * n - 1),
                        n >= 1,
                ;
                assert(6 * n * s * (s + n - 1) >= 0) by (nonlinear_arith)
                    requires
                        n >= 1,
                        s >= 0,
                ;
            }
            return None;
        },
    };
    let odd = match amount.checked_mul(2) {
        Some(v) => v - 1,
        None => {
            proof {
                let t = s + n - 1;
                assert(t * t > u128::MAX) by (nonlinear_arith)
                    requires
                        t >= n - 1,
                        2 * n > u128::MAX,
                ;
            }
            return None;
        },
    };
    let tail6 = match pair.checked_mul(odd) {
        Some(v) => v,
        None => {
            proof {
                assert(6 * n * s * (s + n - 1) >= 0) by (nonlinear_arith)
                    requires
                        n >= 1,
                        s >= 0,
                ;
            }
            return None;
        },
    };
    let tail = tail6 / 6;
    proof {
        assert(head == n * s * (s + n - 1)) by (nonlinear_arith)
            requires
                head == ns * top,
                ns == n * s,
                top == s + n - 1,
        ;
        assert(tail6 == 6 * tail_sum) by (nonlinear_arith)
            requires
                tail6 == pair * odd,
                pair == (n - 1) * n,
                odd == 2 * n - 1,
                6 * tail_sum == (n - 1) * n * (2 * n - 1),
        ;
        assert(tail == tail_sum);
        assert(6 * n * s * (s + n - 1) == 6 * head) by (nonlinear_arith)
            requires
                head == n * s * (s + n - 1),
        ;
        assert(sq == head + tail);
    }
    match head.checked_add(tail) {
        Some(v) => Some(v),
        None => None,
    }
}

/// The price of moving a subject's supply from `supply` to `supply + amount`:
/// the sum of the squares of the minted share indices, times `SHARE_UNIT`,
/// times `coefficient`, rounded down. `None` when that or the value before the
/// coefficient does not fit in 128 bits. An amount of zero is no trade.
pub fn price(supply: u128, amount: u128, coefficient: Ratio) -> (r: Option<u128>)
    requires
        amount > 0,
    ensures
        r == (if price_fits(supply as nat, amount as nat, coefficient) {
            Some(price_of(supply as nat, amount as nat, coefficient) as u128)
        } else {
            None::<u128>
        }),
{
    let squares = match checked_squares(supply, amount) {
        Some(v) => v,
        None => {
            return None;
        },
    };
    let raw = match squares.checked_mul(SHARE_UNIT) {
        Some(v) => v,
        None => {
            return None;
        },
    };
    mul_floor(raw, coefficient)
}

} // verus!
