//! Why a trade or a query is refused.
use vstd::prelude::*;

verus! {

/// The conditions under which a request is refused; a refused request
/// changes nothing.
#[derive(Debug, PartialEq, Eq, Clone)]
pub enum ContractError {
    /// The first share of a subject can only be bought by the subject itself.
    NotSubject { subject: String },
    /// A sale may not take a subject's supply down to zero.
    LastShare {},
    /// The seller holds fewer shares than the sale asks for.
    NotEnoughShares {},
    /// The payment does not cover the price with its fees.
    NotEnoughFunds { expected: u128, actual: u128 },
    /// The trade size is zero, or so large that its price does not fit in 128 bits.
    InvalidAmount {},
    /// A ledger decrement would make a balance or a supply negative.
    LedgerUnderflow {},
    /// The two fee rates together exceed the whole price.
    InvalidFees {},
}

} // verus!
