//! Requests to the market, and what a settled trade produces.
use vstd::prelude::*;

use crate::decimal::Ratio;

verus! {

/// The parameters a market is created with.
#[derive(Debug, Clone, PartialEq, Eq)]
pub struct InstantiateMsg {
    pub protocol_fee_destination: String,
    pub protocol_fee_bps: u64,
    pub subject_fee_bps: u64,
    pub curve_coefficient: Ratio,
}

/// A trade request.
#[derive(Debug, Clone, PartialEq, Eq)]
pub enum ExecuteMsg {
    BuyShares { subject: String, amount: u128 },
    SellShares { subject: String, amount: u128 },
}

/// A read-only request.
#[derive(Debug, Clone, PartialEq, Eq)]
pub enum QueryMsg {
    Config {},
    SharesBalance { subject: String, holder: String },
    SharesSupply { subject: String },
    BuyPrice { subject: String, amount: u128 },
    SellPrice { subject: String, amount: u128 },
    BuyPriceAfterFee { subject: String, amount: u128 },
    SellPriceAfterFee { subject: String, amount: u128 },
}

/// An instruction to send `amount` base units to `to_address`.
#[derive(Debug, PartialEq, Eq, Clone)]
pub struct Transfer {
    pub to_address: String,
    pub amount: u128,
}

/// The record of one settled trade.
#[derive(Debug, PartialEq, Eq, Clone)]
pub struct TradeEvent {
    pub trader: String,
    pub subject: String,
    pub is_buy: bool,
    pub share_amount: u128,
    pub stars_amount: u128,
    pub protocol_stars_amount: u128,
    pub subject_stars_amount: u128,
    pub supply: u128,
}

impl TradeEvent {
    /// A trade record with the given fields.
    pub fn new(
        trader: String,
        subject: String,
        is_buy: bool,
        share_amount: u128,
        stars_amount: u128,
        protocol_stars_amount: u128,
        subject_stars_amount: u128,
        supply: u128,
    ) -> (r: Self)
        ensures
            r.trader == trader,
            r.subject == subject,
            r.is_buy == is_buy,
            r.share_amount == share_amount,
            r.stars_amount == stars_amount,
            r.protocol_stars_amount == protocol_stars_amount,
            r.subject_stars_amount == subject_stars_amount,
            r.supply == supply,
    {
        TradeEvent {
            trader,
            subject,
            is_buy,
            share_amount,
            stars_amount,
            protocol_stars_amount,
            subject_stars_amount,
            supply,
        }
    }
}

/// What a settled trade produces: the transfers to make, in order, and its record.
#[derive(Debug, PartialEq, Eq, Clone)]
pub struct Trade {
    pub transfers: Vec<Transfer>,
    pub event: TradeEvent,
}

/// The answer to a read-only request.
#[derive(Debug, Clone, PartialEq, Eq)]
pub enum QueryResponse {
    Config(crate::state::Config),
    Amount(u128),
}

} // verus!
