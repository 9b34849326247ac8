//! A bonding-curve market for per-address shares: the price curve, the fee
//! split, the shares ledger and the settlement of buys and sells.

pub mod contract;
pub mod curve;
pub mod decimal;
pub mod error;
pub mod fee;
pub mod msg;
pub mod state;

pub use crate::contract::{
    buy_price, buy_price_after_fee, buy_shares, execute, instantiate, query, sell_price,
    sell_price_after_fee, sell_shares, shares_balance, shares_supply,
};
pub use crate::curve::price;
pub use crate::decimal::Ratio;
pub use crate::error::ContractError;
pub use crate::msg::{ExecuteMsg, InstantiateMsg, QueryMsg, QueryResponse, Trade, TradeEvent, Transfer};
pub use crate::state::{decrement_shares, increment_shares, load_supply, Config, Ledger};
