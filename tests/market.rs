use fren_party::fee::split_fees;
use fren_party::{
    buy_price, buy_price_after_fee, buy_shares, decrement_shares, increment_shares, instantiate,
    load_supply, price, sell_price, sell_price_after_fee, sell_shares, shares_balance,
    shares_supply, Config, ContractError, InstantiateMsg, Ledger, Ratio, Transfer,
};

const EIGHTH: u128 = 125_000_000_000_000_000;

fn config(protocol_bps: u64, subject_bps: u64) -> Config {
    instantiate(InstantiateMsg {
        protocol_fee_destination: "fees".to_string(),
        protocol_fee_bps: protocol_bps,
        subject_fee_bps: subject_bps,
        curve_coefficient: Ratio::new(EIGHTH),
    })
    .unwrap()
}

fn s(text: &str) -> String {
    text.to_string()
}

/// A ledger where "subject" holds its own first share.
fn started(config: &Config) -> Ledger {
    let mut ledger = Ledger::new();
    buy_shares(&mut ledger, config, &s("subject"), &s("subject"), 1, 0).unwrap();
    ledger
}

#[test]
fn first_share_is_free_for_any_coefficient() {
    for atomics in [0u128, 1, EIGHTH, 1_000_000_000_000_000_000, u128::MAX] {
        assert_eq!(price(0, 1, Ratio::new(atomics)), Some(0));
    }
}

#[test]
fn price_rises_with_amount_and_supply() {
    let c = Ratio::new(EIGHTH);
    let mut last = 0u128;
    for amount in 1..20u128 {
        let p = price(5, amount, c).unwrap();
        assert!(p > last);
        last = p;
    }
    let mut last = 0u128;
    for supply in 0..20u128 {
        let p = price(supply, 3, c).unwrap();
        assert!(p >= last);
        last = p;
    }
}

#[test]
fn price_exact_values() {
    // 3^2 + 4^2 = 25 units of 10^6, times 1/8
    assert_eq!(price(3, 2, Ratio::new(EIGHTH)), Some(3_125_000));
    // coefficient one: 1^2 + ... + 10^2 = 385
    assert_eq!(
        price(1, 10, Ratio::new(1_000_000_000_000_000_000)),
        Some(385_000_000)
    );
    // a zero coefficient makes every price zero
    assert_eq!(price(7, 4, Ratio::new(0)), Some(0));
}

#[test]
fn price_out_of_range_is_none() {
    assert_eq!(price(u128::MAX, 1, Ratio::new(EIGHTH)), None);
    assert_eq!(price(1u128 << 64, 1, Ratio::new(EIGHTH)), None);
    assert_eq!(price(0, 1u128 << 50, Ratio::new(EIGHTH)), None);
    // fits before the coefficient, overflows after it
    assert_eq!(price(1u128 << 40, 1, Ratio::new(u128::MAX)), None);
}

#[test]
fn fees_round_down() {
    let config = config(500, 300);
    assert_eq!(split_fees(48_125_000, &config), (2_406_250, 1_443_750));
    // 19 * 5% = 0.95 and 19 * 3% = 0.57, both rounded down
    assert_eq!(split_fees(19, &config), (0, 0));
    assert_eq!(split_fees(21, &config), (1, 0));
}

#[test]
fn coefficient_product_rounds_down() {
    // 1^2 * 10^6 / 3 with a coefficient of one third
    let third = Ratio::new(333_333_333_333_333_333);
    assert_eq!(price(1, 1, third), Some(333_333));
}

#[test]
fn bps_ratio_atomics() {
    assert_eq!(Ratio::bps(500).atomics, 50_000_000_000_000_000);
    assert_eq!(Ratio::bps(10_000).atomics, 1_000_000_000_000_000_000);
}

#[test]
fn instantiate_refuses_fees_above_whole() {
    let err = instantiate(InstantiateMsg {
        protocol_fee_destination: s("fees"),
        protocol_fee_bps: 6_000,
        subject_fee_bps: 5_000,
        curve_coefficient: Ratio::new(EIGHTH),
    })
    .unwrap_err();
    assert_eq!(err, ContractError::InvalidFees {});
    let ok = config(5_000, 5_000);
    assert_eq!(ok.subject_fee_percent, Ratio::bps(5_000));
}

#[test]
fn round_trip_restores_ledger_and_loses_fees() {
    let config = config(500, 500);
    let mut ledger = started(&config);
    let cost = buy_price_after_fee(&ledger, &config, &s("subject"), 4).unwrap();
    let bought = buy_shares(&mut ledger, &config, &s("trader"), &s("subject"), 4, cost).unwrap();
    assert_eq!(shares_supply(&ledger, &s("subject")), 5);
    let sold = sell_shares(&mut ledger, &config, &s("trader"), &s("subject"), 4).unwrap();
    assert_eq!(sold.event.stars_amount, bought.event.stars_amount);
    assert!(sold.transfers[0].amount < cost);
    assert_eq!(shares_supply(&ledger, &s("subject")), 1);
    assert_eq!(shares_balance(&ledger, &s("subject"), &s("trader")), 0);
    assert_eq!(shares_balance(&ledger, &s("subject"), &s("subject")), 1);
}

#[test]
fn selling_whole_supply_is_last_share() {
    let config = config(500, 500);
    let mut ledger = started(&config);
    let err = sell_shares(&mut ledger, &config, &s("subject"), &s("subject"), 1).unwrap_err();
    assert_eq!(err, ContractError::LastShare {});
    assert_eq!(load_supply(&ledger, &s("subject")), 1);
    assert_eq!(shares_balance(&ledger, &s("subject"), &s("subject")), 1);
    let err = sell_shares(&mut ledger, &config, &s("subject"), &s("subject"), 5).unwrap_err();
    assert_eq!(err, ContractError::LastShare {});
}

#[test]
fn insufficient_payment_changes_nothing() {
    let config = config(500, 500);
    let mut ledger = started(&config);
    let err =
        buy_shares(&mut ledger, &config, &s("friend"), &s("subject"), 10, 52_937_499).unwrap_err();
    assert_eq!(
        err,
        ContractError::NotEnoughFunds {
            expected: 52_937_500,
            actual: 52_937_499
        }
    );
    assert_eq!(shares_supply(&ledger, &s("subject")), 1);
    assert_eq!(shares_balance(&ledger, &s("subject"), &s("friend")), 0);
}

#[test]
fn zero_amounts_are_invalid() {
    let config = config(500, 500);
    let mut ledger = started(&config);
    assert_eq!(
        buy_shares(&mut ledger, &config, &s("subject"), &s("subject"), 0, 100).unwrap_err(),
        ContractError::InvalidAmount {}
    );
    assert_eq!(
        sell_shares(&mut ledger, &config, &s("subject"), &s("subject"), 0).unwrap_err(),
        ContractError::InvalidAmount {}
    );
    assert_eq!(
        buy_price(&ledger, &config, &s("subject"), 0).unwrap_err(),
        ContractError::InvalidAmount {}
    );
}

#[test]
fn selling_more_than_held_is_refused() {
    let config = config(500, 500);
    let mut ledger = started(&config);
    buy_shares(&mut ledger, &config, &s("a"), &s("subject"), 2, 10_000_000).unwrap();
    let err = sell_shares(&mut ledger, &config, &s("b"), &s("subject"), 1).unwrap_err();
    assert_eq!(err, ContractError::NotEnoughShares {});
    let err = sell_shares(&mut ledger, &config, &s("a"), &s("subject"), 3).unwrap_err();
    assert_eq!(err, ContractError::LastShare {});
    assert_eq!(shares_supply(&ledger, &s("subject")), 3);
}

#[test]
fn sell_price_above_supply_is_invalid() {
    let config = config(500, 500);
    let ledger = started(&config);
    assert_eq!(
        sell_price(&ledger, &config, &s("subject"), 2).unwrap_err(),
        ContractError::InvalidAmount {}
    );
    assert_eq!(sell_price(&ledger, &config, &s("subject"), 1), Ok(0));
    assert_eq!(sell_price_after_fee(&ledger, &config, &s("subject"), 1), Ok(0));
}

#[test]
fn zero_fees_buy_sends_nothing_and_sell_sends_three() {
    let config = config(0, 0);
    let mut ledger = started(&config);
    let bought = buy_shares(&mut ledger, &config, &s("x"), &s("subject"), 2, 625_000).unwrap();
    assert!(bought.transfers.is_empty());
    assert_eq!(bought.event.stars_amount, 625_000);
    assert_eq!(bought.event.supply, 3);
    let sold = sell_shares(&mut ledger, &config, &s("x"), &s("subject"), 2).unwrap();
    assert_eq!(
        sold.transfers,
        vec![
            Transfer { to_address: s("x"), amount: 625_000 },
            Transfer { to_address: s("fees"), amount: 0 },
            Transfer { to_address: s("subject"), amount: 0 },
        ]
    );
    assert!(!sold.event.is_buy);
    assert_eq!(sold.event.supply, 1);
}

#[test]
fn ledger_increment_and_underflow() {
    let mut ledger = Ledger::new();
    increment_shares(&mut ledger, &s("subj"), &s("h1"), 3);
    increment_shares(&mut ledger, &s("subj"), &s("h2"), 4);
    increment_shares(&mut ledger, &s("other"), &s("h1"), 9);
    assert_eq!(load_supply(&ledger, &s("subj")), 7);
    assert_eq!(ledger.balance(&s("subj"), &s("h1")), 3);
    assert_eq!(
        decrement_shares(&mut ledger, &s("subj"), &s("h1"), 4),
        Err(ContractError::LedgerUnderflow {})
    );
    assert_eq!(ledger.balance(&s("subj"), &s("h1")), 3);
    decrement_shares(&mut ledger, &s("subj"), &s("h2"), 4).unwrap();
    assert_eq!(load_supply(&ledger, &s("subj")), 3);
    assert_eq!(ledger.balance(&s("subj"), &s("h2")), 0);
    assert_eq!(load_supply(&ledger, &s("other")), 9);
}
