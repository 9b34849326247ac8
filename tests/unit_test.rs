use cosmwasm_std::Decimal;
use fren_party::{
    execute, instantiate, price, query, ContractError, ExecuteMsg, InstantiateMsg, Ledger,
    QueryMsg, QueryResponse, Ratio, Transfer,
};

fn coefficient() -> Ratio {
    Ratio::new(Decimal::from_ratio(1u128, 8u128).atomics().u128())
}

fn amount_of(answer: QueryResponse) -> u128 {
    match answer {
        QueryResponse::Amount(v) => v,
        other => panic!("expected an amount, got {:?}", other),
    }
}

#[test]
fn unit_test_correct_price_for_first_share() {
    let supply = 0u128;
    let amount = 1u128;
    let price = price(supply, amount, coefficient()).unwrap();
    assert_eq!(price, 0);
}

#[test]
fn unit_test_correct_price_for_second_share() {
    let supply = 1u128;
    let amount = 1u128;
    let price = price(supply, amount, coefficient()).unwrap();
    assert_eq!(price, 125_000);
}

#[test]
fn unit_test_correct_price_for_third_share() {
    let supply = 2u128;
    let amount = 3u128;
    let price = price(supply, amount, coefficient()).unwrap();
    assert_eq!(price, 3_625_000);
}

#[test]
fn unit_test_proper_initialization() {
    let msg = InstantiateMsg {
        protocol_fee_destination: "protocol_fee_destination".to_string(),
        protocol_fee_bps: 500,
        subject_fee_bps: 500,
        curve_coefficient: coefficient(),
    };
    let config = instantiate(msg).unwrap();
    assert_eq!(config.protocol_fee_destination, "protocol_fee_destination".to_string());

    let ledger = Ledger::new();
    let res = query(&ledger, &config, QueryMsg::Config {}).unwrap();
    let value = match res {
        QueryResponse::Config(c) => c,
        other => panic!("expected the configuration, got {:?}", other),
    };
    assert_eq!(Ratio::bps(500), value.protocol_fee_percent);
}

#[test]
fn unit_test_buy_and_sell_shares() {
    let protocol_fee_destination = "protocol_fee_destination";

    let msg = InstantiateMsg {
        protocol_fee_destination: protocol_fee_destination.to_string(),
        protocol_fee_bps: 500,
        subject_fee_bps: 500,
        curve_coefficient: coefficient(),
    };
    let config = instantiate(msg).unwrap();
    let mut ledger = Ledger::new();

    let subject = "subject";

    let msg = ExecuteMsg::BuyShares {
        subject: subject.to_string(),
        amount: 1u128,
    };
    let err = execute(&mut ledger, &config, &"anyone".to_string(), 2u128, msg).unwrap_err();
    assert_eq!(
        err,
        ContractError::NotSubject {
            subject: subject.to_string()
        }
    );

    let msg = ExecuteMsg::BuyShares {
        subject: subject.to_string(),
        amount: 1u128,
    };
    let _res = execute(&mut ledger, &config, &subject.to_string(), 2u128, msg).unwrap();

    // the subject is the holder and should have 1 share
    let res = query(
        &ledger,
        &config,
        QueryMsg::SharesBalance {
            subject: subject.to_string(),
            holder: subject.to_string(),
        },
    )
    .unwrap();
    assert_eq!(1u128, amount_of(res));

    // the subject should also have a supply for 1 now
    let res = query(
        &ledger,
        &config,
        QueryMsg::SharesSupply {
            subject: subject.to_string(),
        },
    )
    .unwrap();
    assert_eq!(1u128, amount_of(res));

    // check the buy price for friend to buy shares
    let res = query(
        &ledger,
        &config,
        QueryMsg::BuyPrice {
            subject: subject.to_string(),
            amount: 10u128,
        },
    )
    .unwrap();
    let friend_buy_price = amount_of(res);
    assert_eq!(friend_buy_price, 48_125_000u128);

    // check the buy price with fees
    let res = query(
        &ledger,
        &config,
        QueryMsg::BuyPriceAfterFee {
            subject: subject.to_string(),
            amount: 10u128,
        },
    )
    .unwrap();
    assert_eq!(amount_of(res), 52_937_500u128);

    // buy the same subject's shares as another friend
    let friend = "friend";
    let msg = ExecuteMsg::BuyShares {
        subject: subject.to_string(),
        amount: 10u128,
    };
    let res = execute(&mut ledger, &config, &friend.to_string(), 52_937_500u128, msg).unwrap();
    assert_eq!(2, res.transfers.len());
    assert_eq!(
        Transfer {
            to_address: protocol_fee_destination.to_string(),
            amount: 2_406_250u128
        },
        res.transfers[0]
    );

    // friend should now have a balance of subject's shares
    let res = query(
        &ledger,
        &config,
        QueryMsg::SharesBalance {
            subject: subject.to_string(),
            holder: friend.to_string(),
        },
    )
    .unwrap();
    assert_eq!(10u128, amount_of(res));

    // the subject should have increased supply since friend bought shares
    let res = query(
        &ledger,
        &config,
        QueryMsg::SharesSupply {
            subject: subject.to_string(),
        },
    )
    .unwrap();
    assert_eq!(11u128, amount_of(res));

    // check the sell price for the friend
    let res = query(
        &ledger,
        &config,
        QueryMsg::SellPrice {
            subject: subject.to_string(),
            amount: 10u128,
        },
    )
    .unwrap();
    assert_eq!(amount_of(res), friend_buy_price);

    // check the sell price after fees
    // this is what the shares seller actually gets
    let res = query(
        &ledger,
        &config,
        QueryMsg::SellPriceAfterFee {
            subject: subject.to_string(),
            amount: 10u128,
        },
    )
    .unwrap();
    let sell_price_after_fees = amount_of(res);
    assert_eq!(sell_price_after_fees, 43_312_500u128);

    // friend sells shares to be back at the previous state
    let msg = ExecuteMsg::SellShares {
        subject: subject.to_string(),
        amount: 10u128,
    };
    let res = execute(&mut ledger, &config, &friend.to_string(), 0u128, msg).unwrap();
    assert_eq!(3, res.transfers.len());
    // friend lost money on their trade due to fees
    assert_eq!(
        Transfer {
            to_address: friend.to_string(),
            amount: sell_price_after_fees
        },
        res.transfers[0]
    );
    assert_eq!(
        Transfer {
            to_address: protocol_fee_destination.to_string(),
            amount: 2_406_250u128
        },
        res.transfers[1]
    );

    // friend should now have reset their shares of subject
    let res = query(
        &ledger,
        &config,
        QueryMsg::SharesBalance {
            subject: subject.to_string(),
            holder: friend.to_string(),
        },
    )
    .unwrap();
    assert_eq!(0u128, amount_of(res));

    // the subject should have gone back to the previous supply
    let res = query(
        &ledger,
        &config,
        QueryMsg::SharesSupply {
            subject: subject.to_string(),
        },
    )
    .unwrap();
    assert_eq!(1u128, amount_of(res));
}
