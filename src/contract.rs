//! Settlement of trades, read-only pricing queries, and request dispatch.
use vstd::prelude::*;

use crate::curve::{price, price_fits, price_of, raw_price};
use crate::decimal::{Ratio, BPS_ATOMICS};
use crate::error::ContractError;
use crate::fee::{
    add_fees, cost_with_fees, deduct_fees, lemma_fees_within_price, proceeds_after_fees,
    protocol_fee_of, split_fees, subject_fee_of,
};
use crate::msg::{ExecuteMsg, InstantiateMsg, QueryMsg, QueryResponse, Trade, TradeEvent, Transfer};
use crate::state::{
    decrement_shares, increment_shares, load_supply, shares_added, shares_removed, Config,
    Ledger,
};

verus! {

/// Basis points in one whole.
pub const BPS_PER_ONE: u64 = 10_000;

/// `trade` records a buy by `buyer` of `amount` of `subject`'s shares from
/// supply `supply`: the price, both fees, the new supply, and two transfers
/// (protocol fee, then subject fee) unless the protocol fee is zero.
pub open spec fn bought_as(
    trade: Trade,
    config: Config,
    buyer: Seq<char>,
    subject: Seq<char>,
    amount: u128,
    supply: nat,
) -> bool {
    let p = price_of(supply, amount as nat, config.curve_coefficient);
    let protocol_fee = protocol_fee_of(p, config);
    let subject_fee = subject_fee_of(p, config);
    &&& trade.event.trader@ == buyer
    &&& trade.event.subject@ == subject
    &&& trade.event.is_buy
    &&& trade.event.share_amount == amount
    &&& trade.event.stars_amount == p
    &&& trade.event.protocol_stars_amount == protocol_fee
    &&& trade.event.subject_stars_amount == subject_fee
    &&& trade.event.supply == supply + amount
    &&& if protocol_fee == 0 {
        trade.transfers@.len() == 0
    } else {
        &&& trade.transfers@.len() == 2
        &&& trade.transfers@[0].to_address@ == config.protocol_fee_destination@
        &&& trade.transfers@[0].amount == protocol_fee
        &&& trade.transfers@[1].to_address@ == subject
        &&& trade.transfers@[1].amount == subject_fee
    }
}

/// `trade` records a sale by `seller` of `amount` of `subject`'s shares from
/// supply `supply`, priced from `supply - amount`: the price, both fees, the
/// new supply, and three transfers (the seller's proceeds, the protocol fee,
/// the subject fee), zero amounts included.
pub open spec fn sold_as(
    trade: Trade,
    config: Config,
    seller: Seq<char>,
    subject: Seq<char>,
    amount: u128,
    supply: nat,
) -> bool {
    let p = price_of((supply - amount) as nat, amount as nat, config.curve_coefficient);
    &&& trade.event.trader@ == seller
    &&& trade.event.subject@ == subject
    &&& !trade.event.is_buy
    &&& trade.event.share_amount == amount
    &&& trade.event.stars_amount == p
    &&& trade.event.protocol_stars_amount == protocol_fee_of(p, config)
    &&& trade.event.subject_stars_amount == subject_fee_of(p, config)
    &&& trade.event.supply == supply - amount
    &&& trade.transfers@.len() == 3
    &&& trade.transfers@[0].to_address@ == seller
    &&& trade.transfers@[0].amount == proceeds_after_fees(p, config)
    &&& trade.transfers@[1].to_address@ == config.protocol_fee_destination@
    &&& trade.transfers@[1].amount == protocol_fee_of(p, config)
    &&& trade.transfers@[2].to_address@ == subject
    &&& trade.transfers@[2].amount == subject_fee_of(p, config)
}

/// The price of `amount` shares from `supply` and its cost with fees both fit in 128 bits.
pub open spec fn buy_priced(supply: nat, amount: u128, config: Config) -> bool {
    &&& price_fits(supply, amount as nat, config.curve_coefficient)
    &&& cost_with_fees(price_of(supply, amount as nat, config.curve_coefficient), config)
        <= u128::MAX
}

/// The outcome of a buy of `amount` of `subject`'s shares by `buyer` paying
/// `payment`, on ledger `pre`, leaving ledger `post`. The checks come in order:
/// a zero amount, a first buyer other than the subject, a price out of range,
/// a payment short of the cost. A refused buy leaves the ledger as it was.
pub open spec fn buy_outcome(
    pre: Ledger,
    post: Ledger,
    config: Config,
    buyer: Seq<char>,
    subject: Seq<char>,
    amount: u128,
    payment: u128,
    r: Result<Trade, ContractError>,
) -> bool {
    let supply = pre.supply_of(subject);
    let cost = cost_with_fees(price_of(supply, amount as nat, config.curve_coefficient), config);
    &&& if amount == 0 {
        r == Err::<Trade, ContractError>(ContractError::InvalidAmount {})
    } else if supply == 0 && buyer != subject {
        r matches Err(ContractError::NotSubject { subject: s }) && s@ == subject
    } else if !buy_priced(supply, amount, config) {
        r == Err::<Trade, ContractError>(ContractError::InvalidAmount {})
    } else if payment < cost {
        r == Err::<Trade, ContractError>(
            ContractError::NotEnoughFunds { expected: cost as u128, actual: payment },
        )
    } else {
        &&& r is Ok
        &&& bought_as(r->Ok_0, config, buyer, subject, amount, supply)
        &&& shares_added(pre, post, subject, buyer, amount as nat)
    }
    &&& r is Err ==> post == pre
}

/// The outcome of a sale of `amount` of `subject`'s shares by `seller` on
/// ledger `pre`, leaving ledger `post`. The checks come in order: a zero
/// amount, a supply not above the amount (the last share), a balance short of
/// the amount, a price out of range. A refused sale leaves the ledger as it was.
pub open spec fn sell_outcome(
    pre: Ledger,
    post: Ledger,
    config: Config,
    seller: Seq<char>,
    subject: Seq<char>,
    amount: u128,
    r: Result<Trade, ContractError>,
) -> bool {
    let supply = pre.supply_of(subject);
    &&& if amount == 0 {
        r == Err::<Trade, ContractError>(ContractError::InvalidAmount {})
    } else if supply <= amount {
        r == Err::<Trade, ContractError>(ContractError::LastShare {})
    } else if pre.balance_of(subject, seller) < amount {
        r == Err::<Trade, ContractError>(ContractError::NotEnoughShares {})
    } else if !price_fits((supply - amount) as nat, amount as nat, config.curve_coefficient) {
        r == Err::<Trade, ContractError>(ContractError::InvalidAmount {})
    } else {
        &&& r is Ok
        &&& sold_as(r->Ok_0, config, seller, subject, amount, supply)
        &&& shares_removed(pre, post, subject, seller, amount as nat)
    }
    &&& r is Err ==> post == pre
}

/// A price whose value before the coefficient fits in 128 bits leaves room
/// for the new supply.
proof fn lemma_priced_supply_fits(supply: nat, amount: nat)
    requires
        amount > 0,
        raw_price(supply, amount) <= u128::MAX,
    ensures
        supply + amount <= u128::MAX,
{
    crate::curve::lemma_top_square_bound(supply, amount);
    let top = supply + amount - 1;
    assert(top < 0x1_0000_0000_0000_0000) by (nonlinear_arith)
        requires
            top * top * 1_000_000 <= u128::MAX,
            top >= 0,
    ;
}

/// Settles a buy of `amount` of `subject`'s shares by `sender`, who pays
/// `payment`. On success the ledger gains `amount` shares for `sender`;
/// any payment above the cost is kept, not refunded.
pub fn buy_shares(
    ledger: &mut Ledger,
    config: &Config,
    sender: &String,
    subject: &String,
    amount: u128,
    payment: u128,
) -> (r: Result<Trade, ContractError>)
    requires
        old(ledger).wf(),
        config.valid(),
    ensures
        final(ledger).wf(),
        buy_outcome(*old(ledger), *final(ledger), *config, sender@, subject@, amount, payment, r),
{
    if amount == 0 {
        return Err(ContractError::InvalidAmount {});
    }
    let supply = load_supply(ledger, subject);
    if supply == 0 && *sender != *subject {
        return Err(ContractError::NotSubject { subject: subject.clone() });
    }
    let price = match price(supply, amount, config.curve_coefficient) {
        Some(p) => p,
        None => {
            return Err(ContractError::InvalidAmount {});
        },
    };
    let expected = match add_fees(price, config) {
        Some(c) => c,
        None => {
            return Err(ContractError::InvalidAmount {});
        },
    };
    if payment < expected {
        return Err(ContractError::NotEnoughFunds { expected, actual: payment });
    }
    let (protocol_fee, subject_fee) = split_fees(price, config);
    proof {
        lemma_priced_supply_fits(supply as nat, amount as nat);
    }
    increment_shares(ledger, subject, sender, amount);
    let mut transfers: Vec<Transfer> = Vec::new();
    if protocol_fee != 0 {
        transfers.push(
            Transfer { to_address: config.protocol_fee_destination.clone(), amount: protocol_fee },
        );
        transfers.push(Transfer { to_address: subject.clone(), amount: subject_fee });
    }
    let event = TradeEvent::new(
        sender.clone(),
        subject.clone(),
        true,
        amount,
        price,
        protocol_fee,
        subject_fee,
        supply + amount,
    );
    Ok(Trade { transfers, event })
}

/// Settles a sale of `amount` of `subject`'s shares by `sender`, priced as
/// the block from `supply - amount` to `supply`. A subject's last share can
/// never be sold.
pub fn sell_shares(
    ledger: &mut Ledger,
    config: &Config,
    sender: &String,
    subject: &String,
    amount: u128,
) -> (r: Result<Trade, ContractError>)
    requires
        old(ledger).wf(),
        config.valid(),
    ensures
        final(ledger).wf(),
        sell_outcome(*old(ledger), *final(ledger), *config, sender@, subject@, amount, r),
        r is Ok ==> amount < old(ledger).supply_of(subject@),
{
    if amount == 0 {
        return Err(ContractError::InvalidAmount {});
    }
    let supply = load_supply(ledger, subject);
    if supply <= amount {
        return Err(ContractError::LastShare {});
    }
    let balance = ledger.balance(subject, sender);
    if balance < amount {
        return Err(ContractError::NotEnoughShares {});
    }
    let price = match price(supply - amount, amount, config.curve_coefficient) {
        Some(p) => p,
        None => {
            return Err(ContractError::InvalidAmount {});
        },
    };
    let (protocol_fee, subject_fee) = split_fees(price, config);
    let proceeds = deduct_fees(price, config);
    // The checks above leave no room for an underflow; the ledger checks again.
    if let Err(e) = decrement_shares(ledger, subject, sender, amount) {
        return Err(e);
    }
    let mut transfers: Vec<Transfer> = Vec::new();
    transfers.push(Transfer { to_address: sender.clone(), amount: proceeds });
    transfers.push(
        Transfer { to_address: config.protocol_fee_destination.clone(), amount: protocol_fee },
    );
    transfers.push(Transfer { to_address: subject.clone(), amount: subject_fee });
    let event = TradeEvent::new(
        sender.clone(),
        subject.clone(),
        false,
        amount,
        price,
        protocol_fee,
        subject_fee,
        supply - amount,
    );
    Ok(Trade { transfers, event })
}

/// The raw price of buying `amount` shares from `supply`: refused for a zero
/// amount or a price out of range.
pub open spec fn buy_price_spec(supply: nat, amount: u128, config: Config) -> Result<u128, ContractError> {
    if amount == 0 || !price_fits(supply, amount as nat, config.curve_coefficient) {
        Err(ContractError::InvalidAmount {})
    } else {
        Ok(price_of(supply, amount as nat, config.curve_coefficient) as u128)
    }
}

/// The raw price of selling `amount` shares out of `supply`, priced from
/// `supply - amount`: refused for a zero amount, an amount above the supply,
/// or a price out of range.
pub open spec fn sell_price_spec(supply: nat, amount: u128, config: Config) -> Result<u128, ContractError> {
    if amount == 0 || amount > supply || !price_fits(
        (supply - amount) as nat,
        amount as nat,
        config.curve_coefficient,
    ) {
        Err(ContractError::InvalidAmount {})
    } else {
        Ok(price_of((supply - amount) as nat, amount as nat, config.curve_coefficient) as u128)
    }
}

/// What buying `amount` shares from `supply` costs with both fees.
pub open spec fn buy_price_after_fee_spec(supply: nat, amount: u128, config: Config) -> Result<u128, ContractError> {
    if amount == 0 || !buy_priced(supply, amount, config) {
        Err(ContractError::InvalidAmount {})
    } else {
        Ok(cost_with_fees(price_of(supply, amount as nat, config.curve_coefficient), config) as u128)
    }
}

/// What selling `amount` shares out of `supply` yields after both fees.
pub open spec fn sell_price_after_fee_spec(supply: nat, amount: u128, config: Config) -> Result<u128, ContractError> {
    match sell_price_spec(supply, amount, config) {
        Ok(p) => Ok(proceeds_after_fees(p as nat, config) as u128),
        Err(e) => Err(e),
    }
}

/// How many of `subject`'s shares `holder` owns.
pub fn shares_balance(ledger: &Ledger, subject: &String, holder: &String) -> (r: u128)
    requires
        ledger.wf(),
    ensures
        r == ledger.balance_of(subject@, holder@),
{
    ledger.balance(subject, holder)
}

/// The supply of `subject`'s shares.
pub fn shares_supply(ledger: &Ledger, subject: &String) -> (r: u128)
    requires
        ledger.wf(),
    ensures
        r == ledger.supply_of(subject@),
{
    load_supply(ledger, subject)
}

/// The raw curve price of buying `amount` of `subject`'s shares now.
pub fn buy_price(ledger: &Ledger, config: &Config, subject: &String, amount: u128) -> (r: Result<
    u128,
    ContractError,
>)
    requires
        ledger.wf(),
    ensures
        r == buy_price_spec(ledger.supply_of(subject@), amount, *config),
{
    if amount == 0 {
        return Err(ContractError::InvalidAmount {});
    }
    let supply = load_supply(ledger, subject);
    match price(supply, amount, config.curve_coefficient) {
        Some(p) => Ok(p),
        None => Err(ContractError::InvalidAmount {}),
    }
}

/// The raw curve price of selling `amount` of `subject`'s shares now.
pub fn sell_price(ledger: &Ledger, config: &Config, subject: &String, amount: u128) -> (r: Result<
    u128,
    ContractError,
>)
    requires
        ledger.wf(),
    ensures
        r == sell_price_spec(ledger.supply_of(subject@), amount, *config),
{
    let supply = load_supply(ledger, subject);
    if amount == 0 || amount > supply {
        return Err(ContractError::InvalidAmount {});
    }
    match price(supply - amount, amount, config.curve_coefficient) {
        Some(p) => Ok(p),
        None => Err(ContractError::InvalidAmount {}),
    }
}

/// What buying `amount` of `subject`'s shares now costs, fees included.
pub fn buy_price_after_fee(
    ledger: &Ledger,
    config: &Config,
    subject: &String,
    amount: u128,
) -> (r: Result<u128, ContractError>)
    requires
        ledger.wf(),
        config.valid(),
    ensures
        r == buy_price_after_fee_spec(ledger.supply_of(subject@), amount, *config),
{
    let p = match buy_price(ledger, config, subject, amount) {
        Ok(p) => p,
        Err(e) => {
            return Err(e);
        },
    };
    match add_fees(p, config) {
        Some(c) => Ok(c),
        None => Err(ContractError::InvalidAmount {}),
    }
}

/// What selling `amount` of `subject`'s shares now yields, fees deducted.
pub fn sell_price_after_fee(
    ledger: &Ledger,
    config: &Config,
    subject: &String,
    amount: u128,
) -> (r: Result<u128, ContractError>)
    requires
        ledger.wf(),
        config.valid(),
    ensures
        r == sell_price_after_fee_spec(ledger.supply_of(subject@), amount, *config),
{
    match sell_price(ledger, config, subject, amount) {
        Ok(p) => Ok(deduct_fees(p, config)),
        Err(e) => Err(e),
    }
}

/// Builds the market's configuration from its creation parameters; refuses
/// fee rates that together exceed the whole price.
pub fn instantiate(msg: InstantiateMsg) -> (r: Result<Config, ContractError>)
    ensures
        r is Err <==> msg.protocol_fee_bps + msg.subject_fee_bps > BPS_PER_ONE,
        r is Err ==> r == Err::<Config, ContractError>(ContractError::InvalidFees {}),
        r matches Ok(c) ==> {
            &&& c.valid()
            &&& c.protocol_fee_destination == msg.protocol_fee_destination
            &&& c.protocol_fee_percent.atomics == msg.protocol_fee_bps * BPS_ATOMICS
            &&& c.subject_fee_percent.atomics == msg.subject_fee_bps * BPS_ATOMICS
            &&& c.curve_coefficient == msg.curve_coefficient
        },
{
    if msg.protocol_fee_bps as u128 + msg.subject_fee_bps as u128 > BPS_PER_ONE as u128 {
        return Err(ContractError::InvalidFees {});
    }
    Ok(
        Config {
            protocol_fee_destination: msg.protocol_fee_destination,
            protocol_fee_percent: Ratio::bps(msg.protocol_fee_bps),
            subject_fee_percent: Ratio::bps(msg.subject_fee_bps),
            curve_coefficient: msg.curve_coefficient,
        },
    )
}

/// Settles a trade request from `sender`, who sent `payment` with it (a sale
/// does not look at the payment).
pub fn execute(
    ledger: &mut Ledger,
    config: &Config,
    sender: &String,
    payment: u128,
    msg: ExecuteMsg,
) -> (r: Result<Trade, ContractError>)
    requires
        old(ledger).wf(),
        config.valid(),
    ensures
        final(ledger).wf(),
        match msg {
            ExecuteMsg::BuyShares { subject, amount } => buy_outcome(
                *old(ledger),
                *final(ledger),
                *config,
                sender@,
                subject@,
                amount,
                payment,
                r,
            ),
            ExecuteMsg::SellShares { subject, amount } => sell_outcome(
                *old(ledger),
                *final(ledger),
                *config,
                sender@,
                subject@,
                amount,
                r,
            ),
        },
{
    match msg {
        ExecuteMsg::BuyShares { subject, amount } => buy_shares(
            ledger,
            config,
            sender,
            &subject,
            amount,
            payment,
        ),
        ExecuteMsg::SellShares { subject, amount } => sell_shares(
            ledger,
            config,
            sender,
            &subject,
            amount,
        ),
    }
}

/// An amount answer, or the error unchanged.
pub open spec fn amount_answer(r: Result<u128, ContractError>) -> Result<QueryResponse, ContractError> {
    match r {
        Ok(v) => Ok(QueryResponse::Amount(v)),
        Err(e) => Err(e),
    }
}

fn answer_amount(r: Result<u128, ContractError>) -> (a: Result<QueryResponse, ContractError>)
    ensures
        a == amount_answer(r),
{
    match r {
        Ok(v) => Ok(QueryResponse::Amount(v)),
        Err(e) => Err(e),
    }
}

/// Answers a read-only request; nothing is changed.
pub fn query(ledger: &Ledger, config: &Config, msg: QueryMsg) -> (r: Result<QueryResponse, ContractError>)
    requires
        ledger.wf(),
        config.valid(),
    ensures
        match msg {
            QueryMsg::Config {} => r == Ok::<QueryResponse, ContractError>(
                QueryResponse::Config(*config),
            ),
            QueryMsg::SharesBalance { subject, holder } => r == Ok::<QueryResponse, ContractError>(
                QueryResponse::Amount(ledger.balance_of(subject@, holder@) as u128),
            ),
            QueryMsg::SharesSupply { subject } => r == Ok::<QueryResponse, ContractError>(
                QueryResponse::Amount(ledger.supply_of(subject@) as u128),
            ),
            QueryMsg::BuyPrice { subject, amount } => r == amount_answer(
                buy_price_spec(ledger.supply_of(subject@), amount, *config),
            ),
            QueryMsg::SellPrice { subject, amount } => r == amount_answer(
                sell_price_spec(ledger.supply_of(subject@), amount, *config),
            ),
            QueryMsg::BuyPriceAfterFee { subject, amount } => r == amount_answer(
                buy_price_after_fee_spec(ledger.supply_of(subject@), amount, *config),
            ),
            QueryMsg::SellPriceAfterFee { subject, amount } => r == amount_answer(
                sell_price_after_fee_spec(ledger.supply_of(subject@), amount, *config),
            ),
        },
{
    match msg {
        QueryMsg::Config {} => Ok(
            QueryResponse::Config(
                Config {
                    protocol_fee_destination: config.protocol_fee_destination.clone(),
                    protocol_fee_percent: config.protocol_fee_percent,
                    subject_fee_percent: config.subject_fee_percent,
                    curve_coefficient: config.curve_coefficient,
                },
            ),
        ),
        QueryMsg::SharesBalance { subject, holder } => Ok(
            QueryResponse::Amount(shares_balance(ledger, &subject, &holder)),
        ),
        QueryMsg::SharesSupply { subject } => Ok(
            QueryResponse::Amount(shares_supply(ledger, &subject)),
        ),
        QueryMsg::BuyPrice { subject, amount } => answer_amount(
            buy_price(ledger, config, &subject, amount),
        ),
        QueryMsg::SellPrice { subject, amount } => answer_amount(
            sell_price(ledger, config, &subject, amount),
        ),
        QueryMsg::BuyPriceAfterFee { subject, amount } => answer_amount(
            buy_price_after_fee(ledger, config, &subject, amount),
        ),
        QueryMsg::SellPriceAfterFee { subject, amount } => answer_amount(
            sell_price_after_fee(ledger, config, &subject, amount),
        ),
    }
}

/// Buying `amount` of a subject's shares and selling them straight back is
/// always allowed once the subject had shares before the buy; it restores
/// every supply and balance, sells at the price that was paid, and returns
/// to the trader no more than their payment: strictly less whenever the fees
/// on that price are not zero.
pub proof fn lemma_round_trip(
    pre: Ledger,
    mid: Ledger,
    post: Ledger,
    config: Config,
    trader: Seq<char>,
    subject: Seq<char>,
    amount: u128,
    payment: u128,
    bought: Result<Trade, ContractError>,
    sold: Result<Trade, ContractError>,
)
    requires
        config.valid(),
        pre.supply_of(subject) > 0,
        buy_outcome(pre, mid, config, trader, subject, amount, payment, bought),
        bought is Ok,
        sell_outcome(mid, post, config, trader, subject, amount, sold),
    ensures
        sold is Ok,
        forall|s: Seq<char>| #[trigger] post.supply_of(s) == pre.supply_of(s),
        forall|s: Seq<char>, h: Seq<char>| #[trigger] post.balance_of(s, h) == pre.balance_of(s, h),
        sold->Ok_0.event.stars_amount == bought->Ok_0.event.stars_amount,
        sold->Ok_0.transfers@[0].amount <= payment,
        bought->Ok_0.event.protocol_stars_amount + bought->Ok_0.event.subject_stars_amount > 0
            ==> sold->Ok_0.transfers@[0].amount < payment,
{
    let supply = pre.supply_of(subject);
    let p = price_of(supply, amount as nat, config.curve_coefficient);
    lemma_fees_within_price(p, config);
    assert(mid.supply_of(subject) == supply + amount);
    assert(mid.supply_of(subject) - amount == supply);
    assert forall|s: Seq<char>, h: Seq<char>| #[trigger] post.balance_of(s, h) == pre.balance_of(s, h) by {
        if !(s == subject && h == trader) {
            assert(mid.balance_of(s, h) == pre.balance_of(s, h));
        }
    }
    assert forall|s: Seq<char>| #[trigger] post.supply_of(s) == pre.supply_of(s) by {
        if s != subject {
            assert(mid.supply_of(s) == pre.supply_of(s));
        }
    }
}

/// A buy that pays exactly the quoted cost with fees is accepted, once the
/// subject has shares or the buyer is the subject.
pub proof fn lemma_quoted_cost_is_accepted(
    pre: Ledger,
    post: Ledger,
    config: Config,
    buyer: Seq<char>,
    subject: Seq<char>,
    amount: u128,
    payment: u128,
    r: Result<Trade, ContractError>,
)
    requires
        buy_outcome(pre, post, config, buyer, subject, amount, payment, r),
        pre.supply_of(subject) > 0 || buyer == subject,
        buy_price_after_fee_spec(pre.supply_of(subject), amount, config) == Ok::<
            u128,
            ContractError,
        >(payment),
    ensures
        r is Ok,
{
}

/// A sale pays the seller exactly the quoted proceeds after fees.
pub proof fn lemma_quoted_proceeds_are_paid(
    pre: Ledger,
    post: Ledger,
    config: Config,
    seller: Seq<char>,
    subject: Seq<char>,
    amount: u128,
    r: Result<Trade, ContractError>,
)
    requires
        sell_outcome(pre, post, config, seller, subject, amount, r),
        r is Ok,
    ensures
        sell_price_after_fee_spec(pre.supply_of(subject), amount, config) == Ok::<
            u128,
            ContractError,
        >(r->Ok_0.transfers@[0].amount),
{
}

} // verus!
