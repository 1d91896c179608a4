use vstd::prelude::*;
use crate::error::ContractError;
use crate::math::{Decimal, lemma_mul_floor_bounded, ratio_floor, DECIMAL_FRACTIONAL};
use crate::orderbook::{Order, OrderStatus, OrderView};

verus! {

/// The flat fee of the relayer per matched leg, in base units.
pub const RELAY_FEE: u128 = 300u128;

/// The commission rate, 0.001, in atomics.
pub const COMMISSION_RATE_ATOMICS: u128 = 1_000_000_000_000_000u128;

/// A reward balance is paid out once it has reached this many raw units.
pub const REWARD_THRESHOLD: u128 = 1_000_000u128;

pub open spec fn min_u128(a: u128, b: u128) -> u128 {
    if a <= b { a } else { b }
}

/// The amounts that change hands in one pairwise fill.
#[derive(Clone, Copy, Debug, PartialEq, Eq, Structural)]
pub struct Fill {
    /// Quote units: spent by the buy order, received by the sell order.
    pub quote_amount: u128,
    /// Base units: spent by the sell order, received by the buy order.
    pub base_amount: u128,
}

/// How one leg of a fill is shared out.
#[derive(Clone, Copy, Debug, PartialEq, Eq, Structural)]
pub struct LegSplit {
    /// The commission, accrued to the reward wallet.
    pub reward_fee: u128,
    /// The flat fee, accrued to the relayer.
    pub relayer_fee: u128,
    /// What is left for the trader.
    pub trader_amount: u128,
}

/// The fill of a buy with `lef_buy_offer` quote units left against a sell
/// with `lef_sell_offer` base units left, at `match_price`: the quote amount
/// is the smaller of what the buy has left and what the sell's remainder is
/// worth; the base amount is that quote amount's worth, at most the sell's
/// remainder.
pub open spec fn spec_fill_amounts(lef_buy_offer: u128, lef_sell_offer: u128, match_price: Decimal) -> Result<Fill, ContractError> {
    match Decimal::spec_mul_floor(lef_sell_offer, match_price) {
        Err(e) => Err(e),
        Ok(lef_sell_ask) => {
            let quote_amount = min_u128(lef_buy_offer, lef_sell_ask);
            match Decimal::spec_div_floor(quote_amount, match_price) {
                Err(e) => Err(e),
                Ok(q) => Ok(Fill { quote_amount, base_amount: min_u128(q, lef_sell_offer) }),
            }
        },
    }
}

pub fn fill_amounts(lef_buy_offer: u128, lef_sell_offer: u128, match_price: Decimal) -> (r: Result<Fill, ContractError>)
    ensures
        r == spec_fill_amounts(lef_buy_offer, lef_sell_offer, match_price),
        r is Ok ==> r->Ok_0.quote_amount <= lef_buy_offer && r->Ok_0.base_amount <= lef_sell_offer,
{
    let lef_sell_ask = match Decimal::mul_floor(lef_sell_offer, match_price) {
        Ok(v) => v,
        Err(e) => { return Err(e); },
    };
    let quote_amount = if lef_buy_offer <= lef_sell_ask { lef_buy_offer } else { lef_sell_ask };
    let q = match Decimal::div_floor(quote_amount, match_price) {
        Ok(v) => v,
        Err(e) => { return Err(e); },
    };
    let base_amount = if q <= lef_sell_offer { q } else { lef_sell_offer };
    Ok(Fill { quote_amount, base_amount })
}

/// The commission on a leg: one thousandth of it, floored.
pub open spec fn spec_commission(amount: u128) -> u128 {
    amount / 1000
}

/// How a leg of `amount` is shared out when the relayer's flat fee is
/// `relay_fee`: the commission first, then the flat fee out of what is left,
/// the rest to the trader.
pub open spec fn spec_split_leg(amount: u128, relay_fee: u128) -> LegSplit {
    let reward_fee = spec_commission(amount);
    let rest = (amount - reward_fee) as u128;
    let relayer_fee = min_u128(relay_fee, rest);
    LegSplit { reward_fee, relayer_fee, trader_amount: (rest - relayer_fee) as u128 }
}

proof fn lemma_commission(amount: u128)
    ensures
        Decimal::spec_mul_floor(amount, Decimal { atomics: COMMISSION_RATE_ATOMICS }) == Ok::<u128, ContractError>(
            spec_commission(amount),
        ),
        spec_commission(amount) <= amount,
{
    lemma_mul_floor_bounded(amount, Decimal { atomics: COMMISSION_RATE_ATOMICS });
    assert(ratio_floor(amount, COMMISSION_RATE_ATOMICS, DECIMAL_FRACTIONAL) == amount as int / 1000) by (nonlinear_arith)
        requires
            COMMISSION_RATE_ATOMICS == 1_000_000_000_000_000u128,
            DECIMAL_FRACTIONAL == 1_000_000_000_000_000_000u128,
    ;
}

pub fn split_leg(amount: u128, relay_fee: u128) -> (s: LegSplit)
    ensures
        s == spec_split_leg(amount, relay_fee),
        s.reward_fee + s.relayer_fee + s.trader_amount == amount,
{
    proof {
        lemma_commission(amount);
    }
    let reward_fee = match Decimal::mul_floor(amount, Decimal { atomics: COMMISSION_RATE_ATOMICS }) {
        Ok(v) => v,
        Err(_) => 0,
    };
    let rest = amount - reward_fee;
    let relayer_fee = if relay_fee <= rest { relay_fee } else { rest };
    LegSplit { reward_fee, relayer_fee, trader_amount: rest - relayer_fee }
}

/// The relayer's flat fee in quote units at `match_price`.
pub open spec fn spec_quote_relay_fee(match_price: Decimal) -> u128 {
    ratio_floor(RELAY_FEE, match_price.atomics, DECIMAL_FRACTIONAL) as u128
}

pub fn quote_relay_fee(match_price: Decimal) -> (f: u128)
    ensures
        f == spec_quote_relay_fee(match_price),
        Decimal::spec_mul_floor(RELAY_FEE, match_price) == Ok::<u128, ContractError>(f),
{
    proof {
        assert(0 <= ratio_floor(RELAY_FEE, match_price.atomics, DECIMAL_FRACTIONAL) <= match_price.atomics) by (nonlinear_arith)
            requires
                RELAY_FEE == 300u128,
                DECIMAL_FRACTIONAL == 1_000_000_000_000_000_000u128,
        ;
    }
    match Decimal::mul_floor(RELAY_FEE, match_price) {
        Ok(v) => v,
        Err(_) => 0,
    }
}

/// The price at which a buy and a sell are matched. On one grid step both
/// trade at the step's price. Otherwise the older order is favoured: a sell
/// that is older than the buy gets the buy's price, and any other sell
/// trades at its own.
pub open spec fn spec_match_price(buy: OrderView, sell: OrderView, buy_tick: u128, sell_tick: u128) -> Result<Decimal, ContractError> {
    if buy_tick == sell_tick {
        Decimal::spec_from_tick(buy_tick)
    } else if sell.order_id < buy.order_id {
        buy.price()
    } else {
        sell.price()
    }
}

pub fn match_price(buy: &Order, sell: &Order, buy_tick: u128, sell_tick: u128) -> (r: Result<Decimal, ContractError>)
    ensures
        r == spec_match_price(buy@, sell@, buy_tick, sell_tick),
        r is Err ==> r->Err_0.is_arithmetic(),
{
    if buy_tick == sell_tick {
        Decimal::from_tick(buy_tick)
    } else if sell.order_id < buy.order_id {
        buy.get_price()
    } else {
        sell.get_price()
    }
}

/// What one pairwise fill settles.
#[derive(Clone, Copy, Debug, PartialEq, Eq, Structural)]
pub struct MatchResult {
    pub fill: Fill,
    /// The quote leg, paid to the seller.
    pub asker: LegSplit,
    /// The base leg, paid to the buyer.
    pub bidder: LegSplit,
    /// Base units swept from the sell order's remainder into rewards.
    pub sell_dust: u128,
    /// Quote units swept from the buy order's remainder into rewards.
    pub buy_dust: u128,
}

/// A remainder is dust when it is positive but what it would still fetch is
/// zero or below the pair's minimum.
pub open spec fn is_dust(lef_offer: u128, lef_ask: u128, min_quote_coin_amount: u128) -> bool {
    lef_offer > 0 && (lef_ask < min_quote_coin_amount || lef_ask == 0)
}

pub open spec fn swept(o: OrderView, dust: bool) -> OrderView {
    if dust {
        OrderView { status: OrderStatus::Fulfilled, ..o }
    } else {
        o
    }
}

/// One pairwise fill of `buy` against `sell` at `match_price`, as a value:
/// `Ok(None)` when nothing can change hands, else the two orders after the
/// fill and what is settled.
pub open spec fn spec_match_orders(buy: OrderView, sell: OrderView, match_price: Decimal, min_quote_coin_amount: u128) -> Result<Option<(OrderView, OrderView, MatchResult)>, ContractError> {
    if sell.left_offer() < 0 || buy.left_offer() < 0 {
        Err(ContractError::Underflow)
    } else {
        let lef_sell = sell.left_offer() as u128;
        let lef_buy = buy.left_offer() as u128;
        match spec_fill_amounts(lef_buy, lef_sell, match_price) {
            Err(e) => Err(e),
            Ok(fill) => if fill.quote_amount == 0 || fill.base_amount == 0 {
                Ok(None)
            } else {
                match sell.filled(fill.quote_amount, fill.base_amount) {
                    Err(e) => Err(e),
                    Ok(sell1) => match buy.filled(fill.base_amount, fill.quote_amount) {
                        Err(e) => Err(e),
                        Ok(buy1) => {
                            let lef_sell1 = (lef_sell - fill.base_amount) as u128;
                            let lef_buy1 = (lef_buy - fill.quote_amount) as u128;
                            match Decimal::spec_mul_floor(lef_sell1, match_price) {
                                Err(e) => Err(e),
                                Ok(lef_sell_ask) => match Decimal::spec_div_floor(lef_buy1, match_price) {
                                    Err(e) => Err(e),
                                    Ok(lef_buy_ask) => {
                                        let sd = is_dust(lef_sell1, lef_sell_ask, min_quote_coin_amount);
                                        let bd = is_dust(lef_buy1, lef_buy_ask, min_quote_coin_amount);
                                        Ok(Some((
                                            swept(buy1, bd),
                                            swept(sell1, sd),
                                            MatchResult {
                                                fill,
                                                asker: spec_split_leg(fill.quote_amount, spec_quote_relay_fee(match_price)),
                                                bidder: spec_split_leg(fill.base_amount, RELAY_FEE),
                                                sell_dust: if sd { lef_sell1 } else { 0 },
                                                buy_dust: if bd { lef_buy1 } else { 0 },
                                            },
                                        )))
                                    },
                                },
                            }
                        },
                    },
                }
            },
        }
    }
}

/// Fills `buy` against `sell` at `match_price` and says what is settled.
/// Either leg's fees and payment add up to the leg, and a swept remainder
/// is all that the order had left. After an error the call is to be
/// abandoned: the orders may hold a part of the fill.
pub fn match_orders(buy: &mut Order, sell: &mut Order, match_price: Decimal, min_quote_coin_amount: u128) -> (r: Result<Option<MatchResult>, ContractError>)
    ensures
        match spec_match_orders(old(buy)@, old(sell)@, match_price, min_quote_coin_amount) {
            Err(e) => r == Err::<Option<MatchResult>, ContractError>(e),
            Ok(None) => r == Ok::<Option<MatchResult>, ContractError>(None) && *final(buy) == *old(buy) && *final(sell)
                == *old(sell),
            Ok(Some((b, s, m))) => r == Ok::<Option<MatchResult>, ContractError>(Some(m)) && final(buy)@ == b
                && final(sell)@ == s && final(buy).bidder_addr == old(buy).bidder_addr
                && final(sell).bidder_addr == old(sell).bidder_addr,
        },
        r is Ok ==> final(buy).order_id == old(buy).order_id && final(sell).order_id == old(sell).order_id
            && final(buy).direction == old(buy).direction && final(sell).direction == old(sell).direction
            && final(buy)@.price() == old(buy)@.price() && final(sell)@.price() == old(sell)@.price(),
        r is Err ==> r->Err_0.is_arithmetic(),
        r is Ok && old(buy)@.wf() ==> final(buy)@.wf(),
        r is Ok && old(sell)@.wf() ==> final(sell)@.wf(),
        r matches Ok(Some(m)) ==> {
            &&& m.fill.quote_amount > 0 && m.fill.base_amount > 0
            &&& m.asker.reward_fee + m.asker.relayer_fee + m.asker.trader_amount == m.fill.quote_amount
            &&& m.bidder.reward_fee + m.bidder.relayer_fee + m.bidder.trader_amount == m.fill.base_amount
            &&& final(buy)@.left_offer() == old(buy)@.left_offer() - m.fill.quote_amount
            &&& final(sell)@.left_offer() == old(sell)@.left_offer() - m.fill.base_amount
            &&& final(buy)@.left_offer() >= 0 && final(sell)@.left_offer() >= 0
            &&& m.buy_dust == 0 || (m.buy_dust == final(buy)@.left_offer() && final(buy).status == OrderStatus::Fulfilled)
            &&& m.sell_dust == 0 || (m.sell_dust == final(sell)@.left_offer() && final(sell).status == OrderStatus::Fulfilled)
        },
{
    let lef_sell = match sell.left_offer_amount() {
        Ok(v) => v,
        Err(e) => { return Err(e); },
    };
    let lef_buy = match buy.left_offer_amount() {
        Ok(v) => v,
        Err(e) => { return Err(e); },
    };
    let fill = match fill_amounts(lef_buy, lef_sell, match_price) {
        Ok(v) => v,
        Err(e) => { return Err(e); },
    };
    if fill.quote_amount == 0 || fill.base_amount == 0 {
        return Ok(None);
    }
    match sell.fill(fill.quote_amount, fill.base_amount) {
        Ok(()) => {},
        Err(e) => { return Err(e); },
    }
    match buy.fill(fill.base_amount, fill.quote_amount) {
        Ok(()) => {},
        Err(e) => { return Err(e); },
    }
    let asker = split_leg(fill.quote_amount, quote_relay_fee(match_price));
    let bidder = split_leg(fill.base_amount, RELAY_FEE);
    let lef_sell1 = lef_sell - fill.base_amount;
    let lef_buy1 = lef_buy - fill.quote_amount;
    let lef_sell_ask = match Decimal::mul_floor(lef_sell1, match_price) {
        Ok(v) => v,
        Err(e) => { return Err(e); },
    };
    let lef_buy_ask = match Decimal::div_floor(lef_buy1, match_price) {
        Ok(v) => v,
        Err(e) => { return Err(e); },
    };
    let mut sell_dust: u128 = 0;
    let mut buy_dust: u128 = 0;
    if lef_sell1 > 0 && (lef_sell_ask < min_quote_coin_amount || lef_sell_ask == 0) {
        sell.status = OrderStatus::Fulfilled;
        sell_dust = lef_sell1;
    }
    if lef_buy1 > 0 && (lef_buy_ask < min_quote_coin_amount || lef_buy_ask == 0) {
        buy.status = OrderStatus::Fulfilled;
        buy_dust = lef_buy1;
    }
    Ok(Some(MatchResult { fill, asker, bidder, sell_dust, buy_dust }))
}

} // verus!
