use oraiswap_limit_order::error::ContractError;
use oraiswap_limit_order::math::{multiply_ratio, Decimal};
use oraiswap_limit_order::matching::{fill_amounts, match_orders, match_price, quote_relay_fee, split_leg, Fill, LegSplit};
use oraiswap_limit_order::orderbook::{bytes_eq, clone_bytes, Order, OrderDirection, OrderStatus};
use oraiswap_limit_order::state::{bytes_to_u64, calc_range_end, calc_range_start};
use oraiswap_limit_order::collateral_oracle::SourceType;

const ONE: u128 = 1_000_000_000_000_000_000;

fn order(order_id: u64, direction: OrderDirection, offer: u128, ask: u128) -> Order {
    Order {
        order_id,
        status: OrderStatus::Open,
        direction,
        bidder_addr: vec![order_id as u8],
        offer_amount: offer,
        ask_amount: ask,
        filled_offer_amount: 0,
        filled_ask_amount: 0,
    }
}

#[test]
fn multiply_ratio_floors() {
    assert_eq!(multiply_ratio(5, 99, 100), Ok(4));
    assert_eq!(multiply_ratio(7, 3, 2), Ok(10));
    assert_eq!(multiply_ratio(0, 3, 2), Ok(0));
    assert_eq!(multiply_ratio(u128::MAX, u128::MAX, u128::MAX), Ok(u128::MAX));
}

#[test]
fn multiply_ratio_reports_what_went_wrong() {
    assert_eq!(multiply_ratio(5, 99, 0), Err(ContractError::DivideByZero));
    assert_eq!(multiply_ratio(u128::MAX, 2, 1), Err(ContractError::Overflow));
}

#[test]
fn decimal_from_ratio_and_tick() {
    assert_eq!(Decimal::from_ratio(1, 2), Ok(Decimal { atomics: ONE / 2 }));
    assert_eq!(Decimal::from_ratio(1, 3), Ok(Decimal { atomics: 333_333_333_333_333_333 }));
    assert_eq!(Decimal::from_ratio(1, 0), Err(ContractError::DivideByZero));
    assert_eq!(Decimal::from_ratio(u128::MAX, 1), Err(ContractError::Overflow));
    assert_eq!(Decimal { atomics: 1_234_567_000_000_000_000 }.tick(), 1234);
    assert_eq!(Decimal::from_tick(970), Ok(Decimal { atomics: 970_000_000_000_000_000 }));
    assert_eq!(Decimal::from_tick(u128::MAX), Err(ContractError::Overflow));
}

#[test]
fn decimal_products_and_quotients_floor() {
    let p = Decimal { atomics: 970_000_000_000_000_000 };
    assert_eq!(Decimal::mul_floor(100, p), Ok(97));
    assert_eq!(Decimal::mul_floor(5, p), Ok(4));
    assert_eq!(Decimal::div_floor(97, p), Ok(100));
    assert_eq!(Decimal::div_floor(3, p), Ok(3));
    assert_eq!(Decimal::div_floor(3, Decimal { atomics: 0 }), Err(ContractError::DivideByZero));
    assert_eq!(Decimal::div_floor(u128::MAX, Decimal { atomics: 1 }), Err(ContractError::Overflow));
}

#[test]
fn order_price_is_quote_per_base() {
    // a buy pays 95 quote for 100 base; a sell wants 97 quote for 100 base
    assert_eq!(order(1, OrderDirection::Buy, 95, 100).get_price(), Ok(Decimal { atomics: 950_000_000_000_000_000 }));
    assert_eq!(order(2, OrderDirection::Sell, 100, 97).get_price(), Ok(Decimal { atomics: 970_000_000_000_000_000 }));
    assert!(order(1, OrderDirection::Buy, 95, 100).is_at_tick(OrderDirection::Buy, 950));
    assert!(!order(1, OrderDirection::Buy, 95, 100).is_at_tick(OrderDirection::Sell, 950));
}

#[test]
fn fill_takes_the_smaller_side() {
    let one = Decimal { atomics: ONE };
    assert_eq!(fill_amounts(1000, 400, one), Ok(Fill { quote_amount: 400, base_amount: 400 }));
    assert_eq!(fill_amounts(100, 400, one), Ok(Fill { quote_amount: 100, base_amount: 100 }));
    let p = Decimal { atomics: 970_000_000_000_000_000 };
    assert_eq!(fill_amounts(100, 100, p), Ok(Fill { quote_amount: 97, base_amount: 100 }));
    assert_eq!(fill_amounts(100, 100, Decimal { atomics: 0 }), Err(ContractError::DivideByZero));
}

#[test]
fn leg_is_shared_between_reward_relayer_and_trader() {
    assert_eq!(split_leg(150, 300), LegSplit { reward_fee: 0, relayer_fee: 150, trader_amount: 0 });
    assert_eq!(split_leg(1_000_000, 300), LegSplit { reward_fee: 1000, relayer_fee: 300, trader_amount: 998_700 });
    assert_eq!(split_leg(1999, 300), LegSplit { reward_fee: 1, relayer_fee: 300, trader_amount: 1698 });
    assert_eq!(split_leg(0, 300), LegSplit { reward_fee: 0, relayer_fee: 0, trader_amount: 0 });
    assert_eq!(quote_relay_fee(Decimal { atomics: ONE }), 300);
    assert_eq!(quote_relay_fee(Decimal { atomics: 970_000_000_000_000_000 }), 291);
    assert_eq!(quote_relay_fee(Decimal { atomics: 2 * ONE }), 600);
}

#[test]
fn older_order_is_favoured_in_the_match_price() {
    // a sell that is older than the buy trades at the buy's price
    let buy = order(2, OrderDirection::Buy, 100, 100);
    let sell = order(1, OrderDirection::Sell, 100, 97);
    assert_eq!(match_price(&buy, &sell, 1000, 970), Ok(Decimal { atomics: ONE }));
    // a sell that is younger trades at its own
    let buy = order(1, OrderDirection::Buy, 100, 100);
    let sell = order(2, OrderDirection::Sell, 100, 97);
    assert_eq!(match_price(&buy, &sell, 1000, 970), Ok(Decimal { atomics: 970_000_000_000_000_000 }));
    // on one level the level's price is used
    assert_eq!(match_price(&buy, &sell, 1000, 1000), Ok(Decimal { atomics: ONE }));
}

#[test]
fn partial_fill_of_the_larger_order() {
    let mut buy = order(1, OrderDirection::Buy, 1000, 1000);
    let mut sell = order(2, OrderDirection::Sell, 400, 400);
    let m = match_orders(&mut buy, &mut sell, Decimal { atomics: ONE }, 0).unwrap().unwrap();
    assert_eq!(m.fill, Fill { quote_amount: 400, base_amount: 400 });
    assert_eq!(sell.status, OrderStatus::Fulfilled);
    assert_eq!(buy.status, OrderStatus::PartialFilled);
    assert_eq!((buy.filled_offer_amount, buy.filled_ask_amount), (400, 400));
    assert_eq!((sell.filled_offer_amount, sell.filled_ask_amount), (400, 400));
    assert_eq!(m.asker, LegSplit { reward_fee: 0, relayer_fee: 300, trader_amount: 100 });
    assert_eq!(m.bidder, LegSplit { reward_fee: 0, relayer_fee: 300, trader_amount: 100 });
    assert_eq!((m.sell_dust, m.buy_dust), (0, 0));
}

#[test]
fn remainder_below_the_minimum_is_swept() {
    let mut buy = order(1, OrderDirection::Buy, 100, 100);
    let mut sell = order(2, OrderDirection::Sell, 105, 105);
    let m = match_orders(&mut buy, &mut sell, Decimal { atomics: ONE }, 10).unwrap().unwrap();
    assert_eq!(m.fill, Fill { quote_amount: 100, base_amount: 100 });
    assert_eq!(m.sell_dust, 5);
    assert_eq!(m.buy_dust, 0);
    assert_eq!(sell.status, OrderStatus::Fulfilled);
    assert_eq!(sell.offer_amount - sell.filled_offer_amount, 5);
}

#[test]
fn nothing_to_fill_changes_nothing() {
    let mut buy = order(1, OrderDirection::Buy, 100, 100);
    buy.filled_offer_amount = 100;
    let mut sell = order(2, OrderDirection::Sell, 105, 105);
    let before = (buy.clone(), sell.clone());
    assert_eq!(match_orders(&mut buy, &mut sell, Decimal { atomics: ONE }, 10), Ok(None));
    assert_eq!((buy, sell), before);
}

#[test]
fn order_that_spent_more_than_it_offered_underflows() {
    let mut o = order(1, OrderDirection::Buy, 100, 100);
    o.filled_offer_amount = 101;
    assert_eq!(o.left_offer_amount(), Err(ContractError::Underflow));
    let mut sell = order(2, OrderDirection::Sell, 105, 105);
    assert_eq!(match_orders(&mut o, &mut sell, Decimal { atomics: ONE }, 0), Err(ContractError::Underflow));
}

#[test]
fn fill_marks_the_order() {
    let mut o = order(1, OrderDirection::Buy, 100, 50);
    assert_eq!(o.fill(10, 20), Ok(()));
    assert_eq!((o.filled_ask_amount, o.filled_offer_amount, o.status), (10, 20, OrderStatus::PartialFilled));
    assert_eq!(o.fill(40, 30), Ok(()));
    assert_eq!(o.status, OrderStatus::Fulfilled);
    let before = o.clone();
    assert_eq!(o.fill(u128::MAX, 0), Err(ContractError::Overflow));
    assert_eq!(o, before);
}

#[test]
fn byte_strings_compare_and_copy() {
    assert!(bytes_eq(&vec![1, 2, 3], &vec![1, 2, 3]));
    assert!(!bytes_eq(&vec![1, 2, 3], &vec![1, 2, 4]));
    assert!(!bytes_eq(&vec![1, 2, 3], &vec![1, 2]));
    assert_eq!(clone_bytes(&vec![9, 8, 7]), vec![9, 8, 7]);
}

#[test]
fn range_keys_are_little_endian_ids() {
    assert_eq!(calc_range_start(None), None);
    assert_eq!(calc_range_end(None), None);
    assert_eq!(calc_range_start(Some(258)), Some(vec![2, 1, 0, 0, 0, 0, 0, 0, 1]));
    assert_eq!(calc_range_end(Some(258)), Some(vec![2, 1, 0, 0, 0, 0, 0, 0]));
    assert_eq!(bytes_to_u64(&[2, 1, 0, 0, 0, 0, 0, 0]), Ok(258));
    assert_eq!(bytes_to_u64(&[2, 1, 0, 0, 0, 0, 0, 0, 1]), Ok(258));
    assert_eq!(bytes_to_u64(&[2, 1, 0]), Err(ContractError::CorruptedIndex));
}

#[test]
fn error_messages_are_not_empty() {
    for e in [
        ContractError::Unauthorized,
        ContractError::PairNotFound,
        ContractError::OrderBookAlreadyExists,
        ContractError::InvalidPair,
        ContractError::InsufficientOrderAmountLeft,
        ContractError::OrderNotFound,
        ContractError::AssetMustNotBeZero,
        ContractError::FundMismatch,
        ContractError::BelowMinQuote,
        ContractError::Overflow,
        ContractError::Underflow,
        ContractError::DivideByZero,
        ContractError::CorruptedIndex,
    ] {
        assert!(!e.message().is_empty());
    }
    assert_eq!(ContractError::CorruptedIndex.message(), "Corrupted data found. 8 byte expected.");
}

#[test]
fn price_sources_have_names() {
    assert_eq!(SourceType::MirrorOracle {}.name(), "oraix_oracle");
    assert_eq!(SourceType::FixedPrice { price: Decimal { atomics: ONE } }.name(), "fixed_price");
    assert_eq!(
        SourceType::Terraswap { oraiswap_pair_addr: "pair".to_string(), intermediate_denom: None }.name(),
        "oraiswap"
    );
    assert_eq!(SourceType::Lunax { staking_contract_addr: "s".to_string() }.name(), "lunax");
}
