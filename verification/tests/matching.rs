use oraiswap_limit_order::engine::{find_list_match_price, find_match_orders, page_size};
use oraiswap_limit_order::error::ContractError;
use oraiswap_limit_order::order::{cancel_order, create_pair, excecute_pair, process_reward, store_reward, submit_order, Settlement};
use oraiswap_limit_order::orderbook::{CoinSide, Executor, OrderBook, OrderDirection, OrderStatus};
use oraiswap_limit_order::payment::{coalesce, pay_out, transfer_reward, transfer_to_trader, Payment, Transfer};
use oraiswap_limit_order::query::{query_match_price, query_orderbook, query_orderbook_is_matchable, read_orders, OrderBy};
use oraiswap_limit_order::state::{Storage, Tick};

fn addr(s: &str) -> Vec<u8> {
    s.as_bytes().to_vec()
}

fn pair(min_quote_coin_amount: u128) -> Storage {
    let mut storage = Storage::new();
    let book = OrderBook {
        base_coin_info: addr("orai"),
        quote_coin_info: addr("usdt"),
        precision: None,
        min_quote_coin_amount,
    };
    create_pair(&mut storage, &addr("admin"), &addr("admin"), book).unwrap();
    storage
}

fn buy(storage: &mut Storage, who: &str, offer: u128, ask: u128) -> u64 {
    submit_order(storage, addr(who), OrderDirection::Buy, offer, ask, offer).unwrap()
}

fn sell(storage: &mut Storage, who: &str, offer: u128, ask: u128) -> u64 {
    submit_order(storage, addr(who), OrderDirection::Sell, offer, ask, offer).unwrap()
}

fn run(storage: &mut Storage) -> Settlement {
    excecute_pair(storage, addr("relayer"), addr("reward"), None).unwrap()
}

fn transfer(who: &str, asset: CoinSide, amount: u128) -> Transfer {
    Transfer { address: addr(who), asset, amount }
}

fn counters_match_orders(storage: &Storage) -> bool {
    let at = |direction: OrderDirection, price: u128| {
        storage.orders.iter().filter(|o| o.is_at_tick(direction, price)).count() as u64
    };
    storage.buy_ticks.iter().all(|t| t.total_orders == at(OrderDirection::Buy, t.price))
        && storage.sell_ticks.iter().all(|t| t.total_orders == at(OrderDirection::Sell, t.price))
        && storage.orders.iter().all(|o| {
            let ticks = if o.direction == OrderDirection::Buy { &storage.buy_ticks } else { &storage.sell_ticks };
            ticks.iter().any(|t| o.is_at_tick(o.direction, t.price))
        })
}

fn total(messages: &[Transfer], asset: CoinSide) -> u128 {
    messages.iter().filter(|t| t.asset == asset).map(|t| t.amount).sum()
}

#[test]
fn cross_at_same_price() {
    let mut storage = pair(0);
    buy(&mut storage, "addr0000", 150, 150);
    sell(&mut storage, "addr0001", 150, 150);
    let s = run(&mut storage);
    // both orders are fulfilled and gone
    assert!(storage.orders.is_empty());
    assert!(storage.buy_ticks.is_empty());
    assert!(storage.sell_ticks.is_empty());
    assert_eq!(s.total_matched_orders, 2);
    assert_eq!(s.events.len(), 2);
    assert!(s.events.iter().all(|e| e.order.status == OrderStatus::Fulfilled));
    // a thousandth of 150 is nothing; the flat fee takes the whole leg
    assert_eq!((s.reward.base_amount, s.reward.quote_amount), (0, 0));
    assert_eq!((s.relayer.base_amount, s.relayer.quote_amount), (150, 150));
    assert!(s.messages.is_empty());
    assert_eq!((s.base_released, s.quote_released), (150, 150));
}

#[test]
fn partial_fill() {
    let mut storage = pair(0);
    buy(&mut storage, "addr0000", 1000, 1000);
    sell(&mut storage, "addr0001", 400, 400);
    let s = run(&mut storage);
    assert_eq!(storage.orders.len(), 1);
    let left = &storage.orders[0];
    assert_eq!(left.order_id, 1);
    assert_eq!((left.filled_offer_amount, left.filled_ask_amount), (400, 400));
    assert_eq!(left.status, OrderStatus::PartialFilled);
    assert_eq!(storage.buy_ticks, vec![Tick { price: 1000, total_orders: 1 }]);
    assert!(storage.sell_ticks.is_empty());
    assert_eq!(s.total_matched_orders, 1);
    assert_eq!(
        s.messages,
        vec![transfer("addr0001", CoinSide::Quote, 100), transfer("addr0000", CoinSide::Base, 100)]
    );
    assert_eq!((s.relayer.base_amount, s.relayer.quote_amount), (300, 300));
    // what is left of the offer comes back on cancel
    let refund = cancel_order(&mut storage, &addr("addr0000"), 1).unwrap();
    assert_eq!(refund, transfer("addr0000", CoinSide::Quote, 600));
}

#[test]
fn price_priority() {
    let mut storage = pair(0);
    buy(&mut storage, "a", 100, 100); // 1.00
    buy(&mut storage, "b", 95, 100); // 0.95
    sell(&mut storage, "c", 100, 97); // 0.97
    assert_eq!(find_list_match_price(&storage, None), (vec![1000, 950], vec![970]));
    let s = run(&mut storage);
    // the buy at 1.00 is served, at the younger sell's price
    assert_eq!((s.quote_released, s.base_released), (97, 100));
    assert_eq!(s.total_matched_orders, 2);
    // the buy at 0.95 is untouched
    assert_eq!(storage.orders.len(), 1);
    assert_eq!(storage.orders[0].order_id, 2);
    assert_eq!(storage.orders[0].filled_offer_amount, 0);
    assert_eq!(storage.orders[0].status, OrderStatus::Open);
    assert_eq!(storage.buy_ticks, vec![Tick { price: 950, total_orders: 1 }]);
}

#[test]
fn older_wins_tie_break() {
    // the sell is older: the trade is made at the buy's price, 1.00
    let mut storage = pair(0);
    sell(&mut storage, "c", 100, 97);
    buy(&mut storage, "a", 100, 100);
    let s = run(&mut storage);
    assert_eq!((s.quote_released, s.base_released), (100, 100));

    // the sell is younger: the trade is made at its own price, 0.97
    let mut storage = pair(0);
    buy(&mut storage, "a", 100, 100);
    sell(&mut storage, "c", 100, 97);
    let s = run(&mut storage);
    assert_eq!((s.quote_released, s.base_released), (97, 100));
}

#[test]
fn dust_sweep() {
    let mut storage = pair(10);
    sell(&mut storage, "b", 105, 105);
    buy(&mut storage, "a", 100, 100);
    let s = run(&mut storage);
    // the 5 base units left of the sell go to the reward account
    assert_eq!(s.reward.base_amount, 5);
    assert_eq!(s.reward.quote_amount, 0);
    assert!(storage.orders.is_empty());
    assert!(storage.sell_ticks.is_empty());
    assert_eq!(s.events.len(), 3);
    let swept = &s.events[2];
    assert_eq!(swept.order.order_id, 1);
    assert_eq!(swept.order.status, OrderStatus::Fulfilled);
    assert_eq!((swept.fee, swept.fee_asset), (5, CoinSide::Base));
    assert_eq!((s.base_released, s.quote_released), (105, 100));
    assert_eq!(s.total_matched_orders, 2);
}

#[test]
fn stuck_row_cleanup() {
    let mut storage = pair(0);
    buy(&mut storage, "a", 100, 100);
    sell(&mut storage, "b", 100, 100);
    buy(&mut storage, "c", 50, 50);
    storage.orders[0].status = OrderStatus::Fulfilled;
    let s = run(&mut storage);
    assert_eq!(s.events.len(), 3);
    assert!(s.events[0].removed);
    assert_eq!(s.events[0].order.order_id, 1);
    // the matcher went on with the next buy
    assert_eq!(storage.orders.len(), 1);
    assert_eq!(storage.orders[0].order_id, 2);
    assert_eq!((storage.orders[0].filled_offer_amount, storage.orders[0].filled_ask_amount), (50, 50));
    assert!(storage.buy_ticks.is_empty());
    assert_eq!(storage.sell_ticks, vec![Tick { price: 1000, total_orders: 1 }]);
}

#[test]
fn stale_level_without_orders_is_walked_over() {
    let mut storage = pair(0);
    sell(&mut storage, "b", 100, 100);
    storage.buy_ticks.push(Tick { price: 1000, total_orders: 1 });
    let before = storage.orders.clone();
    let s = run(&mut storage);
    assert!(s.messages.is_empty());
    assert!(s.events.is_empty());
    assert_eq!(storage.orders, before);
}

#[test]
fn reward_threshold() {
    let mut storage = pair(0);
    buy(&mut storage, "a", 600_000_000, 600_000_000);
    sell(&mut storage, "b", 600_000_000, 600_000_000);
    let s = run(&mut storage);
    assert_eq!((s.reward.base_amount, s.reward.quote_amount), (600_000, 600_000));
    assert_eq!(
        s.messages,
        vec![transfer("b", CoinSide::Quote, 599_399_700), transfer("a", CoinSide::Base, 599_399_700)]
    );

    buy(&mut storage, "a", 600_000_000, 600_000_000);
    sell(&mut storage, "b", 600_000_000, 600_000_000);
    let s = run(&mut storage);
    assert_eq!(
        s.messages,
        vec![
            transfer("b", CoinSide::Quote, 599_399_700),
            transfer("a", CoinSide::Base, 599_399_700),
            transfer("reward", CoinSide::Base, 1_200_000),
            transfer("reward", CoinSide::Quote, 1_200_000),
        ]
    );
    assert_eq!((s.reward.base_amount, s.reward.quote_amount), (0, 0));
    assert_eq!((s.relayer.base_amount, s.relayer.quote_amount), (600, 600));
    let stored = process_reward(&storage, addr("reward"));
    assert_eq!((stored.base_amount, stored.quote_amount), (0, 0));
    let stored = process_reward(&storage, addr("relayer"));
    assert_eq!((stored.base_amount, stored.quote_amount), (600, 600));
}

#[test]
fn coalesced_payments() {
    let mut storage = pair(0);
    buy(&mut storage, "a", 3000, 3000);
    sell(&mut storage, "b", 1000, 1000);
    sell(&mut storage, "b", 1000, 1000);
    sell(&mut storage, "b", 1000, 1000);
    let s = run(&mut storage);
    assert_eq!(s.messages, vec![transfer("b", CoinSide::Quote, 2097), transfer("a", CoinSide::Base, 2097)]);
    assert_eq!(s.total_matched_orders, 4);
    assert_eq!((s.reward.base_amount, s.reward.quote_amount), (3, 3));
    assert_eq!((s.relayer.base_amount, s.relayer.quote_amount), (900, 900));
    assert!(storage.orders.is_empty());
}

#[test]
fn older_order_at_a_level_fills_first() {
    let mut storage = pair(0);
    buy(&mut storage, "a", 1000, 1000);
    buy(&mut storage, "b", 1000, 1000);
    sell(&mut storage, "c", 1500, 1500);
    assert_eq!(find_match_orders(&storage, 1000, OrderDirection::Buy, None), vec![1, 2]);
    run(&mut storage);
    // the older buy is gone, the younger one got the rest
    assert_eq!(storage.orders.len(), 1);
    assert_eq!(storage.orders[0].order_id, 2);
    assert_eq!(storage.orders[0].filled_offer_amount, 500);
}

#[test]
fn matcher_without_a_cross_is_a_no_op() {
    let mut storage = pair(0);
    buy(&mut storage, "a", 95, 100);
    sell(&mut storage, "b", 100, 97);
    store_reward(&mut storage, &Executor { address: addr("reward"), base_amount: 5_000_000, quote_amount: 0 });
    let before = storage.clone();
    let s = run(&mut storage);
    assert_eq!(storage, before);
    assert!(s.messages.is_empty());
    assert!(s.events.is_empty());
    assert_eq!(s.total_matched_orders, 0);
    // and again
    run(&mut storage);
    assert_eq!(storage, before);

    // one side empty
    let mut storage = pair(0);
    buy(&mut storage, "a", 95, 100);
    let before = storage.clone();
    assert!(run(&mut storage).messages.is_empty());
    assert_eq!(storage, before);
    assert_eq!(query_orderbook_is_matchable(&storage), Ok(false));
}

#[test]
fn matcher_needs_a_pair() {
    let mut storage = Storage::new();
    assert_eq!(
        excecute_pair(&mut storage, addr("relayer"), addr("reward"), None).unwrap_err(),
        ContractError::PairNotFound
    );
    assert_eq!(query_orderbook_is_matchable(&storage), Err(ContractError::PairNotFound));
    assert_eq!(query_orderbook(&storage).unwrap_err(), ContractError::PairNotFound);
    assert_eq!(query_match_price(&storage, None).unwrap_err(), ContractError::PairNotFound);
}

#[test]
fn nothing_is_lost_in_a_matcher_call() {
    let mut storage = pair(10);
    buy(&mut storage, "a", 13000, 14000);
    buy(&mut storage, "b", 5000, 10000);
    sell(&mut storage, "c", 10000, 9700);
    sell(&mut storage, "d", 2000, 2000);
    buy(&mut storage, "a", 1_200_000_000, 1_500_000_000);
    sell(&mut storage, "c", 1_500_000_000, 1_000_000_000);
    store_reward(&mut storage, &Executor { address: addr("relayer"), base_amount: 999_900, quote_amount: 17 });
    let s = run(&mut storage);
    assert!(s.base_released > 0 && s.quote_released > 0);
    assert_eq!(
        total(&s.messages, CoinSide::Base) + s.reward.base_amount + s.relayer.base_amount,
        999_900 + s.base_released
    );
    assert_eq!(
        total(&s.messages, CoinSide::Quote) + s.reward.quote_amount + s.relayer.quote_amount,
        17 + s.quote_released
    );
    for o in &storage.orders {
        assert!(o.filled_offer_amount <= o.offer_amount);
    }
    assert!(counters_match_orders(&storage));
}

#[test]
fn every_listed_order_has_its_row() {
    let mut storage = pair(0);
    buy(&mut storage, "a", 100, 100);
    buy(&mut storage, "b", 100, 100);
    sell(&mut storage, "c", 50, 100);
    buy(&mut storage, "a", 200, 200);
    cancel_order(&mut storage, &addr("b"), 2).unwrap();
    let listed = find_match_orders(&storage, 1000, OrderDirection::Buy, None);
    assert_eq!(listed, vec![1, 4]);
    for id in listed {
        let o = oraiswap_limit_order::state::read_order(&storage, id).unwrap();
        assert!(o.is_at_tick(OrderDirection::Buy, 1000));
    }
    assert!(counters_match_orders(&storage));
    run(&mut storage);
    assert!(counters_match_orders(&storage));
}

#[test]
fn limit_caps_levels_and_orders() {
    assert_eq!(page_size(None), 10);
    assert_eq!(page_size(Some(3)), 3);
    assert_eq!(page_size(Some(31)), 30);
    let mut storage = pair(0);
    for n in 0..12u128 {
        buy(&mut storage, "a", 100 + n, 100);
    }
    for _ in 0..12 {
        sell(&mut storage, "b", 100, 200);
    }
    let (buys, sells) = find_list_match_price(&storage, None);
    assert_eq!(buys.len(), 10);
    assert_eq!(buys[0], 1110);
    assert_eq!(buys[9], 1020);
    assert_eq!(sells, vec![2000]);
    assert_eq!(find_list_match_price(&storage, Some(2)).0, vec![1110, 1100]);
    assert_eq!(find_match_orders(&storage, 2000, OrderDirection::Sell, None).len(), 10);
    assert_eq!(find_match_orders(&storage, 2000, OrderDirection::Sell, Some(40)).len(), 12);
    assert_eq!(find_match_orders(&storage, 2000, OrderDirection::Sell, Some(2)), vec![13, 14]);
    assert_eq!(query_match_price(&storage, None), Ok((Some(1110), Some(2000))));
    assert_eq!(query_orderbook_is_matchable(&storage), Ok(true));
}

#[test]
fn listing_pages_through_the_table() {
    let mut storage = pair(0);
    for n in 0..5u128 {
        buy(&mut storage, "a", 100 + n, 100);
    }
    let ids = |v: Vec<oraiswap_limit_order::orderbook::Order>| v.iter().map(|o| o.order_id).collect::<Vec<u64>>();
    assert_eq!(ids(read_orders(&storage, None, None, None)), vec![5, 4, 3, 2, 1]);
    assert_eq!(ids(read_orders(&storage, None, Some(2), Some(OrderBy::Ascending))), vec![1, 2]);
    assert_eq!(ids(read_orders(&storage, Some(2), Some(2), Some(OrderBy::Ascending))), vec![3, 4]);
    assert_eq!(ids(read_orders(&storage, Some(4), None, Some(OrderBy::Descending))), vec![3, 2, 1]);
    assert_eq!(ids(read_orders(&storage, Some(1), None, Some(OrderBy::Descending))), Vec::<u64>::new());
}

#[test]
fn payments_to_one_address_are_merged() {
    let list = vec![
        Payment { address: addr("a"), amount: 5 },
        Payment { address: addr("b"), amount: 7 },
        Payment { address: addr("a"), amount: 11 },
    ];
    assert_eq!(
        coalesce(list),
        Ok(vec![Payment { address: addr("a"), amount: 16 }, Payment { address: addr("b"), amount: 7 }])
    );
    let too_much = vec![Payment { address: addr("a"), amount: u128::MAX }, Payment { address: addr("a"), amount: 1 }];
    assert_eq!(coalesce(too_much.clone()), Err(ContractError::Overflow));

    let mut messages = vec![transfer("z", CoinSide::Base, 1)];
    assert_eq!(transfer_to_trader(too_much, vec![], &mut messages), Err(ContractError::Overflow));
    assert_eq!(messages.len(), 1);
    let bidders = vec![Payment { address: addr("a"), amount: 1 }, Payment { address: addr("a"), amount: 2 }];
    let askers = vec![Payment { address: addr("a"), amount: 4 }];
    assert_eq!(transfer_to_trader(bidders, askers, &mut messages), Ok(()));
    assert_eq!(
        messages,
        vec![transfer("z", CoinSide::Base, 1), transfer("a", CoinSide::Quote, 4), transfer("a", CoinSide::Base, 3)]
    );
}

#[test]
fn rewards_are_paid_from_the_threshold_on() {
    let mut reward = Executor { address: addr("w"), base_amount: 999_999, quote_amount: 1_000_000 };
    let mut relayer = Executor { address: addr("r"), base_amount: 2_000_000, quote_amount: 0 };
    let mut messages = Vec::new();
    transfer_reward(&mut reward, &mut relayer, &mut messages);
    assert_eq!(messages, vec![transfer("r", CoinSide::Base, 2_000_000), transfer("w", CoinSide::Quote, 1_000_000)]);
    assert_eq!((reward.base_amount, reward.quote_amount), (999_999, 0));
    assert_eq!((relayer.base_amount, relayer.quote_amount), (0, 0));
    pay_out(&mut reward, CoinSide::Base, &mut messages);
    assert_eq!(messages.len(), 2);
}

#[test]
fn order_served_at_a_better_price_gets_more_than_it_asked() {
    let mut storage = pair(0);
    sell(&mut storage, "s", 200, 100); // 0.50
    buy(&mut storage, "b", 150, 100); // 1.50
    run(&mut storage);
    // the older sell trades at the buy's price and is paid 150 for 100 base
    assert_eq!(storage.orders.len(), 1);
    let left = &storage.orders[0];
    assert_eq!(left.order_id, 1);
    assert_eq!(left.status, OrderStatus::PartialFilled);
    assert_eq!((left.filled_offer_amount, left.offer_amount), (100, 200));
    assert_eq!((left.filled_ask_amount, left.ask_amount), (150, 100));
    assert!(counters_match_orders(&storage));
}

#[test]
fn failing_matcher_call_changes_nothing() {
    let mut storage = pair(0);
    sell(&mut storage, "old", 10_000_000_000_000_000_000, 10_000_000_000_000_000_000); // 1.0
    buy(&mut storage, "b", 300_000_000_000_000_000_000, 1);
    sell(&mut storage, "young", 10, 5); // 0.5
    let before = storage.clone();
    // the young sell is filled first; the old one, at the buy's price, is worth more than 128 bits hold
    let failed = excecute_pair(&mut storage, addr("relayer"), addr("reward"), None);
    assert_eq!(failed.unwrap_err(), ContractError::Overflow);
    assert_eq!(storage, before);
}
