use oraiswap_limit_order::error::ContractError;
use oraiswap_limit_order::order;
use oraiswap_limit_order::order::{create_pair, execute_remove_price, remove_pair, remove_stuff_order};
use oraiswap_limit_order::orderbook::{CoinSide, Order, OrderBook, OrderDirection, OrderStatus};
use oraiswap_limit_order::query::{query_last_order_id, query_order, query_orders, OrderFilter};
use oraiswap_limit_order::math::Decimal;
use oraiswap_limit_order::state::{
    increase_last_order_id, init_last_order_id, read_last_order_id, read_order, read_tick, remove_order, store_order, Storage, Tick,
};

fn addr(s: &str) -> Vec<u8> {
    s.as_bytes().to_vec()
}

fn pair(min_quote_coin_amount: u128) -> Storage {
    let mut storage = Storage::new();
    let book = OrderBook {
        base_coin_info: addr("orai"),
        quote_coin_info: addr("usdt"),
        precision: None,
        min_quote_coin_amount,
    };
    create_pair(&mut storage, &addr("admin"), &addr("admin"), book).unwrap();
    storage
}

fn open_order(order_id: u64, bidder: &str, direction: OrderDirection, offer: u128, ask: u128) -> Order {
    Order {
        order_id,
        status: OrderStatus::Open,
        direction,
        bidder_addr: addr(bidder),
        offer_amount: offer,
        ask_amount: ask,
        filled_offer_amount: 0,
        filled_ask_amount: 0,
    }
}

#[test]
fn submit_order() {
    let mut storage = pair(10);

    // the pair exists already
    let again = OrderBook {
        base_coin_info: addr("orai"),
        quote_coin_info: addr("usdt"),
        precision: None,
        min_quote_coin_amount: 0,
    };
    assert_eq!(
        create_pair(&mut storage, &addr("admin"), &addr("admin"), again),
        Err(ContractError::OrderBookAlreadyExists)
    );

    // nothing was delivered with the order
    assert_eq!(
        order::submit_order(&mut storage, addr("addr0000"), OrderDirection::Buy, 1000000, 1000000, 0),
        Err(ContractError::FundMismatch)
    );
    // 5 is below the minimum of 10
    assert_eq!(
        order::submit_order(&mut storage, addr("addr0000"), OrderDirection::Buy, 5, 5, 5),
        Err(ContractError::BelowMinQuote)
    );
    assert_eq!(order::submit_order(&mut storage, addr("addr0000"), OrderDirection::Buy, 150, 150, 150), Ok(1));
    assert_eq!(
        order::submit_order(&mut storage, addr("addr0000"), OrderDirection::Buy, 150, 0, 150),
        Err(ContractError::AssetMustNotBeZero)
    );
    assert_eq!(
        order::submit_order(&mut storage, addr("addr0000"), OrderDirection::Buy, 0, 150, 0),
        Err(ContractError::AssetMustNotBeZero)
    );
    assert_eq!(order::submit_order(&mut storage, addr("addr0000"), OrderDirection::Buy, 1000000, 1000000, 1000000), Ok(2));
    assert_eq!(order::submit_order(&mut storage, addr("addr0000"), OrderDirection::Sell, 70000, 20000, 70000), Ok(3));

    let order_1 = open_order(1, "addr0000", OrderDirection::Buy, 150, 150);
    let order_2 = open_order(2, "addr0000", OrderDirection::Buy, 1000000, 1000000);
    let order_3 = open_order(3, "addr0000", OrderDirection::Sell, 70000, 20000);
    assert_eq!(order_3, query_order(&storage, 3).unwrap());
    assert_eq!(order_2, query_order(&storage, 2).unwrap());
    assert_eq!(order_1, query_order(&storage, 1).unwrap());

    // a second pair shares the id counter
    let mut other = pair(0);
    other.last_order_id = storage.last_order_id;
    assert_eq!(order::submit_order(&mut other, addr("addr0000"), OrderDirection::Buy, 1000000, 1000000, 1000000), Ok(4));
    let order_4 = open_order(4, "addr0000", OrderDirection::Buy, 1000000, 1000000);
    assert_eq!(order_4, query_order(&other, 4).unwrap());
    assert_eq!(query_last_order_id(&other), 4);
}

#[test]
fn cancel_order_native_token() {
    let mut storage = pair(0);
    assert_eq!(order::submit_order(&mut storage, addr("addr0000"), OrderDirection::Buy, 500000, 500000, 500000), Ok(1));

    // not the bidder
    assert_eq!(order::cancel_order(&mut storage, &addr("addr0001"), 1).unwrap_err(), ContractError::Unauthorized);

    let refund = order::cancel_order(&mut storage, &addr("addr0000"), 1).unwrap();
    assert_eq!(refund.address, addr("addr0000"));
    assert_eq!(refund.amount, 500000);
    assert_eq!(refund.asset, CoinSide::Quote);

    // no such order any more
    assert_eq!(order::cancel_order(&mut storage, &addr("addr0000"), 1).unwrap_err(), ContractError::OrderNotFound);

    assert_eq!(order::submit_order(&mut storage, addr("addr0000"), OrderDirection::Sell, 1234560, 1000000, 1234560), Ok(2));
    let refund = order::cancel_order(&mut storage, &addr("addr0000"), 2).unwrap();
    assert_eq!(refund.amount, 1234560);
    assert_eq!(refund.asset, CoinSide::Base);
}

#[test]
fn cancel_order_token() {
    let mut storage = pair(0);
    assert_eq!(
        order::submit_order(&mut storage, addr("addr0000"), OrderDirection::Buy, 100000, 100000, 99999),
        Err(ContractError::FundMismatch)
    );
    assert_eq!(order::submit_order(&mut storage, addr("addr0000"), OrderDirection::Buy, 100000, 100000, 100000), Ok(1));
    assert_eq!(order::cancel_order(&mut storage, &addr("addr0001"), 1).unwrap_err(), ContractError::Unauthorized);
    let refund = order::cancel_order(&mut storage, &addr("addr0000"), 1).unwrap();
    assert_eq!(refund.amount, 100000);
    assert_eq!(order::cancel_order(&mut storage, &addr("addr0000"), 1).unwrap_err(), ContractError::OrderNotFound);
}

#[test]
fn orders_querier() {
    let mut first = pair(10);
    let mut second = pair(0);
    assert_eq!(order::submit_order(&mut first, addr("addr0000"), OrderDirection::Buy, 1000000, 1000000, 1000000), Ok(1));
    second.last_order_id = first.last_order_id;
    assert_eq!(order::submit_order(&mut second, addr("addr0000"), OrderDirection::Buy, 1000000, 1000000, 1000000), Ok(2));

    let order_1 = open_order(1, "addr0000", OrderDirection::Buy, 1000000, 1000000);
    let order_2 = open_order(2, "addr0000", OrderDirection::Buy, 1000000, 1000000);

    assert_eq!(
        vec![order_2.clone()],
        query_orders(&second, None, OrderFilter::Bidder(addr("addr0000")), None, None, Some(1)).unwrap()
    );
    assert_eq!(vec![order_1.clone()], query_orders(&first, None, OrderFilter::All, None, None, Some(1)).unwrap());
    assert_eq!(vec![order_2.clone()], query_orders(&second, None, OrderFilter::All, None, None, Some(2)).unwrap());
    assert_eq!(
        Vec::<Order>::new(),
        query_orders(&second, None, OrderFilter::Bidder(addr("addr0001")), None, None, None).unwrap()
    );
    assert_eq!(vec![order_1.clone()], query_orders(&first, None, OrderFilter::All, Some(2), None, Some(2)).unwrap());
    assert_eq!(Vec::<Order>::new(), query_orders(&first, None, OrderFilter::All, Some(1), None, Some(1)).unwrap());

    // the one buy level of the first pair, and the orders at its price
    assert_eq!(first.buy_ticks, vec![Tick { price: 1000, total_orders: 1 }]);
    let price = Decimal { atomics: 1_000_000_000_000_000_000 };
    assert_eq!(vec![order_1], query_orders(&first, None, OrderFilter::Price(price), None, None, Some(1)).unwrap());
}

#[test]
fn remove_orderbook_pair() {
    let mut storage = pair(0);
    assert_eq!(order::submit_order(&mut storage, addr("addr0000"), OrderDirection::Sell, 12345, 11111, 12345), Ok(1));
    assert_eq!(order::submit_order(&mut storage, addr("addr0001"), OrderDirection::Sell, 9700, 12222, 9700), Ok(2));
    assert_eq!(order::submit_order(&mut storage, addr("addr0002"), OrderDirection::Buy, 13000, 14000, 13000), Ok(3));

    assert_eq!(remove_pair(&mut storage, &addr("addr0001"), &addr("admin")), Err(ContractError::Unauthorized));
    assert!(storage.orderbook.is_some());
    assert_eq!(remove_pair(&mut storage, &addr("admin"), &addr("admin")), Ok(()));
    assert!(storage.orderbook.is_none());

    // the orders stay behind, but the pair takes no more calls
    assert_eq!(storage.orders.len(), 3);
    assert_eq!(query_order(&storage, 1).unwrap_err(), ContractError::PairNotFound);
    assert_eq!(
        order::submit_order(&mut storage, addr("addr0000"), OrderDirection::Buy, 1499, 1900, 1499),
        Err(ContractError::PairNotFound)
    );
    assert_eq!(order::cancel_order(&mut storage, &addr("addr0000"), 1).unwrap_err(), ContractError::PairNotFound);
}

#[test]
fn ids_increase_and_orders_keep_them() {
    let mut storage = pair(0);
    let mut last = 0;
    for n in 1..=5u128 {
        let id = order::submit_order(&mut storage, addr("a"), OrderDirection::Buy, 100 * n, 100, 100 * n).unwrap();
        assert!(id > last);
        last = id;
        assert_eq!(read_last_order_id(&storage), id);
    }
    let ids: Vec<u64> = storage.orders.iter().map(|o| o.order_id).collect();
    assert_eq!(ids, vec![1, 2, 3, 4, 5]);
}

#[test]
fn id_counter_starts_at_zero_and_stops_at_the_top() {
    let mut storage = Storage::new();
    storage.last_order_id = 41;
    init_last_order_id(&mut storage);
    assert_eq!(read_last_order_id(&storage), 0);
    assert_eq!(increase_last_order_id(&mut storage), Ok(1));
    storage.last_order_id = u64::MAX;
    assert_eq!(increase_last_order_id(&mut storage), Err(ContractError::Overflow));
    assert_eq!(storage.last_order_id, u64::MAX);
}

#[test]
fn tick_counter_is_the_number_of_orders_at_the_level() {
    let mut storage = pair(0);
    order::submit_order(&mut storage, addr("a"), OrderDirection::Buy, 100, 100, 100).unwrap();
    order::submit_order(&mut storage, addr("b"), OrderDirection::Buy, 2000, 2000, 2000).unwrap();
    order::submit_order(&mut storage, addr("c"), OrderDirection::Buy, 95, 100, 95).unwrap();
    order::submit_order(&mut storage, addr("d"), OrderDirection::Sell, 100, 100, 100).unwrap();
    assert_eq!(
        storage.buy_ticks,
        vec![Tick { price: 950, total_orders: 1 }, Tick { price: 1000, total_orders: 2 }]
    );
    assert_eq!(storage.sell_ticks, vec![Tick { price: 1000, total_orders: 1 }]);
    assert_eq!(read_tick(&storage.buy_ticks, 1000), 2);
    assert_eq!(read_tick(&storage.buy_ticks, 999), 0);

    order::cancel_order(&mut storage, &addr("a"), 1).unwrap();
    assert_eq!(read_tick(&storage.buy_ticks, 1000), 1);
    order::cancel_order(&mut storage, &addr("b"), 2).unwrap();
    assert_eq!(storage.buy_ticks, vec![Tick { price: 950, total_orders: 1 }]);
}

#[test]
fn submit_then_cancel_gives_everything_back() {
    let mut storage = pair(0);
    order::submit_order(&mut storage, addr("x"), OrderDirection::Sell, 777, 1000, 777).unwrap();
    let before = storage.clone();
    let id = order::submit_order(&mut storage, addr("a"), OrderDirection::Buy, 123456, 1000, 123456).unwrap();
    let refund = order::cancel_order(&mut storage, &addr("a"), id).unwrap();
    assert_eq!(refund.amount, 123456);
    assert_eq!(refund.asset, CoinSide::Quote);
    assert_eq!(storage.orders, before.orders);
    assert_eq!(storage.buy_ticks, before.buy_ticks);
    assert_eq!(storage.sell_ticks, before.sell_ticks);
    assert_eq!(storage.last_order_id, before.last_order_id + 1);
}

#[test]
fn store_and_remove_keep_the_table_in_order() {
    let mut storage = Storage::new();
    storage.last_order_id = 9;
    assert_eq!(store_order(&mut storage, open_order(5, "a", OrderDirection::Buy, 10, 10), true), Ok(1));
    assert_eq!(store_order(&mut storage, open_order(2, "b", OrderDirection::Buy, 10, 10), true), Ok(2));
    assert_eq!(store_order(&mut storage, open_order(7, "c", OrderDirection::Sell, 10, 20), true), Ok(1));
    let ids: Vec<u64> = storage.orders.iter().map(|o| o.order_id).collect();
    assert_eq!(ids, vec![2, 5, 7]);
    assert_eq!(storage.sell_ticks, vec![Tick { price: 2000, total_orders: 1 }]);

    // writing an order again replaces its row and counts nothing
    let mut changed = open_order(5, "a", OrderDirection::Buy, 10, 10);
    changed.filled_offer_amount = 4;
    changed.status = OrderStatus::PartialFilled;
    assert_eq!(store_order(&mut storage, changed.clone(), false), Ok(2));
    assert_eq!(storage.orders.len(), 3);
    assert_eq!(read_order(&storage, 5).unwrap(), changed);

    assert_eq!(remove_order(&mut storage, &changed), Ok(1));
    assert_eq!(read_order(&storage, 5).unwrap_err(), ContractError::OrderNotFound);
    // removing it again changes nothing
    let snapshot = storage.clone();
    assert_eq!(remove_order(&mut storage, &changed), Ok(1));
    assert_eq!(storage, snapshot);
}

#[test]
fn price_that_does_not_fit_is_refused() {
    let mut storage = pair(0);
    let before = storage.clone();
    assert_eq!(
        order::submit_order(&mut storage, addr("a"), OrderDirection::Buy, u128::MAX, 1, u128::MAX),
        Err(ContractError::Overflow)
    );
    assert_eq!(storage, before);
}

#[test]
fn administrator_removes_orders_and_levels() {
    let mut storage = pair(0);
    order::submit_order(&mut storage, addr("a"), OrderDirection::Buy, 100, 100, 100).unwrap();
    order::submit_order(&mut storage, addr("b"), OrderDirection::Buy, 100, 100, 100).unwrap();

    assert_eq!(
        remove_stuff_order(&mut storage, &addr("a"), &addr("admin"), 1).unwrap_err(),
        ContractError::Unauthorized
    );
    assert_eq!(
        remove_stuff_order(&mut storage, &addr("admin"), &addr("admin"), 9).unwrap_err(),
        ContractError::OrderNotFound
    );
    let gone = remove_stuff_order(&mut storage, &addr("admin"), &addr("admin"), 1).unwrap();
    assert_eq!(gone, open_order(1, "a", OrderDirection::Buy, 100, 100));
    assert_eq!(storage.buy_ticks, vec![Tick { price: 1000, total_orders: 1 }]);

    let one = Decimal { atomics: 1_000_000_000_000_000_000 };
    assert_eq!(
        execute_remove_price(&mut storage, &addr("b"), &addr("admin"), one, OrderDirection::Buy),
        Err(ContractError::Unauthorized)
    );
    assert_eq!(execute_remove_price(&mut storage, &addr("admin"), &addr("admin"), one, OrderDirection::Buy), Ok(1));
    assert!(storage.buy_ticks.is_empty());
    // the order itself is still there
    assert_eq!(storage.orders.len(), 1);
    assert_eq!(execute_remove_price(&mut storage, &addr("admin"), &addr("admin"), one, OrderDirection::Buy), Ok(0));
}

#[test]
fn update_order() {
    let mut storage = pair(10);
    assert_eq!(order::submit_order(&mut storage, addr("addr0000"), OrderDirection::Buy, 150, 150, 150), Ok(1));
    assert_eq!(order::submit_order(&mut storage, addr("addr0000"), OrderDirection::Buy, 1000000, 1000000, 1000000), Ok(2));
    assert_eq!(order::submit_order(&mut storage, addr("addr0000"), OrderDirection::Sell, 70000, 20000, 70000), Ok(3));
    assert_eq!(open_order(1, "addr0000", OrderDirection::Buy, 150, 150), query_order(&storage, 1).unwrap());

    // order 3 now offers 50000 for 20000
    let refund = order::update_order(&mut storage, &addr("addr0000"), 3, 50000, 20000, 50000).unwrap();
    assert_eq!(refund.amount, 70000);
    assert_eq!(refund.asset, CoinSide::Base);
    assert_eq!(open_order(3, "addr0000", OrderDirection::Sell, 50000, 20000), query_order(&storage, 3).unwrap());
    assert_eq!(storage.sell_ticks, vec![Tick { price: 400, total_orders: 1 }]);

    // order 2 now offers 500000 for 1000000
    order::update_order(&mut storage, &addr("addr0000"), 2, 500000, 1000000, 500000).unwrap();
    assert_eq!(open_order(2, "addr0000", OrderDirection::Buy, 500000, 1000000), query_order(&storage, 2).unwrap());

    // order 1 now offers 50 for 60
    order::update_order(&mut storage, &addr("addr0000"), 1, 50, 60, 50).unwrap();
    assert_eq!(open_order(1, "addr0000", OrderDirection::Buy, 50, 60), query_order(&storage, 1).unwrap());
    assert_eq!(
        storage.buy_ticks,
        vec![Tick { price: 500, total_orders: 1 }, Tick { price: 833, total_orders: 1 }]
    );

    // asset must not be zero
    let before = storage.clone();
    assert_eq!(
        order::update_order(&mut storage, &addr("addr0000"), 1, 50, 0, 50).unwrap_err(),
        ContractError::AssetMustNotBeZero
    );
    assert_eq!(
        order::update_order(&mut storage, &addr("addr0001"), 1, 50, 60, 50).unwrap_err(),
        ContractError::Unauthorized
    );
    assert_eq!(
        order::update_order(&mut storage, &addr("addr0000"), 9, 50, 60, 50).unwrap_err(),
        ContractError::OrderNotFound
    );
    assert_eq!(
        order::update_order(&mut storage, &addr("addr0000"), 1, 50, 60, 49).unwrap_err(),
        ContractError::FundMismatch
    );
    assert_eq!(storage, before);
    let ids: Vec<u64> = storage.orders.iter().map(|o| o.order_id).collect();
    assert_eq!(ids, vec![1, 2, 3]);
}

#[test]
fn partly_filled_order_is_updated_with_what_it_has_spent() {
    let mut storage = pair(0);
    order::submit_order(&mut storage, addr("a"), OrderDirection::Buy, 1000, 1000, 1000).unwrap();
    storage.orders[0].filled_offer_amount = 400;
    storage.orders[0].filled_ask_amount = 400;
    storage.orders[0].status = OrderStatus::PartialFilled;
    assert_eq!(
        order::update_order(&mut storage, &addr("a"), 1, 400, 1000, 0).unwrap_err(),
        ContractError::InsufficientOrderAmountLeft
    );
    let refund = order::update_order(&mut storage, &addr("a"), 1, 900, 1000, 500).unwrap();
    assert_eq!(refund.amount, 600);
    let o = query_order(&storage, 1).unwrap();
    assert_eq!((o.offer_amount, o.ask_amount, o.filled_offer_amount, o.filled_ask_amount), (900, 1000, 400, 400));
    assert_eq!(storage.buy_ticks, vec![Tick { price: 900, total_orders: 1 }]);
}

#[test]
fn administrator_clears_an_order_by_status() {
    let mut storage = pair(0);
    order::submit_order(&mut storage, addr("a"), OrderDirection::Sell, 100, 100, 100).unwrap();
    assert_eq!(order::query_status(&storage, 1, OrderStatus::Open), Ok(OrderDirection::Sell));
    assert_eq!(order::query_status(&storage, 1, OrderStatus::Fulfilled), Err(ContractError::OrderNotFound));
    assert_eq!(order::query_status(&storage, 2, OrderStatus::Open), Err(ContractError::OrderNotFound));
    assert_eq!(
        order::execute_remove_status(&mut storage, &addr("a"), &addr("admin"), 1, OrderStatus::Open),
        Err(ContractError::Unauthorized)
    );
    assert_eq!(
        order::execute_remove_status(&mut storage, &addr("admin"), &addr("admin"), 1, OrderStatus::Fulfilled),
        Ok(false)
    );
    assert_eq!(storage.orders.len(), 1);
    assert_eq!(
        order::execute_remove_status(&mut storage, &addr("admin"), &addr("admin"), 1, OrderStatus::Open),
        Ok(true)
    );
    assert!(storage.orders.is_empty());
    assert!(storage.sell_ticks.is_empty());
}

#[test]
fn pair_is_registered_once_by_the_administrator() {
    let book = |base: &str, quote: &str| OrderBook {
        base_coin_info: addr(base),
        quote_coin_info: addr(quote),
        precision: None,
        min_quote_coin_amount: 0,
    };
    let mut storage = Storage::new();
    assert_eq!(
        create_pair(&mut storage, &addr("addr0001"), &addr("admin"), book("orai", "usdt")),
        Err(ContractError::Unauthorized)
    );
    assert_eq!(
        create_pair(&mut storage, &addr("admin"), &addr("admin"), book("orai", "orai")),
        Err(ContractError::InvalidPair)
    );
    assert!(storage.orderbook.is_none());
    assert_eq!(create_pair(&mut storage, &addr("admin"), &addr("admin"), book("orai", "usdt")), Ok(()));
    assert_eq!(storage.orderbook, Some(book("orai", "usdt")));
}
