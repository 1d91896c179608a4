use vstd::prelude::*;
use crate::engine::{min_int, page_size, spec_page_size};
use crate::error::ContractError;
use crate::math::Decimal;
use crate::orderbook::{bytes_eq, Order, OrderBook, OrderDirection, OrderView};
use crate::state::{has_order, order_slot, read_last_order_id, read_order, views, Storage};

verus! {

/// The direction in which a listing walks the order table.
#[derive(Clone, Copy, Debug, PartialEq, Eq, Structural)]
pub enum OrderBy {
    Ascending,
    Descending,
}

/// Which orders a listing shows.
#[derive(Clone, Debug, PartialEq, Eq)]
pub enum OrderFilter {
    /// The orders of one bidder.
    Bidder(Vec<u8>),
    /// The orders at the price level of one price.
    Price(Decimal),
    /// The orders of one side of the book; the buy side when none is named.
    Tick,
    /// All orders.
    All,
}

/// The direction that a number stands for: 1 is ascending, 2 is descending.
pub fn order_by_from(value: i32) -> (r: Option<OrderBy>)
    ensures
        value == 1 ==> r == Some(OrderBy::Ascending),
        value == 2 ==> r == Some(OrderBy::Descending),
        value != 1 && value != 2 ==> r is None,
{
    if value == 1 {
        Some(OrderBy::Ascending)
    } else if value == 2 {
        Some(OrderBy::Descending)
    } else {
        None
    }
}

/// A listing walks upwards only when asked to; it walks downwards when
/// nothing is said.
pub open spec fn is_ascending(order_by: Option<OrderBy>) -> bool {
    order_by == Some(OrderBy::Ascending)
}

pub open spec fn side_matches(o: OrderView, direction: Option<OrderDirection>) -> bool {
    match direction {
        Some(d) => o.direction == d,
        None => true,
    }
}

/// Whether the filter and the side asked for let an order through.
pub open spec fn filter_selects(o: OrderView, direction: Option<OrderDirection>, filter: OrderFilter) -> bool {
    match filter {
        OrderFilter::Bidder(a) => o.bidder_addr == a@ && side_matches(o, direction),
        OrderFilter::Price(p) => o.price() is Ok && o.price()->Ok_0.spec_tick() == p.spec_tick() && side_matches(
            o,
            direction,
        ),
        OrderFilter::Tick => o.direction == match direction {
            Some(d) => d,
            None => OrderDirection::Buy,
        },
        OrderFilter::All => side_matches(o, direction),
    }
}

/// Whether an order lies beyond the cursor: above it on the way up, below
/// it on the way down. Without a cursor every order does.
pub open spec fn beyond_cursor(o: OrderView, start_after: Option<u64>, ascending: bool) -> bool {
    match start_after {
        Some(c) => if ascending { o.order_id > c } else { o.order_id < c },
        None => true,
    }
}

/// The order table in the direction of the walk.
pub open spec fn walk(orders: Seq<Order>, ascending: bool) -> Seq<Order> {
    if ascending { orders } else { orders.reverse() }
}

/// The orders of a walk that the listing shows, in the order of the walk.
pub open spec fn picked(walk: Seq<Order>, direction: Option<OrderDirection>, filter: OrderFilter, start_after: Option<u64>, ascending: bool) -> Seq<OrderView>
    decreases walk.len(),
{
    if walk.len() == 0 {
        Seq::empty()
    } else {
        let rest = picked(walk.drop_last(), direction, filter, start_after, ascending);
        let o = walk.last()@;
        if filter_selects(o, direction, filter) && beyond_cursor(o, start_after, ascending) {
            rest.push(o)
        } else {
            rest
        }
    }
}

/// One page of a listing: the first orders that it shows, at most a page of them.
pub open spec fn page(orders: Seq<Order>, direction: Option<OrderDirection>, filter: OrderFilter, start_after: Option<u64>, limit: Option<u32>, order_by: Option<OrderBy>) -> Seq<OrderView> {
    let all = picked(walk(orders, is_ascending(order_by)), direction, filter, start_after, is_ascending(order_by));
    all.take(min_int(spec_page_size(limit) as int, all.len() as int))
}

fn selects(o: &Order, direction: Option<OrderDirection>, filter: &OrderFilter, start_after: Option<u64>, ascending: bool) -> (r: bool)
    ensures
        r == (filter_selects(o@, direction, *filter) && beyond_cursor(o@, start_after, ascending)),
{
    let beyond = match start_after {
        Some(c) => if ascending { o.order_id > c } else { o.order_id < c },
        None => true,
    };
    let side = match direction {
        Some(d) => o.direction == d,
        None => true,
    };
    let through = match filter {
        OrderFilter::Bidder(a) => bytes_eq(&o.bidder_addr, a) && side,
        OrderFilter::Price(p) => {
            match o.get_price() {
                Ok(q) => q.tick() == p.tick() && side,
                Err(_) => false,
            }
        },
        OrderFilter::Tick => {
            match direction {
                Some(d) => o.direction == d,
                None => o.direction == OrderDirection::Buy,
            }
        },
        OrderFilter::All => side,
    };
    through && beyond
}

/// One page of the orders that a filter lets through, walking the order
/// table upwards or, when nothing else is asked, downwards, from the
/// cursor on.
pub fn read_orders_with_indexer(storage: &Storage, direction: Option<OrderDirection>, filter: &OrderFilter, start_after: Option<u64>, limit: Option<u32>, order_by: Option<OrderBy>) -> (out: Vec<Order>)
    ensures
        views(out@) == page(storage.orders@, direction, *filter, start_after, limit, order_by),
{
    let ascending = match order_by {
        Some(OrderBy::Ascending) => true,
        _ => false,
    };
    let n = page_size(limit);
    let len = storage.orders.len();
    let ghost w = walk(storage.orders@, ascending);
    let mut out: Vec<Order> = Vec::new();
    let mut k: usize = 0;
    while k < len
        invariant
            k <= len,
            len == storage.orders@.len(),
            w == walk(storage.orders@, ascending),
            w.len() == len,
            views(out@) == picked(w.take(k as int), direction, *filter, start_after, ascending),
        decreases len - k,
    {
        let i = if ascending { k } else { len - 1 - k };
        proof {
            assert(w.take(k + 1).drop_last() =~= w.take(k as int));
            assert(w.take(k + 1).last() == storage.orders@[i as int]);
        }
        let ghost before = out@;
        if selects(&storage.orders[i], direction, filter, start_after, ascending) {
            out.push(storage.orders[i].duplicate());
            proof {
                assert(views(out@) =~= views(before).push(storage.orders@[i as int]@));
            }
        }
        k += 1;
    }
    proof {
        assert(w.take(len as int) =~= w);
    }
    if out.len() > n {
        let ghost full = out@;
        out.truncate(n);
        proof {
            assert(views(out@) =~= views(full).take(n as int));
        }
    } else {
        proof {
            assert(views(out@).take(out@.len() as int) =~= views(out@));
        }
    }
    out
}

/// One page of the order table, upwards or, when nothing else is asked,
/// downwards, from the cursor on.
pub fn read_orders(storage: &Storage, start_after: Option<u64>, limit: Option<u32>, order_by: Option<OrderBy>) -> (out: Vec<Order>)
    ensures
        views(out@) == page(storage.orders@, None, OrderFilter::All, start_after, limit, order_by),
{
    read_orders_with_indexer(storage, None, &OrderFilter::All, start_after, limit, order_by)
}

/// The order with the given id.
pub fn query_order(storage: &Storage, order_id: u64) -> (r: Result<Order, ContractError>)
    ensures
        storage.orderbook is None ==> r is Err && r->Err_0 == ContractError::PairNotFound,
        storage.orderbook is Some && !has_order(storage.orders@, order_id) ==> r is Err && r->Err_0 == ContractError::OrderNotFound,
        storage.orderbook is Some && has_order(storage.orders@, order_id) ==> r is Ok && r->Ok_0@ == storage.orders@[order_slot(storage.orders@, order_id)]@,
{
    if storage.orderbook.is_none() {
        return Err(ContractError::PairNotFound);
    }
    read_order(storage, order_id)
}

/// One page of the pair's orders. `order_by` is 1 for upwards and 2 for
/// downwards; any other number, like none, means downwards.
pub fn query_orders(storage: &Storage, direction: Option<OrderDirection>, filter: OrderFilter, start_after: Option<u64>, limit: Option<u32>, order_by: Option<i32>) -> (r: Result<Vec<Order>, ContractError>)
    ensures
        storage.orderbook is None ==> r is Err && r->Err_0 == ContractError::PairNotFound,
        storage.orderbook is Some ==> r is Ok && views(r->Ok_0@) == page(
            storage.orders@,
            direction,
            filter,
            start_after,
            limit,
            if order_by == Some(1i32) { Some(OrderBy::Ascending) } else { None },
        ),
{
    if storage.orderbook.is_none() {
        return Err(ContractError::PairNotFound);
    }
    let by = match order_by {
        Some(v) => order_by_from(v),
        None => None,
    };
    Ok(read_orders_with_indexer(storage, direction, &filter, start_after, limit, by))
}

/// The id handed out last.
pub fn query_last_order_id(storage: &Storage) -> (id: u64)
    ensures
        id == storage.last_order_id,
{
    read_last_order_id(storage)
}

/// The configuration of the pair.
pub fn query_orderbook(storage: &Storage) -> (r: Result<&OrderBook, ContractError>)
    ensures
        storage.orderbook is None ==> r is Err && r->Err_0 == ContractError::PairNotFound,
        storage.orderbook is Some ==> r is Ok && *r->Ok_0 == storage.orderbook->Some_0,
{
    match &storage.orderbook {
        Some(book) => Ok(book),
        None => Err(ContractError::PairNotFound),
    }
}

/// Whether the matcher has anything to look at: both sides of the book
/// have a price level.
pub fn query_orderbook_is_matchable(storage: &Storage) -> (r: Result<bool, ContractError>)
    ensures
        storage.orderbook is None ==> r == Err::<bool, ContractError>(ContractError::PairNotFound),
        storage.orderbook is Some ==> r == Ok::<bool, ContractError>(storage.buy_ticks@.len() > 0 && storage.sell_ticks@.len() > 0),
{
    if storage.orderbook.is_none() {
        return Err(ContractError::PairNotFound);
    }
    Ok(storage.buy_ticks.len() > 0 && storage.sell_ticks.len() > 0)
}

/// The best buy price and the best sell price, in thousandths: the
/// highest level of the buy side and the lowest level of the sell side.
/// A side without a level, or a limit of zero, gives none.
pub fn query_match_price(storage: &Storage, limit: Option<u32>) -> (r: Result<(Option<u128>, Option<u128>), ContractError>)
    ensures
        storage.orderbook is None ==> r is Err && r->Err_0 == ContractError::PairNotFound,
        storage.orderbook is Some ==> r is Ok && r->Ok_0.0 == (if spec_page_size(limit) > 0 && storage.buy_ticks@.len() > 0 {
            Some(storage.buy_ticks@.last().price)
        } else {
            None
        }) && r->Ok_0.1 == (if spec_page_size(limit) > 0 && storage.sell_ticks@.len() > 0 {
            Some(storage.sell_ticks@[0].price)
        } else {
            None
        }),
{
    if storage.orderbook.is_none() {
        return Err(ContractError::PairNotFound);
    }
    let n = page_size(limit);
    let buy = if n > 0 && storage.buy_ticks.len() > 0 {
        Some(storage.buy_ticks[storage.buy_ticks.len() - 1].price)
    } else {
        None
    };
    let sell = if n > 0 && storage.sell_ticks.len() > 0 {
        Some(storage.sell_ticks[0].price)
    } else {
        None
    };
    Ok((buy, sell))
}

} // verus!
