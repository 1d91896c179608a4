use vstd::prelude::*;
use vstd::bytes::{spec_u64_from_le_bytes, spec_u64_to_le_bytes, u64_from_le_bytes, u64_to_le_bytes};
use vstd::slice::slice_subrange;
use crate::error::ContractError;
use crate::orderbook::{Executor, Order, OrderBook, OrderDirection, OrderView};

verus! {

/// Ticks carry three fractional digits.
pub const FLOATING_ROUND: usize = 3;

/// The largest page a query returns.
pub const MAX_LIMIT: u32 = 30;

/// The page size of a query that names none.
pub const DEFAULT_LIMIT: u32 = 10;

/// The counter of one price level of one side of the book.
#[derive(Clone, Copy, Debug, PartialEq, Eq, Structural)]
pub struct Tick {
    /// The price, in thousandths.
    pub price: u128,
    /// How many orders sit at this price.
    pub total_orders: u64,
}

/// The persistent state of the engine for one trading pair, with the
/// counter that hands out order ids.
///
/// The order table is kept in ascending order of id, which is the order in
/// which a price level is served. Each side of the book has its own tick
/// table, in ascending order of price.
#[derive(Clone, Debug, PartialEq, Eq)]
pub struct Storage {
    pub last_order_id: u64,
    pub orderbook: Option<OrderBook>,
    pub orders: Vec<Order>,
    pub buy_ticks: Vec<Tick>,
    pub sell_ticks: Vec<Tick>,
    pub rewards: Vec<Executor>,
}

/// `i` is where key `k` stands, or would be inserted, in `keys`: every key
/// before `i` is smaller and the key at `i`, if there is one, is not.
pub open spec fn is_lower_bound(keys: Seq<int>, k: int, i: int) -> bool {
    &&& 0 <= i <= keys.len()
    &&& forall|j: int| 0 <= j < i ==> keys[j] < k
    &&& i < keys.len() ==> keys[i] >= k
}

/// The number of leading keys that are smaller than `k`.
pub open spec fn lower_bound(keys: Seq<int>, k: int) -> int {
    choose|i: int| is_lower_bound(keys, k, i)
}

/// A position that satisfies the definition of the lower bound is the lower bound.
pub proof fn lemma_lower_bound(keys: Seq<int>, k: int, i: int)
    requires
        is_lower_bound(keys, k, i),
    ensures
        lower_bound(keys, k) == i,
{
    let c = lower_bound(keys, k);
    assert(is_lower_bound(keys, k, c));
    if c < i {
        assert(keys[c] < k);
    }
    if i < c {
        assert(keys[i] < k);
    }
}

/// Every key has its place in every sequence.
pub proof fn lemma_slot_exists(keys: Seq<int>, k: int, from: int)
    requires
        0 <= from <= keys.len(),
        forall|j: int| 0 <= j < from ==> keys[j] < k,
    ensures
        is_lower_bound(keys, k, lower_bound(keys, k)),
    decreases keys.len() - from,
{
    if from == keys.len() || keys[from] >= k {
        assert(is_lower_bound(keys, k, from));
    } else {
        lemma_slot_exists(keys, k, from + 1);
    }
}

/// Strictly ascending.
pub open spec fn sorted(keys: Seq<int>) -> bool {
    forall|i: int, j: int| 0 <= i < j < keys.len() ==> keys[i] < keys[j]
}

pub open spec fn order_ids(orders: Seq<Order>) -> Seq<int> {
    Seq::new(orders.len(), |i: int| orders[i].order_id as int)
}

pub open spec fn tick_prices(ticks: Seq<Tick>) -> Seq<int> {
    Seq::new(ticks.len(), |i: int| ticks[i].price as int)
}

/// Where the order with id `order_id` stands in the table, or would stand.
pub open spec fn order_slot(orders: Seq<Order>, order_id: u64) -> int {
    lower_bound(order_ids(orders), order_id as int)
}

/// Whether the table has a row for `order_id`.
pub open spec fn has_order(orders: Seq<Order>, order_id: u64) -> bool {
    let p = order_slot(orders, order_id);
    0 <= p < orders.len() && orders[p].order_id == order_id
}

/// The table with `order` written under its id: in place of the row with
/// that id, or else at the place that keeps the ids ascending.
pub open spec fn upsert_order(orders: Seq<Order>, order: Order) -> Seq<Order> {
    let p = order_slot(orders, order.order_id);
    if has_order(orders, order.order_id) {
        orders.update(p, order)
    } else {
        orders.insert(p, order)
    }
}

/// The table without the row for `order_id`.
pub open spec fn delete_order(orders: Seq<Order>, order_id: u64) -> Seq<Order> {
    if has_order(orders, order_id) {
        orders.remove(order_slot(orders, order_id))
    } else {
        orders
    }
}

pub open spec fn tick_slot(ticks: Seq<Tick>, price: u128) -> int {
    lower_bound(tick_prices(ticks), price as int)
}

pub open spec fn has_tick(ticks: Seq<Tick>, price: u128) -> bool {
    let p = tick_slot(ticks, price);
    0 <= p < ticks.len() && ticks[p].price == price
}

/// The counter at `price`; a level without a row counts zero.
pub open spec fn tick_total(ticks: Seq<Tick>, price: u128) -> u64 {
    if has_tick(ticks, price) {
        ticks[tick_slot(ticks, price)].total_orders
    } else {
        0
    }
}

/// The tick table after one more order has arrived at `price`.
pub open spec fn tick_added(ticks: Seq<Tick>, price: u128) -> Seq<Tick> {
    let p = tick_slot(ticks, price);
    if has_tick(ticks, price) {
        ticks.update(p, Tick { price, total_orders: (ticks[p].total_orders + 1) as u64 })
    } else {
        ticks.insert(p, Tick { price, total_orders: 1 })
    }
}

/// The tick table after one order has left `price`: the counter goes down
/// by one, and a counter that reaches zero loses its row.
pub open spec fn tick_dropped(ticks: Seq<Tick>, price: u128) -> Seq<Tick> {
    let p = tick_slot(ticks, price);
    if !has_tick(ticks, price) {
        ticks
    } else if ticks[p].total_orders > 1 {
        ticks.update(p, Tick { price, total_orders: (ticks[p].total_orders - 1) as u64 })
    } else {
        ticks.remove(p)
    }
}

/// The ids of the orders of the table that sit at `tick` on side
/// `direction`, in the order of the table.
pub open spec fn ids_at(orders: Seq<Order>, direction: OrderDirection, tick: u128) -> Seq<u64>
    decreases orders.len(),
{
    if orders.len() == 0 {
        Seq::empty()
    } else {
        let rest = ids_at(orders.drop_last(), direction, tick);
        if orders.last()@.at_tick(direction, tick) {
            rest.push(orders.last().order_id)
        } else {
            rest
        }
    }
}


/// Two orders sit at one price level.
pub open spec fn same_level(a: OrderView, b: OrderView) -> bool {
    a.direction == b.direction && a.price() == b.price()
}

/// The table has a row for the order's id, at the order's price level.
pub open spec fn present(orders: Seq<Order>, order: Order) -> bool {
    has_order(orders, order.order_id) && same_level(orders[order_slot(orders, order.order_id)]@, order@)
}

proof fn lemma_ids_at_insert(orders: Seq<Order>, p: int, o: Order, direction: OrderDirection, tick: u128)
    requires
        0 <= p <= orders.len(),
    ensures
        ids_at(orders.insert(p, o), direction, tick).len() == ids_at(orders, direction, tick).len() + if o@.at_tick(
            direction,
            tick,
        ) { 1int } else { 0 },
    decreases orders.len() - p,
{
    let ins = orders.insert(p, o);
    if p == orders.len() {
        assert(ins.drop_last() =~= orders);
        assert(ins.last() == o);
    } else {
        assert(ins.last() == orders.last());
        assert(ins.drop_last() =~= orders.drop_last().insert(p, o));
        lemma_ids_at_insert(orders.drop_last(), p, o, direction, tick);
    }
}

proof fn lemma_ids_at_remove(orders: Seq<Order>, p: int, direction: OrderDirection, tick: u128)
    requires
        0 <= p < orders.len(),
    ensures
        ids_at(orders, direction, tick).len() == ids_at(orders.remove(p), direction, tick).len() + if orders[p]@.at_tick(
            direction,
            tick,
        ) { 1int } else { 0 },
    decreases orders.len(),
{
    let rem = orders.remove(p);
    if p == orders.len() - 1 {
        assert(rem =~= orders.drop_last());
    } else {
        assert(rem.last() == orders.last());
        assert(rem.drop_last() =~= orders.drop_last().remove(p));
        lemma_ids_at_remove(orders.drop_last(), p, direction, tick);
    }
}

proof fn lemma_ids_at_update(orders: Seq<Order>, p: int, o: Order, direction: OrderDirection, tick: u128)
    requires
        0 <= p < orders.len(),
        o@.at_tick(direction, tick) == orders[p]@.at_tick(direction, tick),
    ensures
        ids_at(orders.update(p, o), direction, tick).len() == ids_at(orders, direction, tick).len(),
    decreases orders.len(),
{
    let upd = orders.update(p, o);
    if p == orders.len() - 1 {
        assert(upd.drop_last() =~= orders.drop_last());
        assert(upd.last() == o);
    } else {
        assert(upd.last() == orders.last());
        assert(upd.drop_last() =~= orders.drop_last().update(p, o));
        lemma_ids_at_update(orders.drop_last(), p, o, direction, tick);
    }
}

/// In a tick table in ascending order of price, a level has a row exactly
/// when some row carries its price, and then it is the only one.
pub proof fn lemma_has_tick(ticks: Seq<Tick>, price: u128)
    requires
        sorted(tick_prices(ticks)),
    ensures
        has_tick(ticks, price) <==> exists|i: int| 0 <= i < ticks.len() && (#[trigger] ticks[i]).price == price,
        forall|i: int| 0 <= i < ticks.len() && (#[trigger] ticks[i]).price == price ==> i == tick_slot(ticks, price),
{
    let keys = tick_prices(ticks);
    assert forall|i: int| 0 <= i < ticks.len() && (#[trigger] ticks[i]).price == price implies i == tick_slot(
        ticks,
        price,
    ) by {
        assert forall|j: int| 0 <= j < i implies keys[j] < price by {
            assert(keys[j] < keys[i]);
        }
        assert(keys[i] >= price);
        lemma_lower_bound(keys, price as int, i);
    }
}

/// How a change of one level shows in the counters: `b` is `a` with the
/// counter at `price` set to `total`, where zero means no row. Then the
/// counter at `price` is `total` and every other counter is as it was.
proof fn lemma_tick_change(a: Seq<Tick>, b: Seq<Tick>, price: u128, total: u64, t: u128)
    requires
        sorted(tick_prices(a)),
        sorted(tick_prices(b)),
        forall|i: int| 0 <= i < a.len() && (#[trigger] a[i]).price != price ==> exists|j: int| 0 <= j < b.len() && b[j] == a[i],
        forall|j: int| 0 <= j < b.len() && (#[trigger] b[j]).price != price ==> exists|i: int| 0 <= i < a.len() && a[i] == b[j],
        total > 0 ==> exists|j: int| 0 <= j < b.len() && b[j] == (Tick { price, total_orders: total }),
        forall|j: int| 0 <= j < b.len() && (#[trigger] b[j]).price == price ==> b[j].total_orders == total && total > 0,
    ensures
        tick_total(b, t) == if t == price { total } else { tick_total(a, t) },
{
    lemma_has_tick(a, t);
    lemma_has_tick(b, t);
    if t == price {
        if total > 0 {
            let j = choose|j: int| 0 <= j < b.len() && b[j] == (Tick { price, total_orders: total });
            assert(b[j].price == t);
        }
    } else {
        if has_tick(a, t) {
            let i = tick_slot(a, t);
            assert(a[i].price != price);
            let j = choose|j: int| 0 <= j < b.len() && b[j] == a[i];
            assert(b[j].price == t);
        } else if has_tick(b, t) {
            let j = tick_slot(b, t);
            assert(b[j].price != price);
            let i = choose|i: int| 0 <= i < a.len() && a[i] == b[j];
            assert(a[i].price == t);
        }
    }
}

proof fn lemma_tick_added_existing(ticks: Seq<Tick>, price: u128)
    requires
        ticks_wf(ticks),
        tick_total(ticks, price) < u64::MAX,
        has_tick(ticks, price),
    ensures
        ticks_wf(tick_added(ticks, price)),
        forall|t: u128| #[trigger] tick_total(tick_added(ticks, price), t) == if t == price {
            (tick_total(ticks, price) + 1) as u64
        } else {
            tick_total(ticks, t)
        },
{
    let a = ticks;
    let b = tick_added(ticks, price);
    let p = tick_slot(ticks, price);
    let total = (tick_total(ticks, price) + 1) as u64;
    assert(b == a.update(p, Tick { price, total_orders: total }));
    assert(tick_prices(b) =~= tick_prices(a));
    assert forall|i: int| 0 <= i < b.len() implies (#[trigger] b[i]).total_orders > 0 by {
        if i != p {
            assert(b[i] == a[i]);
        }
    }
    assert forall|t: u128| #[trigger] tick_total(b, t) == if t == price { total } else { tick_total(a, t) } by {
        assert(tick_slot(b, t) == tick_slot(a, t));
        if t != price && has_tick(a, t) {
            assert(tick_slot(a, t) != p);
        }
    }
}

proof fn lemma_tick_added_new(ticks: Seq<Tick>, price: u128)
    requires
        ticks_wf(ticks),
        !has_tick(ticks, price),
    ensures
        ticks_wf(tick_added(ticks, price)),
        forall|t: u128| #[trigger] tick_total(tick_added(ticks, price), t) == if t == price {
            1u64
        } else {
            tick_total(ticks, t)
        },
{
    let a = ticks;
    let p = tick_slot(ticks, price);
    let b = a.insert(p, Tick { price, total_orders: 1 });
    lemma_slot_exists(tick_prices(a), price as int, 0);
    assert(b == tick_added(ticks, price));
    assert forall|i: int, j: int| 0 <= i < j < b.len() implies tick_prices(b)[i] < tick_prices(b)[j] by {
        let ia = if i < p { i } else { i - 1 };
        let ja = if j < p { j } else { j - 1 };
        if i != p && j != p {
            assert(tick_prices(a)[ia] < tick_prices(a)[ja]);
        } else if i == p {
            assert(tick_prices(a)[p] >= price);
            assert(a[p].price != price);
            if ja > p {
                assert(tick_prices(a)[p] < tick_prices(a)[ja]);
            }
        } else {
            assert(tick_prices(a)[ia] < price);
        }
    }
    assert forall|i: int| 0 <= i < b.len() implies (#[trigger] b[i]).total_orders > 0 by {
        if i < p {
            assert(b[i] == a[i]);
        } else if i > p {
            assert(b[i] == a[i - 1]);
        }
    }
    assert forall|t: u128| #[trigger] tick_total(b, t) == if t == price { 1u64 } else { tick_total(a, t) } by {
        lemma_has_tick(a, t);
        lemma_has_tick(b, t);
        if t == price {
            assert(b[p].price == price);
        } else if has_tick(a, t) {
            let i = tick_slot(a, t);
            let j = if i < p { i } else { i + 1 };
            assert(b[j] == a[i]);
        } else if has_tick(b, t) {
            let j = tick_slot(b, t);
            assert(j != p);
            let i = if j < p { j } else { j - 1 };
            assert(a[i] == b[j]);
        }
    }
}

/// What counting one more order at `price` does to a well-formed tick
/// table: the table stays well formed, the counter at `price` is one
/// higher, and every other counter is as it was.
pub proof fn lemma_tick_added(ticks: Seq<Tick>, price: u128)
    requires
        ticks_wf(ticks),
        tick_total(ticks, price) < u64::MAX,
    ensures
        ticks_wf(tick_added(ticks, price)),
        forall|t: u128| #[trigger] tick_total(tick_added(ticks, price), t) == if t == price {
            (tick_total(ticks, price) + 1) as u64
        } else {
            tick_total(ticks, t)
        },
{
    if has_tick(ticks, price) {
        lemma_tick_added_existing(ticks, price);
    } else {
        lemma_tick_added_new(ticks, price);
    }
}

/// What counting one order fewer at `price` does to a well-formed tick
/// table: the table stays well formed, the counter at `price` is one
/// lower unless it was zero, and every other counter is as it was.
pub proof fn lemma_tick_dropped(ticks: Seq<Tick>, price: u128)
    requires
        ticks_wf(ticks),
    ensures
        ticks_wf(tick_dropped(ticks, price)),
        forall|t: u128| #[trigger] tick_total(tick_dropped(ticks, price), t) == if t == price && tick_total(ticks, price) > 0 {
            (tick_total(ticks, price) - 1) as u64
        } else {
            tick_total(ticks, t)
        },
{
    let a = ticks;
    let b = tick_dropped(ticks, price);
    let p = tick_slot(ticks, price);
    lemma_slot_exists(tick_prices(a), price as int, 0);
    if has_tick(a, price) {
        assert(a[p].total_orders > 0);
        let total = (tick_total(ticks, price) - 1) as u64;
        if a[p].total_orders > 1 {
            assert(tick_prices(b) =~= tick_prices(a));
            assert forall|i: int| 0 <= i < a.len() && (#[trigger] a[i]).price != price implies exists|j: int|
                0 <= j < b.len() && b[j] == a[i] by {
                assert(b[i] == a[i]);
            }
            assert forall|j: int| 0 <= j < b.len() && (#[trigger] b[j]).price != price implies exists|i: int|
                0 <= i < a.len() && a[i] == b[j] by {
                assert(a[j] == b[j]);
            }
            assert(b[p] == (Tick { price, total_orders: total }));
            assert forall|j: int| 0 <= j < b.len() && (#[trigger] b[j]).price == price implies b[j].total_orders
                == total && total > 0 by {
                if j != p {
                    if j < p {
                        assert(tick_prices(a)[j] < tick_prices(a)[p]);
                    } else {
                        assert(tick_prices(a)[p] < tick_prices(a)[j]);
                    }
                }
            }
            assert forall|i: int| 0 <= i < b.len() implies (#[trigger] b[i]).total_orders > 0 by {
                if i != p {
                    assert(b[i] == a[i]);
                }
            }
        } else {
            assert(b == a.remove(p));
            assert forall|i: int, j: int| 0 <= i < j < b.len() implies tick_prices(b)[i] < tick_prices(b)[j] by {
                let ia = if i < p { i } else { i + 1 };
                let ja = if j < p { j } else { j + 1 };
                assert(tick_prices(a)[ia] < tick_prices(a)[ja]);
            }
            assert forall|i: int| 0 <= i < b.len() implies (#[trigger] b[i]).total_orders > 0 by {
                if i < p {
                    assert(b[i] == a[i]);
                } else {
                    assert(b[i] == a[i + 1]);
                }
            }
            assert forall|i: int| 0 <= i < a.len() && (#[trigger] a[i]).price != price implies exists|j: int|
                0 <= j < b.len() && b[j] == a[i] by {
                let j = if i < p { i } else { i - 1 };
                assert(b[j] == a[i]);
            }
            assert forall|j: int| 0 <= j < b.len() && (#[trigger] b[j]).price != price implies exists|i: int|
                0 <= i < a.len() && a[i] == b[j] by {
                let i = if j < p { j } else { j + 1 };
                assert(a[i] == b[j]);
            }
            assert forall|j: int| 0 <= j < b.len() && (#[trigger] b[j]).price == price implies b[j].total_orders
                == total && total > 0 by {
                let i = if j < p { j } else { j + 1 };
                assert(a[i] == b[j]);
                if i < p {
                    assert(tick_prices(a)[i] < tick_prices(a)[p]);
                } else {
                    assert(tick_prices(a)[p] < tick_prices(a)[i]);
                }
            }
        }
        assert forall|t: u128| #[trigger] tick_total(b, t) == if t == price { total } else { tick_total(a, t) } by {
            lemma_tick_change(a, b, price, total, t);
        }
    }
}

/// Writing an order into a table in ascending order of id keeps the
/// order of the table and every other row, and the order has its row.
pub proof fn lemma_upsert_rows(orders: Seq<Order>, order: Order)
    requires
        sorted(order_ids(orders)),
    ensures
        sorted(order_ids(upsert_order(orders, order))),
        present(upsert_order(orders, order), order),
        upsert_order(orders, order)[order_slot(upsert_order(orders, order), order.order_id)] == order,
        upsert_order(orders, order).len() == orders.len() + if has_order(orders, order.order_id) { 0int } else { 1 },
        forall|o: Order| o.order_id != order.order_id && present(orders, o) ==> #[trigger] present(upsert_order(orders, order), o),
{
    let a = orders;
    let b = upsert_order(orders, order);
    let id = order.order_id;
    let p = order_slot(orders, id);
    lemma_slot_exists(order_ids(a), id as int, 0);
    if has_order(a, id) {
        assert(order_ids(b) =~= order_ids(a));
        assert(order_slot(b, id) == p);
        assert forall|o: Order| o.order_id != id && present(a, o) implies #[trigger] present(b, o) by {
            assert(order_slot(b, o.order_id) == order_slot(a, o.order_id));
        }
    } else {
        assert(b == a.insert(p, order));
        assert forall|i: int, j: int| 0 <= i < j < b.len() implies order_ids(b)[i] < order_ids(b)[j] by {
            let ia = if i < p { i } else { i - 1 };
            let ja = if j < p { j } else { j - 1 };
            if i != p && j != p {
                assert(order_ids(a)[ia] < order_ids(a)[ja]);
            } else if i == p {
                assert(order_ids(a)[p] >= id);
                assert(a[p].order_id != id);
                if ja > p {
                    assert(order_ids(a)[p] < order_ids(a)[ja]);
                }
            } else {
                assert(order_ids(a)[ia] < id);
            }
        }
        assert(b[p].order_id == id);
        lemma_has_order(b, id);
        assert forall|o: Order| o.order_id != id && present(a, o) implies #[trigger] present(b, o) by {
            let i = order_slot(a, o.order_id);
            let j = if i < p { i } else { i + 1 };
            assert(b[j] == a[i]);
            lemma_has_order(b, o.order_id);
        }
    }
}

/// Taking a row out of a table in ascending order of id keeps the order
/// of the table and every other row.
pub proof fn lemma_delete_rows(orders: Seq<Order>, order_id: u64)
    requires
        sorted(order_ids(orders)),
    ensures
        sorted(order_ids(delete_order(orders, order_id))),
        !has_order(delete_order(orders, order_id), order_id),
        forall|o: Order| o.order_id != order_id && present(orders, o) ==> #[trigger] present(delete_order(orders, order_id), o),
{
    let a = orders;
    let b = delete_order(orders, order_id);
    let p = order_slot(orders, order_id);
    lemma_has_order(a, order_id);
    if has_order(a, order_id) {
        assert(b == a.remove(p));
        assert forall|i: int, j: int| 0 <= i < j < b.len() implies order_ids(b)[i] < order_ids(b)[j] by {
            let ia = if i < p { i } else { i + 1 };
            let ja = if j < p { j } else { j + 1 };
            assert(order_ids(a)[ia] < order_ids(a)[ja]);
        }
        lemma_has_order(b, order_id);
        assert forall|j: int| 0 <= j < b.len() implies (#[trigger] b[j]).order_id != order_id by {
            let i = if j < p { j } else { j + 1 };
            assert(b[j] == a[i]);
            if i < p {
                assert(order_ids(a)[i] < order_ids(a)[p]);
            } else {
                assert(order_ids(a)[p] < order_ids(a)[i]);
            }
        }
        assert forall|o: Order| o.order_id != order_id && present(a, o) implies #[trigger] present(b, o) by {
            let i = order_slot(a, o.order_id);
            let j = if i < p { i } else { i - 1 };
            assert(b[j] == a[i]);
            lemma_has_order(b, o.order_id);
        }
    }
}

/// How many orders sit at each level after an order is written into the
/// table: one more at the order's level when the order is new, and as
/// many as before when it takes the place of a row of its own level.
pub proof fn lemma_upsert_levels(orders: Seq<Order>, order: Order)
    requires
        has_order(orders, order.order_id) ==> present(orders, order),
    ensures
        forall|d: OrderDirection, t: u128| #[trigger] ids_at(upsert_order(orders, order), d, t).len() == ids_at(orders, d, t).len()
            + if !has_order(orders, order.order_id) && order@.at_tick(d, t) { 1int } else { 0 },
{
    let p = order_slot(orders, order.order_id);
    lemma_slot_exists(order_ids(orders), order.order_id as int, 0);
    assert forall|d: OrderDirection, t: u128| #[trigger] ids_at(upsert_order(orders, order), d, t).len() == ids_at(orders, d, t).len()
        + if !has_order(orders, order.order_id) && order@.at_tick(d, t) { 1int } else { 0 } by {
        if has_order(orders, order.order_id) {
            lemma_ids_at_update(orders, p, order, d, t);
        } else {
            lemma_ids_at_insert(orders, p, order, d, t);
        }
    }
}

/// How many orders sit at each level after a row is taken out of the
/// table: one fewer at the level of the row.
pub proof fn lemma_delete_levels(orders: Seq<Order>, order_id: u64)
    ensures
        forall|d: OrderDirection, t: u128| #[trigger] ids_at(delete_order(orders, order_id), d, t).len() == ids_at(orders, d, t).len()
            - if has_order(orders, order_id) && orders[order_slot(orders, order_id)]@.at_tick(d, t) { 1int } else { 0 },
{
    let p = order_slot(orders, order_id);
    assert forall|d: OrderDirection, t: u128| #[trigger] ids_at(delete_order(orders, order_id), d, t).len() == ids_at(orders, d, t).len()
        - if has_order(orders, order_id) && orders[order_slot(orders, order_id)]@.at_tick(d, t) { 1int } else { 0 } by {
        if has_order(orders, order_id) {
            lemma_ids_at_remove(orders, p, d, t);
        }
    }
}

pub open spec fn ticks_wf(ticks: Seq<Tick>) -> bool {
    &&& sorted(tick_prices(ticks))
    &&& forall|i: int| 0 <= i < ticks.len() ==> (#[trigger] ticks[i]).total_orders > 0
}

pub open spec fn orders_wf(orders: Seq<Order>, last_order_id: u64) -> bool {
    &&& sorted(order_ids(orders))
    &&& forall|i: int| 0 <= i < orders.len() ==> (#[trigger] orders[i])@.wf() && orders[i].order_id <= last_order_id
}

/// Position of `order_id` in the table.
pub fn find_order_slot(orders: &Vec<Order>, order_id: u64) -> (p: usize)
    ensures
        p == order_slot(orders@, order_id),
        is_lower_bound(order_ids(orders@), order_id as int, p as int),
{
    let mut i: usize = 0;
    while i < orders.len() && orders[i].order_id < order_id
        invariant
            i <= orders.len(),
            forall|j: int| 0 <= j < i ==> order_ids(orders@)[j] < order_id,
        decreases orders.len() - i,
    {
        i += 1;
    }
    proof {
        lemma_lower_bound(order_ids(orders@), order_id as int, i as int);
    }
    i
}

/// Position of `price` in a tick table.
pub fn find_tick_slot(ticks: &Vec<Tick>, price: u128) -> (p: usize)
    ensures
        p == tick_slot(ticks@, price),
        is_lower_bound(tick_prices(ticks@), price as int, p as int),
{
    let mut i: usize = 0;
    while i < ticks.len() && ticks[i].price < price
        invariant
            i <= ticks.len(),
            forall|j: int| 0 <= j < i ==> tick_prices(ticks@)[j] < price,
        decreases ticks.len() - i,
    {
        i += 1;
    }
    proof {
        lemma_lower_bound(tick_prices(ticks@), price as int, i as int);
    }
    i
}

/// Counts one more order at `price`. Fails, changing nothing, when the
/// counter is at its largest value.
pub fn add_tick(ticks: &mut Vec<Tick>, price: u128) -> (r: Result<u64, ContractError>)
    ensures
        tick_total(old(ticks)@, price) == u64::MAX ==> r == Err::<u64, ContractError>(ContractError::Overflow)
            && final(ticks)@ == old(ticks)@,
        tick_total(old(ticks)@, price) < u64::MAX ==> r == Ok::<u64, ContractError>(
            (tick_total(old(ticks)@, price) + 1) as u64,
        ) && final(ticks)@ == tick_added(old(ticks)@, price),
        ticks_wf(old(ticks)@) && r is Ok ==> ticks_wf(final(ticks)@),
        r is Ok ==> tick_total(final(ticks)@, price) == r->Ok_0,
{
    let p = find_tick_slot(ticks, price);
    if p < ticks.len() && ticks[p].price == price {
        let t = ticks[p].total_orders;
        if t == u64::MAX {
            return Err(ContractError::Overflow);
        }
        ticks[p] = Tick { price, total_orders: t + 1 };
        proof {
            assert(tick_prices(final(ticks)@) =~= tick_prices(old(ticks)@));
            if ticks_wf(old(ticks)@) {
                lemma_tick_added(old(ticks)@, price);
            }
        }
        Ok(t + 1)
    } else {
        ticks.insert(p, Tick { price, total_orders: 1 });
        proof {
            let a = old(ticks)@;
            let b = ticks@;
            assert forall|j: int| 0 <= j < p implies tick_prices(b)[j] < price by {
                assert(tick_prices(a)[j] < price);
            }
            lemma_lower_bound(tick_prices(b), price as int, p as int);
            if ticks_wf(a) {
                lemma_tick_added(a, price);
            }
        }
        Ok(1)
    }
}

/// Counts one order fewer at `price` and returns the counter that is left.
pub fn drop_tick(ticks: &mut Vec<Tick>, price: u128) -> (total: u64)
    ensures
        final(ticks)@ == tick_dropped(old(ticks)@, price),
        tick_total(old(ticks)@, price) > 0 ==> total == tick_total(old(ticks)@, price) - 1,
        tick_total(old(ticks)@, price) == 0 ==> total == 0,
        ticks_wf(old(ticks)@) ==> ticks_wf(final(ticks)@),
{
    proof {
        if ticks_wf(old(ticks)@) {
            lemma_tick_dropped(old(ticks)@, price);
        }
    }
    let p = find_tick_slot(ticks, price);
    if p < ticks.len() && ticks[p].price == price {
        let t = ticks[p].total_orders;
        if t > 1 {
            ticks[p] = Tick { price, total_orders: t - 1 };
            t - 1
        } else {
            ticks.remove(p);
            0
        }
    } else {
        0
    }
}

/// The order table and the tick tables as mathematical values: what the
/// matcher reads and writes.
pub ghost struct Book {
    pub orders: Seq<OrderView>,
    pub buy_ticks: Seq<Tick>,
    pub sell_ticks: Seq<Tick>,
}

pub open spec fn views(orders: Seq<Order>) -> Seq<OrderView> {
    Seq::new(orders.len(), |i: int| orders[i]@)
}

pub open spec fn view_ids(orders: Seq<OrderView>) -> Seq<int> {
    Seq::new(orders.len(), |i: int| orders[i].order_id as int)
}

impl Book {
    pub open spec fn slot(self, order_id: u64) -> int {
        lower_bound(view_ids(self.orders), order_id as int)
    }

    pub open spec fn has(self, order_id: u64) -> bool {
        0 <= self.slot(order_id) < self.orders.len() && self.orders[self.slot(order_id)].order_id == order_id
    }

    /// The order stored under `order_id`, if there is one.
    pub open spec fn read(self, order_id: u64) -> Option<OrderView> {
        if self.has(order_id) {
            Some(self.orders[self.slot(order_id)])
        } else {
            None
        }
    }

    pub open spec fn ticks(self, direction: OrderDirection) -> Seq<Tick> {
        match direction {
            OrderDirection::Buy => self.buy_ticks,
            OrderDirection::Sell => self.sell_ticks,
        }
    }

    pub open spec fn with_ticks(self, direction: OrderDirection, ticks: Seq<Tick>) -> Book {
        match direction {
            OrderDirection::Buy => Book { buy_ticks: ticks, ..self },
            OrderDirection::Sell => Book { sell_ticks: ticks, ..self },
        }
    }

    /// The book after `order` has been written over its row.
    pub open spec fn stored(self, order: OrderView) -> Result<Book, ContractError> {
        match order.price() {
            Err(e) => Err(e),
            Ok(_) => Ok(
                Book {
                    orders: if self.has(order.order_id) {
                        self.orders.update(self.slot(order.order_id), order)
                    } else {
                        self.orders.insert(self.slot(order.order_id), order)
                    },
                    ..self
                },
            ),
        }
    }

    /// The book after `order` has left the table and its price level.
    pub open spec fn removed(self, order: OrderView) -> Result<Book, ContractError> {
        match order.price() {
            Err(e) => Err(e),
            Ok(price) => if self.has(order.order_id) {
                Ok(
                    Book { orders: self.orders.remove(self.slot(order.order_id)), ..self }.with_ticks(
                        order.direction,
                        tick_dropped(self.ticks(order.direction), price.spec_tick()),
                    ),
                )
            } else {
                Ok(self)
            },
        }
    }
}

/// The ids of the orders that sit at `tick` on side `direction`, in the
/// order of the table.
pub open spec fn level_ids(orders: Seq<OrderView>, direction: OrderDirection, tick: u128) -> Seq<u64>
    decreases orders.len(),
{
    if orders.len() == 0 {
        Seq::empty()
    } else {
        let rest = level_ids(orders.drop_last(), direction, tick);
        if orders.last().at_tick(direction, tick) {
            rest.push(orders.last().order_id)
        } else {
            rest
        }
    }
}

/// The ids at a level are the same whether read off the orders or off
/// their views.
pub proof fn lemma_level_ids(orders: Seq<Order>, direction: OrderDirection, tick: u128)
    ensures
        ids_at(orders, direction, tick) == level_ids(views(orders), direction, tick),
    decreases orders.len(),
{
    if orders.len() > 0 {
        assert(views(orders).drop_last() =~= views(orders.drop_last()));
        lemma_level_ids(orders.drop_last(), direction, tick);
    }
}

impl Storage {
    /// What every operation of the engine keeps true of the storage: the
    /// order table is in strictly ascending order of id, so no two rows share
    /// an id; no id is beyond the counter; every order is well formed, so no
    /// order has spent more than its offer; and both tick tables are in
    /// strictly ascending order of price with no empty level.
    pub open spec fn wf(&self) -> bool {
        &&& orders_wf(self.orders@, self.last_order_id)
        &&& ticks_wf(self.buy_ticks@)
        &&& ticks_wf(self.sell_ticks@)
    }

    /// Each tick counter is the number of orders of the table that sit at
    /// its level, and a level without a counter has no order.
    pub open spec fn counted(&self) -> bool {
        forall|d: OrderDirection, t: u128| tick_total(self.ticks(d), t) == (#[trigger] ids_at(self.orders@, d, t)).len()
    }

    /// The tables of the storage as mathematical values.
    pub open spec fn book(&self) -> Book {
        Book { orders: views(self.orders@), buy_ticks: self.buy_ticks@, sell_ticks: self.sell_ticks@ }
    }

    /// The tick table of one side of the book.
    pub open spec fn ticks(&self, direction: OrderDirection) -> Seq<Tick> {
        match direction {
            OrderDirection::Buy => self.buy_ticks@,
            OrderDirection::Sell => self.sell_ticks@,
        }
    }

    /// A storage with no pair, no order and the id counter at zero.
    pub fn new() -> (s: Storage)
        ensures
            s.wf(),
            s.counted(),
            s.last_order_id == 0,
            s.orderbook is None,
            s.orders@.len() == 0,
            s.buy_ticks@.len() == 0,
            s.sell_ticks@.len() == 0,
            s.rewards@.len() == 0,
    {
        Storage {
            last_order_id: 0,
            orderbook: None,
            orders: Vec::new(),
            buy_ticks: Vec::new(),
            sell_ticks: Vec::new(),
            rewards: Vec::new(),
        }
    }
}

/// A copy of an order table.
pub fn duplicate_orders(orders: &Vec<Order>) -> (r: Vec<Order>)
    ensures
        views(r@) == views(orders@),
{
    let mut r: Vec<Order> = Vec::new();
    let mut i: usize = 0;
    while i < orders.len()
        invariant
            i <= orders.len(),
            views(r@) == views(orders@.take(i as int)),
        decreases orders.len() - i,
    {
        let ghost before = r@;
        r.push(orders[i].duplicate());
        i += 1;
        proof {
            assert(views(r@) =~= views(before).push(orders@[i - 1]@));
            assert(views(orders@.take(i as int)) =~= views(orders@.take(i - 1)).push(orders@[i - 1]@));
        }
    }
    proof {
        assert(orders@.take(orders@.len() as int) =~= orders@);
    }
    r
}

/// A copy of a tick table.
pub fn duplicate_ticks(ticks: &Vec<Tick>) -> (r: Vec<Tick>)
    ensures
        r@ == ticks@,
{
    let mut r: Vec<Tick> = Vec::new();
    let mut i: usize = 0;
    while i < ticks.len()
        invariant
            i <= ticks.len(),
            r@ == ticks@.take(i as int),
        decreases ticks.len() - i,
    {
        r.push(ticks[i]);
        i += 1;
        proof {
            assert(r@ =~= ticks@.take(i as int));
        }
    }
    proof {
        assert(ticks@.take(ticks@.len() as int) =~= ticks@);
    }
    r
}

/// Whether a storage is well formed, and whether its counters are in
/// step with its orders, shows in its tables as mathematical values.
pub proof fn lemma_same_book(a: Storage, b: Storage)
    requires
        a.book() == b.book(),
        a.last_order_id == b.last_order_id,
    ensures
        a.wf() == b.wf(),
        a.counted() == b.counted(),
{
    assert(order_ids(a.orders@) =~= view_ids(views(a.orders@)));
    assert(order_ids(b.orders@) =~= view_ids(views(b.orders@)));
    assert(a.orders@.len() == views(a.orders@).len());
    assert(b.orders@.len() == views(b.orders@).len());
    assert forall|i: int| 0 <= i < a.orders@.len() implies a.orders@[i]@ == b.orders@[i]@ by {
        assert(views(a.orders@)[i] == views(b.orders@)[i]);
    }
    if a.wf() {
        assert forall|i: int| 0 <= i < b.orders@.len() implies (#[trigger] b.orders@[i])@.wf() && b.orders@[i].order_id
            <= b.last_order_id by {
            assert(a.orders@[i]@.wf());
        }
    }
    if b.wf() {
        assert forall|i: int| 0 <= i < a.orders@.len() implies (#[trigger] a.orders@[i])@.wf() && a.orders@[i].order_id
            <= a.last_order_id by {
            assert(b.orders@[i]@.wf());
        }
    }
    assert forall|d: OrderDirection, t: u128| ids_at(a.orders@, d, t) == ids_at(b.orders@, d, t) by {
        lemma_level_ids(a.orders@, d, t);
        lemma_level_ids(b.orders@, d, t);
    }
    if a.counted() {
        assert forall|d: OrderDirection, t: u128| tick_total(b.ticks(d), t) == (#[trigger] ids_at(b.orders@, d, t)).len() by {
            assert(tick_total(a.ticks(d), t) == ids_at(a.orders@, d, t).len());
        }
    }
    if b.counted() {
        assert forall|d: OrderDirection, t: u128| tick_total(a.ticks(d), t) == (#[trigger] ids_at(a.orders@, d, t)).len() by {
            assert(tick_total(b.ticks(d), t) == ids_at(b.orders@, d, t).len());
        }
    }
}

/// In a table in ascending order of id, a row for `order_id` exists exactly
/// when some row carries that id, and then it is the only one.
pub proof fn lemma_has_order(orders: Seq<Order>, order_id: u64)
    requires
        sorted(order_ids(orders)),
    ensures
        has_order(orders, order_id) <==> exists|i: int| 0 <= i < orders.len() && (#[trigger] orders[i]).order_id == order_id,
        forall|i: int| 0 <= i < orders.len() && (#[trigger] orders[i]).order_id == order_id ==> i == order_slot(orders, order_id),
{
    let keys = order_ids(orders);
    assert forall|i: int| 0 <= i < orders.len() && (#[trigger] orders[i]).order_id == order_id implies i == order_slot(
        orders,
        order_id,
    ) by {
        assert forall|j: int| 0 <= j < i implies keys[j] < order_id by {
            assert(keys[j] < keys[i]);
        }
        assert(keys[i] >= order_id);
        lemma_lower_bound(keys, order_id as int, i);
    }
}

/// Writes `order` into the order table under its id, and, when `inserted`
/// is set, counts it at its price level. Returns the counter of that level.
/// Fails, changing nothing, when the order's price cannot be represented
/// or the counter is at its largest value.
pub fn store_order(storage: &mut Storage, order: Order, inserted: bool) -> (r: Result<u64, ContractError>)
    ensures
        final(storage).last_order_id == old(storage).last_order_id,
        final(storage).orderbook == old(storage).orderbook,
        final(storage).rewards == old(storage).rewards,
        order@.price() matches Err(e) ==> r == Err::<u64, ContractError>(e),
        order@.price() matches Ok(price) ==> {
            let ticks = old(storage).ticks(order.direction);
            let tick = price.spec_tick();
            if inserted && tick_total(ticks, tick) == u64::MAX {
                r == Err::<u64, ContractError>(ContractError::Overflow)
            } else {
                &&& r is Ok
                &&& final(storage).orders@ == upsert_order(old(storage).orders@, order)
                &&& final(storage).ticks(order.direction) == if inserted { tick_added(ticks, tick) } else { ticks }
                &&& r->Ok_0 == tick_total(final(storage).ticks(order.direction), tick)
            }
        },
        r is Err ==> *final(storage) == *old(storage),
        order.direction == OrderDirection::Buy ==> final(storage).sell_ticks == old(storage).sell_ticks,
        order.direction == OrderDirection::Sell ==> final(storage).buy_ticks == old(storage).buy_ticks,
        old(storage).wf() && order@.wf() && order.order_id <= old(storage).last_order_id && r is Ok ==> final(storage).wf(),
        !inserted && r is Ok ==> Ok::<Book, ContractError>(final(storage).book()) == old(storage).book().stored(order@),
        old(storage).wf() && r is Ok ==> present(final(storage).orders@, order) && final(storage).orders@[order_slot(
            final(storage).orders@,
            order.order_id,
        )] == order,
        old(storage).wf() ==> forall|o: Order| o.order_id != order.order_id && present(old(storage).orders@, o)
            ==> #[trigger] present(final(storage).orders@, o),
        old(storage).wf() && old(storage).counted() && r is Ok && (if has_order(old(storage).orders@, order.order_id) {
            !inserted && present(old(storage).orders@, order)
        } else {
            inserted
        }) ==> final(storage).counted(),
{
    let price = match order.get_price() {
        Ok(p) => p,
        Err(e) => { return Err(e); },
    };
    let tick = price.tick();
    let ghost stored = order;
    let before = match order.direction {
        OrderDirection::Buy => read_tick(&storage.buy_ticks, tick),
        OrderDirection::Sell => read_tick(&storage.sell_ticks, tick),
    };
    if inserted && before == u64::MAX {
        return Err(ContractError::Overflow);
    }
    let total = if inserted {
        let added = match order.direction {
            OrderDirection::Buy => add_tick(&mut storage.buy_ticks, tick),
            OrderDirection::Sell => add_tick(&mut storage.sell_ticks, tick),
        };
        match added {
            Ok(t) => t,
            Err(_) => before,
        }
    } else {
        before
    };
    put_order(&mut storage.orders, order, Ghost(storage.last_order_id));
    proof {
        let a = old(storage).orders@;
        let p = order_slot(a, stored.order_id);
        assert(order_ids(a) =~= view_ids(views(a)));
        if has_order(a, stored.order_id) {
            assert(views(a.update(p, stored)) =~= views(a).update(p, stored@));
        } else {
            lemma_slot_exists(order_ids(a), stored.order_id as int, 0);
            assert(views(a.insert(p, stored)) =~= views(a).insert(p, stored@));
        }
        if old(storage).wf() {
            lemma_upsert_rows(old(storage).orders@, stored);
            if old(storage).counted() && (if has_order(old(storage).orders@, stored.order_id) {
                !inserted && present(old(storage).orders@, stored)
            } else {
                inserted
            }) {
                lemma_upsert_levels(old(storage).orders@, stored);
                if inserted {
                    lemma_tick_added(old(storage).ticks(stored.direction), tick);
                }
                assert forall|d: OrderDirection, t: u128| tick_total(storage.ticks(d), t) == (#[trigger] ids_at(storage.orders@, d, t)).len() by {
                    assert(tick_total(old(storage).ticks(d), t) == ids_at(old(storage).orders@, d, t).len());
                }
            }
        }
    }
    Ok(total)
}

/// The counter at `price`.
pub fn read_tick(ticks: &Vec<Tick>, price: u128) -> (total: u64)
    ensures
        total == tick_total(ticks@, price),
{
    let p = find_tick_slot(ticks, price);
    if p < ticks.len() && ticks[p].price == price {
        ticks[p].total_orders
    } else {
        0
    }
}

fn put_order(orders: &mut Vec<Order>, order: Order, Ghost(last): Ghost<u64>)
    ensures
        final(orders)@ == upsert_order(old(orders)@, order),
        orders_wf(old(orders)@, last) && order@.wf() && order.order_id <= last ==> orders_wf(final(orders)@, last),
{
    let id = order.order_id;
    let ghost stored = order;
    let p = find_order_slot(orders, id);
    if p < orders.len() && orders[p].order_id == id {
        orders[p] = order;
    } else {
        orders.insert(p, order);
    }
    proof {
        let a = old(orders)@;
        let b = orders@;
        if orders_wf(a, last) && stored@.wf() && id <= last {
            lemma_upsert_rows(a, stored);
            assert forall|i: int| 0 <= i < b.len() implies (#[trigger] b[i])@.wf() && b[i].order_id <= last by {
                if i < p {
                    assert(b[i] == a[i]);
                } else if i > p {
                    if has_order(a, id) {
                        assert(b[i] == a[i]);
                    } else {
                        assert(b[i] == a[i - 1]);
                    }
                }
            }
        }
    }
}

/// Takes the row of `order` out of the order table and counts one order
/// fewer at its price level. Returns the counter that is left. When the
/// table has no row with the order's id, nothing changes. Fails, changing
/// nothing, when the order's price cannot be represented.
pub fn remove_order(storage: &mut Storage, order: &Order) -> (r: Result<u64, ContractError>)
    ensures
        final(storage).last_order_id == old(storage).last_order_id,
        final(storage).orderbook == old(storage).orderbook,
        final(storage).rewards == old(storage).rewards,
        order@.price() matches Err(e) ==> r == Err::<u64, ContractError>(e) && *final(storage) == *old(storage),
        order@.price() matches Ok(price) ==> {
            let ticks = old(storage).ticks(order.direction);
            let tick = price.spec_tick();
            if has_order(old(storage).orders@, order.order_id) {
                &&& r is Ok
                &&& final(storage).orders@ == delete_order(old(storage).orders@, order.order_id)
                &&& final(storage).ticks(order.direction) == tick_dropped(ticks, tick)
                &&& r->Ok_0 == if tick_total(ticks, tick) > 0 { (tick_total(ticks, tick) - 1) as u64 } else { 0 }
            } else {
                r == Ok::<u64, ContractError>(tick_total(ticks, tick)) && *final(storage) == *old(storage)
            }
        },
        order.direction == OrderDirection::Buy ==> final(storage).sell_ticks == old(storage).sell_ticks,
        order.direction == OrderDirection::Sell ==> final(storage).buy_ticks == old(storage).buy_ticks,
        old(storage).wf() ==> final(storage).wf(),
        r is Ok ==> Ok::<Book, ContractError>(final(storage).book()) == old(storage).book().removed(order@),
        r is Err ==> old(storage).book().removed(order@) is Err && r->Err_0 == old(storage).book().removed(order@)->Err_0,
        old(storage).wf() && r is Ok ==> !has_order(final(storage).orders@, order.order_id),
        old(storage).wf() ==> forall|o: Order| o.order_id != order.order_id && present(old(storage).orders@, o)
            ==> #[trigger] present(final(storage).orders@, o),
        old(storage).wf() && old(storage).counted() && (has_order(old(storage).orders@, order.order_id) ==> present(
            old(storage).orders@,
            *order,
        )) ==> final(storage).counted(),
{
    let price = match order.get_price() {
        Ok(p) => p,
        Err(e) => { return Err(e); },
    };
    let tick = price.tick();
    proof {
        let a = old(storage).orders@;
        let p = order_slot(a, order.order_id);
        assert(order_ids(a) =~= view_ids(views(a)));
        if has_order(a, order.order_id) {
            assert(views(a.remove(p)) =~= views(a).remove(p));
        }
        if old(storage).wf() {
            lemma_delete_rows(old(storage).orders@, order.order_id);
        }
    }
    let p = find_order_slot(&storage.orders, order.order_id);
    if p < storage.orders.len() && storage.orders[p].order_id == order.order_id {
        let _gone = storage.orders.remove(p);
        proof {
            let a = old(storage).orders@;
            let b = storage.orders@;
            let last = storage.last_order_id;
            if orders_wf(a, last) {
                assert forall|i: int| 0 <= i < b.len() implies (#[trigger] b[i])@.wf() && b[i].order_id <= last by {
                    if i < p {
                        assert(b[i] == a[i]);
                    } else {
                        assert(b[i] == a[i + 1]);
                    }
                }
            }
        }
        let total = match order.direction {
            OrderDirection::Buy => drop_tick(&mut storage.buy_ticks, tick),
            OrderDirection::Sell => drop_tick(&mut storage.sell_ticks, tick),
        };
        proof {
            if old(storage).wf() && old(storage).counted() && present(old(storage).orders@, *order) {
                lemma_delete_levels(old(storage).orders@, order.order_id);
                lemma_tick_dropped(old(storage).ticks(order.direction), tick);
                assert forall|d: OrderDirection, t: u128| tick_total(storage.ticks(d), t) == (#[trigger] ids_at(storage.orders@, d, t)).len() by {
                    assert(tick_total(old(storage).ticks(d), t) == ids_at(old(storage).orders@, d, t).len());
                }
            }
        }
        Ok(total)
    } else {
        let total = match order.direction {
            OrderDirection::Buy => read_tick(&storage.buy_ticks, tick),
            OrderDirection::Sell => read_tick(&storage.sell_ticks, tick),
        };
        Ok(total)
    }
}

/// The order stored under `order_id`.
pub fn read_order(storage: &Storage, order_id: u64) -> (r: Result<Order, ContractError>)
    ensures
        has_order(storage.orders@, order_id) ==> r is Ok && r->Ok_0@ == storage.orders@[order_slot(
            storage.orders@,
            order_id,
        )]@,
        !has_order(storage.orders@, order_id) ==> r is Err && r->Err_0 == ContractError::OrderNotFound,
        r is Ok ==> r->Ok_0.order_id == order_id,
        match storage.book().read(order_id) {
            Some(o) => r is Ok && r->Ok_0@ == o,
            None => r is Err,
        },
        storage.wf() && r is Ok ==> r->Ok_0@.wf() && order_id <= storage.last_order_id,
{
    let p = find_order_slot(&storage.orders, order_id);
    proof {
        assert(order_ids(storage.orders@) =~= view_ids(views(storage.orders@)));
    }
    if p < storage.orders.len() && storage.orders[p].order_id == order_id {
        Ok(storage.orders[p].duplicate())
    } else {
        Err(ContractError::OrderNotFound)
    }
}

/// Sets the id counter to zero.
pub fn init_last_order_id(storage: &mut Storage)
    ensures
        final(storage).last_order_id == 0,
        final(storage).orderbook == old(storage).orderbook,
        final(storage).orders == old(storage).orders,
        final(storage).buy_ticks == old(storage).buy_ticks,
        final(storage).sell_ticks == old(storage).sell_ticks,
        final(storage).rewards == old(storage).rewards,
{
    storage.last_order_id = 0;
}

/// Advances the id counter by one and returns the new value, which is
/// larger than every id handed out before. Fails, changing nothing, when
/// the counter is at its largest value.
pub fn increase_last_order_id(storage: &mut Storage) -> (r: Result<u64, ContractError>)
    ensures
        old(storage).last_order_id < u64::MAX ==> r == Ok::<u64, ContractError>((old(storage).last_order_id + 1) as u64)
            && final(storage).last_order_id == old(storage).last_order_id + 1,
        old(storage).last_order_id == u64::MAX ==> r == Err::<u64, ContractError>(ContractError::Overflow)
            && final(storage).last_order_id == old(storage).last_order_id,
        final(storage).orderbook == old(storage).orderbook,
        final(storage).orders == old(storage).orders,
        final(storage).buy_ticks == old(storage).buy_ticks,
        final(storage).sell_ticks == old(storage).sell_ticks,
        final(storage).rewards == old(storage).rewards,
        old(storage).wf() ==> final(storage).wf(),
{
    if storage.last_order_id == u64::MAX {
        return Err(ContractError::Overflow);
    }
    storage.last_order_id = storage.last_order_id + 1;
    Ok(storage.last_order_id)
}

/// The id handed out last.
pub fn read_last_order_id(storage: &Storage) -> (id: u64)
    ensures
        id == storage.last_order_id,
{
    storage.last_order_id
}

/// Decodes an order id from the first 8 bytes of an index key, little-endian.
pub fn bytes_to_u64(data: &[u8]) -> (r: Result<u64, ContractError>)
    ensures
        data@.len() < 8 ==> r == Err::<u64, ContractError>(ContractError::CorruptedIndex),
        data@.len() >= 8 ==> r == Ok::<u64, ContractError>(spec_u64_from_le_bytes(data@.subrange(0, 8))),
{
    if data.len() < 8 {
        return Err(ContractError::CorruptedIndex);
    }
    Ok(u64_from_le_bytes(slice_subrange(data, 0, 8)))
}

/// The first key after the key of `start_after`: its 8 little-endian bytes
/// followed by one byte 1.
pub fn calc_range_start(start_after: Option<u64>) -> (r: Option<Vec<u8>>)
    ensures
        start_after is None ==> r is None,
        start_after matches Some(id) ==> r is Some && r->Some_0@ == spec_u64_to_le_bytes(id).push(1u8),
{
    match start_after {
        None => None,
        Some(id) => {
            let mut v = u64_to_le_bytes(id);
            v.push(1);
            Some(v)
        },
    }
}

/// The key of `start_after`: its 8 little-endian bytes.
pub fn calc_range_end(start_after: Option<u64>) -> (r: Option<Vec<u8>>)
    ensures
        start_after is None ==> r is None,
        start_after matches Some(id) ==> r is Some && r->Some_0@ == spec_u64_to_le_bytes(id),
{
    match start_after {
        None => None,
        Some(id) => Some(u64_to_le_bytes(id)),
    }
}

} // verus!
