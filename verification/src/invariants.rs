use vstd::prelude::*;
use crate::orderbook::{Order, OrderDirection};
use crate::state::{
    delete_order, has_order, has_tick, ids_at, is_lower_bound, lemma_has_order, lemma_lower_bound, lemma_slot_exists, order_ids,
    order_slot, sorted,
    tick_added, tick_dropped, tick_prices, tick_slot, tick_total, ticks_wf, upsert_order, Storage, Tick,
};

verus! {

/// In a well-formed storage no stored order has spent more than it offers.
pub proof fn lemma_spent_within_offer(storage: Storage)
    requires
        storage.wf(),
    ensures
        forall|i: int| 0 <= i < storage.orders@.len() ==> (#[trigger] storage.orders@[i]).filled_offer_amount
            <= storage.orders@[i].offer_amount,
{
    assert forall|i: int| 0 <= i < storage.orders@.len() implies (#[trigger] storage.orders@[i]).filled_offer_amount
        <= storage.orders@[i].offer_amount by {
        assert(storage.orders@[i]@.wf());
    }
}

/// In a well-formed storage no two orders share an id, and no order has an
/// id beyond the counter, so the next id handed out is new.
pub proof fn lemma_order_ids_unique(storage: Storage)
    requires
        storage.wf(),
    ensures
        forall|i: int, j: int| 0 <= i < storage.orders@.len() && 0 <= j < storage.orders@.len() && i != j
            ==> storage.orders@[i].order_id != storage.orders@[j].order_id,
        forall|i: int| 0 <= i < storage.orders@.len() ==> (#[trigger] storage.orders@[i]).order_id <= storage.last_order_id,
{
    let keys = order_ids(storage.orders@);
    assert forall|i: int, j: int| 0 <= i < storage.orders@.len() && 0 <= j < storage.orders@.len() && i != j implies storage.orders@[i].order_id
        != storage.orders@[j].order_id by {
        if i < j {
            assert(keys[i] < keys[j]);
        } else {
            assert(keys[j] < keys[i]);
        }
    }
}

/// The orders listed for a price level are served oldest first, and each
/// of them has its row: in a table in ascending order of id, the ids at a
/// level are strictly ascending, and each is the id of a row of the table
/// that sits at that level.
pub proof fn lemma_level_is_fifo(orders: Seq<Order>, direction: OrderDirection, tick: u128)
    requires
        sorted(order_ids(orders)),
    ensures
        forall|i: int, j: int| 0 <= i < j < ids_at(orders, direction, tick).len() ==> ids_at(orders, direction, tick)[i]
            < ids_at(orders, direction, tick)[j],
        forall|k: int| 0 <= k < ids_at(orders, direction, tick).len() ==> {
            let id = #[trigger] ids_at(orders, direction, tick)[k];
            has_order(orders, id) && orders[order_slot(orders, id)]@.at_tick(direction, tick)
        },
        ids_at(orders, direction, tick).len() <= orders.len(),
    decreases orders.len(),
{
    let ids = ids_at(orders, direction, tick);
    if orders.len() > 0 {
        let front = orders.drop_last();
        let rest = ids_at(front, direction, tick);
        assert forall|i: int, j: int| 0 <= i < j < front.len() implies order_ids(front)[i] < order_ids(front)[j] by {
            assert(order_ids(orders)[i] < order_ids(orders)[j]);
        }
        lemma_level_is_fifo(front, direction, tick);
        assert forall|k: int| 0 <= k < ids.len() implies {
            let id = #[trigger] ids[k];
            has_order(orders, id) && orders[order_slot(orders, id)]@.at_tick(direction, tick)
        } by {
            let id = ids[k];
            if k < rest.len() {
                assert(rest[k] == id);
                let m = order_slot(front, id);
                assert(has_order(front, id));
                assert(orders[m].order_id == id);
                lemma_has_order(orders, id);
            } else {
                assert(orders[orders.len() - 1].order_id == id);
                lemma_has_order(orders, id);
            }
        }
        assert forall|i: int, j: int| 0 <= i < j < ids.len() implies ids[i] < ids[j] by {
            if j == rest.len() {
                let m = order_slot(front, rest[i]);
                assert(has_order(front, rest[i]));
                assert(order_ids(orders)[m] < order_ids(orders)[orders.len() - 1]);
            }
        }
    }
}

/// The best prices come in the order in which they are to be tried: of
/// the levels of a well-formed tick table, a later buy level is cheaper
/// than an earlier one, and a later sell level is dearer.
pub proof fn lemma_levels_by_priority(ticks: Seq<Tick>, limit: Option<u32>)
    requires
        ticks_wf(ticks),
    ensures
        forall|i: int, j: int| 0 <= i < j < crate::engine::best_buy_prices(ticks, limit).len()
            ==> crate::engine::best_buy_prices(ticks, limit)[i] > crate::engine::best_buy_prices(ticks, limit)[j],
        forall|i: int, j: int| 0 <= i < j < crate::engine::best_sell_prices(ticks, limit).len()
            ==> crate::engine::best_sell_prices(ticks, limit)[i] < crate::engine::best_sell_prices(ticks, limit)[j],
{
    let keys = tick_prices(ticks);
    let buys = crate::engine::best_buy_prices(ticks, limit);
    let sells = crate::engine::best_sell_prices(ticks, limit);
    assert forall|i: int, j: int| 0 <= i < j < buys.len() implies buys[i] > buys[j] by {
        assert(keys[ticks.len() - 1 - j] < keys[ticks.len() - 1 - i]);
    }
    assert forall|i: int, j: int| 0 <= i < j < sells.len() implies sells[i] < sells[j] by {
        assert(keys[i] < keys[j]);
    }
}

/// Placing an order and cancelling it before anything is filled leaves
/// the book as it was: the order table and the tick table are what they
/// were before the order came, and since nothing of the order is filled,
/// the refund of the cancellation is the whole offer.
pub proof fn lemma_submit_then_cancel(orders: Seq<Order>, ticks: Seq<Tick>, order: Order, tick: u128)
    requires
        sorted(order_ids(orders)),
        !has_order(orders, order.order_id),
        ticks_wf(ticks),
        tick_total(ticks, tick) < u64::MAX,
        order.filled_offer_amount == 0,
    ensures
        delete_order(upsert_order(orders, order), order.order_id) == orders,
        tick_dropped(tick_added(ticks, tick), tick) == ticks,
        order@.left_offer() == order.offer_amount,
{
    let p = order_slot(orders, order.order_id);
    let keys = order_ids(orders);
    lemma_slot_exists(keys, order.order_id as int, 0);
    assert(is_lower_bound(keys, order.order_id as int, p));
    let placed = orders.insert(p, order);
    assert(upsert_order(orders, order) == placed);
    assert forall|j: int| 0 <= j < p implies order_ids(placed)[j] < order.order_id by {
        assert(keys[j] < order.order_id);
    }
    assert(is_lower_bound(order_ids(placed), order.order_id as int, p));
    lemma_lower_bound(order_ids(placed), order.order_id as int, p);
    assert(placed.remove(p) =~= orders);

    let q = tick_slot(ticks, tick);
    let prices = tick_prices(ticks);
    lemma_slot_exists(prices, tick as int, 0);
    assert(is_lower_bound(prices, tick as int, q));
    let added = tick_added(ticks, tick);
    if has_tick(ticks, tick) {
        assert(tick_prices(added) =~= prices);
        assert(tick_slot(added, tick) == q);
        assert(ticks[q].total_orders > 0);
        assert(added.update(q, Tick { price: tick, total_orders: ticks[q].total_orders }) =~= ticks);
    } else {
        assert forall|j: int| 0 <= j < q implies tick_prices(added)[j] < tick by {
            assert(prices[j] < tick);
        }
        assert(is_lower_bound(tick_prices(added), tick as int, q));
        lemma_lower_bound(tick_prices(added), tick as int, q);
        assert(added.remove(q) =~= ticks);
    }
}

} // verus!
