use vstd::prelude::*;
use crate::error::ContractError;
use crate::matching::{match_orders, match_price, spec_match_orders, spec_match_price, MatchResult};
use crate::orderbook::{clone_bytes, CoinSide, Executor, Order, OrderDirection, OrderStatus, OrderView};
use crate::payment::{payment_views, payments_total, Payment};
use crate::state::{
    ids_at, lemma_level_ids, level_ids, present, read_order, remove_order, store_order, Book, Storage, Tick, DEFAULT_LIMIT,
    MAX_LIMIT,
};

verus! {

/// The number of rows a lookup returns at most: the limit asked for, or
/// the default, and never more than the maximum.
pub open spec fn spec_page_size(limit: Option<u32>) -> u32 {
    let l = match limit {
        Some(l) => l,
        None => DEFAULT_LIMIT,
    };
    if l < MAX_LIMIT { l } else { MAX_LIMIT }
}

pub fn page_size(limit: Option<u32>) -> (n: usize)
    ensures
        n == spec_page_size(limit),
        n <= MAX_LIMIT,
{
    let l = match limit {
        Some(l) => l,
        None => DEFAULT_LIMIT,
    };
    if l < MAX_LIMIT { l as usize } else { MAX_LIMIT as usize }
}

pub open spec fn min_int(a: int, b: int) -> int {
    if a <= b { a } else { b }
}

/// The best buy prices: the highest first, at most a page of them.
pub open spec fn best_buy_prices(ticks: Seq<Tick>, limit: Option<u32>) -> Seq<u128> {
    Seq::new(min_int(spec_page_size(limit) as int, ticks.len() as int) as nat, |j: int| ticks[ticks.len() - 1 - j].price)
}

/// The best sell prices: the lowest first, at most a page of them.
pub open spec fn best_sell_prices(ticks: Seq<Tick>, limit: Option<u32>) -> Seq<u128> {
    Seq::new(min_int(spec_page_size(limit) as int, ticks.len() as int) as nat, |j: int| ticks[j].price)
}

/// The price levels the matcher walks: the buy levels from the highest
/// price down and the sell levels from the lowest price up, a page of each.
pub fn find_list_match_price(storage: &Storage, limit: Option<u32>) -> (r: (Vec<u128>, Vec<u128>))
    ensures
        r.0@ == best_buy_prices(storage.buy_ticks@, limit),
        r.1@ == best_sell_prices(storage.sell_ticks@, limit),
{
    let n = page_size(limit);
    let mut buys: Vec<u128> = Vec::new();
    let len = storage.buy_ticks.len();
    let mut j: usize = 0;
    while j < n && j < len
        invariant
            j <= n,
            j <= len,
            len == storage.buy_ticks@.len(),
            buys@.len() == j,
            forall|k: int| 0 <= k < j ==> buys@[k] == storage.buy_ticks@[len - 1 - k].price,
        decreases len - j,
    {
        buys.push(storage.buy_ticks[len - 1 - j].price);
        j += 1;
    }
    let mut sells: Vec<u128> = Vec::new();
    let slen = storage.sell_ticks.len();
    let mut k: usize = 0;
    while k < n && k < slen
        invariant
            k <= n,
            k <= slen,
            slen == storage.sell_ticks@.len(),
            sells@.len() == k,
            forall|m: int| 0 <= m < k ==> sells@[m] == storage.sell_ticks@[m].price,
        decreases slen - k,
    {
        sells.push(storage.sell_ticks[k].price);
        k += 1;
    }
    proof {
        assert(buys@ =~= best_buy_prices(storage.buy_ticks@, limit));
        assert(sells@ =~= best_sell_prices(storage.sell_ticks@, limit));
    }
    (buys, sells)
}

/// The ids of the orders at one price level that a matcher call serves:
/// the oldest first, at most a page of them.
pub open spec fn page_ids(orders: Seq<OrderView>, direction: OrderDirection, tick: u128, limit: Option<u32>) -> Seq<u64> {
    let all = level_ids(orders, direction, tick);
    all.take(min_int(spec_page_size(limit) as int, all.len() as int))
}

/// The orders at one price level that a matcher call serves: the oldest
/// first, at most a page of them.
pub fn find_match_orders(storage: &Storage, tick: u128, direction: OrderDirection, limit: Option<u32>) -> (ids: Vec<u64>)
    ensures
        ids@ == ids_at(storage.orders@, direction, tick).take(
            min_int(spec_page_size(limit) as int, ids_at(storage.orders@, direction, tick).len() as int),
        ),
        ids@ == page_ids(storage.book().orders, direction, tick, limit),
{
    proof {
        lemma_level_ids(storage.orders@, direction, tick);
    }
    let n = page_size(limit);
    let mut ids: Vec<u64> = Vec::new();
    let mut i: usize = 0;
    while i < storage.orders.len()
        invariant
            i <= storage.orders.len(),
            ids@ == ids_at(storage.orders@.take(i as int), direction, tick),
        decreases storage.orders.len() - i,
    {
        proof {
            assert(storage.orders@.take(i + 1).drop_last() =~= storage.orders@.take(i as int));
        }
        if storage.orders[i].is_at_tick(direction, tick) {
            ids.push(storage.orders[i].order_id);
        }
        i += 1;
    }
    proof {
        assert(storage.orders@.take(storage.orders@.len() as int) =~= storage.orders@);
    }
    if ids.len() > n {
        ids.truncate(n);
    } else {
        proof {
            assert(ids@.take(ids@.len() as int) =~= ids@);
        }
    }
    ids
}

/// One entry of the matcher's report.
#[derive(Clone, Debug, PartialEq, Eq)]
pub struct MatchedOrder {
    /// The order as it stood when the entry was written.
    pub order: Order,
    /// Set when the order was a stuck row that the matcher removed.
    pub removed: bool,
    /// The fees withheld from the order's leg, or the remainder swept.
    pub fee: u128,
    /// The asset of `fee`.
    pub fee_asset: CoinSide,
}

/// What a matcher call has gathered so far.
#[derive(Clone, Debug, PartialEq, Eq)]
pub struct Matching {
    /// The account of the reward wallet.
    pub reward: Executor,
    /// The account of the relayer.
    pub relayer: Executor,
    /// Base amounts owed to buyers.
    pub list_bidder: Vec<Payment>,
    /// Quote amounts owed to sellers.
    pub list_asker: Vec<Payment>,
    pub events: Vec<MatchedOrder>,
    /// How many orders reached their end in this call.
    pub total_orders: u64,
    /// Base units released from the orders in this call: fills and swept remainders.
    pub base_released: u128,
    /// Quote units released from the orders in this call.
    pub quote_released: u128,
}

/// An entry of the matcher's report as a mathematical value.
pub ghost struct EventView {
    pub order: OrderView,
    pub removed: bool,
    pub fee: u128,
    pub fee_asset: CoinSide,
}

/// What a matcher call has gathered, as a mathematical value.
pub ghost struct Tally {
    pub reward_base: u128,
    pub reward_quote: u128,
    pub relayer_base: u128,
    pub relayer_quote: u128,
    pub list_bidder: Seq<(Seq<u8>, u128)>,
    pub list_asker: Seq<(Seq<u8>, u128)>,
    pub events: Seq<EventView>,
    pub total_orders: u64,
    pub base_released: u128,
    pub quote_released: u128,
}

pub open spec fn event_views(events: Seq<MatchedOrder>) -> Seq<EventView> {
    Seq::new(
        events.len(),
        |i: int|
            EventView {
                order: events[i].order@,
                removed: events[i].removed,
                fee: events[i].fee,
                fee_asset: events[i].fee_asset,
            },
    )
}

impl Tally {
    /// The tally with one more entry in the report.
    pub open spec fn reported(self, order: OrderView, removed: bool, fee: u128, fee_asset: CoinSide) -> Tally {
        Tally { events: self.events.push(EventView { order, removed, fee, fee_asset }), ..self }
    }

    /// The tally after an order has been looked at for the last time: an
    /// order that has reached its end is counted, as long as the count fits.
    pub open spec fn closed(self, order: OrderView) -> Tally {
        if is_done(order) && self.total_orders < u64::MAX {
            Tally { total_orders: (self.total_orders + 1) as u64, ..self }
        } else {
            self
        }
    }

    /// Whether every sum that booking a fill forms fits in 128 bits.
    pub open spec fn fits(self, m: MatchResult) -> bool {
        &&& self.reward_quote + m.asker.reward_fee + m.buy_dust <= u128::MAX
        &&& self.relayer_quote + m.asker.relayer_fee <= u128::MAX
        &&& self.reward_base + m.bidder.reward_fee + m.sell_dust <= u128::MAX
        &&& self.relayer_base + m.bidder.relayer_fee <= u128::MAX
        &&& self.base_released + m.bidder.reward_fee + m.bidder.relayer_fee + m.bidder.trader_amount + m.sell_dust <= u128::MAX
        &&& self.quote_released + m.asker.reward_fee + m.asker.relayer_fee + m.asker.trader_amount + m.buy_dust <= u128::MAX
    }

    /// The tally after one pairwise fill has been booked.
    pub open spec fn settled(self, buy: OrderView, sell: OrderView, m: MatchResult) -> Result<Tally, ContractError> {
        if !self.fits(m) {
            Err(ContractError::Overflow)
        } else {
            let t1 = Tally {
                reward_quote: (self.reward_quote + m.asker.reward_fee + m.buy_dust) as u128,
                relayer_quote: (self.relayer_quote + m.asker.relayer_fee) as u128,
                reward_base: (self.reward_base + m.bidder.reward_fee + m.sell_dust) as u128,
                relayer_base: (self.relayer_base + m.bidder.relayer_fee) as u128,
                base_released: (self.base_released + m.bidder.reward_fee + m.bidder.relayer_fee + m.bidder.trader_amount
                    + m.sell_dust) as u128,
                quote_released: (self.quote_released + m.asker.reward_fee + m.asker.relayer_fee + m.asker.trader_amount
                    + m.buy_dust) as u128,
                list_asker: if m.asker.trader_amount > 0 {
                    self.list_asker.push((sell.bidder_addr, m.asker.trader_amount))
                } else {
                    self.list_asker
                },
                list_bidder: if m.bidder.trader_amount > 0 {
                    self.list_bidder.push((buy.bidder_addr, m.bidder.trader_amount))
                } else {
                    self.list_bidder
                },
                ..self
            };
            let t2 = t1.reported(sell, false, (m.asker.reward_fee + m.asker.relayer_fee) as u128, CoinSide::Quote);
            let t3 = t2.reported(buy, false, (m.bidder.reward_fee + m.bidder.relayer_fee) as u128, CoinSide::Base);
            let t4 = if m.sell_dust > 0 { t3.reported(sell, false, m.sell_dust, CoinSide::Base) } else { t3 };
            let t5 = if m.buy_dust > 0 { t4.reported(buy, false, m.buy_dust, CoinSide::Quote) } else { t4 };
            Ok(t5)
        }
    }
}

impl Matching {
    /// What the call holds for traders and in the two reward accounts.
    pub open spec fn held(&self, side: CoinSide) -> int {
        match side {
            CoinSide::Base => payments_total(self.list_bidder@) + self.reward.base_amount + self.relayer.base_amount,
            CoinSide::Quote => payments_total(self.list_asker@) + self.reward.quote_amount + self.relayer.quote_amount,
        }
    }

    pub open spec fn released(&self, side: CoinSide) -> int {
        match side {
            CoinSide::Base => self.base_released as int,
            CoinSide::Quote => self.quote_released as int,
        }
    }

    /// What the call has gathered, as a mathematical value.
    pub open spec fn tally(&self) -> Tally {
        Tally {
            reward_base: self.reward.base_amount,
            reward_quote: self.reward.quote_amount,
            relayer_base: self.relayer.base_amount,
            relayer_quote: self.relayer.quote_amount,
            list_bidder: payment_views(self.list_bidder@),
            list_asker: payment_views(self.list_asker@),
            events: event_views(self.events@),
            total_orders: self.total_orders,
            base_released: self.base_released,
            quote_released: self.quote_released,
        }
    }

    /// What is held beyond what the call has released.
    pub open spec fn surplus(&self, side: CoinSide) -> int {
        self.held(side) - self.released(side)
    }

    /// A call that has gathered nothing yet.
    pub fn new(reward: Executor, relayer: Executor) -> (m: Matching)
        ensures
            m.reward == reward,
            m.relayer == relayer,
            m.list_bidder@.len() == 0,
            m.list_asker@.len() == 0,
            m.events@.len() == 0,
            m.total_orders == 0,
            m.base_released == 0,
            m.quote_released == 0,
            m.surplus(CoinSide::Base) == reward.base_amount + relayer.base_amount,
            m.surplus(CoinSide::Quote) == reward.quote_amount + relayer.quote_amount,
    {
        Matching {
            reward,
            relayer,
            list_bidder: Vec::new(),
            list_asker: Vec::new(),
            events: Vec::new(),
            total_orders: 0,
            base_released: 0,
            quote_released: 0,
        }
    }

    fn report(&mut self, order: &Order, removed: bool, fee: u128, fee_asset: CoinSide)
        ensures
            final(self).reward == old(self).reward,
            final(self).relayer == old(self).relayer,
            final(self).list_bidder == old(self).list_bidder,
            final(self).list_asker == old(self).list_asker,
            final(self).total_orders == old(self).total_orders,
            final(self).base_released == old(self).base_released,
            final(self).quote_released == old(self).quote_released,
            final(self).events@.len() == old(self).events@.len() + 1,
            final(self).events@.last().order@ == order@,
            final(self).events@.last().removed == removed,
            final(self).events@.last().fee == fee,
            final(self).events@.last().fee_asset == fee_asset,
            forall|i: int| 0 <= i < old(self).events@.len() ==> final(self).events@[i] == old(self).events@[i],
            final(self).tally() == old(self).tally().reported(order@, removed, fee, fee_asset),
    {
        self.events.push(MatchedOrder { order: order.duplicate(), removed, fee, fee_asset });
        proof {
            assert(event_views(self.events@) =~= event_views(old(self).events@).push(
                EventView { order: order@, removed, fee, fee_asset },
            ));
        }
    }

    fn count_if_done(&mut self, order: &Order)
        ensures
            final(self).reward == old(self).reward,
            final(self).relayer == old(self).relayer,
            final(self).list_bidder == old(self).list_bidder,
            final(self).list_asker == old(self).list_asker,
            final(self).events == old(self).events,
            final(self).base_released == old(self).base_released,
            final(self).quote_released == old(self).quote_released,
            final(self).total_orders == if is_done(order@) && old(self).total_orders < u64::MAX {
                (old(self).total_orders + 1) as u64
            } else {
                old(self).total_orders
            },
            final(self).tally() == old(self).tally().closed(order@),
    {
        if (order.status == OrderStatus::Fulfilled || order.offer_amount == order.filled_offer_amount) && self.total_orders
            < u64::MAX {
            self.total_orders = self.total_orders + 1;
        }
    }

    /// Books what one pairwise fill settles: the fees of both legs and the
    /// swept remainders go to the accounts, what is left of each leg is owed
    /// to the trader, and each step is reported. Nothing is lost: for each
    /// asset, what is held grows by the three parts of the leg and by the
    /// remainder swept, and so does what is counted as released. Fails with
    /// `Overflow` when an account or a total would not fit in 128 bits; the
    /// call is then to be abandoned.
    pub fn settle(&mut self, buy: &Order, sell: &Order, m: &MatchResult) -> (r: Result<(), ContractError>)
        ensures
            final(self).reward.address == old(self).reward.address,
            final(self).relayer.address == old(self).relayer.address,
            final(self).total_orders == old(self).total_orders,
            r is Err ==> r->Err_0 == ContractError::Overflow,
            match old(self).tally().settled(buy@, sell@, *m) {
                Ok(t) => r is Ok && final(self).tally() == t,
                Err(e) => r == Err::<(), ContractError>(e),
            },
            r is Ok <==> {
                &&& old(self).reward.quote_amount + m.asker.reward_fee + m.buy_dust <= u128::MAX
                &&& old(self).relayer.quote_amount + m.asker.relayer_fee <= u128::MAX
                &&& old(self).reward.base_amount + m.bidder.reward_fee + m.sell_dust <= u128::MAX
                &&& old(self).relayer.base_amount + m.bidder.relayer_fee <= u128::MAX
                &&& old(self).base_released + m.bidder.reward_fee + m.bidder.relayer_fee + m.bidder.trader_amount + m.sell_dust <= u128::MAX
                &&& old(self).quote_released + m.asker.reward_fee + m.asker.relayer_fee + m.asker.trader_amount + m.buy_dust <= u128::MAX
            },
            r is Ok ==> {
                &&& final(self).reward.quote_amount == old(self).reward.quote_amount + m.asker.reward_fee + m.buy_dust
                &&& final(self).relayer.quote_amount == old(self).relayer.quote_amount + m.asker.relayer_fee
                &&& final(self).reward.base_amount == old(self).reward.base_amount + m.bidder.reward_fee + m.sell_dust
                &&& final(self).relayer.base_amount == old(self).relayer.base_amount + m.bidder.relayer_fee
                &&& payments_total(final(self).list_asker@) == payments_total(old(self).list_asker@) + m.asker.trader_amount
                &&& payments_total(final(self).list_bidder@) == payments_total(old(self).list_bidder@) + m.bidder.trader_amount
                &&& final(self).base_released == old(self).base_released + m.bidder.reward_fee + m.bidder.relayer_fee + m.bidder.trader_amount + m.sell_dust
                &&& final(self).quote_released == old(self).quote_released + m.asker.reward_fee + m.asker.relayer_fee + m.asker.trader_amount + m.buy_dust
                &&& final(self).surplus(CoinSide::Base) == old(self).surplus(CoinSide::Base)
                &&& final(self).surplus(CoinSide::Quote) == old(self).surplus(CoinSide::Quote)
                &&& final(self).events@.len() == old(self).events@.len() + 2 + (if m.sell_dust > 0 { 1int } else { 0 }) + (if m.buy_dust > 0 { 1int } else { 0 })
            },
    {
        // Every sum is formed before anything is written.
        let quote_in = match checked_sum3(m.asker.reward_fee, m.asker.relayer_fee, m.asker.trader_amount) {
            Some(v) => v,
            None => { return Err(ContractError::Overflow); },
        };
        let base_in = match checked_sum3(m.bidder.reward_fee, m.bidder.relayer_fee, m.bidder.trader_amount) {
            Some(v) => v,
            None => { return Err(ContractError::Overflow); },
        };
        let reward_quote = match checked_sum3(self.reward.quote_amount, m.asker.reward_fee, m.buy_dust) {
            Some(v) => v,
            None => { return Err(ContractError::Overflow); },
        };
        let relayer_quote = match self.relayer.quote_amount.checked_add(m.asker.relayer_fee) {
            Some(v) => v,
            None => { return Err(ContractError::Overflow); },
        };
        let reward_base = match checked_sum3(self.reward.base_amount, m.bidder.reward_fee, m.sell_dust) {
            Some(v) => v,
            None => { return Err(ContractError::Overflow); },
        };
        let relayer_base = match self.relayer.base_amount.checked_add(m.bidder.relayer_fee) {
            Some(v) => v,
            None => { return Err(ContractError::Overflow); },
        };
        let base_released = match checked_sum3(self.base_released, base_in, m.sell_dust) {
            Some(v) => v,
            None => { return Err(ContractError::Overflow); },
        };
        let quote_released = match checked_sum3(self.quote_released, quote_in, m.buy_dust) {
            Some(v) => v,
            None => { return Err(ContractError::Overflow); },
        };
        self.reward.quote_amount = reward_quote;
        self.relayer.quote_amount = relayer_quote;
        self.reward.base_amount = reward_base;
        self.relayer.base_amount = relayer_base;
        self.base_released = base_released;
        self.quote_released = quote_released;
        if m.asker.trader_amount > 0 {
            let ghost before = self.list_asker@;
            self.list_asker.push(Payment { address: clone_bytes(&sell.bidder_addr), amount: m.asker.trader_amount });
            proof {
                assert(self.list_asker@.drop_last() =~= before);
                assert(payment_views(self.list_asker@) =~= payment_views(before).push(
                    (sell.bidder_addr@, m.asker.trader_amount),
                ));
            }
        }
        self.report(sell, false, m.asker.reward_fee + m.asker.relayer_fee, CoinSide::Quote);
        if m.bidder.trader_amount > 0 {
            let ghost before = self.list_bidder@;
            self.list_bidder.push(Payment { address: clone_bytes(&buy.bidder_addr), amount: m.bidder.trader_amount });
            proof {
                assert(self.list_bidder@.drop_last() =~= before);
                assert(payment_views(self.list_bidder@) =~= payment_views(before).push(
                    (buy.bidder_addr@, m.bidder.trader_amount),
                ));
            }
        }
        self.report(buy, false, m.bidder.reward_fee + m.bidder.relayer_fee, CoinSide::Base);
        if m.sell_dust > 0 {
            self.report(sell, false, m.sell_dust, CoinSide::Base);
        }
        if m.buy_dust > 0 {
            self.report(buy, false, m.buy_dust, CoinSide::Quote);
        }
        Ok(())
    }
}

/// An order that has reached its end: it is fulfilled, or its offer is spent.
pub open spec fn is_done(o: crate::orderbook::OrderView) -> bool {
    o.status == OrderStatus::Fulfilled || o.offer_amount == o.filled_offer_amount
}

fn checked_sum3(a: u128, b: u128, c: u128) -> (r: Option<u128>)
    ensures
        a + b + c <= u128::MAX ==> r == Some((a + b + c) as u128),
        a + b + c > u128::MAX ==> r is None,
{
    match a.checked_add(b) {
        Some(ab) => ab.checked_add(c),
        None => None,
    }
}

/// The book after an order has been written back after a fill: an order
/// that has been fulfilled leaves the table and its price level, any
/// other takes the place of its row.
pub open spec fn persisted(book: Book, order: OrderView) -> Result<Book, ContractError> {
    if order.status == OrderStatus::Fulfilled {
        book.removed(order)
    } else {
        book.stored(order)
    }
}

fn persist(storage: &mut Storage, order: &Order) -> (r: Result<(), ContractError>)
    ensures
        final(storage).last_order_id == old(storage).last_order_id,
        final(storage).orderbook == old(storage).orderbook,
        final(storage).rewards == old(storage).rewards,
        r is Err ==> r->Err_0.is_arithmetic(),
        match persisted(old(storage).book(), order@) {
            Ok(b) => r is Ok && final(storage).book() == b,
            Err(e) => r == Err::<(), ContractError>(e),
        },
        old(storage).wf() && order@.wf() && order.order_id <= old(storage).last_order_id ==> final(storage).wf(),
        old(storage).wf() ==> forall|o: Order| o.order_id != order.order_id && present(old(storage).orders@, o)
            ==> #[trigger] present(final(storage).orders@, o),
        old(storage).wf() && r is Ok && order.status != OrderStatus::Fulfilled ==> present(final(storage).orders@, *order),
        old(storage).wf() && old(storage).counted() && present(old(storage).orders@, *order) ==> final(storage).counted(),
{
    if order.status == OrderStatus::Fulfilled {
        match remove_order(storage, order) {
            Ok(_) => Ok(()),
            Err(e) => Err(e),
        }
    } else {
        match store_order(storage, order.duplicate(), false) {
            Ok(_) => Ok(()),
            Err(e) => Err(e),
        }
    }
}

/// What serving a buy order against one sell order does: the book, the
/// tally and the buy order afterwards, and whether the buy order is
/// fulfilled. A sell order that is not in the table is passed over; a
/// stuck one is removed and reported; any other is matched at the match
/// price, both orders are written back, and the fill is booked.
#[verifier::opaque]
pub open spec fn sell_step(book: Book, tally: Tally, buy: OrderView, sell_id: u64, buy_tick: u128, sell_tick: u128, min_quote_coin_amount: u128) -> Result<(Book, Tally, OrderView, bool), ContractError> {
    if sell_id == buy.order_id {
        Ok((book, tally, buy, false))
    } else {
        match book.read(sell_id) {
            None => Ok((book, tally, buy, false)),
            Some(sell) => if sell.is_stuck() {
                match book.removed(sell) {
                    Err(e) => Err(e),
                    Ok(b) => Ok((b, tally.reported(sell, true, 0, CoinSide::Base), buy, false)),
                }
            } else {
                match spec_match_price(buy, sell, buy_tick, sell_tick) {
                    Err(e) => Err(e),
                    Ok(price) => match spec_match_orders(buy, sell, price, min_quote_coin_amount) {
                        Err(e) => Err(e),
                        Ok(None) => Ok((book, tally, buy, false)),
                        Ok(Some((b1, s1, m))) => match persisted(book, s1) {
                            Err(e) => Err(e),
                            Ok(k1) => match persisted(k1, b1) {
                                Err(e) => Err(e),
                                Ok(k2) => match tally.settled(b1, s1, m) {
                                    Err(e) => Err(e),
                                    Ok(t) => Ok((k2, t.closed(s1), b1, b1.status == OrderStatus::Fulfilled)),
                                },
                            },
                        },
                    },
                }
            },
        }
    }
}

fn match_sell_order(
    storage: &mut Storage,
    acc: &mut Matching,
    buy: &mut Order,
    sell_id: u64,
    buy_tick: u128,
    sell_tick: u128,
    min_quote_coin_amount: u128,
) -> (r: Result<bool, ContractError>)
    ensures
        final(storage).last_order_id == old(storage).last_order_id,
        final(storage).orderbook == old(storage).orderbook,
        final(storage).rewards == old(storage).rewards,
        r is Ok ==> final(buy).order_id == old(buy).order_id,
        old(storage).wf() && old(buy)@.wf() && old(buy).order_id <= old(storage).last_order_id ==> final(storage).wf()
            && (r is Ok ==> final(buy)@.wf()),
        old(storage).wf() && old(storage).counted() && present(old(storage).orders@, *old(buy))
            ==> final(storage).counted() && (r == Ok::<bool, ContractError>(false) ==> present(
            final(storage).orders@,
            *final(buy),
        )),
        final(acc).reward.address == old(acc).reward.address,
        final(acc).relayer.address == old(acc).relayer.address,
        r is Err ==> r->Err_0.is_arithmetic(),
        r is Ok ==> final(acc).surplus(CoinSide::Base) == old(acc).surplus(CoinSide::Base) && final(acc).surplus(
            CoinSide::Quote,
        ) == old(acc).surplus(CoinSide::Quote),
        match sell_step(old(storage).book(), old(acc).tally(), old(buy)@, sell_id, buy_tick, sell_tick, min_quote_coin_amount) {
            Err(e) => r == Err::<bool, ContractError>(e),
            Ok((b, t, o, done)) => r == Ok::<bool, ContractError>(done) && final(storage).book() == b && final(acc).tally() == t
                && final(buy)@ == o,
        },
{
    proof {
        reveal(sell_step);
    }
    if sell_id == buy.order_id {
        return Ok(false);
    }
    let mut sell = match read_order(storage, sell_id) {
        Ok(o) => o,
        Err(_) => { return Ok(false); },
    };
    if sell.is_stuck() {
        match remove_order(storage, &sell) {
            Ok(_) => {},
            Err(e) => { return Err(e); },
        }
        acc.report(&sell, true, 0, CoinSide::Base);
        return Ok(false);
    }
    let price = match match_price(buy, &sell, buy_tick, sell_tick) {
        Ok(p) => p,
        Err(e) => { return Err(e); },
    };
    let matched = match match_orders(buy, &mut sell, price, min_quote_coin_amount) {
        Ok(m) => m,
        Err(e) => { return Err(e); },
    };
    match matched {
        None => Ok(false),
        Some(m) => {
            match persist(storage, &sell) {
                Ok(()) => {},
                Err(e) => { return Err(e); },
            }
            match persist(storage, buy) {
                Ok(()) => {},
                Err(e) => { return Err(e); },
            }
            match acc.settle(buy, &sell, &m) {
                Ok(()) => {},
                Err(e) => { return Err(e); },
            }
            acc.count_if_done(&sell);
            Ok(buy.status == OrderStatus::Fulfilled)
        },
    }
}

/// What serving a buy order against the sell orders `sell_ids[k..]` does,
/// the oldest sell first, until the buy order is fulfilled.
#[verifier::opaque]
pub open spec fn sells_from(book: Book, tally: Tally, buy: OrderView, sell_ids: Seq<u64>, k: int, buy_tick: u128, sell_tick: u128, min_quote_coin_amount: u128) -> Result<(Book, Tally, OrderView), ContractError>
    decreases sell_ids.len() - k,
{
    if k < 0 || k >= sell_ids.len() {
        Ok((book, tally, buy))
    } else {
        match sell_step(book, tally, buy, sell_ids[k], buy_tick, sell_tick, min_quote_coin_amount) {
            Err(e) => Err(e),
            Ok((b, t, o, done)) => if done {
                Ok((b, t, o))
            } else {
                sells_from(b, t, o, sell_ids, k + 1, buy_tick, sell_tick, min_quote_coin_amount)
            },
        }
    }
}

proof fn lemma_sells_from(book: Book, tally: Tally, buy: OrderView, sell_ids: Seq<u64>, k: int, buy_tick: u128, sell_tick: u128, min_quote_coin_amount: u128)
    ensures
        sells_from(book, tally, buy, sell_ids, k, buy_tick, sell_tick, min_quote_coin_amount) == if k < 0 || k
            >= sell_ids.len() {
            Ok::<(Book, Tally, OrderView), ContractError>((book, tally, buy))
        } else {
            match sell_step(book, tally, buy, sell_ids[k], buy_tick, sell_tick, min_quote_coin_amount) {
                Err(e) => Err(e),
                Ok((b, t, o, done)) => if done {
                    Ok((b, t, o))
                } else {
                    sells_from(b, t, o, sell_ids, k + 1, buy_tick, sell_tick, min_quote_coin_amount)
                },
            }
        },
{
    reveal(sells_from);
}

/// What serving the buy order `buy_id` against the sell orders of one
/// price level does. A buy order that is not in the table is passed
/// over, and a stuck one is removed and reported.
#[verifier::opaque]
pub open spec fn buy_served(book: Book, tally: Tally, buy_id: u64, sell_ids: Seq<u64>, buy_tick: u128, sell_tick: u128, min_quote_coin_amount: u128) -> Result<(Book, Tally), ContractError> {
    match book.read(buy_id) {
        None => Ok((book, tally)),
        Some(buy) => if buy.is_stuck() {
            match book.removed(buy) {
                Err(e) => Err(e),
                Ok(b) => Ok((b, tally.reported(buy, true, 0, CoinSide::Quote))),
            }
        } else {
            match sells_from(book, tally, buy, sell_ids, 0, buy_tick, sell_tick, min_quote_coin_amount) {
                Err(e) => Err(e),
                Ok((b, t, o)) => Ok((b, t.closed(o))),
            }
        },
    }
}

/// Serves one buy order against the sell orders of one price level, the
/// oldest sell first, until the buy order is fulfilled. Stuck rows are
/// removed and reported on the way.
pub fn match_buy_order(
    storage: &mut Storage,
    acc: &mut Matching,
    buy_id: u64,
    sell_ids: &Vec<u64>,
    buy_tick: u128,
    sell_tick: u128,
    min_quote_coin_amount: u128,
) -> (r: Result<(), ContractError>)
    ensures
        final(storage).last_order_id == old(storage).last_order_id,
        final(storage).orderbook == old(storage).orderbook,
        final(storage).rewards == old(storage).rewards,
        old(storage).wf() ==> final(storage).wf(),
        old(storage).wf() && old(storage).counted() ==> final(storage).counted(),
        final(acc).reward.address == old(acc).reward.address,
        final(acc).relayer.address == old(acc).relayer.address,
        r is Err ==> r->Err_0.is_arithmetic(),
        r is Ok ==> final(acc).surplus(CoinSide::Base) == old(acc).surplus(CoinSide::Base) && final(acc).surplus(
            CoinSide::Quote,
        ) == old(acc).surplus(CoinSide::Quote),
        match buy_served(old(storage).book(), old(acc).tally(), buy_id, sell_ids@, buy_tick, sell_tick, min_quote_coin_amount) {
            Err(e) => r == Err::<(), ContractError>(e),
            Ok((b, t)) => r is Ok && final(storage).book() == b && final(acc).tally() == t,
        },
{
    proof {
        reveal(buy_served);
    }
    let mut buy = match read_order(storage, buy_id) {
        Ok(o) => o,
        Err(_) => { return Ok(()); },
    };
    if buy.is_stuck() {
        match remove_order(storage, &buy) {
            Ok(_) => {},
            Err(e) => { return Err(e); },
        }
        acc.report(&buy, true, 0, CoinSide::Quote);
        return Ok(());
    }
    let ghost whole = sells_from(storage.book(), acc.tally(), buy@, sell_ids@, 0, buy_tick, sell_tick, min_quote_coin_amount);
    let mut k: usize = 0;
    let mut done = false;
    while k < sell_ids.len() && !done
        invariant
            k <= sell_ids.len(),
            storage.last_order_id == old(storage).last_order_id,
            storage.orderbook == old(storage).orderbook,
            storage.rewards == old(storage).rewards,
            buy.order_id == buy_id,
            old(storage).wf() ==> storage.wf() && buy@.wf() && buy.order_id <= storage.last_order_id,
            old(storage).wf() && old(storage).counted() ==> storage.counted() && (!done ==> present(storage.orders@, buy)),
            acc.reward.address == old(acc).reward.address,
            acc.relayer.address == old(acc).relayer.address,
            acc.surplus(CoinSide::Base) == old(acc).surplus(CoinSide::Base),
            acc.surplus(CoinSide::Quote) == old(acc).surplus(CoinSide::Quote),
            buy_served(old(storage).book(), old(acc).tally(), buy_id, sell_ids@, buy_tick, sell_tick, min_quote_coin_amount)
                == match whole {
                Err(e) => Err::<(Book, Tally), ContractError>(e),
                Ok((b, t, o)) => Ok((b, t.closed(o))),
            },
            done ==> whole == Ok::<(Book, Tally, OrderView), ContractError>((storage.book(), acc.tally(), buy@)),
            !done ==> whole == sells_from(
                storage.book(),
                acc.tally(),
                buy@,
                sell_ids@,
                k as int,
                buy_tick,
                sell_tick,
                min_quote_coin_amount,
            ),
        decreases sell_ids.len() - k + if done { 0int } else { 1 },
    {
        let sell_id = sell_ids[k];
        proof {
            lemma_sells_from(storage.book(), acc.tally(), buy@, sell_ids@, k as int, buy_tick, sell_tick, min_quote_coin_amount);
        }
        match match_sell_order(storage, acc, &mut buy, sell_id, buy_tick, sell_tick, min_quote_coin_amount) {
            Ok(d) => { done = d; },
            Err(e) => { return Err(e); },
        }
        k += 1;
    }
    proof {
        lemma_sells_from(storage.book(), acc.tally(), buy@, sell_ids@, k as int, buy_tick, sell_tick, min_quote_coin_amount);
    }
    acc.count_if_done(&buy);
    Ok(())
}

/// What matching the buy orders `buy_ids[i..]` against the sell orders of
/// one price level does, the oldest buy first.
#[verifier::opaque]
pub open spec fn level_from(book: Book, tally: Tally, buy_ids: Seq<u64>, i: int, sell_ids: Seq<u64>, buy_tick: u128, sell_tick: u128, min_quote_coin_amount: u128) -> Result<(Book, Tally), ContractError>
    decreases buy_ids.len() - i,
{
    if i < 0 || i >= buy_ids.len() {
        Ok((book, tally))
    } else {
        match buy_served(book, tally, buy_ids[i], sell_ids, buy_tick, sell_tick, min_quote_coin_amount) {
            Err(e) => Err(e),
            Ok((b, t)) => level_from(b, t, buy_ids, i + 1, sell_ids, buy_tick, sell_tick, min_quote_coin_amount),
        }
    }
}

proof fn lemma_level_from(book: Book, tally: Tally, buy_ids: Seq<u64>, i: int, sell_ids: Seq<u64>, buy_tick: u128, sell_tick: u128, min_quote_coin_amount: u128)
    ensures
        level_from(book, tally, buy_ids, i, sell_ids, buy_tick, sell_tick, min_quote_coin_amount) == if i < 0 || i
            >= buy_ids.len() {
            Ok::<(Book, Tally), ContractError>((book, tally))
        } else {
            match buy_served(book, tally, buy_ids[i], sell_ids, buy_tick, sell_tick, min_quote_coin_amount) {
                Err(e) => Err(e),
                Ok((b, t)) => level_from(b, t, buy_ids, i + 1, sell_ids, buy_tick, sell_tick, min_quote_coin_amount),
            }
        },
{
    reveal(level_from);
}

/// Matches the buy orders of one price level against the sell orders of
/// another, the oldest buy first.
pub fn match_level(
    storage: &mut Storage,
    acc: &mut Matching,
    buy_ids: &Vec<u64>,
    sell_ids: &Vec<u64>,
    buy_tick: u128,
    sell_tick: u128,
    min_quote_coin_amount: u128,
) -> (r: Result<(), ContractError>)
    ensures
        final(storage).last_order_id == old(storage).last_order_id,
        final(storage).orderbook == old(storage).orderbook,
        final(storage).rewards == old(storage).rewards,
        old(storage).wf() ==> final(storage).wf(),
        old(storage).wf() && old(storage).counted() ==> final(storage).counted(),
        final(acc).reward.address == old(acc).reward.address,
        final(acc).relayer.address == old(acc).relayer.address,
        r is Err ==> r->Err_0.is_arithmetic(),
        r is Ok ==> final(acc).surplus(CoinSide::Base) == old(acc).surplus(CoinSide::Base) && final(acc).surplus(
            CoinSide::Quote,
        ) == old(acc).surplus(CoinSide::Quote),
        match level_from(old(storage).book(), old(acc).tally(), buy_ids@, 0, sell_ids@, buy_tick, sell_tick, min_quote_coin_amount) {
            Err(e) => r == Err::<(), ContractError>(e),
            Ok((b, t)) => r is Ok && final(storage).book() == b && final(acc).tally() == t,
        },
{
    let ghost whole = level_from(storage.book(), acc.tally(), buy_ids@, 0, sell_ids@, buy_tick, sell_tick, min_quote_coin_amount);
    let mut i: usize = 0;
    while i < buy_ids.len()
        invariant
            i <= buy_ids.len(),
            storage.last_order_id == old(storage).last_order_id,
            storage.orderbook == old(storage).orderbook,
            storage.rewards == old(storage).rewards,
            old(storage).wf() ==> storage.wf(),
            old(storage).wf() && old(storage).counted() ==> storage.counted(),
            acc.reward.address == old(acc).reward.address,
            acc.relayer.address == old(acc).relayer.address,
            acc.surplus(CoinSide::Base) == old(acc).surplus(CoinSide::Base),
            acc.surplus(CoinSide::Quote) == old(acc).surplus(CoinSide::Quote),
            whole == level_from(old(storage).book(), old(acc).tally(), buy_ids@, 0, sell_ids@, buy_tick, sell_tick, min_quote_coin_amount),
            whole == level_from(storage.book(), acc.tally(), buy_ids@, i as int, sell_ids@, buy_tick, sell_tick, min_quote_coin_amount),
        decreases buy_ids.len() - i,
    {
        proof {
            lemma_level_from(storage.book(), acc.tally(), buy_ids@, i as int, sell_ids@, buy_tick, sell_tick, min_quote_coin_amount);
        }
        match match_buy_order(storage, acc, buy_ids[i], sell_ids, buy_tick, sell_tick, min_quote_coin_amount) {
            Ok(()) => {},
            Err(e) => { return Err(e); },
        }
        i += 1;
    }
    proof {
        lemma_level_from(storage.book(), acc.tally(), buy_ids@, i as int, sell_ids@, buy_tick, sell_tick, min_quote_coin_amount);
    }
    Ok(())
}

/// What matching the buy orders of one level against the sell levels
/// `sell_prices[j..]` does, as far as the sell levels are reached by the
/// buy price. The sell orders of a level are looked up when its turn comes.
#[verifier::opaque]
pub open spec fn sell_levels_from(book: Book, tally: Tally, buy_ids: Seq<u64>, buy_tick: u128, sell_prices: Seq<u128>, j: int, limit: Option<u32>, min_quote_coin_amount: u128) -> Result<(Book, Tally), ContractError>
    decreases sell_prices.len() - j,
{
    if j < 0 || j >= sell_prices.len() || buy_tick < sell_prices[j] {
        Ok((book, tally))
    } else {
        let sell_ids = page_ids(book.orders, OrderDirection::Sell, sell_prices[j], limit);
        match level_from(book, tally, buy_ids, 0, sell_ids, buy_tick, sell_prices[j], min_quote_coin_amount) {
            Err(e) => Err(e),
            Ok((b, t)) => sell_levels_from(b, t, buy_ids, buy_tick, sell_prices, j + 1, limit, min_quote_coin_amount),
        }
    }
}

/// What the matcher does from the buy level `buy_prices[i]` on. The buy
/// orders of a level are looked up when its turn comes.
#[verifier::opaque]
pub open spec fn buy_levels_from(book: Book, tally: Tally, buy_prices: Seq<u128>, i: int, sell_prices: Seq<u128>, limit: Option<u32>, min_quote_coin_amount: u128) -> Result<(Book, Tally), ContractError>
    decreases buy_prices.len() - i,
{
    if i < 0 || i >= buy_prices.len() {
        Ok((book, tally))
    } else {
        let buy_ids = page_ids(book.orders, OrderDirection::Buy, buy_prices[i], limit);
        match sell_levels_from(book, tally, buy_ids, buy_prices[i], sell_prices, 0, limit, min_quote_coin_amount) {
            Err(e) => Err(e),
            Ok((b, t)) => buy_levels_from(b, t, buy_prices, i + 1, sell_prices, limit, min_quote_coin_amount),
        }
    }
}

proof fn lemma_sell_levels_from(book: Book, tally: Tally, buy_ids: Seq<u64>, buy_tick: u128, sell_prices: Seq<u128>, j: int, limit: Option<u32>, min_quote_coin_amount: u128)
    ensures
        sell_levels_from(book, tally, buy_ids, buy_tick, sell_prices, j, limit, min_quote_coin_amount) == if j < 0 || j
            >= sell_prices.len() || buy_tick < sell_prices[j] {
            Ok::<(Book, Tally), ContractError>((book, tally))
        } else {
            match level_from(
                book,
                tally,
                buy_ids,
                0,
                page_ids(book.orders, OrderDirection::Sell, sell_prices[j], limit),
                buy_tick,
                sell_prices[j],
                min_quote_coin_amount,
            ) {
                Err(e) => Err(e),
                Ok((b, t)) => sell_levels_from(b, t, buy_ids, buy_tick, sell_prices, j + 1, limit, min_quote_coin_amount),
            }
        },
{
    reveal(sell_levels_from);
}

proof fn lemma_buy_levels_from(book: Book, tally: Tally, buy_prices: Seq<u128>, i: int, sell_prices: Seq<u128>, limit: Option<u32>, min_quote_coin_amount: u128)
    ensures
        buy_levels_from(book, tally, buy_prices, i, sell_prices, limit, min_quote_coin_amount) == if i < 0 || i
            >= buy_prices.len() {
            Ok::<(Book, Tally), ContractError>((book, tally))
        } else {
            match sell_levels_from(
                book,
                tally,
                page_ids(book.orders, OrderDirection::Buy, buy_prices[i], limit),
                buy_prices[i],
                sell_prices,
                0,
                limit,
                min_quote_coin_amount,
            ) {
                Err(e) => Err(e),
                Ok((b, t)) => buy_levels_from(b, t, buy_prices, i + 1, sell_prices, limit, min_quote_coin_amount),
            }
        },
{
    reveal(buy_levels_from);
}

/// A book whose prices do not cross is left alone: when no buy price from
/// `buy_prices[i]` on reaches the best sell price, the matching pass
/// changes neither the book nor the tally.
pub proof fn lemma_no_cross_no_change(book: Book, tally: Tally, buy_prices: Seq<u128>, i: int, sell_prices: Seq<u128>, limit: Option<u32>, min_quote_coin_amount: u128)
    requires
        0 <= i,
        sell_prices.len() > 0,
        forall|k: int| i <= k < buy_prices.len() ==> buy_prices[k] < sell_prices[0],
    ensures
        buy_levels_from(book, tally, buy_prices, i, sell_prices, limit, min_quote_coin_amount) == Ok::<
            (Book, Tally),
            ContractError,
        >((book, tally)),
    decreases buy_prices.len() - i,
{
    lemma_buy_levels_from(book, tally, buy_prices, i, sell_prices, limit, min_quote_coin_amount);
    if i < buy_prices.len() {
        lemma_sell_levels_from(
            book,
            tally,
            page_ids(book.orders, OrderDirection::Buy, buy_prices[i], limit),
            buy_prices[i],
            sell_prices,
            0,
            limit,
            min_quote_coin_amount,
        );
        lemma_no_cross_no_change(book, tally, buy_prices, i + 1, sell_prices, limit, min_quote_coin_amount);
    }
}

/// Walks the price levels: the buy levels in the order given, which is
/// from the best price down; for each, the sell levels in the order
/// given, from the best price up, as far as they cross. Within a level
/// the orders are served oldest first.
pub fn match_book(
    storage: &mut Storage,
    acc: &mut Matching,
    buy_prices: &Vec<u128>,
    sell_prices: &Vec<u128>,
    limit: Option<u32>,
    min_quote_coin_amount: u128,
) -> (r: Result<(), ContractError>)
    ensures
        final(storage).last_order_id == old(storage).last_order_id,
        final(storage).orderbook == old(storage).orderbook,
        final(storage).rewards == old(storage).rewards,
        old(storage).wf() ==> final(storage).wf(),
        old(storage).wf() && old(storage).counted() ==> final(storage).counted(),
        final(acc).reward.address == old(acc).reward.address,
        final(acc).relayer.address == old(acc).relayer.address,
        r is Err ==> r->Err_0.is_arithmetic(),
        r is Ok ==> final(acc).surplus(CoinSide::Base) == old(acc).surplus(CoinSide::Base) && final(acc).surplus(
            CoinSide::Quote,
        ) == old(acc).surplus(CoinSide::Quote),
        match buy_levels_from(old(storage).book(), old(acc).tally(), buy_prices@, 0, sell_prices@, limit, min_quote_coin_amount) {
            Err(e) => r == Err::<(), ContractError>(e),
            Ok((b, t)) => r is Ok && final(storage).book() == b && final(acc).tally() == t,
        },
{
    let ghost whole = buy_levels_from(storage.book(), acc.tally(), buy_prices@, 0, sell_prices@, limit, min_quote_coin_amount);
    let mut i: usize = 0;
    while i < buy_prices.len()
        invariant
            i <= buy_prices.len(),
            storage.last_order_id == old(storage).last_order_id,
            storage.orderbook == old(storage).orderbook,
            storage.rewards == old(storage).rewards,
            old(storage).wf() ==> storage.wf(),
            old(storage).wf() && old(storage).counted() ==> storage.counted(),
            acc.reward.address == old(acc).reward.address,
            acc.relayer.address == old(acc).relayer.address,
            acc.surplus(CoinSide::Base) == old(acc).surplus(CoinSide::Base),
            acc.surplus(CoinSide::Quote) == old(acc).surplus(CoinSide::Quote),
            whole == buy_levels_from(old(storage).book(), old(acc).tally(), buy_prices@, 0, sell_prices@, limit, min_quote_coin_amount),
            whole == buy_levels_from(storage.book(), acc.tally(), buy_prices@, i as int, sell_prices@, limit, min_quote_coin_amount),
        decreases buy_prices.len() - i,
    {
        let buy_tick = buy_prices[i];
        let buy_ids = find_match_orders(storage, buy_tick, OrderDirection::Buy, limit);
        proof {
            lemma_buy_levels_from(storage.book(), acc.tally(), buy_prices@, i as int, sell_prices@, limit, min_quote_coin_amount);
        }
        let ghost level = sell_levels_from(storage.book(), acc.tally(), buy_ids@, buy_tick, sell_prices@, 0, limit, min_quote_coin_amount);
        let mut j: usize = 0;
        while j < sell_prices.len() && buy_tick >= sell_prices[j]
            invariant
                j <= sell_prices.len(),
                i < buy_prices.len(),
                buy_tick == buy_prices@[i as int],
                storage.last_order_id == old(storage).last_order_id,
                storage.orderbook == old(storage).orderbook,
                storage.rewards == old(storage).rewards,
                old(storage).wf() ==> storage.wf(),
                old(storage).wf() && old(storage).counted() ==> storage.counted(),
                acc.reward.address == old(acc).reward.address,
                acc.relayer.address == old(acc).relayer.address,
                acc.surplus(CoinSide::Base) == old(acc).surplus(CoinSide::Base),
                acc.surplus(CoinSide::Quote) == old(acc).surplus(CoinSide::Quote),
                whole == buy_levels_from(old(storage).book(), old(acc).tally(), buy_prices@, 0, sell_prices@, limit, min_quote_coin_amount),
                level == sell_levels_from(storage.book(), acc.tally(), buy_ids@, buy_tick, sell_prices@, j as int, limit, min_quote_coin_amount),
                whole == match level {
                    Err(e) => Err::<(Book, Tally), ContractError>(e),
                    Ok((b, t)) => buy_levels_from(b, t, buy_prices@, i + 1, sell_prices@, limit, min_quote_coin_amount),
                },
            decreases sell_prices.len() - j,
        {
            let sell_tick = sell_prices[j];
            let sell_ids = find_match_orders(storage, sell_tick, OrderDirection::Sell, limit);
            proof {
                lemma_sell_levels_from(storage.book(), acc.tally(), buy_ids@, buy_tick, sell_prices@, j as int, limit, min_quote_coin_amount);
            }
            match match_level(storage, acc, &buy_ids, &sell_ids, buy_tick, sell_tick, min_quote_coin_amount) {
                Ok(()) => {},
                Err(e) => { return Err(e); },
            }
            j += 1;
        }
        proof {
            lemma_sell_levels_from(storage.book(), acc.tally(), buy_ids@, buy_tick, sell_prices@, j as int, limit, min_quote_coin_amount);
        }
        i += 1;
    }
    proof {
        lemma_buy_levels_from(storage.book(), acc.tally(), buy_prices@, i as int, sell_prices@, limit, min_quote_coin_amount);
    }
    Ok(())
}

} // verus!
