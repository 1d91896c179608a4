use vstd::prelude::*;
use crate::engine::{
    best_buy_prices, best_sell_prices, buy_levels_from, event_views, find_list_match_price, match_book, MatchedOrder,
    Matching, Tally,
};
use crate::matching::REWARD_THRESHOLD;
use crate::error::ContractError;
use crate::math::Decimal;
use crate::orderbook::{bytes_eq, clone_bytes, CoinSide, Executor, Order, OrderBook, OrderDirection, OrderStatus};
use crate::payment::{
    as_transfers, merged, owed_to, payment_views, payout_of, transfer_reward, transfer_to_trader, transfer_views,
    transfers_total, Payment, Transfer,
};
use crate::state::{
    delete_order, duplicate_orders, duplicate_ticks, find_tick_slot, lemma_same_book, has_order, increase_last_order_id, order_slot, read_order, read_tick,
    remove_order, store_order, tick_added, tick_dropped, tick_slot, tick_total, has_tick, upsert_order, Storage, Tick,
};

verus! {

/// `i` is where the account of `address` stands in the table, or the
/// length of the table when it has none.
pub open spec fn is_reward_slot(rewards: Seq<Executor>, address: Seq<u8>, i: int) -> bool {
    &&& 0 <= i <= rewards.len()
    &&& forall|j: int| 0 <= j < i ==> rewards[j].address@ != address
    &&& i < rewards.len() ==> rewards[i].address@ == address
}

pub open spec fn reward_slot(rewards: Seq<Executor>, address: Seq<u8>) -> int {
    choose|i: int| is_reward_slot(rewards, address, i)
}

pub proof fn lemma_reward_slot(rewards: Seq<Executor>, address: Seq<u8>, i: int)
    requires
        is_reward_slot(rewards, address, i),
    ensures
        reward_slot(rewards, address) == i,
{
    let c = reward_slot(rewards, address);
    assert(is_reward_slot(rewards, address, c));
    if c < i {
        assert(rewards[c].address@ != address);
    }
    if i < c {
        assert(rewards[i].address@ != address);
    }
}

proof fn lemma_reward_slot_exists(rewards: Seq<Executor>, address: Seq<u8>, from: int)
    requires
        0 <= from <= rewards.len(),
        forall|j: int| 0 <= j < from ==> rewards[j].address@ != address,
    ensures
        is_reward_slot(rewards, address, reward_slot(rewards, address)),
    decreases rewards.len() - from,
{
    if from == rewards.len() || rewards[from].address@ == address {
        assert(is_reward_slot(rewards, address, from));
    } else {
        lemma_reward_slot_exists(rewards, address, from + 1);
    }
}

/// What the account of `address` holds of one asset; nothing, when the
/// table has no such account.
pub open spec fn reward_balance(rewards: Seq<Executor>, address: Seq<u8>, side: CoinSide) -> u128 {
    let i = reward_slot(rewards, address);
    if 0 <= i < rewards.len() {
        rewards[i].balance(side)
    } else {
        0
    }
}

fn find_reward(rewards: &Vec<Executor>, address: &Vec<u8>) -> (i: usize)
    ensures
        is_reward_slot(rewards@, address@, i as int),
        i == reward_slot(rewards@, address@),
{
    let mut i: usize = 0;
    while i < rewards.len() && !bytes_eq(&rewards[i].address, address)
        invariant
            i <= rewards.len(),
            forall|j: int| 0 <= j < i ==> rewards@[j].address@ != address@,
        decreases rewards.len() - i,
    {
        i += 1;
    }
    proof {
        lemma_reward_slot(rewards@, address@, i as int);
    }
    i
}

/// The reward account of `address`: the stored one, or a new one with
/// nothing accrued.
pub fn process_reward(storage: &Storage, address: Vec<u8>) -> (e: Executor)
    ensures
        e.address@ == address@,
        e.base_amount == reward_balance(storage.rewards@, address@, CoinSide::Base),
        e.quote_amount == reward_balance(storage.rewards@, address@, CoinSide::Quote),
{
    let i = find_reward(&storage.rewards, &address);
    if i < storage.rewards.len() {
        Executor {
            address,
            base_amount: storage.rewards[i].base_amount,
            quote_amount: storage.rewards[i].quote_amount,
        }
    } else {
        Executor::new(address)
    }
}

/// Writes a reward account under its address. Every other account stays
/// as it is.
pub fn store_reward(storage: &mut Storage, executor: &Executor)
    ensures
        final(storage).last_order_id == old(storage).last_order_id,
        final(storage).orderbook == old(storage).orderbook,
        final(storage).orders == old(storage).orders,
        final(storage).buy_ticks == old(storage).buy_ticks,
        final(storage).sell_ticks == old(storage).sell_ticks,
        forall|side: CoinSide| #[trigger] reward_balance(final(storage).rewards@, executor.address@, side) == executor.balance(side),
        forall|a: Seq<u8>, side: CoinSide| a != executor.address@ ==> #[trigger] reward_balance(final(storage).rewards@, a, side) == reward_balance(old(storage).rewards@, a, side),
        final(storage).rewards@.len() == if reward_slot(old(storage).rewards@, executor.address@) < old(storage).rewards@.len() {
            old(storage).rewards@.len()
        } else {
            old(storage).rewards@.len() + 1
        },
        forall|i: int| 0 <= i < old(storage).rewards@.len() && i != reward_slot(old(storage).rewards@, executor.address@)
            ==> final(storage).rewards@[i] == old(storage).rewards@[i],
        reward_slot(final(storage).rewards@, executor.address@) == reward_slot(old(storage).rewards@, executor.address@),
        final(storage).rewards@[reward_slot(old(storage).rewards@, executor.address@)].address@ == executor.address@,
{
    let i = find_reward(&storage.rewards, &executor.address);
    let row = Executor {
        address: clone_bytes(&executor.address),
        base_amount: executor.base_amount,
        quote_amount: executor.quote_amount,
    };
    let ghost before = storage.rewards@;
    if i < storage.rewards.len() {
        storage.rewards[i] = row;
    } else {
        storage.rewards.push(row);
    }
    proof {
        let after = storage.rewards@;
        assert(is_reward_slot(after, executor.address@, i as int));
        lemma_reward_slot(after, executor.address@, i as int);
        assert forall|a: Seq<u8>, side: CoinSide| a != executor.address@ implies #[trigger] reward_balance(after, a, side)
            == reward_balance(before, a, side) by {
            let k = reward_slot(before, a);
            lemma_reward_slot_exists(before, a, 0);
            assert(is_reward_slot(before, a, k));
            if k < before.len() {
                assert(k != i);
                assert(is_reward_slot(after, a, k));
                lemma_reward_slot(after, a, k);
            } else {
                assert(is_reward_slot(after, a, after.len() as int));
                lemma_reward_slot(after, a, after.len() as int);
            }
        }
    }
}

/// What a matcher call hands to the host.
#[derive(Clone, Debug, PartialEq, Eq)]
pub struct Settlement {
    /// The transfers to perform: first to the traders, then the rewards
    /// that have reached the threshold.
    pub messages: Vec<Transfer>,
    /// How many orders reached their end.
    pub total_matched_orders: u64,
    /// One entry for each fill of an order, each swept remainder and each
    /// stuck row removed.
    pub events: Vec<MatchedOrder>,
    /// The account of the reward wallet after the call.
    pub reward: Executor,
    /// The account of the relayer after the call.
    pub relayer: Executor,
    /// Base units released from orders: fills and swept remainders.
    pub base_released: u128,
    /// Quote units released from orders.
    pub quote_released: u128,
}

impl Settlement {
    pub open spec fn released(&self, side: CoinSide) -> int {
        match side {
            CoinSide::Base => self.base_released as int,
            CoinSide::Quote => self.quote_released as int,
        }
    }
}

/// Whether the best buy price reaches the best sell price, among the
/// levels that a call with `limit` looks at.
pub open spec fn crosses(storage: Storage, limit: Option<u32>) -> bool {
    let buys = best_buy_prices(storage.buy_ticks@, limit);
    let sells = best_sell_prices(storage.sell_ticks@, limit);
    buys.len() > 0 && sells.len() > 0 && buys[0] >= sells[0]
}

/// The tally with which a matcher call begins: what the accounts of the
/// reward wallet and of the relayer hold, and nothing else.
pub open spec fn opening_tally(storage: Storage, relayer_addr: Seq<u8>, reward_wallet: Seq<u8>) -> Tally {
    Tally {
        reward_base: reward_balance(storage.rewards@, reward_wallet, CoinSide::Base),
        reward_quote: reward_balance(storage.rewards@, reward_wallet, CoinSide::Quote),
        relayer_base: reward_balance(storage.rewards@, relayer_addr, CoinSide::Base),
        relayer_quote: reward_balance(storage.rewards@, relayer_addr, CoinSide::Quote),
        list_bidder: Seq::empty(),
        list_asker: Seq::empty(),
        events: Seq::empty(),
        total_orders: 0,
        base_released: 0,
        quote_released: 0,
    }
}

/// What the matching pass of a call does to the book and to the tally.
pub open spec fn matched(storage: Storage, relayer_addr: Seq<u8>, reward_wallet: Seq<u8>, limit: Option<u32>) -> Result<(crate::state::Book, Tally), ContractError> {
    buy_levels_from(
        storage.book(),
        opening_tally(storage, relayer_addr, reward_wallet),
        best_buy_prices(storage.buy_ticks@, limit),
        0,
        best_sell_prices(storage.sell_ticks@, limit),
        limit,
        storage.orderbook->Some_0.min_quote_coin_amount,
    )
}

/// What is left of a balance after the payout: nothing, once it has
/// reached the threshold.
pub open spec fn carried_over(balance: u128) -> u128 {
    if balance >= REWARD_THRESHOLD { 0 } else { balance }
}

/// What a list of payments owes to `address` in all.
pub open spec fn owed_in(list: Seq<(Seq<u8>, u128)>, address: Seq<u8>) -> int
    decreases list.len(),
{
    if list.len() == 0 {
        0
    } else {
        owed_in(list.drop_last(), address) + if list.last().0 == address { list.last().1 as int } else { 0 }
    }
}

proof fn lemma_owed_in(list: Seq<Payment>, address: Seq<u8>)
    ensures
        owed_to(list, address) == owed_in(payment_views(list), address),
    decreases list.len(),
{
    if list.len() > 0 {
        assert(payment_views(list).drop_last() =~= payment_views(list.drop_last()));
        lemma_owed_in(list.drop_last(), address);
    }
}

/// Whether what a tally owes to each trader in each asset fits in 128 bits.
pub open spec fn payable(t: Tally) -> bool {
    forall|a: Seq<u8>| owed_in(t.list_bidder, a) <= u128::MAX && owed_in(t.list_asker, a) <= u128::MAX
}

/// Runs the matcher on the pair.
///
/// On a book whose best prices do not cross the call changes nothing and
/// asks for no transfer. Otherwise it walks the crossing price levels,
/// fills orders, accrues the fees to the accounts of `reward_wallet` and
/// of `relayer_addr`, and returns the transfers to make. For each asset,
/// what is transferred and what stays in the two accounts is what the
/// accounts held before together with what the call released from orders.
/// The storage stays well formed. A call that fails leaves the tables
/// with the rows they had.
pub fn excecute_pair(storage: &mut Storage, relayer_addr: Vec<u8>, reward_wallet: Vec<u8>, limit: Option<u32>) -> (r: Result<Settlement, ContractError>)
    ensures
        final(storage).last_order_id == old(storage).last_order_id,
        final(storage).orderbook == old(storage).orderbook,
        old(storage).wf() ==> final(storage).wf(),
        old(storage).wf() && old(storage).counted() ==> final(storage).counted(),
        old(storage).orderbook is None <==> r is Err && r->Err_0 == ContractError::PairNotFound,
        r is Err ==> r->Err_0 == ContractError::PairNotFound || r->Err_0.is_arithmetic(),
        r is Err ==> final(storage).book() == old(storage).book() && final(storage).rewards == old(storage).rewards,
        old(storage).orderbook is None ==> *final(storage) == *old(storage),
        old(storage).orderbook is Some && !crosses(*old(storage), limit) ==> {
            &&& r is Ok
            &&& *final(storage) == *old(storage)
            &&& r->Ok_0.messages@.len() == 0
            &&& r->Ok_0.events@.len() == 0
            &&& r->Ok_0.total_matched_orders == 0
            &&& r->Ok_0.base_released == 0
            &&& r->Ok_0.quote_released == 0
        },
        r matches Ok(s) ==> {
            &&& s.reward.address@ == reward_wallet@
            &&& s.relayer.address@ == relayer_addr@
            &&& forall|side: CoinSide| #![trigger s.released(side)]
                transfers_total(s.messages@, side) + s.reward.balance(side) + s.relayer.balance(side)
                    == reward_balance(old(storage).rewards@, reward_wallet@, side)
                    + reward_balance(old(storage).rewards@, relayer_addr@, side)
                    + s.released(side)
        },
        old(storage).orderbook is Some && crosses(*old(storage), limit) ==> match matched(
            *old(storage),
            relayer_addr@,
            reward_wallet@,
            limit,
        ) {
            Err(e) => r is Err && r->Err_0 == e,
            Ok((b, t)) => if payable(t) {
                &&& r is Ok
                &&& final(storage).book() == b
                &&& event_views(r->Ok_0.events@) == t.events
                &&& r->Ok_0.total_matched_orders == t.total_orders
                &&& r->Ok_0.base_released == t.base_released
                &&& r->Ok_0.quote_released == t.quote_released
                &&& r->Ok_0.reward.base_amount == carried_over(t.reward_base)
                &&& r->Ok_0.reward.quote_amount == carried_over(t.reward_quote)
                &&& r->Ok_0.relayer.base_amount == carried_over(t.relayer_base)
                &&& r->Ok_0.relayer.quote_amount == carried_over(t.relayer_quote)
                &&& transfer_views(r->Ok_0.messages@) == as_transfers(merged(t.list_asker), CoinSide::Quote) + as_transfers(
                    merged(t.list_bidder),
                    CoinSide::Base,
                ) + payout_of(reward_wallet@, CoinSide::Base, t.reward_base) + payout_of(
                    relayer_addr@,
                    CoinSide::Base,
                    t.relayer_base,
                ) + payout_of(reward_wallet@, CoinSide::Quote, t.reward_quote) + payout_of(
                    relayer_addr@,
                    CoinSide::Quote,
                    t.relayer_quote,
                )
            } else {
                r is Err && r->Err_0 == ContractError::Overflow
            },
        },
        forall|a: Seq<u8>, side: CoinSide| a != relayer_addr@ && a != reward_wallet@ ==> #[trigger] reward_balance(
            final(storage).rewards@,
            a,
            side,
        ) == reward_balance(old(storage).rewards@, a, side),
        r is Ok && crosses(*old(storage), limit) ==> {
            &&& forall|side: CoinSide| #[trigger] reward_balance(final(storage).rewards@, relayer_addr@, side) == r->Ok_0.relayer.balance(side)
            &&& relayer_addr@ != reward_wallet@ ==> forall|side: CoinSide| #[trigger] reward_balance(final(storage).rewards@, reward_wallet@, side) == r->Ok_0.reward.balance(side)
        },
{
    let min_quote_coin_amount = match &storage.orderbook {
        Some(book) => book.min_quote_coin_amount,
        None => { return Err(ContractError::PairNotFound); },
    };
    let reward = process_reward(storage, reward_wallet);
    let relayer = process_reward(storage, relayer_addr);
    let (buy_prices, sell_prices) = find_list_match_price(storage, limit);
    if buy_prices.len() == 0 || sell_prices.len() == 0 || buy_prices[0] < sell_prices[0] {
        return Ok(
            Settlement {
                messages: Vec::new(),
                total_matched_orders: 0,
                events: Vec::new(),
                reward,
                relayer,
                base_released: 0,
                quote_released: 0,
            },
        );
    }
    let kept_orders = duplicate_orders(&storage.orders);
    let kept_buy_ticks = duplicate_ticks(&storage.buy_ticks);
    let kept_sell_ticks = duplicate_ticks(&storage.sell_ticks);
    let mut acc = Matching::new(reward, relayer);
    proof {
        assert(payment_views(acc.list_bidder@) =~= Seq::empty());
        assert(payment_views(acc.list_asker@) =~= Seq::empty());
        assert(event_views(acc.events@) =~= Seq::empty());
        assert(acc.tally() == opening_tally(*old(storage), relayer_addr@, reward_wallet@));
    }
    match match_book(storage, &mut acc, &buy_prices, &sell_prices, limit, min_quote_coin_amount) {
        Ok(()) => {},
        Err(e) => {
            storage.orders = kept_orders;
            storage.buy_ticks = kept_buy_ticks;
            storage.sell_ticks = kept_sell_ticks;
            proof {
                lemma_same_book(*old(storage), *storage);
            }
            return Err(e);
        },
    }
    let ghost acc_tally = acc.tally();
    let Matching { reward, relayer, list_bidder, list_asker, events, total_orders, base_released, quote_released } = acc;
    let mut reward = reward;
    let mut relayer = relayer;
    let mut messages: Vec<Transfer> = Vec::new();
    proof {
        assert(transfer_views(messages@) =~= Seq::empty());
    }
    let ghost bidders = list_bidder@;
    let ghost askers = list_asker@;
    let ghost t = acc_tally;
    match transfer_to_trader(list_bidder, list_asker, &mut messages) {
        Ok(()) => {
            proof {
                assert forall|a: Seq<u8>| owed_in(t.list_bidder, a) <= u128::MAX && owed_in(t.list_asker, a) <= u128::MAX by {
                    lemma_owed_in(bidders, a);
                    lemma_owed_in(askers, a);
                    assert(owed_to(bidders, a) <= u128::MAX && owed_to(askers, a) <= u128::MAX);
                }
            }
        },
        Err(e) => {
            proof {
                if payable(t) {
                    assert forall|a: Seq<u8>| owed_to(bidders, a) <= u128::MAX && owed_to(askers, a) <= u128::MAX by {
                        lemma_owed_in(bidders, a);
                        lemma_owed_in(askers, a);
                        assert(owed_in(t.list_bidder, a) <= u128::MAX && owed_in(t.list_asker, a) <= u128::MAX);
                    }
                }
            }
            storage.orders = kept_orders;
            storage.buy_ticks = kept_buy_ticks;
            storage.sell_ticks = kept_sell_ticks;
            proof {
                lemma_same_book(*old(storage), *storage);
            }
            return Err(e);
        },
    }
    transfer_reward(&mut reward, &mut relayer, &mut messages);
    proof {
        assert(reward.balance(CoinSide::Base) == carried_over(t.reward_base));
        assert(reward.balance(CoinSide::Quote) == carried_over(t.reward_quote));
        assert(relayer.balance(CoinSide::Base) == carried_over(t.relayer_base));
        assert(relayer.balance(CoinSide::Quote) == carried_over(t.relayer_quote));
    }
    let ghost matched_book = storage.book();
    store_reward(storage, &reward);
    store_reward(storage, &relayer);
    proof {
        assert(storage.book() == matched_book);
        assert(event_views(events@) == t.events);
        assert(payable(t));
    }
    Ok(Settlement { messages, total_matched_orders: total_orders, events, reward, relayer, base_released, quote_released })
}

/// The quote leg of an order: what a buy offers, what a sell asks.
pub open spec fn quote_leg(direction: OrderDirection, offer_amount: u128, ask_amount: u128) -> u128 {
    match direction {
        OrderDirection::Buy => offer_amount,
        OrderDirection::Sell => ask_amount,
    }
}

/// The order that a submission stores under `order_id`.
pub open spec fn submitted(order_id: u64, sender: Vec<u8>, direction: OrderDirection, offer_amount: u128, ask_amount: u128) -> Order {
    Order {
        order_id,
        status: OrderStatus::Open,
        direction,
        bidder_addr: sender,
        offer_amount,
        ask_amount,
        filled_offer_amount: 0,
        filled_ask_amount: 0,
    }
}

/// Why a submission is turned down, if it is; the first reason that applies.
pub open spec fn submit_error(storage: Storage, sender: Vec<u8>, direction: OrderDirection, offer_amount: u128, ask_amount: u128, delivered: u128) -> Option<ContractError> {
    let order = submitted(0, sender, direction, offer_amount, ask_amount);
    if offer_amount == 0 || ask_amount == 0 {
        Some(ContractError::AssetMustNotBeZero)
    } else if storage.orderbook is None {
        Some(ContractError::PairNotFound)
    } else if delivered != offer_amount {
        Some(ContractError::FundMismatch)
    } else if quote_leg(direction, offer_amount, ask_amount) < storage.orderbook->Some_0.min_quote_coin_amount {
        Some(ContractError::BelowMinQuote)
    } else if order@.price() is Err {
        Some(order@.price()->Err_0)
    } else if storage.last_order_id == u64::MAX || tick_total(storage.ticks(direction), order@.price()->Ok_0.spec_tick())
        == u64::MAX {
        Some(ContractError::Overflow)
    } else {
        None
    }
}

/// Places a new order of `sender`, who has delivered `delivered` units of
/// the offered asset with it. The order gets the next id, is stored as
/// open with nothing filled, and is counted at its price level. A
/// submission that is turned down changes nothing.
pub fn submit_order(storage: &mut Storage, sender: Vec<u8>, direction: OrderDirection, offer_amount: u128, ask_amount: u128, delivered: u128) -> (r: Result<u64, ContractError>)
    ensures
        final(storage).orderbook == old(storage).orderbook,
        final(storage).rewards == old(storage).rewards,
        match submit_error(*old(storage), sender, direction, offer_amount, ask_amount, delivered) {
            Some(e) => r == Err::<u64, ContractError>(e) && *final(storage) == *old(storage),
            None => {
                let id = (old(storage).last_order_id + 1) as u64;
                let order = submitted(id, sender, direction, offer_amount, ask_amount);
                &&& r == Ok::<u64, ContractError>(id)
                &&& final(storage).last_order_id == id
                &&& final(storage).orders@ == upsert_order(old(storage).orders@, order)
                &&& final(storage).ticks(direction) == tick_added(old(storage).ticks(direction), order@.price()->Ok_0.spec_tick())
                &&& old(storage).wf() ==> final(storage).orders@ == old(storage).orders@.push(order)
            },
        },
        direction == OrderDirection::Buy ==> final(storage).sell_ticks == old(storage).sell_ticks,
        direction == OrderDirection::Sell ==> final(storage).buy_ticks == old(storage).buy_ticks,
        old(storage).wf() ==> final(storage).wf(),
        old(storage).wf() && old(storage).counted() ==> final(storage).counted(),
{
    if offer_amount == 0 || ask_amount == 0 {
        return Err(ContractError::AssetMustNotBeZero);
    }
    let min_quote_coin_amount = match &storage.orderbook {
        Some(book) => book.min_quote_coin_amount,
        None => { return Err(ContractError::PairNotFound); },
    };
    if delivered != offer_amount {
        return Err(ContractError::FundMismatch);
    }
    let quote_amount = match direction {
        OrderDirection::Buy => offer_amount,
        OrderDirection::Sell => ask_amount,
    };
    if quote_amount < min_quote_coin_amount {
        return Err(ContractError::BelowMinQuote);
    }
    let mut order = Order::new(0, sender, direction, offer_amount, ask_amount);
    let price = match order.get_price() {
        Ok(p) => p,
        Err(e) => { return Err(e); },
    };
    let at_level = match direction {
        OrderDirection::Buy => read_tick(&storage.buy_ticks, price.tick()),
        OrderDirection::Sell => read_tick(&storage.sell_ticks, price.tick()),
    };
    if storage.last_order_id == u64::MAX || at_level == u64::MAX {
        return Err(ContractError::Overflow);
    }
    let order_id = match increase_last_order_id(storage) {
        Ok(id) => id,
        Err(e) => { return Err(e); },
    };
    order.order_id = order_id;
    proof {
        assert(order == submitted(order_id, sender, direction, offer_amount, ask_amount));
        if old(storage).wf() {
            let keys = crate::state::order_ids(storage.orders@);
            assert forall|j: int| 0 <= j < keys.len() implies keys[j] < order_id by {
                assert(storage.orders@[j].order_id <= old(storage).last_order_id);
            }
            crate::state::lemma_lower_bound(keys, order_id as int, keys.len() as int);
            assert(storage.orders@.insert(storage.orders@.len() as int, order) =~= storage.orders@.push(order));
        }
    }
    match store_order(storage, order, true) {
        Ok(_) => Ok(order_id),
        Err(e) => Err(e),
    }
}

/// The asset an order offers, which is the asset refunded on cancel: a
/// buy holds quote in escrow, a sell holds base.
pub open spec fn offer_side(direction: OrderDirection) -> CoinSide {
    match direction {
        OrderDirection::Buy => CoinSide::Quote,
        OrderDirection::Sell => CoinSide::Base,
    }
}

/// Why a cancellation by `sender` is turned down, if it is.
pub open spec fn cancel_error(storage: Storage, sender: Seq<u8>, order_id: u64) -> Option<ContractError> {
    let order = storage.orders@[order_slot(storage.orders@, order_id)];
    if storage.orderbook is None {
        Some(ContractError::PairNotFound)
    } else if !has_order(storage.orders@, order_id) {
        Some(ContractError::OrderNotFound)
    } else if order.bidder_addr@ != sender {
        Some(ContractError::Unauthorized)
    } else if order.filled_offer_amount > order.offer_amount {
        Some(ContractError::Underflow)
    } else if order@.price() is Err {
        Some(order@.price()->Err_0)
    } else {
        None
    }
}

/// Cancels an order of `sender`: the order leaves the table and its price
/// level, and the whole unspent part of its offer is refunded to the
/// bidder in the asset that the order offered. A refund of zero needs no
/// transfer. A cancellation that is turned down changes nothing.
pub fn cancel_order(storage: &mut Storage, sender: &Vec<u8>, order_id: u64) -> (r: Result<Transfer, ContractError>)
    ensures
        final(storage).last_order_id == old(storage).last_order_id,
        final(storage).orderbook == old(storage).orderbook,
        final(storage).rewards == old(storage).rewards,
        match cancel_error(*old(storage), sender@, order_id) {
            Some(e) => r is Err && r->Err_0 == e && *final(storage) == *old(storage),
            None => {
                let order = old(storage).orders@[order_slot(old(storage).orders@, order_id)];
                &&& r is Ok
                &&& r->Ok_0.address@ == sender@
                &&& r->Ok_0.asset == offer_side(order.direction)
                &&& r->Ok_0.amount == order.offer_amount - order.filled_offer_amount
                &&& final(storage).orders@ == delete_order(old(storage).orders@, order_id)
                &&& final(storage).ticks(order.direction) == tick_dropped(
                    old(storage).ticks(order.direction),
                    order@.price()->Ok_0.spec_tick(),
                )
            },
        },
        old(storage).wf() ==> final(storage).wf(),
        old(storage).wf() && old(storage).counted() ==> final(storage).counted(),
{
    if storage.orderbook.is_none() {
        return Err(ContractError::PairNotFound);
    }
    let order = match read_order(storage, order_id) {
        Ok(o) => o,
        Err(e) => { return Err(e); },
    };
    if !bytes_eq(&order.bidder_addr, sender) {
        return Err(ContractError::Unauthorized);
    }
    let left_offer_amount = match order.left_offer_amount() {
        Ok(v) => v,
        Err(e) => { return Err(e); },
    };
    let asset = match order.direction {
        OrderDirection::Buy => CoinSide::Quote,
        OrderDirection::Sell => CoinSide::Base,
    };
    match remove_order(storage, &order) {
        Ok(_) => Ok(Transfer { address: clone_bytes(sender), asset, amount: left_offer_amount }),
        Err(e) => Err(e),
    }
}

/// The order with id `order_id` after its owner has changed its amounts:
/// what it has spent and received so far stays.
pub open spec fn updated(old_order: Order, offer_amount: u128, ask_amount: u128) -> Order {
    Order { offer_amount, ask_amount, ..old_order }
}

/// Why a change of an order by `sender` is turned down, if it is.
pub open spec fn update_error(storage: Storage, sender: Seq<u8>, order_id: u64, offer_amount: u128, ask_amount: u128, delivered: u128) -> Option<ContractError> {
    let order = storage.orders@[order_slot(storage.orders@, order_id)];
    let changed = updated(order, offer_amount, ask_amount);
    if offer_amount == 0 || ask_amount == 0 {
        Some(ContractError::AssetMustNotBeZero)
    } else if storage.orderbook is None {
        Some(ContractError::PairNotFound)
    } else if !has_order(storage.orders@, order_id) {
        Some(ContractError::OrderNotFound)
    } else if order.bidder_addr@ != sender {
        Some(ContractError::Unauthorized)
    } else if order.status == OrderStatus::Fulfilled || order.status == OrderStatus::Cancel || order.filled_offer_amount
        > order.offer_amount || offer_amount <= order.filled_offer_amount {
        Some(ContractError::InsufficientOrderAmountLeft)
    } else if delivered != offer_amount - order.filled_offer_amount {
        Some(ContractError::FundMismatch)
    } else if order@.price() is Err {
        Some(order@.price()->Err_0)
    } else if changed@.price() is Err {
        Some(changed@.price()->Err_0)
    } else if changed@.price()->Ok_0.spec_tick() != order@.price()->Ok_0.spec_tick() && tick_total(
        storage.ticks(order.direction),
        changed@.price()->Ok_0.spec_tick(),
    ) == u64::MAX {
        Some(ContractError::Overflow)
    } else {
        None
    }
}

/// Changes the amounts of an open order of `sender`. The escrow is made
/// anew in full: with the call the bidder delivers all that the changed
/// order has still to spend, its new offer less what it has spent so far,
/// and gets back the unspent part of the old offer, which is the refund
/// returned. The order keeps its id and what it has filled, leaves its old
/// price level and is counted at the new one. A change that is turned
/// down changes nothing.
pub fn update_order(storage: &mut Storage, sender: &Vec<u8>, order_id: u64, offer_amount: u128, ask_amount: u128, delivered: u128) -> (r: Result<Transfer, ContractError>)
    requires
        old(storage).wf(),
    ensures
        final(storage).last_order_id == old(storage).last_order_id,
        final(storage).orderbook == old(storage).orderbook,
        final(storage).rewards == old(storage).rewards,
        match update_error(*old(storage), sender@, order_id, offer_amount, ask_amount, delivered) {
            Some(e) => r is Err && r->Err_0 == e && *final(storage) == *old(storage),
            None => {
                let order = old(storage).orders@[order_slot(old(storage).orders@, order_id)];
                &&& r is Ok
                &&& r->Ok_0.address@ == sender@
                &&& r->Ok_0.asset == offer_side(order.direction)
                &&& r->Ok_0.amount == order.offer_amount - order.filled_offer_amount
                &&& has_order(final(storage).orders@, order_id)
                &&& final(storage).orders@[order_slot(final(storage).orders@, order_id)]@ == updated(
                    order,
                    offer_amount,
                    ask_amount,
                )@
                &&& final(storage).orders@.len() == old(storage).orders@.len()
            },
        },
        final(storage).wf(),
        old(storage).counted() ==> final(storage).counted(),
{
    if offer_amount == 0 || ask_amount == 0 {
        return Err(ContractError::AssetMustNotBeZero);
    }
    if storage.orderbook.is_none() {
        return Err(ContractError::PairNotFound);
    }
    let order = match read_order(storage, order_id) {
        Ok(o) => o,
        Err(e) => { return Err(e); },
    };
    if !bytes_eq(&order.bidder_addr, sender) {
        return Err(ContractError::Unauthorized);
    }
    if order.status == OrderStatus::Fulfilled || order.status == OrderStatus::Cancel || order.filled_offer_amount
        > order.offer_amount || offer_amount <= order.filled_offer_amount {
        return Err(ContractError::InsufficientOrderAmountLeft);
    }
    if delivered != offer_amount - order.filled_offer_amount {
        return Err(ContractError::FundMismatch);
    }
    let refund = order.offer_amount - order.filled_offer_amount;
    let old_price = match order.get_price() {
        Ok(p) => p,
        Err(e) => { return Err(e); },
    };
    let mut changed = order.duplicate();
    changed.offer_amount = offer_amount;
    changed.ask_amount = ask_amount;
    let new_price = match changed.get_price() {
        Ok(p) => p,
        Err(e) => { return Err(e); },
    };
    let at_level = match order.direction {
        OrderDirection::Buy => read_tick(&storage.buy_ticks, new_price.tick()),
        OrderDirection::Sell => read_tick(&storage.sell_ticks, new_price.tick()),
    };
    proof {
        crate::state::lemma_tick_dropped(old(storage).ticks(order.direction), old_price.spec_tick());
    }
    if at_level == u64::MAX && new_price.tick() != old_price.tick() {
        return Err(ContractError::Overflow);
    }
    let asset = match order.direction {
        OrderDirection::Buy => CoinSide::Quote,
        OrderDirection::Sell => CoinSide::Base,
    };
    match remove_order(storage, &order) {
        Ok(_) => {},
        Err(e) => { return Err(e); },
    }
    let ghost mid = storage.orders@;
    let ghost written = changed;
    proof {
        crate::state::lemma_upsert_rows(mid, written);
        assert(mid.len() == old(storage).orders@.len() - 1);
    }
    match store_order(storage, changed, true) {
        Ok(_) => {},
        Err(e) => { return Err(e); },
    }
    proof {
        let row = old(storage).orders@[order_slot(old(storage).orders@, order_id)];
        assert(written@ == updated(row, offer_amount, ask_amount)@);
    }
    Ok(Transfer { address: clone_bytes(sender), asset, amount: refund })
}

/// Why an administrator's removal of an order is turned down, if it is.
pub open spec fn remove_error(storage: Storage, sender: Seq<u8>, admin: Seq<u8>, order_id: u64) -> Option<ContractError> {
    let order = storage.orders@[order_slot(storage.orders@, order_id)];
    if storage.orderbook is None {
        Some(ContractError::PairNotFound)
    } else if !has_order(storage.orders@, order_id) {
        Some(ContractError::OrderNotFound)
    } else if sender != admin {
        Some(ContractError::Unauthorized)
    } else if order@.price() is Err {
        Some(order@.price()->Err_0)
    } else {
        None
    }
}

/// Removes an order on the administrator's word: the order leaves the
/// table and its price level, and nothing is refunded. Returns the order
/// as it stood.
pub fn remove_stuff_order(storage: &mut Storage, sender: &Vec<u8>, admin: &Vec<u8>, order_id: u64) -> (r: Result<Order, ContractError>)
    ensures
        final(storage).last_order_id == old(storage).last_order_id,
        final(storage).orderbook == old(storage).orderbook,
        final(storage).rewards == old(storage).rewards,
        match remove_error(*old(storage), sender@, admin@, order_id) {
            Some(e) => r is Err && r->Err_0 == e && *final(storage) == *old(storage),
            None => {
                let order = old(storage).orders@[order_slot(old(storage).orders@, order_id)];
                &&& r is Ok
                &&& r->Ok_0@ == order@
                &&& final(storage).orders@ == delete_order(old(storage).orders@, order_id)
                &&& final(storage).ticks(order.direction) == tick_dropped(
                    old(storage).ticks(order.direction),
                    order@.price()->Ok_0.spec_tick(),
                )
            },
        },
        old(storage).wf() ==> final(storage).wf(),
        old(storage).wf() && old(storage).counted() ==> final(storage).counted(),
{
    if storage.orderbook.is_none() {
        return Err(ContractError::PairNotFound);
    }
    let order = match read_order(storage, order_id) {
        Ok(o) => o,
        Err(e) => { return Err(e); },
    };
    if !bytes_eq(sender, admin) {
        return Err(ContractError::Unauthorized);
    }
    match remove_order(storage, &order) {
        Ok(_) => Ok(order),
        Err(e) => Err(e),
    }
}

/// Why the registration of a pair is turned down, if it is.
pub open spec fn create_error(storage: Storage, sender: Seq<u8>, admin: Seq<u8>, book: OrderBook) -> Option<ContractError> {
    if sender != admin {
        Some(ContractError::Unauthorized)
    } else if storage.orderbook is Some {
        Some(ContractError::OrderBookAlreadyExists)
    } else if book.base_coin_info@ == book.quote_coin_info@ {
        Some(ContractError::InvalidPair)
    } else {
        None
    }
}

/// Registers the pair: writes its configuration into the storage. Only
/// the administrator may do so, once, and the two assets must differ.
pub fn create_pair(storage: &mut Storage, sender: &Vec<u8>, admin: &Vec<u8>, book: OrderBook) -> (r: Result<(), ContractError>)
    ensures
        final(storage).last_order_id == old(storage).last_order_id,
        final(storage).orders == old(storage).orders,
        final(storage).buy_ticks == old(storage).buy_ticks,
        final(storage).sell_ticks == old(storage).sell_ticks,
        final(storage).rewards == old(storage).rewards,
        match create_error(*old(storage), sender@, admin@, book) {
            Some(e) => r == Err::<(), ContractError>(e) && final(storage).orderbook == old(storage).orderbook,
            None => r is Ok && final(storage).orderbook == Some(book),
        },
{
    if !bytes_eq(sender, admin) {
        return Err(ContractError::Unauthorized);
    }
    if storage.orderbook.is_some() {
        return Err(ContractError::OrderBookAlreadyExists);
    }
    if bytes_eq(&book.base_coin_info, &book.quote_coin_info) {
        return Err(ContractError::InvalidPair);
    }
    storage.orderbook = Some(book);
    Ok(())
}

/// Removes the pair's configuration. Only the administrator may do so.
/// The orders, ticks and reward accounts of the pair are left as they are.
pub fn remove_pair(storage: &mut Storage, sender: &Vec<u8>, admin: &Vec<u8>) -> (r: Result<(), ContractError>)
    ensures
        final(storage).last_order_id == old(storage).last_order_id,
        final(storage).orders == old(storage).orders,
        final(storage).buy_ticks == old(storage).buy_ticks,
        final(storage).sell_ticks == old(storage).sell_ticks,
        final(storage).rewards == old(storage).rewards,
        sender@ != admin@ ==> r == Err::<(), ContractError>(ContractError::Unauthorized) && final(storage).orderbook == old(storage).orderbook,
        sender@ == admin@ ==> r is Ok && final(storage).orderbook is None,
{
    if !bytes_eq(sender, admin) {
        return Err(ContractError::Unauthorized);
    }
    storage.orderbook = None;
    Ok(())
}

/// The tick table without the row of `price`.
pub open spec fn tick_cleared(ticks: Seq<Tick>, price: u128) -> Seq<Tick> {
    if has_tick(ticks, price) {
        ticks.remove(tick_slot(ticks, price))
    } else {
        ticks
    }
}

/// Clears one price level on the administrator's word: its counter is set
/// to zero, which takes its row out of the tick table. The orders are not
/// touched and nothing is refunded. Returns the counter as it stood.
pub fn execute_remove_price(storage: &mut Storage, sender: &Vec<u8>, admin: &Vec<u8>, price: Decimal, direction: OrderDirection) -> (r: Result<u64, ContractError>)
    ensures
        final(storage).last_order_id == old(storage).last_order_id,
        final(storage).orderbook == old(storage).orderbook,
        final(storage).orders == old(storage).orders,
        final(storage).rewards == old(storage).rewards,
        sender@ != admin@ ==> r == Err::<u64, ContractError>(ContractError::Unauthorized) && *final(storage) == *old(storage),
        sender@ == admin@ ==> {
            &&& r == Ok::<u64, ContractError>(tick_total(old(storage).ticks(direction), price.spec_tick()))
            &&& final(storage).ticks(direction) == tick_cleared(old(storage).ticks(direction), price.spec_tick())
        },
        direction == OrderDirection::Buy ==> final(storage).sell_ticks == old(storage).sell_ticks,
        direction == OrderDirection::Sell ==> final(storage).buy_ticks == old(storage).buy_ticks,
{
    if !bytes_eq(sender, admin) {
        return Err(ContractError::Unauthorized);
    }
    let tick = price.tick();
    match direction {
        OrderDirection::Buy => Ok(clear_tick(&mut storage.buy_ticks, tick)),
        OrderDirection::Sell => Ok(clear_tick(&mut storage.sell_ticks, tick)),
    }
}

fn clear_tick(ticks: &mut Vec<Tick>, price: u128) -> (total: u64)
    ensures
        total == tick_total(old(ticks)@, price),
        final(ticks)@ == tick_cleared(old(ticks)@, price),
        !has_tick(old(ticks)@, price) ==> *final(ticks) == *old(ticks),
{
    let p = find_tick_slot(ticks, price);
    if p < ticks.len() && ticks[p].price == price {
        let gone = ticks.remove(p);
        gone.total_orders
    } else {
        0
    }
}

/// Whether the table lists an order under `order_id` with the given status.
pub open spec fn has_status(storage: Storage, order_id: u64, status: OrderStatus) -> bool {
    has_order(storage.orders@, order_id) && storage.orders@[order_slot(storage.orders@, order_id)].status == status
}

/// Clears an order that is listed under a status, on the administrator's
/// word: if the table has the order with that status, the order leaves
/// the table and its price level, and the call returns `true`; else
/// nothing changes. Nothing is refunded.
pub fn execute_remove_status(storage: &mut Storage, sender: &Vec<u8>, admin: &Vec<u8>, order_id: u64, status: OrderStatus) -> (r: Result<bool, ContractError>)
    ensures
        final(storage).last_order_id == old(storage).last_order_id,
        final(storage).orderbook == old(storage).orderbook,
        final(storage).rewards == old(storage).rewards,
        sender@ != admin@ ==> r == Err::<bool, ContractError>(ContractError::Unauthorized) && *final(storage) == *old(storage),
        sender@ == admin@ && !has_status(*old(storage), order_id, status) ==> r == Ok::<bool, ContractError>(false)
            && *final(storage) == *old(storage),
        sender@ == admin@ && has_status(*old(storage), order_id, status) ==> {
            let order = old(storage).orders@[order_slot(old(storage).orders@, order_id)];
            match order@.price() {
                Err(e) => r == Err::<bool, ContractError>(e) && *final(storage) == *old(storage),
                Ok(price) => {
                    &&& r == Ok::<bool, ContractError>(true)
                    &&& final(storage).orders@ == delete_order(old(storage).orders@, order_id)
                    &&& final(storage).ticks(order.direction) == tick_dropped(old(storage).ticks(order.direction), price.spec_tick())
                },
            }
        },
        old(storage).wf() ==> final(storage).wf(),
        old(storage).wf() && old(storage).counted() ==> final(storage).counted(),
{
    if !bytes_eq(sender, admin) {
        return Err(ContractError::Unauthorized);
    }
    let order = match read_order(storage, order_id) {
        Ok(o) => o,
        Err(_) => { return Ok(false); },
    };
    if order.status != status {
        return Ok(false);
    }
    match remove_order(storage, &order) {
        Ok(_) => Ok(true),
        Err(e) => Err(e),
    }
}

/// The side of the order that is listed under `order_id` with the given status.
pub fn query_status(storage: &Storage, order_id: u64, status: OrderStatus) -> (r: Result<OrderDirection, ContractError>)
    ensures
        has_status(*storage, order_id, status) ==> r == Ok::<OrderDirection, ContractError>(
            storage.orders@[order_slot(storage.orders@, order_id)].direction,
        ),
        !has_status(*storage, order_id, status) ==> r == Err::<OrderDirection, ContractError>(ContractError::OrderNotFound),
{
    match read_order(storage, order_id) {
        Ok(o) => if o.status == status {
            Ok(o.direction)
        } else {
            Err(ContractError::OrderNotFound)
        },
        Err(e) => Err(e),
    }
}

} // verus!
