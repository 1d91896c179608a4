use vstd::prelude::*;
use crate::error::ContractError;
use crate::math::Decimal;

verus! {

/// The side of the book an order sits on. A buy offers the quote asset and
/// asks for the base asset; a sell offers base and asks for quote.
#[derive(Clone, Copy, Debug, PartialEq, Eq, Structural)]
pub enum OrderDirection {
    Buy,
    Sell,
}

/// Where an order stands in its life. `Open` and `PartialFilled` orders are
/// kept; `Fulfilled` and `Cancel` are terminal.
#[derive(Clone, Copy, Debug, PartialEq, Eq, Structural)]
pub enum OrderStatus {
    Open,
    PartialFilled,
    Fulfilled,
    Cancel,
}

/// One of the two assets of a pair.
#[derive(Clone, Copy, Debug, PartialEq, Eq, Structural)]
pub enum CoinSide {
    Base,
    Quote,
}

/// A copy of a byte string.
pub fn clone_bytes(v: &Vec<u8>) -> (r: Vec<u8>)
    ensures
        r@ == v@,
{
    let mut r: Vec<u8> = Vec::new();
    let mut i: usize = 0;
    while i < v.len()
        invariant
            i <= v.len(),
            r@ == v@.take(i as int),
        decreases v.len() - i,
    {
        r.push(v[i]);
        i += 1;
        assert(v@.take(i as int) == v@.take(i - 1).push(v@[i - 1]));
    }
    assert(v@.take(v.len() as int) == v@);
    r
}

/// Whether two byte strings hold the same bytes.
pub fn bytes_eq(a: &Vec<u8>, b: &Vec<u8>) -> (r: bool)
    ensures
        r == (a@ == b@),
{
    if a.len() != b.len() {
        return false;
    }
    let mut i: usize = 0;
    while i < a.len()
        invariant
            i <= a.len(),
            a.len() == b.len(),
            forall|j: int| 0 <= j < i ==> a@[j] == b@[j],
        decreases a.len() - i,
    {
        if a[i] != b[i] {
            return false;
        }
        i += 1;
    }
    assert(a@ =~= b@);
    true
}

/// A limit order.
#[derive(Clone, Debug, PartialEq, Eq)]
pub struct Order {
    pub order_id: u64,
    pub status: OrderStatus,
    pub direction: OrderDirection,
    pub bidder_addr: Vec<u8>,
    pub offer_amount: u128,
    pub ask_amount: u128,
    pub filled_offer_amount: u128,
    pub filled_ask_amount: u128,
}

/// An order as a mathematical value.
pub ghost struct OrderView {
    pub order_id: u64,
    pub status: OrderStatus,
    pub direction: OrderDirection,
    pub bidder_addr: Seq<u8>,
    pub offer_amount: u128,
    pub ask_amount: u128,
    pub filled_offer_amount: u128,
    pub filled_ask_amount: u128,
}

impl View for Order {
    type V = OrderView;

    open spec fn view(&self) -> OrderView {
        OrderView {
            order_id: self.order_id,
            status: self.status,
            direction: self.direction,
            bidder_addr: self.bidder_addr@,
            offer_amount: self.offer_amount,
            ask_amount: self.ask_amount,
            filled_offer_amount: self.filled_offer_amount,
            filled_ask_amount: self.filled_ask_amount,
        }
    }
}

impl OrderView {
    /// Quote units per base unit: what a buy pays, and what a sell wants, for
    /// one unit of the base asset.
    pub open spec fn price(self) -> Result<Decimal, ContractError> {
        match self.direction {
            OrderDirection::Buy => Decimal::spec_from_ratio(self.offer_amount, self.ask_amount),
            OrderDirection::Sell => Decimal::spec_from_ratio(self.ask_amount, self.offer_amount),
        }
    }

    /// Whether the order sits on grid step `tick` of side `direction`.
    pub open spec fn at_tick(self, direction: OrderDirection, tick: u128) -> bool {
        self.direction == direction && self.price() is Ok && self.price()->Ok_0.spec_tick() == tick
    }

    /// What a stored order satisfies: both amounts are positive, no more than
    /// the offer has been spent, and the price is representable.
    pub open spec fn wf(self) -> bool {
        &&& self.offer_amount > 0
        &&& self.ask_amount > 0
        &&& self.filled_offer_amount <= self.offer_amount
        &&& self.price() is Ok
    }

    /// The part of the offer that is still in custody.
    pub open spec fn left_offer(self) -> int {
        self.offer_amount - self.filled_offer_amount
    }

    /// An order that the matcher removes on sight: nothing is left to spend,
    /// or the status is already terminal.
    pub open spec fn is_stuck(self) -> bool {
        self.left_offer() <= 0 || self.status == OrderStatus::Fulfilled
    }

    /// The order after a fill of `offer_amount` spent and `ask_amount` received.
    pub open spec fn filled(self, ask_amount: u128, offer_amount: u128) -> Result<OrderView, ContractError> {
        if self.filled_ask_amount + ask_amount > u128::MAX || self.filled_offer_amount + offer_amount > u128::MAX {
            Err(ContractError::Overflow)
        } else {
            let fa = (self.filled_ask_amount + ask_amount) as u128;
            let fo = (self.filled_offer_amount + offer_amount) as u128;
            Ok(OrderView {
                filled_ask_amount: fa,
                filled_offer_amount: fo,
                status: if fo == self.offer_amount || fa == self.ask_amount {
                    OrderStatus::Fulfilled
                } else {
                    OrderStatus::PartialFilled
                },
                ..self
            })
        }
    }
}

impl Order {
    /// A new open order with nothing filled.
    pub fn new(order_id: u64, bidder_addr: Vec<u8>, direction: OrderDirection, offer_amount: u128, ask_amount: u128) -> (o: Order)
        ensures
            o@ == (OrderView {
                order_id,
                status: OrderStatus::Open,
                direction,
                bidder_addr: bidder_addr@,
                offer_amount,
                ask_amount,
                filled_offer_amount: 0,
                filled_ask_amount: 0,
            }),
            o.bidder_addr == bidder_addr,
    {
        Order {
            order_id,
            status: OrderStatus::Open,
            direction,
            bidder_addr,
            offer_amount,
            ask_amount,
            filled_offer_amount: 0,
            filled_ask_amount: 0,
        }
    }

    /// A copy of the order.
    pub fn duplicate(&self) -> (o: Order)
        ensures
            o@ == self@,
    {
        Order {
            order_id: self.order_id,
            status: self.status,
            direction: self.direction,
            bidder_addr: clone_bytes(&self.bidder_addr),
            offer_amount: self.offer_amount,
            ask_amount: self.ask_amount,
            filled_offer_amount: self.filled_offer_amount,
            filled_ask_amount: self.filled_ask_amount,
        }
    }

    /// The order's price, in quote units per base unit.
    pub fn get_price(&self) -> (r: Result<Decimal, ContractError>)
        ensures
            r == self@.price(),
    {
        match self.direction {
            OrderDirection::Buy => Decimal::from_ratio(self.offer_amount, self.ask_amount),
            OrderDirection::Sell => Decimal::from_ratio(self.ask_amount, self.offer_amount),
        }
    }

    /// Whether the order sits on grid step `tick` of side `direction`.
    pub fn is_at_tick(&self, direction: OrderDirection, tick: u128) -> (r: bool)
        ensures
            r == self@.at_tick(direction, tick),
    {
        if self.direction != direction {
            return false;
        }
        match self.get_price() {
            Ok(p) => p.tick() == tick,
            Err(_) => false,
        }
    }

    /// The part of the offer that has not been spent.
    pub fn left_offer_amount(&self) -> (r: Result<u128, ContractError>)
        ensures
            self.filled_offer_amount <= self.offer_amount ==> r == Ok::<u128, ContractError>(
                (self.offer_amount - self.filled_offer_amount) as u128,
            ),
            self.filled_offer_amount > self.offer_amount ==> r == Err::<u128, ContractError>(
                ContractError::Underflow,
            ),
    {
        if self.filled_offer_amount <= self.offer_amount {
            Ok(self.offer_amount - self.filled_offer_amount)
        } else {
            Err(ContractError::Underflow)
        }
    }

    /// Whether the matcher removes this order on sight.
    pub fn is_stuck(&self) -> (r: bool)
        ensures
            r == self@.is_stuck(),
    {
        self.filled_offer_amount >= self.offer_amount || self.status == OrderStatus::Fulfilled
    }

    /// Records a fill: `offer_amount` more of the offer is spent and
    /// `ask_amount` more of the ask is received. The order becomes
    /// `Fulfilled` when either side reaches the amount it was placed with, and
    /// `PartialFilled` otherwise. On overflow the order is left as it was.
    pub fn fill(&mut self, ask_amount: u128, offer_amount: u128) -> (r: Result<(), ContractError>)
        ensures
            match old(self)@.filled(ask_amount, offer_amount) {
                Ok(v) => r is Ok && final(self)@ == v && final(self).bidder_addr == old(self).bidder_addr,
                Err(e) => r == Err::<(), ContractError>(e) && *final(self) == *old(self),
            },
            r is Ok && offer_amount <= old(self)@.left_offer() ==> final(self).filled_offer_amount
                <= final(self).offer_amount,
            r is Ok && old(self).filled_ask_amount + ask_amount <= old(self).ask_amount
                ==> final(self).filled_ask_amount <= final(self).ask_amount,
    {
        let fa = match self.filled_ask_amount.checked_add(ask_amount) {
            Some(v) => v,
            None => { return Err(ContractError::Overflow); },
        };
        let fo = match self.filled_offer_amount.checked_add(offer_amount) {
            Some(v) => v,
            None => { return Err(ContractError::Overflow); },
        };
        self.filled_ask_amount = fa;
        self.filled_offer_amount = fo;
        if fo == self.offer_amount || fa == self.ask_amount {
            self.status = OrderStatus::Fulfilled;
        } else {
            self.status = OrderStatus::PartialFilled;
        }
        Ok(())
    }
}

/// The configuration of a trading pair.
#[derive(Clone, Debug, PartialEq, Eq)]
pub struct OrderBook {
    /// The canonical byte key of the base asset.
    pub base_coin_info: Vec<u8>,
    /// The canonical byte key of the quote asset.
    pub quote_coin_info: Vec<u8>,
    /// The tick granularity, if one is set.
    pub precision: Option<Decimal>,
    /// Remainders worth less than this are swept into the reward account.
    pub min_quote_coin_amount: u128,
}

/// A reward account: fees accrued to one address, per asset of the pair.
#[derive(Clone, Debug, PartialEq, Eq)]
pub struct Executor {
    pub address: Vec<u8>,
    pub base_amount: u128,
    pub quote_amount: u128,
}

impl Executor {
    /// An account for `address` with nothing accrued.
    pub fn new(address: Vec<u8>) -> (e: Executor)
        ensures
            e.address == address,
            e.base_amount == 0,
            e.quote_amount == 0,
    {
        Executor { address, base_amount: 0, quote_amount: 0 }
    }

    pub open spec fn balance(self, side: CoinSide) -> u128 {
        match side {
            CoinSide::Base => self.base_amount,
            CoinSide::Quote => self.quote_amount,
        }
    }
}

pub open spec fn other_side(side: CoinSide) -> CoinSide {
    match side {
        CoinSide::Base => CoinSide::Quote,
        CoinSide::Quote => CoinSide::Base,
    }
}

} // verus!
