//! Orders, the prices they rest at and the shapes in which the book hands them out.
use vstd::prelude::*;
use crate::collections::Side;

verus! {

/// What the book refuses.
#[derive(PartialEq, Eq, Debug, Clone, Structural)]
pub enum Error {
    /// An order with this id is already in the book.
    KeyAlreadyExists,
    /// No order with this id is in the book.
    OrderNotFound,
}

impl Error {
    /// The message of the error, as it is shown to a user.
    pub open spec fn spec_message(self) -> Seq<char> {
        match self {
            Error::KeyAlreadyExists => "A collision of order id has occurred."@,
            Error::OrderNotFound => "order id not found."@,
        }
    }

    pub fn message(&self) -> (text: &'static str)
        ensures
            text@ == self.spec_message(),
    {
        match self {
            Error::KeyAlreadyExists => "A collision of order id has occurred.",
            Error::OrderNotFound => "order id not found.",
        }
    }
}

/// An order: the side it rests on, its price, what is left of it, and whatever
/// the venue sent along.
#[derive(PartialEq, Eq, Clone, Debug)]
pub struct Order<P, Q, I> {
    pub side: Side,
    pub price: P,
    pub quantity: Q,
    pub info: I,
}

impl<P, Q, I> Order<P, Q, I> {
    pub fn new(side: Side, price: P, quantity: Q, info: I) -> (order: Self)
        ensures
            order == (Order { side, price, quantity, info }),
    {
        Order { side, price, quantity, info }
    }
}

/// The price of an order whose limit may not be set: a market order takes
/// whatever price it meets.
#[derive(PartialEq, Eq, PartialOrd, Ord, Clone, Copy, Debug, Hash)]
pub enum OrderPrice<L> {
    Market,
    Limit(L),
}

impl<L> OrderPrice<L> {
    pub fn market() -> (price: Self)
        ensures
            price == OrderPrice::<L>::Market,
    {
        Self::Market
    }

    pub fn limit(price: L) -> (order_price: Self)
        ensures
            order_price == OrderPrice::Limit(price),
    {
        Self::Limit(price)
    }

    pub fn is_market(&self) -> (market: bool)
        ensures
            market == (*self is Market),
    {
        match self {
            OrderPrice::Market => true,
            OrderPrice::Limit(_) => false,
        }
    }

    pub fn as_limit(&self) -> (limit: Option<&L>)
        ensures
            match *self {
                OrderPrice::Market => limit is None,
                OrderPrice::Limit(p) => limit == Some(&p),
            },
    {
        match &self {
            OrderPrice::Market => None,
            OrderPrice::Limit(p) => Some(p),
        }
    }
}

/// A price that an order book can be keyed by.
///
/// `rank` places every price on the scale that the ask side of a book
/// walks, lowest first, and `turned` on the scale that the bid side walks,
/// highest first. What is no limit comes first on both.
pub trait Price: Copy {
    /// The place of the price among asks: the lower the price, the smaller.
    spec fn rank(self) -> u128;

    /// The place of the price among bids: the higher the price, the smaller.
    spec fn turned(self) -> u128;

    /// The place of a price among asks, computed.
    fn key(&self) -> (k: u128)
        ensures
            k == self.rank(),
    ;

    /// The place of a price among bids, computed.
    fn bid_key(&self) -> (k: u128)
        ensures
            k == self.turned(),
    ;

    /// Two prices at one place among asks are one price.
    proof fn rank_is_injective(a: Self, b: Self)
        requires
            a.rank() == b.rank(),
        ensures
            a == b,
    ;

    /// Two prices at one place among bids are one price.
    proof fn turned_is_injective(a: Self, b: Self)
        requires
            a.turned() == b.turned(),
        ensures
            a == b,
    ;
}

impl Price for u64 {
    open spec fn rank(self) -> u128 {
        self as u128
    }

    open spec fn turned(self) -> u128 {
        (u128::MAX - self) as u128
    }

    fn key(&self) -> (k: u128) {
        *self as u128
    }

    fn bid_key(&self) -> (k: u128) {
        u128::MAX - *self as u128
    }

    proof fn rank_is_injective(a: Self, b: Self) {
    }

    proof fn turned_is_injective(a: Self, b: Self) {
    }
}

impl Price for OrderPrice<u64> {
    /// A market order comes before every limit, and the limits lowest first.
    open spec fn rank(self) -> u128 {
        match self {
            OrderPrice::Market => 0,
            OrderPrice::Limit(p) => (p + 1) as u128,
        }
    }

    /// A market order comes before every limit, and the limits highest first.
    open spec fn turned(self) -> u128 {
        match self {
            OrderPrice::Market => 0,
            OrderPrice::Limit(p) => (u128::MAX - p) as u128,
        }
    }

    fn key(&self) -> (k: u128) {
        match self {
            OrderPrice::Market => 0,
            OrderPrice::Limit(p) => *p as u128 + 1,
        }
    }

    fn bid_key(&self) -> (k: u128) {
        match self {
            OrderPrice::Market => 0,
            OrderPrice::Limit(p) => u128::MAX - *p as u128,
        }
    }

    proof fn rank_is_injective(a: Self, b: Self) {
    }

    proof fn turned_is_injective(a: Self, b: Self) {
    }
}

/// Part of an order, borrowed from the book: the quantity is the part's own,
/// the rest is the order's.
#[derive(PartialEq, Eq, Hash, Debug)]
pub struct PartialOrder<'a, P, Q, I> {
    pub side: &'a Side,
    pub price: &'a P,
    pub quantity: Q,
    pub info: &'a I,
}

impl<P: Clone, Q, I: Clone> PartialOrder<'_, P, Q, I> {
    pub fn quantity(&self) -> (quantity: &Q)
        ensures
            *quantity == self.quantity,
    {
        &self.quantity
    }

    /// An owned order of the part's quantity, with clones of the price and the info.
    pub fn to_order(self) -> (order: Order<P, Q, I>)
        ensures
            order.side == *self.side,
            order.quantity == self.quantity,
            cloned(*self.price, order.price),
            cloned(*self.info, order.info),
    {
        Order {
            side: *self.side,
            price: self.price.clone(),
            quantity: self.quantity,
            info: self.info.clone(),
        }
    }
}

/// What a reduction took from an order: a part of it, or all of it.
#[derive(PartialEq, Eq, Debug)]
pub enum OrderView<'a, P, Q, I> {
    Partial(PartialOrder<'a, P, Q, I>),
    Full(Order<P, Q, I>),
}

impl<'a, P: Clone, Q: Clone, I: Clone> OrderView<'a, P, Q, I> {
    pub open spec fn spec_price(self) -> P {
        match self {
            OrderView::Partial(o) => *o.price,
            OrderView::Full(o) => o.price,
        }
    }

    pub open spec fn spec_quantity(self) -> Q {
        match self {
            OrderView::Partial(o) => o.quantity,
            OrderView::Full(o) => o.quantity,
        }
    }

    pub open spec fn spec_info(self) -> I {
        match self {
            OrderView::Partial(o) => *o.info,
            OrderView::Full(o) => o.info,
        }
    }

    pub open spec fn spec_side(self) -> Side {
        match self {
            OrderView::Partial(o) => *o.side,
            OrderView::Full(o) => o.side,
        }
    }

    pub fn price(&self) -> (price: &P)
        ensures
            *price == self.spec_price(),
    {
        match self {
            OrderView::Partial(o) => o.price,
            OrderView::Full(o) => &o.price,
        }
    }

    pub fn quantity(&self) -> (quantity: &Q)
        ensures
            *quantity == self.spec_quantity(),
    {
        match self {
            OrderView::Partial(o) => &o.quantity,
            OrderView::Full(o) => &o.quantity,
        }
    }

    pub fn info(&self) -> (info: &I)
        ensures
            *info == self.spec_info(),
    {
        match self {
            OrderView::Partial(o) => o.info,
            OrderView::Full(o) => &o.info,
        }
    }

    /// The order itself where all of it was taken, else an owned order of the
    /// part's quantity with clones of the price and the info.
    pub fn to_order(self) -> (order: Order<P, Q, I>)
        ensures
            order.side == self.spec_side(),
            order.quantity == self.spec_quantity(),
            match self {
                OrderView::Partial(o) => cloned(*o.price, order.price) && cloned(*o.info, order.info),
                OrderView::Full(o) => order == o,
            },
    {
        match self {
            OrderView::Partial(o) => o.to_order(),
            OrderView::Full(o) => o,
        }
    }
}

/// The orders that serve a wanted quantity, first served first, and what of
/// the wanted quantity they could not serve.
#[derive(PartialEq, Eq, Hash, Debug)]
pub struct Orders<'a, K, P, Q, I> {
    pub deficit: Q,
    pub orders: Vec<(K, PartialOrder<'a, P, Q, I>)>,
}

/// The direction in which prices and the queue at each price are walked.
#[derive(Clone, Copy, PartialEq, Eq, Hash, Debug, Structural)]
pub enum PriceTimePriority {
    /// Best price first, and at each price the oldest order first.
    BothDesc,
    /// Worst price first, and at each price the youngest order first.
    BothAsc,
}

} // verus!
