//! The events of an order's life, and the book that they drive.
use vstd::prelude::*;
use std::collections::HashMap;
use crate::collections::book::{
    joined_in_order, queues_after, servings_at, skip_stale, Order, OrderBook, PriceTimePriority,
};
use crate::collections::side_book::{best_price, pushed};
use crate::collections::queue::QueueView;
use crate::collections::side_book::{first_of, lists_prices, price_list, queue_at};
use crate::collections::tally::resting_volume;
use crate::collections::Side;
use crate::taq::enums::CrossType;

verus! {

/// An id, the time of the order and a quantity.
pub type IdTimeQuantity = (u64, u64, u64);

/// An event in the life of the orders of one symbol.
#[derive(Clone, Debug)]
pub struct Message {
    /// Nanoseconds since the start of the day.
    pub time: u64,
    pub body: Body,
}

/// What happens to an order, or a trade that changes no order.
#[derive(Debug, Clone)]
pub enum Body {
    AddOrder { reference: u64, shares: u64, price: u64, side: Side, mpid_val: u64 },
    DeleteOrder { reference: u64 },
    OrderCancelled { reference: u64, cancelled: u64 },
    ReplaceOrder { new_reference: u64, shares: u64, price: u64, old_reference: u64 },
    OrderExecuted { reference: u64, executed: u64 },
    OrderExecutedWithPrice { reference: u64, executed: u64 },
    CrossTrade { cross_type: CrossType },
    NonCrossTrade {  },
}

/// For each side of the book, something to say about some of its prices.
pub struct Summary<T> {
    pub ask: HashMap<u64, T>,
    pub bid: HashMap<u64, T>,
}

/// The given prices, each with the volume at it.
pub open spec fn priced(prices: Seq<u64>, queues: Map<u64, QueueView>) -> Seq<(u64, u64)> {
    Seq::new(prices.len(), |i: int| (prices[i], queue_at(queues, prices[i]).volume as u64))
}

/// The volume at each of the given prices.
pub open spec fn volumes_of(prices: Seq<u64>, queues: Map<u64, QueueView>) -> Map<u64, u64> {
    Map::new(|p: u64| prices.contains(p), |p: u64| queue_at(queues, p).volume as u64)
}

/// The prices from the first on that lie within a limit: asks up to the
/// limit, bids down to it. The first price beyond the limit ends them.
pub open spec fn leading(side: Side, prices: Seq<u64>, limit: Option<u64>) -> Seq<u64>
    decreases prices.len(),
{
    if prices.len() == 0 || !within(side, prices.first(), limit) {
        Seq::empty()
    } else {
        seq![prices.first()] + leading(side, prices.drop_first(), limit)
    }
}

/// Whether a price lies within a limit: an ask no higher, a bid no lower.
/// No limit, nothing within.
pub open spec fn within(side: Side, price: u64, limit: Option<u64>) -> bool {
    match limit {
        None => false,
        Some(limit) => match side {
            Side::Ask => price <= limit,
            Side::Bid => price >= limit,
        },
    }
}

/// The limits of a spread around the middle of the best prices.
///
/// With both sides there, the middle is half the sum of the best ask and
/// the best bid, rounded down; asks count up to the spread above it, bids
/// down to the spread below, and one less far down where the sum is odd.
/// With one side there, its best price takes the place of the middle.
pub open spec fn spread_limits(best_ask: Option<u64>, best_bid: Option<u64>, spread: u64) -> (
    Option<int>,
    Option<int>,
) {
    match (best_ask, best_bid) {
        (None, None) => (None, None),
        (None, Some(b)) => (None, Some(b - spread)),
        (Some(a), None) => (Some(a + spread), None),
        (Some(a), Some(b)) => {
            let mid = (a + b) / 2;
            (Some(mid + spread), Some(mid - spread + (a + b) % 2))
        },
    }
}

/// Whether the limits of a spread are numbers that the machine can hold,
/// with the sum of the best prices.
pub open spec fn spread_fits(best_ask: Option<u64>, best_bid: Option<u64>, spread: u64) -> bool {
    let limits = spread_limits(best_ask, best_bid, spread);
    &&& limits.0 matches Some(l) ==> l <= u64::MAX
    &&& limits.1 matches Some(l) ==> 0 <= l
    &&& best_ask is Some && best_bid is Some ==> best_ask->0 + best_bid->0 <= u64::MAX && (
    best_ask->0 + best_bid->0) / 2 >= spread
}

/// The first of the items, where there is one.
pub open spec fn first_or_none(items: Seq<u64>) -> Option<u64> {
    if items.len() > 0 {
        Some(items.first())
    } else {
        None
    }
}

/// The limits of the spread, computed: nothing where they do not fit.
pub fn checked_spread_limits(best_ask: Option<u64>, best_bid: Option<u64>, spread: u64) -> (limits:
    Option<(Option<u64>, Option<u64>)>)
    ensures
        limits is Some <==> spread_fits(best_ask, best_bid, spread),
        limits matches Some(l) ==> (l.0 matches Some(a) ==> spread_limits(best_ask, best_bid, spread).0
            == Some(a as int)) && (l.0 is None ==> spread_limits(best_ask, best_bid, spread).0
            is None) && (l.1 matches Some(b) ==> spread_limits(best_ask, best_bid, spread).1 == Some(
            b as int,
        )) && (l.1 is None ==> spread_limits(best_ask, best_bid, spread).1 is None),
{
    match (best_ask, best_bid) {
        (None, None) => Some((None, None)),
        (None, Some(b)) => {
            if b < spread {
                None
            } else {
                Some((None, Some(b - spread)))
            }
        },
        (Some(a), None) => {
            match a.checked_add(spread) {
                Some(limit) => Some((Some(limit), None)),
                None => None,
            }
        },
        (Some(a), Some(b)) => {
            match a.checked_add(b) {
                None => None,
                Some(sum) => {
                    let mid: u64 = sum / 2;
                    if mid < spread {
                        return None;
                    }
                    match mid.checked_add(spread) {
                        None => None,
                        Some(ask_limit) => {
                            let mut bid_limit: u64 = mid - spread;
                            if sum % 2 != 0 {
                                bid_limit += 1;
                            }
                            Some((Some(ask_limit), Some(bid_limit)))
                        },
                    }
                },
            }
        },
    }
}

/// Why an event was refused.
#[derive(PartialEq, Eq, Debug, Clone, Copy, Structural)]
pub enum HandleError {
    /// An order is added under a reference that is in the book.
    KeyAlreadyExists,
    /// The event names an order that is not in the book.
    OrderNotFound,
    /// The volume at the price of a new order would be more than the
    /// machine can count.
    VolumeOverflow,
    /// The best ask is not above the best bid. Only a validating book looks.
    CrossedBook,
    /// An order is executed that is first on neither side. Only a validating
    /// book looks.
    NotAtTop,
    /// More is executed than the order at the top has left. Only a
    /// validating book looks.
    ExceedsTop,
}

/// The queues of a side with the ids dropped that stand at the head of the
/// queue at the best price and belong to no order of the book.
pub open spec fn top_cleaned(
    side: Side,
    queues: Map<u64, QueueView>,
    orders: Map<u64, Order<u64, u64, u64>>,
) -> Map<u64, QueueView> {
    if queues == Map::<u64, QueueView>::empty() {
        queues
    } else {
        let best = best_price(side, queues);
        queues.insert(
            best,
            QueueView { ids: skip_stale(queues[best].ids, orders), ..queues[best] },
        )
    }
}

/// The first order of a side: the one whose id is at the head of the queue
/// at the best price, once that queue is cleaned.
pub open spec fn top_order(
    side: Side,
    queues: Map<u64, QueueView>,
    orders: Map<u64, Order<u64, u64, u64>>,
) -> Option<(u64, Order<u64, u64, u64>)> {
    if queues == Map::<u64, QueueView>::empty() {
        None
    } else {
        let id = skip_stale(queues[best_price(side, queues)].ids, orders).first();
        Some((id, orders[id]))
    }
}

/// Whether `after` is `before` with the head of the best queue of each side
/// cleaned.
pub open spec fn tops_cleaned(before: OrderBook<u64, u64>, after: OrderBook<u64, u64>) -> bool {
    &&& after.wf()
    &&& after.orders() == before.orders()
    &&& after.asks() == top_cleaned(Side::Ask, before.asks(), before.orders())
    &&& after.bids() == top_cleaned(Side::Bid, before.bids(), before.orders())
}

/// Whether the first ask is priced no higher than the first bid.
pub open spec fn crossed(book: OrderBook<u64, u64>) -> bool {
    &&& top_order(Side::Ask, book.asks(), book.orders()) matches Some(ask)
    &&& top_order(Side::Bid, book.bids(), book.orders()) matches Some(bid)
    &&& ask.1.price <= bid.1.price
}

/// Whether an order is the first of either side, and with how much left.
pub open spec fn at_top(book: OrderBook<u64, u64>, reference: u64) -> Option<u64> {
    let ask = top_order(Side::Ask, book.asks(), book.orders());
    let bid = top_order(Side::Bid, book.bids(), book.orders());
    match (ask, bid) {
        (Some((id, order)), _) if id == reference => Some(order.quantity),
        (_, Some((id, order))) if id == reference => Some(order.quantity),
        _ => None,
    }
}

/// Why a book refuses an event, if it does.
pub open spec fn refusal(book: OrderBook<u64, u64>, validating: bool, body: Body) -> Option<
    HandleError,
> {
    let orders = book.orders();
    if validating && crossed(book) {
        Some(HandleError::CrossedBook)
    } else {
        match body {
            Body::AddOrder { reference, shares, price, side, .. } => {
                if orders.contains_key(reference) {
                    Some(HandleError::KeyAlreadyExists)
                } else if resting_volume(orders, side, price) + shares > u64::MAX {
                    Some(HandleError::VolumeOverflow)
                } else {
                    None
                }
            },
            Body::DeleteOrder { reference } => if orders.contains_key(reference) {
                None
            } else {
                Some(HandleError::OrderNotFound)
            },
            Body::OrderCancelled { reference, .. } => if orders.contains_key(reference) {
                None
            } else {
                Some(HandleError::OrderNotFound)
            },
            Body::OrderExecutedWithPrice { reference, .. } => if orders.contains_key(reference) {
                None
            } else {
                Some(HandleError::OrderNotFound)
            },
            Body::OrderExecuted { reference, executed } => {
                if !orders.contains_key(reference) {
                    Some(HandleError::OrderNotFound)
                } else if !validating {
                    None
                } else {
                    match at_top(book, reference) {
                        None => Some(HandleError::NotAtTop),
                        Some(left) => if left < executed {
                            Some(HandleError::ExceedsTop)
                        } else {
                            None
                        },
                    }
                }
            },
            Body::ReplaceOrder { new_reference, shares, price, old_reference } => {
                if !orders.contains_key(old_reference) {
                    Some(HandleError::OrderNotFound)
                } else if new_reference != old_reference && orders.contains_key(new_reference) {
                    Some(HandleError::KeyAlreadyExists)
                } else if resting_volume(
                    orders.remove(old_reference),
                    orders[old_reference].side,
                    price,
                ) + shares > u64::MAX {
                    Some(HandleError::VolumeOverflow)
                } else {
                    None
                }
            },
            Body::CrossTrade { .. } => None,
            Body::NonCrossTrade {  } => None,
        }
    }
}

/// Whether `after` is `before` with a quantity taken from an order: the
/// order has left where it had no more than that, and has that much less
/// where it had more.
pub open spec fn reduced(
    before: OrderBook<u64, u64>,
    after: OrderBook<u64, u64>,
    reference: u64,
    quantity: u64,
) -> bool {
    if before.orders()[reference].quantity <= quantity {
        before.without_order(&after, reference)
    } else {
        before.with_less(&after, reference, quantity)
    }
}

/// Whether `after` is `before` with one order taken out and another put in
/// on the same side, at the tail of the queue at its price, by way of `mid`.
pub open spec fn replaced(
    before: OrderBook<u64, u64>,
    mid: OrderBook<u64, u64>,
    after: OrderBook<u64, u64>,
    old_reference: u64,
    new_reference: u64,
    order: Order<u64, u64, u64>,
) -> bool {
    &&& before.without_order(&mid, old_reference)
    &&& order.side == before.orders()[old_reference].side
    &&& mid.with_order(
        &after,
        new_reference,
        order,
        pushed(
            mid.joined_queue(order.side, order.price, new_reference),
            new_reference,
            order.quantity,
        ),
    )
}

/// Whether an event that a book has accepted takes it from `before` to `after`.
///
/// A new order goes to the tail of the queue at its price if its reference
/// is higher than all before it, and else where a binary search for the
/// reference ends; the reference is dropped from every queue in which an
/// order that is gone had left it behind. A replacement takes the side of the order that it
/// replaces. The time of an event is the info of the order that it brings.
pub open spec fn stepped(
    before: OrderBook<u64, u64>,
    after: OrderBook<u64, u64>,
    max_ref: u64,
    msg: Message,
) -> bool {
    match msg.body {
        Body::AddOrder { reference, shares, price, side, .. } => {
            let order = Order { side, price, quantity: shares, info: msg.time };
            &&& after.queues(side).contains_key(price)
            &&& before.with_order(&after, reference, order, after.queues(side)[price])
            &&& if reference > max_ref {
                after.queues(side)[price] == pushed(
                    before.joined_queue(side, price, reference),
                    reference,
                    shares,
                )
            } else {
                joined_in_order(
                    before.joined_queue(side, price, reference),
                    reference,
                    shares,
                    after.queues(side)[price],
                )
            }
        },
        Body::DeleteOrder { reference } => before.without_order(&after, reference),
        Body::OrderCancelled { reference, cancelled } => reduced(before, after, reference, cancelled),
        Body::OrderExecuted { reference, executed } => reduced(before, after, reference, executed),
        Body::OrderExecutedWithPrice { reference, executed } => reduced(
            before,
            after,
            reference,
            executed,
        ),
        Body::ReplaceOrder { new_reference, shares, price, old_reference } => exists|
            mid: OrderBook<u64, u64>,
        | #[trigger]
            replaced(
                before,
                mid,
                after,
                old_reference,
                new_reference,
                Order {
                    side: before.orders()[old_reference].side,
                    price,
                    quantity: shares,
                    info: msg.time,
                },
            ),
        Body::CrossTrade { .. } => after == before,
        Body::NonCrossTrade {  } => after == before,
    }
}

/// The highest reference that an added order has had, after an event.
pub open spec fn max_ref_after(max_ref: u64, body: Body) -> u64 {
    match body {
        Body::AddOrder { reference, .. } => if reference > max_ref {
            reference
        } else {
            max_ref
        },
        _ => max_ref,
    }
}

/// What handling an event does to a book, by way of the book `pre` in which
/// the head of the best queue of each side is cleaned: the event is refused
/// where `pre` has a reason, and then `pre` stays, or accepted, and then
/// `pre` steps to `after`.
pub open spec fn handled(
    before: OrderBook<u64, u64>,
    pre: OrderBook<u64, u64>,
    after: OrderBook<u64, u64>,
    validating: bool,
    max_ref: u64,
    msg: Message,
    refused: Option<HandleError>,
) -> bool {
    &&& tops_cleaned(before, pre)
    &&& refusal(pre, validating, msg.body) == refused
    &&& match refused {
        Some(_) => after == pre,
        None => stepped(pre, after, max_ref, msg),
    }
}

/// The refusal that a result tells of, if any.
pub open spec fn refused_by(result: Result<(), HandleError>) -> Option<HandleError> {
    match result {
        Ok(_) => None,
        Err(e) => Some(e),
    }
}

/// Whether a book accepts an event and goes from `before` to `after` with it.
pub open spec fn accepted(before: NyseOrderBook, after: NyseOrderBook, msg: Message) -> bool {
    &&& after.wf()
    &&& after.validating() == before.validating()
    &&& after.max_ref() == max_ref_after(before.max_ref(), msg.body)
    &&& exists|pre: OrderBook<u64, u64>| #[trigger]
        handled(
            before.book(),
            pre,
            after.book(),
            before.validating(),
            before.max_ref(),
            msg,
            None,
        )
}

/// Whether a book is new: sound, without orders, and validating or not.
pub open spec fn fresh(book: NyseOrderBook, with_validation: bool) -> bool {
    &&& book.wf()
    &&& book.max_ref() == 0
    &&& book.validating() == with_validation
    &&& book.book().orders() == Map::<u64, Order<u64, u64, u64>>::empty()
    &&& book.book().asks() == Map::<u64, QueueView>::empty()
    &&& book.book().bids() == Map::<u64, QueueView>::empty()
}

/// Whether a book refuses an event for the given reason, which leaves it as
/// `after`: nothing of it has changed but the heads of its best queues,
/// which are cleaned.
pub open spec fn refused(
    before: NyseOrderBook,
    after: NyseOrderBook,
    msg: Message,
    reason: HandleError,
) -> bool {
    &&& after.wf()
    &&& after.validating() == before.validating()
    &&& after.max_ref() == before.max_ref()
    &&& exists|pre: OrderBook<u64, u64>| #[trigger]
        handled(
            before.book(),
            pre,
            after.book(),
            before.validating(),
            before.max_ref(),
            msg,
            Some(reason),
        )
}

/// Whether a book accepts the events one after the other, goes from
/// `before` to `after` with them, and shows the given best prices after
/// each.
pub open spec fn driven(
    before: NyseOrderBook,
    after: NyseOrderBook,
    msgs: Seq<Message>,
    quotes: Seq<(Option<u64>, Option<u64>)>,
) -> bool
    decreases msgs.len(),
{
    if msgs.len() == 0 {
        after == before && quotes.len() == 0
    } else {
        exists|mid: NyseOrderBook| #[trigger]
            accepted(before, mid, msgs.first()) && quotes.len() > 0 && quotes.first() == (
                mid.best_ask(),
                mid.best_bid(),
            ) && driven(mid, after, msgs.drop_first(), quotes.drop_first())
    }
}

/// Whether a book accepts the first `count` of the events, shows the given
/// best prices after each of them, and refuses the next for the given
/// reason, which leaves it as `after`.
pub open spec fn halted(
    before: NyseOrderBook,
    after: NyseOrderBook,
    msgs: Seq<Message>,
    quotes: Seq<(Option<u64>, Option<u64>)>,
    count: int,
    reason: HandleError,
) -> bool {
    &&& 0 <= count < msgs.len()
    &&& exists|mid: NyseOrderBook| #[trigger]
        driven(before, mid, msgs.take(count), quotes) && refused(mid, after, msgs[count], reason)
}

/// Whether a book accepts the first `count` of the events and refuses the
/// next for the given reason, which leaves it as `after`.
pub open spec fn stops(
    before: NyseOrderBook,
    after: NyseOrderBook,
    msgs: Seq<Message>,
    count: int,
    reason: HandleError,
) -> bool {
    exists|quotes: Seq<(Option<u64>, Option<u64>)>| #[trigger]
        halted(before, after, msgs, quotes, count, reason)
}

/// A run of accepted events goes on with one more.
pub proof fn lemma_driven_further(
    before: NyseOrderBook,
    mid: NyseOrderBook,
    after: NyseOrderBook,
    msgs: Seq<Message>,
    quotes: Seq<(Option<u64>, Option<u64>)>,
    msg: Message,
)
    requires
        driven(before, mid, msgs, quotes),
        accepted(mid, after, msg),
    ensures
        driven(before, after, msgs.push(msg), quotes.push((after.best_ask(), after.best_bid()))),
        quotes.len() == msgs.len(),
    decreases msgs.len(),
{
    let longer = msgs.push(msg);
    let more = quotes.push((after.best_ask(), after.best_bid()));
    if msgs.len() == 0 {
        assert(longer.drop_first() =~= Seq::<Message>::empty());
        assert(more.drop_first() =~= Seq::<(Option<u64>, Option<u64>)>::empty());
        assert(driven(after, after, longer.drop_first(), more.drop_first()));
        assert(accepted(before, after, longer.first()));
    } else {
        let next = choose|next: NyseOrderBook| #[trigger]
            accepted(before, next, msgs.first()) && quotes.len() > 0 && quotes.first() == (
                next.best_ask(),
                next.best_bid(),
            ) && driven(next, mid, msgs.drop_first(), quotes.drop_first());
        lemma_driven_further(next, mid, after, msgs.drop_first(), quotes.drop_first(), msg);
        assert(longer.drop_first() =~= msgs.drop_first().push(msg));
        assert(more.drop_first() =~= quotes.drop_first().push((after.best_ask(), after.best_bid())));
        assert(accepted(before, next, longer.first()));
    }
}

/// The book of one symbol, as the events of the day shape it.
#[derive(Debug)]
pub struct NyseOrderBook {
    max_ref: u64,
    book: OrderBook<u64, u64>,
    with_validation: bool,
}

impl NyseOrderBook {
    /// The order book.
    pub closed spec fn book(&self) -> OrderBook<u64, u64> {
        self.book
    }

    /// The highest reference that an added order has had.
    pub closed spec fn max_ref(&self) -> u64 {
        self.max_ref
    }

    /// Whether events are checked against the book before they change it.
    pub closed spec fn validating(&self) -> bool {
        self.with_validation
    }

    /// The order book is sound.
    pub open spec fn wf(&self) -> bool {
        self.book().wf()
    }

    /// The best ask price, where asks rest.
    pub open spec fn best_ask(&self) -> Option<u64> {
        first_or_none(price_list(Side::Ask, self.book().asks()))
    }

    /// The best bid price, where bids rest.
    pub open spec fn best_bid(&self) -> Option<u64> {
        first_or_none(price_list(Side::Bid, self.book().bids()))
    }

    pub fn new(with_validation: bool) -> (engine: Self)
        ensures
            engine.wf(),
            engine.max_ref() == 0,
            engine.validating() == with_validation,
            engine.book().orders() == Map::<u64, Order<u64, u64, u64>>::empty(),
            engine.book().asks() == Map::<u64, QueueView>::empty(),
            engine.book().bids() == Map::<u64, QueueView>::empty(),
    {
        Self { max_ref: 0, book: OrderBook::new(), with_validation }
    }

    /// The order book, to read.
    pub fn order_book(&self) -> (book: &OrderBook<u64, u64>)
        ensures
            *book == self.book(),
    {
        &self.book
    }

    /// The first order of each side, once the heads of the best queues are
    /// cleaned: for each its id, its price and what it has left.
    fn tops(&mut self) -> (tops: (Option<(u64, u64, u64)>, Option<(u64, u64, u64)>))
        requires
            old(self).wf(),
        ensures
            final(self).wf(),
            final(self).max_ref() == old(self).max_ref(),
            final(self).validating() == old(self).validating(),
            tops_cleaned(old(self).book(), final(self).book()),
            tops_cleaned(final(self).book(), final(self).book()),
            match tops.0 {
                Some(t) => top_order(Side::Ask, final(self).book().asks(), final(self).book().orders())
                    matches Some(top) && t == (top.0, top.1.price, top.1.quantity),
                None => top_order(Side::Ask, final(self).book().asks(), final(self).book().orders())
                    is None,
            },
            match tops.1 {
                Some(t) => top_order(Side::Bid, final(self).book().bids(), final(self).book().orders())
                    matches Some(top) && t == (top.0, top.1.price, top.1.quantity),
                None => top_order(Side::Bid, final(self).book().bids(), final(self).book().orders())
                    is None,
            },
    {
        let ask = match self.book.ask_top() {
            Some((id, order)) => Some((*id, order.price, order.quantity)),
            None => None,
        };
        let bid = match self.book.bid_top() {
            Some((id, order)) => Some((*id, order.price, order.quantity)),
            None => None,
        };
        proof {
            let before = old(self).book();
            let after = self.book();
            after.lemma_counted(Side::Ask);
            after.lemma_counted(Side::Bid);
            before.lemma_counted(Side::Ask);
            before.lemma_counted(Side::Bid);
            lemma_cleaned_top_is_clean(Side::Ask, before.asks(), before.orders());
            lemma_cleaned_top_is_clean(Side::Bid, before.bids(), before.orders());
        }
        (ask, bid)
    }

    /// Puts a new order into the book: at the tail of the queue at its
    /// price if its reference is higher than all before it, and else where
    /// a binary search for the reference ends.
    fn add(&mut self, reference: u64, side: Side, price: u64, shares: u64, time: u64) -> (result:
        Result<(), HandleError>)
        requires
            old(self).wf(),
        ensures
            final(self).wf(),
            final(self).validating() == old(self).validating(),
            match result {
                Ok(_) => {
                    &&& !old(self).book().orders().contains_key(reference)
                    &&& resting_volume(old(self).book().orders(), side, price) + shares <= u64::MAX
                    &&& stepped(
                        old(self).book(),
                        final(self).book(),
                        old(self).max_ref(),
                        Message {
                            time,
                            body: Body::AddOrder { reference, shares, price, side, mpid_val: 0 },
                        },
                    )
                    &&& final(self).max_ref() == if reference > old(self).max_ref() {
                        reference
                    } else {
                        old(self).max_ref()
                    }
                },
                Err(e) => {
                    &&& *final(self) == *old(self)
                    &&& e == if old(self).book().orders().contains_key(reference) {
                        HandleError::KeyAlreadyExists
                    } else {
                        HandleError::VolumeOverflow
                    }
                    &&& old(self).book().orders().contains_key(reference) || resting_volume(
                        old(self).book().orders(),
                        side,
                        price,
                    ) + shares > u64::MAX
                },
            },
    {
        proof {
            self.book.lemma_volume_is_resting(side, price);
        }
        if self.book.get(&reference).is_some() {
            return Err(HandleError::KeyAlreadyExists);
        }
        let resting: u64 = match side {
            Side::Ask => self.book.ask_volume_at(price),
            Side::Bid => self.book.bid_volume_at(price),
        };
        if resting.checked_add(shares).is_none() {
            return Err(HandleError::VolumeOverflow);
        }
        if reference > self.max_ref {
            self.max_ref = reference;
            let _ = self.book.insert(reference, side, price, shares, time);
        } else {
            match side {
                Side::Ask => {
                    let _ = self.book.sorted_insert_ask_by_key(reference, price, shares, time);
                },
                Side::Bid => {
                    let _ = self.book.sorted_insert_bid_by_key(reference, price, shares, time);
                },
            }
        }
        Ok(())
    }

    /// Takes a quantity from an order, and the order out of the book where
    /// it has no more than that.
    fn take(&mut self, reference: u64, quantity: u64) -> (result: Result<(), HandleError>)
        requires
            old(self).wf(),
        ensures
            final(self).wf(),
            final(self).max_ref() == old(self).max_ref(),
            final(self).validating() == old(self).validating(),
            match result {
                Ok(_) => old(self).book().orders().contains_key(reference) && reduced(
                    old(self).book(),
                    final(self).book(),
                    reference,
                    quantity,
                ),
                Err(e) => e == HandleError::OrderNotFound && !old(self).book().orders().contains_key(
                    reference,
                ) && *final(self) == *old(self),
            },
    {
        match self.book.reduce(&reference, quantity) {
            Some(_) => Ok(()),
            None => Err(HandleError::OrderNotFound),
        }
    }

    /// Takes an order out of the book and puts another in on its side.
    fn replace(&mut self, old_reference: u64, new_reference: u64, price: u64, shares: u64, time: u64) -> (result:
        Result<(), HandleError>)
        requires
            old(self).wf(),
        ensures
            final(self).wf(),
            final(self).max_ref() == old(self).max_ref(),
            final(self).validating() == old(self).validating(),
            ({
                let body = Body::ReplaceOrder { new_reference, shares, price, old_reference };
                match result {
                    Ok(_) => refusal(old(self).book(), false, body) is None && stepped(
                        old(self).book(),
                        final(self).book(),
                        old(self).max_ref(),
                        Message { time, body },
                    ),
                    Err(e) => refusal(old(self).book(), false, body) == Some(e) && *final(self)
                        == *old(self),
                }
            }),
    {
        let (side, old_price, old_quantity) = match self.book.get(&old_reference) {
            None => {
                return Err(HandleError::OrderNotFound);
            },
            Some(order) => (order.side, order.price, order.quantity),
        };
        if new_reference != old_reference && self.book.get(&new_reference).is_some() {
            return Err(HandleError::KeyAlreadyExists);
        }
        proof {
            self.book.lemma_volume_is_resting(side, price);
            crate::collections::tally::lemma_remove_order(self.book.orders(), old_reference);
            crate::collections::tally::lemma_resting_order_counts(self.book.orders(), old_reference);
        }
        let resting: u64 = match side {
            Side::Ask => self.book.ask_volume_at(price),
            Side::Bid => self.book.bid_volume_at(price),
        };
        let others: u64 = if old_price == price {
            resting - old_quantity
        } else {
            resting
        };
        if others.checked_add(shares).is_none() {
            return Err(HandleError::VolumeOverflow);
        }
        let _ = self.book.remove(&old_reference);
        let ghost mid = self.book;
        let _ = self.book.insert(new_reference, side, price, shares, time);
        proof {
            assert(replaced(
                old(self).book(),
                mid,
                self.book(),
                old_reference,
                new_reference,
                Order { side, price, quantity: shares, info: time },
            ));
        }
        Ok(())
    }

    /// Lets an event of the day change the book.
    ///
    /// Before anything else, the ids at the head of the best queue of each
    /// side that belong to no order of the book are dropped. A validating
    /// book then refuses every event while its first ask is priced no higher
    /// than its first bid, and an execution that does not take from the first
    /// order of a side, or takes more than that order has. Any book refuses
    /// an order that is in it already, an event for an order that is not, and
    /// an order that would make the volume at its price overflow. A refused
    /// event changes nothing.
    pub fn handle(&mut self, msg: &Message) -> (result: Result<(), HandleError>)
        requires
            old(self).wf(),
        ensures
            final(self).wf(),
            final(self).validating() == old(self).validating(),
            final(self).max_ref() == if result is Ok {
                max_ref_after(old(self).max_ref(), msg.body)
            } else {
                old(self).max_ref()
            },
            exists|pre: OrderBook<u64, u64>| #[trigger]
                handled(
                    old(self).book(),
                    pre,
                    final(self).book(),
                    old(self).validating(),
                    old(self).max_ref(),
                    *msg,
                    refused_by(result),
                ),
            match result {
                Ok(_) => accepted(*old(self), *final(self), *msg),
                Err(reason) => refused(*old(self), *final(self), *msg, reason),
            },
    {
        let (ask, bid) = self.tops();
        let ghost pre = self.book;
        let ghost max_ref = self.max_ref;
        if self.with_validation {
            match (ask, bid) {
                (Some(a), Some(b)) => {
                    if a.1 <= b.1 {
                        proof {
                            assert(handled(
                                old(self).book(),
                                pre,
                                self.book(),
                                self.with_validation,
                                max_ref,
                                *msg,
                                Some(HandleError::CrossedBook),
                            ));
                        }
                        return Err(HandleError::CrossedBook);
                    }
                },
                _ => {},
            }
        }
        let result = match msg.body {
            Body::AddOrder { reference, side, shares, price, .. } => self.add(
                reference,
                side,
                price,
                shares,
                msg.time,
            ),
            Body::DeleteOrder { reference } => {
                match self.book.remove(&reference) {
                    Some(_) => Ok(()),
                    None => Err(HandleError::OrderNotFound),
                }
            },
            Body::OrderCancelled { reference, cancelled } => self.take(reference, cancelled),
            Body::ReplaceOrder { old_reference, new_reference, shares, price } => self.replace(
                old_reference,
                new_reference,
                price,
                shares,
                msg.time,
            ),
            Body::OrderExecuted { reference, executed } => {
                if self.book.get(&reference).is_none() {
                    Err(HandleError::OrderNotFound)
                } else if self.with_validation {
                    let top: Option<u64> = match (ask, bid) {
                        (Some(a), _) if a.0 == reference => Some(a.2),
                        (_, Some(b)) if b.0 == reference => Some(b.2),
                        _ => None,
                    };
                    match top {
                        None => Err(HandleError::NotAtTop),
                        Some(left) => {
                            if left < executed {
                                Err(HandleError::ExceedsTop)
                            } else {
                                self.take(reference, executed)
                            }
                        },
                    }
                } else {
                    self.take(reference, executed)
                }
            },
            Body::OrderExecutedWithPrice { reference, executed } => self.take(reference, executed),
            Body::CrossTrade { .. } => Ok(()),
            Body::NonCrossTrade {  } => Ok(()),
        };
        proof {
            assert(handled(
                old(self).book(),
                pre,
                self.book(),
                self.with_validation,
                max_ref,
                *msg,
                refused_by(result),
            ));
        }
        result
    }

    /// The orders at each of the given prices of a side, oldest first.
    fn queues_at(&mut self, side: Side, prices: &Vec<u64>) -> (snapshot: HashMap<
        u64,
        Vec<IdTimeQuantity>,
    >)
        requires
            old(self).wf(),
            prices@.no_duplicates(),
            forall|i: int|
                0 <= i < prices@.len() ==> old(self).book().queues(side).contains_key(
                    #[trigger] prices@[i],
                ),
        ensures
            final(self).wf(),
            final(self).max_ref() == old(self).max_ref(),
            final(self).validating() == old(self).validating(),
            final(self).book().orders() == old(self).book().orders(),
            final(self).book().queues(crate::collections::book::opposite(side)) == old(
                self,
            ).book().queues(crate::collections::book::opposite(side)),
            final(self).book().queues(side) == walked(
                old(self).book().queues(side),
                old(self).book().orders(),
                prices@,
            ),
            snapshot_of(
                snapshot@,
                old(self).book().queues(side),
                old(self).book().orders(),
                prices@,
            ),
    {
        broadcast use vstd::std_specs::hash::group_hash_axioms;

        let ghost orders = self.book().orders();
        let ghost queues = self.book().queues(side);
        let mut snapshot: HashMap<u64, Vec<IdTimeQuantity>> = HashMap::new();
        let mut i: usize = 0;
        proof {
            assert(walked(queues, orders, prices@.take(0)) =~= queues);
        }
        while i < prices.len()
            invariant
                i <= prices@.len(),
                self.wf(),
                self.max_ref() == old(self).max_ref(),
                self.validating() == old(self).validating(),
                self.book().orders() == orders,
                self.book().queues(crate::collections::book::opposite(side)) == old(
                    self,
                ).book().queues(crate::collections::book::opposite(side)),
                prices@.no_duplicates(),
                forall|j: int| 0 <= j < prices@.len() ==> queues.contains_key(#[trigger] prices@[j]),
                self.book().queues(side) == walked(queues, orders, prices@.take(i as int)),
                snapshot_of(snapshot@, queues, orders, prices@.take(i as int)),
            decreases prices@.len() - i,
        {
            let price: u64 = prices[i];
            let ghost before = self.book().queues(side);
            let ghost done = prices@.take(i as int);
            proof {
                assert(!done.contains(price)) by {
                    if done.contains(price) {
                        let j = choose|j: int| 0 <= j < done.len() && done[j] == price;
                        assert(prices@[j] == prices@[i as int]);
                    }
                }
                assert(queues.contains_key(prices@[i as int]));
                assert(before[price] == queues[price]);
            }
            let mut entries: Vec<IdTimeQuantity> = Vec::new();
            {
                let listed = match side {
                    Side::Ask => self.book.ask_orders_at(price, None, PriceTimePriority::BothDesc),
                    Side::Bid => self.book.bid_orders_at(price, None, PriceTimePriority::BothDesc),
                };
                let ghost servings = servings_at(
                    before,
                    orders,
                    price,
                    None,
                    PriceTimePriority::BothDesc,
                );
                let mut k: usize = 0;
                while k < listed.orders.len()
                    invariant
                        k <= listed.orders@.len(),
                        listed.orders@ == crate::collections::walk::parts_of(orders, servings),
                        entries@ == entries_of(servings.take(k as int), orders),
                    decreases listed.orders@.len() - k,
                {
                    let id: u64 = listed.orders[k].0;
                    let time: u64 = *listed.orders[k].1.info;
                    let quantity: u64 = listed.orders[k].1.quantity;
                    entries.push((id, time, quantity));
                    proof {
                        assert(entries@ =~= entries_of(servings.take(k + 1), orders));
                    }
                    k += 1;
                }
                proof {
                    assert(servings.take(servings.len() as int) =~= servings);
                    assert(servings == servings_at(
                        queues,
                        orders,
                        price,
                        None,
                        PriceTimePriority::BothDesc,
                    ));
                }
            }
            snapshot.insert(price, entries);
            proof {
                let after = prices@.take(i + 1);
                assert forall|p: u64| after.contains(p) <==> done.contains(p) || p == price by {
                    if after.contains(p) {
                        let j = choose|j: int| 0 <= j < after.len() && after[j] == p;
                        if j < i {
                            assert(done[j] == p);
                        }
                    }
                    if done.contains(p) {
                        let j = choose|j: int| 0 <= j < done.len() && done[j] == p;
                        assert(after[j] == p);
                    }
                    if p == price {
                        assert(after[i as int] == p);
                    }
                }
                assert(self.book().queues(side) =~= walked(queues, orders, after));
                assert(snapshot_of(snapshot@, queues, orders, after));
            }
            i += 1;
        }
        proof {
            assert(prices@.take(prices@.len() as int) =~= prices@);
        }
        snapshot
    }

    /// The orders at the best prices of each side, `level` prices at most,
    /// oldest first at each price.
    ///
    /// The queues at those prices lose the ids that belong to no order of
    /// the book.
    pub fn level_snapshot(&mut self, level: usize) -> (snapshot: Summary<Vec<IdTimeQuantity>>)
        requires
            old(self).wf(),
        ensures
            final(self).wf(),
            final(self).max_ref() == old(self).max_ref(),
            final(self).validating() == old(self).validating(),
            final(self).book().orders() == old(self).book().orders(),
            ({
                let asks = first_of(price_list(Side::Ask, old(self).book().asks()), level as nat);
                let bids = first_of(price_list(Side::Bid, old(self).book().bids()), level as nat);
                let orders = old(self).book().orders();
                &&& final(self).book().asks() == walked(old(self).book().asks(), orders, asks)
                &&& final(self).book().bids() == walked(old(self).book().bids(), orders, bids)
                &&& snapshot_of(snapshot.ask@, old(self).book().asks(), orders, asks)
                &&& snapshot_of(snapshot.bid@, old(self).book().bids(), orders, bids)
            }),
    {
        let asks = self.book.best_ask_prices(level);
        let bids = self.book.best_bid_prices(level);
        proof {
            self.lemma_first_prices(Side::Ask, level as nat);
            self.lemma_first_prices(Side::Bid, level as nat);
        }
        let ask = self.queues_at(Side::Ask, &asks);
        assert(self.book().bids() == old(self).book().bids());
        let bid = self.queues_at(Side::Bid, &bids);
        assert(self.book().asks() == walked(old(self).book().asks(), old(self).book().orders(), asks@));
        Summary { ask, bid }
    }

    /// The orders at the prices of each side that lie within a spread
    /// around the middle of the best prices, oldest first at each price.
    ///
    /// The queues at those prices lose the ids that belong to no order of
    /// the book.
    pub fn spread_snapshot(&mut self, spread: u64) -> (snapshot: Summary<Vec<IdTimeQuantity>>)
        requires
            old(self).wf(),
            spread_fits(old(self).best_ask(), old(self).best_bid(), spread),
        ensures
            final(self).wf(),
            final(self).max_ref() == old(self).max_ref(),
            final(self).validating() == old(self).validating(),
            final(self).book().orders() == old(self).book().orders(),
            ({
                let limits = spread_limits(old(self).best_ask(), old(self).best_bid(), spread);
                let asks = leading(
                    Side::Ask,
                    price_list(Side::Ask, old(self).book().asks()),
                    limit_of(limits.0),
                );
                let bids = leading(
                    Side::Bid,
                    price_list(Side::Bid, old(self).book().bids()),
                    limit_of(limits.1),
                );
                let orders = old(self).book().orders();
                &&& final(self).book().asks() == walked(old(self).book().asks(), orders, asks)
                &&& final(self).book().bids() == walked(old(self).book().bids(), orders, bids)
                &&& snapshot_of(snapshot.ask@, old(self).book().asks(), orders, asks)
                &&& snapshot_of(snapshot.bid@, old(self).book().bids(), orders, bids)
            }),
    {
        let (ask_limit, bid_limit) = self.get_spread_limit(spread);
        let asks = Self::leading_prices(Side::Ask, &self.book.sorted_ask_prices(), ask_limit);
        let bids = Self::leading_prices(Side::Bid, &self.book.sorted_bid_prices(), bid_limit);
        proof {
            self.book.lemma_counted(Side::Ask);
            self.book.lemma_counted(Side::Bid);
            lemma_leading_is_a_start(Side::Ask, price_list(Side::Ask, self.book().asks()), ask_limit);
            lemma_leading_is_a_start(Side::Bid, price_list(Side::Bid, self.book().bids()), bid_limit);
            lemma_listed_prices_are_distinct(Side::Ask, self.book().asks(), asks@);
            lemma_listed_prices_are_distinct(Side::Bid, self.book().bids(), bids@);
        }
        let ask = self.queues_at(Side::Ask, &asks);
        assert(self.book().bids() == old(self).book().bids());
        let bid = self.queues_at(Side::Bid, &bids);
        assert(self.book().asks() == walked(old(self).book().asks(), old(self).book().orders(), asks@));
        Summary { ask, bid }
    }

    /// The first so many prices of a side are prices with a queue, and no
    /// two of them are one price.
    proof fn lemma_first_prices(&self, side: Side, limit: nat)
        requires
            self.wf(),
        ensures
            first_of(price_list(side, self.book().queues(side)), limit).no_duplicates(),
            forall|i: int|
                0 <= i < first_of(price_list(side, self.book().queues(side)), limit).len()
                    ==> self.book().queues(side).contains_key(
                    #[trigger] first_of(price_list(side, self.book().queues(side)), limit)[i],
                ),
    {
        let queues = self.book().queues(side);
        let all = price_list(side, queues);
        self.book().lemma_prices_listed(side);
        assert(all.take(all.len() as int) =~= all);
        lemma_listed_prices_are_distinct(side, queues, first_of(all, limit));
    }

    /// The volumes at the given prices of a side.
    fn volumes(&mut self, side: Side, prices: &Vec<u64>) -> (volumes: HashMap<u64, u64>)
        ensures
            *final(self) == *old(self),
            volumes@ == volumes_of(prices@, old(self).book().queues(side)),
    {
        broadcast use vstd::std_specs::hash::group_hash_axioms;

        let mut volumes: HashMap<u64, u64> = HashMap::new();
        let mut i: usize = 0;
        let ghost queues = self.book().queues(side);
        assert(volumes@ =~= volumes_of(prices@.take(0), queues));
        while i < prices.len()
            invariant
                i <= prices@.len(),
                *self == *old(self),
                queues == self.book().queues(side),
                volumes@ == volumes_of(prices@.take(i as int), queues),
            decreases prices@.len() - i,
        {
            let price: u64 = prices[i];
            let volume: u64 = match side {
                Side::Ask => self.book.ask_volume_at(price),
                Side::Bid => self.book.bid_volume_at(price),
            };
            volumes.insert(price, volume);
            proof {
                let before = prices@.take(i as int);
                let after = prices@.take(i + 1);
                assert forall|p: u64| after.contains(p) <==> before.contains(p) || p == price by {
                    if after.contains(p) {
                        let j = choose|j: int| 0 <= j < after.len() && after[j] == p;
                        if j < i {
                            assert(before[j] == p);
                        }
                    }
                    if before.contains(p) {
                        let j = choose|j: int| 0 <= j < before.len() && before[j] == p;
                        assert(after[j] == p);
                    }
                    if p == price {
                        assert(after[i as int] == p);
                    }
                }
                assert(volumes@ =~= volumes_of(after, queues));
            }
            i += 1;
        }
        assert(prices@.take(prices@.len() as int) =~= prices@);
        volumes
    }

    /// The given prices of a side, each with the volume at it.
    fn priced_at(&mut self, side: Side, prices: &Vec<u64>) -> (pairs: Vec<(u64, u64)>)
        ensures
            *final(self) == *old(self),
            pairs@ == priced(prices@, old(self).book().queues(side)),
    {
        let mut pairs: Vec<(u64, u64)> = Vec::new();
        let mut i: usize = 0;
        let ghost queues = self.book().queues(side);
        while i < prices.len()
            invariant
                i <= prices@.len(),
                *self == *old(self),
                queues == self.book().queues(side),
                pairs@ == priced(prices@.take(i as int), queues),
            decreases prices@.len() - i,
        {
            let price: u64 = prices[i];
            let volume: u64 = match side {
                Side::Ask => self.book.ask_volume_at(price),
                Side::Bid => self.book.bid_volume_at(price),
            };
            pairs.push((price, volume));
            proof {
                assert(pairs@ =~= priced(prices@.take(i + 1), queues));
            }
            i += 1;
        }
        assert(prices@.take(prices@.len() as int) =~= prices@);
        pairs
    }

    /// The best prices of each side, `level` prices at most and the best
    /// first, each with the volume at it: the asks, then the bids.
    pub fn level_rows(&mut self, level: usize) -> (rows: (Vec<(u64, u64)>, Vec<(u64, u64)>))
        requires
            old(self).wf(),
        ensures
            *final(self) == *old(self),
            rows.0@ == priced(
                first_of(price_list(Side::Ask, old(self).book().asks()), level as nat),
                old(self).book().asks(),
            ),
            rows.1@ == priced(
                first_of(price_list(Side::Bid, old(self).book().bids()), level as nat),
                old(self).book().bids(),
            ),
    {
        let asks = self.book.best_ask_prices(level);
        let bids = self.book.best_bid_prices(level);
        let ask = self.priced_at(Side::Ask, &asks);
        let bid = self.priced_at(Side::Bid, &bids);
        (ask, bid)
    }

    /// The volumes at the best prices of each side, `level` prices at most.
    pub fn level_summary(&mut self, level: usize) -> (summary: Summary<u64>)
        requires
            old(self).wf(),
        ensures
            *final(self) == *old(self),
            summary.ask@ == volumes_of(
                first_of(price_list(Side::Ask, old(self).book().asks()), level as nat),
                old(self).book().asks(),
            ),
            summary.bid@ == volumes_of(
                first_of(price_list(Side::Bid, old(self).book().bids()), level as nat),
                old(self).book().bids(),
            ),
    {
        let asks = self.book.best_ask_prices(level);
        let bids = self.book.best_bid_prices(level);
        let ask = self.volumes(Side::Ask, &asks);
        let bid = self.volumes(Side::Bid, &bids);
        Summary { ask, bid }
    }

    /// The best ask price and the best bid price.
    pub fn bbo(&self) -> (best: (Option<u64>, Option<u64>))
        requires
            self.wf(),
        ensures
            best.0 == self.best_ask(),
            best.1 == self.best_bid(),
    {
        let asks = self.book.best_ask_prices(1);
        let bids = self.book.best_bid_prices(1);
        let ask = if asks.len() > 0 {
            Some(asks[0])
        } else {
            None
        };
        let bid = if bids.len() > 0 {
            Some(bids[0])
        } else {
            None
        };
        (ask, bid)
    }

    /// The limits of a spread around the middle of the best prices.
    pub fn get_spread_limit(&self, spread: u64) -> (limits: (Option<u64>, Option<u64>))
        requires
            self.wf(),
            spread_fits(self.best_ask(), self.best_bid(), spread),
        ensures
            match limits.0 {
                Some(l) => spread_limits(self.best_ask(), self.best_bid(), spread).0 == Some(l as int),
                None => spread_limits(self.best_ask(), self.best_bid(), spread).0 is None,
            },
            match limits.1 {
                Some(l) => spread_limits(self.best_ask(), self.best_bid(), spread).1 == Some(l as int),
                None => spread_limits(self.best_ask(), self.best_bid(), spread).1 is None,
            },
    {
        let (ask, bid) = self.bbo();
        checked_spread_limits(ask, bid, spread).unwrap()
    }

    /// The prices from the first on that lie within the limit.
    fn leading_prices(side: Side, prices: &Vec<u64>, limit: Option<u64>) -> (inside: Vec<u64>)
        ensures
            inside@ == leading(side, prices@, limit),
    {
        let mut inside: Vec<u64> = Vec::new();
        let bound: u64 = match limit {
            None => {
                return inside;
            },
            Some(bound) => bound,
        };
        let mut i: usize = 0;
        assert(prices@.skip(0) =~= prices@);
        while i < prices.len()
            invariant
                i <= prices@.len(),
                limit == Some(bound),
                leading(side, prices@, limit) == inside@ + leading(side, prices@.skip(i as int), limit),
            decreases prices@.len() - i,
        {
            let price: u64 = prices[i];
            let keep = match side {
                Side::Ask => price <= bound,
                Side::Bid => price >= bound,
            };
            proof {
                assert(prices@.skip(i as int).first() == price);
                assert(prices@.skip(i as int).drop_first() =~= prices@.skip(i + 1));
            }
            if !keep {
                assert(inside@ + Seq::<u64>::empty() =~= inside@);
                return inside;
            }
            proof {
                let rest = leading(side, prices@.skip(i + 1), limit);
                assert(inside@ + (seq![price] + rest) =~= inside@.push(price) + rest);
            }
            inside.push(price);
            i += 1;
        }
        proof {
            assert(prices@.skip(prices@.len() as int) =~= Seq::<u64>::empty());
            assert(inside@ + Seq::<u64>::empty() =~= inside@);
        }
        inside
    }

    /// The volumes at the prices of each side that lie within a spread
    /// around the middle of the best prices.
    pub fn spread_summary(&mut self, spread: u64) -> (summary: Summary<u64>)
        requires
            old(self).wf(),
            spread_fits(old(self).best_ask(), old(self).best_bid(), spread),
        ensures
            *final(self) == *old(self),
            summary.ask@ == volumes_of(
                leading(
                    Side::Ask,
                    price_list(Side::Ask, old(self).book().asks()),
                    limit_of(spread_limits(old(self).best_ask(), old(self).best_bid(), spread).0),
                ),
                old(self).book().asks(),
            ),
            summary.bid@ == volumes_of(
                leading(
                    Side::Bid,
                    price_list(Side::Bid, old(self).book().bids()),
                    limit_of(spread_limits(old(self).best_ask(), old(self).best_bid(), spread).1),
                ),
                old(self).book().bids(),
            ),
    {
        let (ask_limit, bid_limit) = self.get_spread_limit(spread);
        let asks = Self::leading_prices(Side::Ask, &self.book.sorted_ask_prices(), ask_limit);
        let bids = Self::leading_prices(Side::Bid, &self.book.sorted_bid_prices(), bid_limit);
        let ask = self.volumes(Side::Ask, &asks);
        let bid = self.volumes(Side::Bid, &bids);
        Summary { ask, bid }
    }
}

/// Cleaning the head of the best queue leaves the best price where it is,
/// and cleaning again changes nothing more.
pub proof fn lemma_cleaned_top_is_clean(
    side: Side,
    queues: Map<u64, QueueView>,
    orders: Map<u64, Order<u64, u64, u64>>,
)
    requires
        lists_prices(side, price_list(side, queues), queues),
    ensures
        top_cleaned(side, top_cleaned(side, queues, orders), orders) == top_cleaned(
            side,
            queues,
            orders,
        ),
        top_order(side, top_cleaned(side, queues, orders), orders) == top_order(side, queues, orders),
        queues != Map::<u64, QueueView>::empty() ==> best_price(
            side,
            top_cleaned(side, queues, orders),
        ) == best_price(side, queues) && queues.contains_key(best_price(side, queues)),
{
    if queues != Map::<u64, QueueView>::empty() {
        let prices = price_list(side, queues);
        let cleaned = top_cleaned(side, queues, orders);
        if prices.len() == 0 {
            assert forall|p: u64| !queues.contains_key(p) by {
                if queues.contains_key(p) {
                    assert(prices.contains(p));
                }
            }
            assert(queues =~= Map::<u64, QueueView>::empty());
        }
        let best = prices.first();
        assert(prices.contains(best));
        assert(cleaned.dom() =~= queues.dom());
        assert(lists_prices(side, prices, cleaned));
        lemma_some_list(side, prices, cleaned);
        crate::collections::side_book::lemma_price_list_is_unique(
            side,
            prices,
            price_list(side, cleaned),
            cleaned,
        );
        lemma_skip_stale_twice(queues[best].ids, orders);
        assert(cleaned != Map::<u64, QueueView>::empty()) by {
            assert(cleaned.contains_key(best));
        }
        assert(top_cleaned(side, cleaned, orders) =~= cleaned);
    }
}

/// Where the prices of a side can be listed at all, `price_list` lists them.
proof fn lemma_some_list(side: Side, prices: Seq<u64>, queues: Map<u64, QueueView>)
    requires
        lists_prices(side, prices, queues),
    ensures
        lists_prices(side, price_list(side, queues), queues),
{
}

/// Ids at the head are dropped once: what is left starts with an id of the
/// book, or is empty.
proof fn lemma_skip_stale_twice(ids: Seq<u64>, orders: Map<u64, Order<u64, u64, u64>>)
    ensures
        skip_stale(skip_stale(ids, orders), orders) == skip_stale(ids, orders),
    decreases ids.len(),
{
    if !(ids.len() == 0 || orders.contains_key(ids.first())) {
        lemma_skip_stale_twice(ids.drop_first(), orders);
    }
}

/// The orders that serve, each as its id, the time of the order and the
/// quantity that it serves.
pub open spec fn entries_of(
    servings: Seq<(u64, u64)>,
    orders: Map<u64, Order<u64, u64, u64>>,
) -> Seq<IdTimeQuantity> {
    servings.map_values(|s: (u64, u64)| (s.0, orders[s.0].info, s.1))
}

/// The orders that rest at a price, oldest first, each as its id, its time
/// and what it has left.
pub open spec fn queue_entries(
    queues: Map<u64, QueueView>,
    orders: Map<u64, Order<u64, u64, u64>>,
    price: u64,
) -> Seq<IdTimeQuantity> {
    entries_of(servings_at(queues, orders, price, None, PriceTimePriority::BothDesc), orders)
}

/// The queues after those at the given prices have been walked from head
/// to tail, and have lost the ids that belong to no order of the book.
pub open spec fn walked(
    queues: Map<u64, QueueView>,
    orders: Map<u64, Order<u64, u64, u64>>,
    prices: Seq<u64>,
) -> Map<u64, QueueView> {
    Map::new(
        |p: u64| queues.contains_key(p),
        |p: u64|
            if prices.contains(p) {
                queues_after(queues, orders, p, None, PriceTimePriority::BothDesc)[p]
            } else {
                queues[p]
            },
    )
}

/// Whether a snapshot holds, for each of the given prices and no other, the
/// orders that rest there, oldest first.
pub open spec fn snapshot_of(
    snapshot: Map<u64, Vec<IdTimeQuantity>>,
    queues: Map<u64, QueueView>,
    orders: Map<u64, Order<u64, u64, u64>>,
    prices: Seq<u64>,
) -> bool {
    &&& forall|p: u64| snapshot.contains_key(p) <==> prices.contains(p)
    &&& forall|p: u64| #[trigger]
        snapshot.contains_key(p) ==> snapshot[p]@ == queue_entries(queues, orders, p)
}

/// The prices within a limit are the first so many of the prices.
pub proof fn lemma_leading_is_a_start(side: Side, prices: Seq<u64>, limit: Option<u64>)
    ensures
        leading(side, prices, limit).len() <= prices.len(),
        leading(side, prices, limit) == prices.take(leading(side, prices, limit).len() as int),
    decreases prices.len(),
{
    if prices.len() == 0 || !within(side, prices.first(), limit) {
        assert(leading(side, prices, limit) =~= prices.take(0));
    } else {
        lemma_leading_is_a_start(side, prices.drop_first(), limit);
        let rest = leading(side, prices.drop_first(), limit);
        assert(seq![prices.first()] + rest =~= prices.take(rest.len() as int + 1));
    }
}

/// The first so many of the prices of a side are prices with a queue, and
/// no two of them are one price.
pub proof fn lemma_listed_prices_are_distinct(
    side: Side,
    queues: Map<u64, QueueView>,
    prices: Seq<u64>,
)
    requires
        lists_prices(side, price_list(side, queues), queues),
        prices.len() <= price_list(side, queues).len(),
        prices == price_list(side, queues).take(prices.len() as int),
    ensures
        prices.no_duplicates(),
        forall|i: int| 0 <= i < prices.len() ==> queues.contains_key(#[trigger] prices[i]),
{
    let all = price_list(side, queues);
    assert forall|i: int, j: int| 0 <= i < prices.len() && 0 <= j < prices.len() && i != j implies prices[i]
        != prices[j] by {
        if i < j {
            assert(crate::collections::side_book::side_key(side, all[i])
                < crate::collections::side_book::side_key(side, all[j]));
        } else {
            assert(crate::collections::side_book::side_key(side, all[j])
                < crate::collections::side_book::side_key(side, all[i]));
        }
    }
    assert forall|i: int| 0 <= i < prices.len() implies queues.contains_key(#[trigger] prices[i]) by {
        assert(all.contains(all[i]));
    }
}

/// A limit as a number of the machine.
pub open spec fn limit_of(limit: Option<int>) -> Option<u64> {
    match limit {
        Some(l) => Some(l as u64),
        None => None,
    }
}

} // verus!
