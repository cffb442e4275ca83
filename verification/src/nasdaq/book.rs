//! The events of an order's life as the records of this venue hold them,
//! and the book that they drive.
use vstd::prelude::*;
use crate::collections::Side;
use crate::itchy::CrossType;
use crate::collections::order::Order;
use crate::collections::queue::QueueView;
use crate::collections::side_book::{first_of, price_list};
use crate::nyse::book::{
    accepted, handled, max_ref_after, refused, refused_by, snapshot_of, volumes_of, walked, HandleError, IdTimeQuantity,
    NyseOrderBook, Summary,
};

verus! {

/// An event in the life of the orders of one security.
#[derive(Clone, Debug)]
pub struct Message {
    /// Nanoseconds since midnight.
    pub time: u64,
    pub body: Body,
}

/// What happens to an order, or a trade that changes no order.
#[derive(Debug, Clone)]
pub enum Body {
    AddOrder { reference: u64, shares: u64, price: u64, side: Side, mpid_val: u64 },
    DeleteOrder { reference: u64 },
    OrderCancelled { reference: u64, cancelled: u64 },
    ReplaceOrder { new_reference: u64, shares: u64, price: u64, old_reference: u64 },
    OrderExecuted { reference: u64, executed: u64 },
    OrderExecutedWithPrice { reference: u64, executed: u64 },
    CrossTrade { cross_type: CrossType },
    NonCrossTrade {  },
}

/// The event as a book takes it: what happens to an order as it is, and
/// a trade of either kind as a trade that changes no order.
pub open spec fn event_of(msg: Message) -> crate::nyse::book::Message {
    crate::nyse::book::Message {
        time: msg.time,
        body: match msg.body {
            Body::AddOrder { reference, shares, price, side, mpid_val } => crate::nyse::book::Body::AddOrder {
                reference,
                shares,
                price,
                side,
                mpid_val,
            },
            Body::DeleteOrder { reference } => crate::nyse::book::Body::DeleteOrder { reference },
            Body::OrderCancelled { reference, cancelled } => crate::nyse::book::Body::OrderCancelled {
                reference,
                cancelled,
            },
            Body::ReplaceOrder { new_reference, shares, price, old_reference } => crate::nyse::book::Body::ReplaceOrder {
                new_reference,
                shares,
                price,
                old_reference,
            },
            Body::OrderExecuted { reference, executed } => crate::nyse::book::Body::OrderExecuted {
                reference,
                executed,
            },
            Body::OrderExecutedWithPrice { reference, executed } => crate::nyse::book::Body::OrderExecutedWithPrice {
                reference,
                executed,
            },
            Body::CrossTrade { .. } => crate::nyse::book::Body::NonCrossTrade {  },
            Body::NonCrossTrade {  } => crate::nyse::book::Body::NonCrossTrade {  },
        },
    }
}

/// The event as a book takes it.
pub fn to_event(msg: &Message) -> (event: crate::nyse::book::Message)
    ensures
        event == event_of(*msg),
{
    let body = match msg.body {
        Body::AddOrder { reference, shares, price, side, mpid_val } => crate::nyse::book::Body::AddOrder {
            reference,
            shares,
            price,
            side,
            mpid_val,
        },
        Body::DeleteOrder { reference } => crate::nyse::book::Body::DeleteOrder { reference },
        Body::OrderCancelled { reference, cancelled } => crate::nyse::book::Body::OrderCancelled {
            reference,
            cancelled,
        },
        Body::ReplaceOrder { new_reference, shares, price, old_reference } => crate::nyse::book::Body::ReplaceOrder {
            new_reference,
            shares,
            price,
            old_reference,
        },
        Body::OrderExecuted { reference, executed } => crate::nyse::book::Body::OrderExecuted {
            reference,
            executed,
        },
        Body::OrderExecutedWithPrice { reference, executed } => crate::nyse::book::Body::OrderExecutedWithPrice {
            reference,
            executed,
        },
        Body::CrossTrade { .. } => crate::nyse::book::Body::NonCrossTrade {  },
        Body::NonCrossTrade {  } => crate::nyse::book::Body::NonCrossTrade {  },
    };
    crate::nyse::book::Message { time: msg.time, body }
}

/// The book of one security, as the events of the day shape it.
#[derive(Debug)]
pub struct NasdaqOrderBook {
    pub inner: NyseOrderBook,
}

impl NasdaqOrderBook {
    pub fn new(with_validation: bool) -> (engine: Self)
        ensures
            engine.inner.wf(),
            engine.inner.max_ref() == 0,
            engine.inner.validating() == with_validation,
            engine.inner.book().orders() == Map::<u64, Order<u64, u64, u64>>::empty(),
            engine.inner.book().asks() == Map::<u64, QueueView>::empty(),
            engine.inner.book().bids() == Map::<u64, QueueView>::empty(),
    {
        Self { inner: NyseOrderBook::new(with_validation) }
    }

    /// Lets an event of the day change the book.
    pub fn handle(&mut self, msg: &Message) -> (result: Result<(), HandleError>)
        requires
            old(self).inner.wf(),
        ensures
            final(self).inner.wf(),
            final(self).inner.validating() == old(self).inner.validating(),
            final(self).inner.max_ref() == if result is Ok {
                max_ref_after(old(self).inner.max_ref(), event_of(*msg).body)
            } else {
                old(self).inner.max_ref()
            },
            match result {
                Ok(_) => accepted(old(self).inner, final(self).inner, event_of(*msg)),
                Err(reason) => refused(old(self).inner, final(self).inner, event_of(*msg), reason),
            },
            exists|pre: crate::collections::book::OrderBook<u64, u64>| #[trigger]
                handled(
                    old(self).inner.book(),
                    pre,
                    final(self).inner.book(),
                    old(self).inner.validating(),
                    old(self).inner.max_ref(),
                    event_of(*msg),
                    refused_by(result),
                ),
    {
        let event = to_event(msg);
        self.inner.handle(&event)
    }

    /// The volumes at the best prices of each side, `level` prices at most.
    pub fn level_summary(&mut self, level: usize) -> (summary: Summary<u64>)
        requires
            old(self).inner.wf(),
        ensures
            *final(self) == *old(self),
            summary.ask@ == volumes_of(
                first_of(price_list(Side::Ask, old(self).inner.book().asks()), level as nat),
                old(self).inner.book().asks(),
            ),
            summary.bid@ == volumes_of(
                first_of(price_list(Side::Bid, old(self).inner.book().bids()), level as nat),
                old(self).inner.book().bids(),
            ),
    {
        self.inner.level_summary(level)
    }

    /// The orders at the best prices of each side, `level` prices at most.
    pub fn level_snapshot(&mut self, level: usize) -> (snapshot: Summary<Vec<IdTimeQuantity>>)
        requires
            old(self).inner.wf(),
        ensures
            final(self).inner.wf(),
            final(self).inner.max_ref() == old(self).inner.max_ref(),
            final(self).inner.validating() == old(self).inner.validating(),
            final(self).inner.book().orders() == old(self).inner.book().orders(),
            ({
                let book = old(self).inner.book();
                let asks = first_of(price_list(Side::Ask, book.asks()), level as nat);
                let bids = first_of(price_list(Side::Bid, book.bids()), level as nat);
                &&& final(self).inner.book().asks() == walked(book.asks(), book.orders(), asks)
                &&& final(self).inner.book().bids() == walked(book.bids(), book.orders(), bids)
                &&& snapshot_of(snapshot.ask@, book.asks(), book.orders(), asks)
                &&& snapshot_of(snapshot.bid@, book.bids(), book.orders(), bids)
            }),
    {
        self.inner.level_snapshot(level)
    }
}

} // verus!
