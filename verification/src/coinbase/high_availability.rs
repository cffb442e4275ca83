//! One stream in the order of its sequence numbers, out of several
//! connections that each deliver the stream with gaps and repeats.
use vstd::prelude::*;
use std::collections::VecDeque;
use crate::coinbase::websocket::Subscribe;

verus! {

/// What a buffer holds, as plain values.
pub struct BufferView<T> {
    /// The product whose stream the buffer puts in order.
    pub name: Seq<char>,
    /// The last sequence number that was handed on.
    pub read_seq: u64,
    /// For each source the highest sequence number that it has delivered.
    pub write_seqs: Seq<u64>,
    /// What waits to be handed on: the place of a sequence number is its
    /// distance from `read_seq`, less one, and a place is empty until a
    /// source delivers its number.
    pub queue: Seq<Option<(u64, T)>>,
}

/// How a message of a source comes, by its sequence number and the
/// highest that the source has delivered before.
#[derive(PartialEq, Eq, Debug, Clone, Copy, Structural)]
pub enum Arrival {
    /// The message follows the last of the source.
    InOrder,
    /// The source has left out messages before this one.
    LocalLoss,
    /// The source has delivered this message, or a later one, before.
    Inversion,
}

/// How a message with a sequence number comes from a source that has
/// delivered up to `delivered`.
pub open spec fn arrival_of(delivered: u64, sequence: u64) -> Arrival {
    if delivered + 1 == sequence {
        Arrival::InOrder
    } else if delivered + 1 < sequence {
        Arrival::LocalLoss
    } else {
        Arrival::Inversion
    }
}

/// How a message with a sequence number comes from a source that has
/// delivered up to `delivered`.
pub fn arrival(delivered: u64, sequence: u64) -> (how: Arrival)
    ensures
        how == arrival_of(delivered, sequence),
{
    if sequence <= delivered {
        Arrival::Inversion
    } else if sequence - delivered == 1 {
        Arrival::InOrder
    } else {
        Arrival::LocalLoss
    }
}

/// The larger of two numbers.
pub open spec fn larger(a: u64, b: u64) -> u64 {
    if a < b {
        b
    } else {
        a
    }
}

impl<T> BufferView<T> {
    /// Every message waits at the place of its sequence number, and the
    /// last place is taken.
    pub open spec fn wf(self) -> bool {
        &&& forall|i: int|
            0 <= i < self.queue.len() ==> (#[trigger] self.queue[i] matches Some(slot) ==> slot.0
                == self.read_seq + 1 + i)
        &&& self.queue.len() > 0 ==> self.queue.last() is Some
    }

    /// The place where a sequence number waits.
    pub open spec fn place(self, sequence: u64) -> int {
        sequence - self.read_seq - 1
    }

    /// The buffer after a source has delivered a message.
    ///
    /// The source is marked as having come as far as the message. A message
    /// that was handed on already changes nothing else. Any other is put at
    /// the place of its sequence number, unless another source was first; the
    /// queue grows by empty places as far as it has to.
    pub open spec fn written(self, source: int, sequence: u64, data: T) -> Self {
        let write_seqs = self.write_seqs.update(source, larger(self.write_seqs[source], sequence));
        let place = self.place(sequence);
        let queue = if sequence <= self.read_seq {
            self.queue
        } else if place < self.queue.len() {
            if self.queue[place] is None {
                self.queue.update(place, Some((sequence, data)))
            } else {
                self.queue
            }
        } else {
            self.queue + Seq::new((place - self.queue.len()) as nat, |i: int| None::<(u64, T)>).push(
                Some((sequence, data)),
            )
        };
        BufferView { write_seqs, queue, ..self }
    }

    /// Whether every source has come further than the last number handed on.
    pub open spec fn all_past(self) -> bool {
        forall|i: int| 0 <= i < self.write_seqs.len() ==> self.write_seqs[i] > self.read_seq
    }

    /// Whether something can be handed on: the message at the head, or the
    /// loss of it, once every source has passed it by.
    pub open spec fn readable(self) -> bool {
        self.queue.len() > 0 && (self.queue[0] is Some || self.all_past())
    }

    /// What is handed on next: a sequence number with its message, or
    /// without, where the message is lost.
    pub open spec fn next(self) -> (u64, Option<T>) {
        match self.queue[0] {
            Some((sequence, data)) => (sequence, Some(data)),
            None => ((self.read_seq + 1) as u64, None),
        }
    }

    /// The buffer after the next item has been handed on.
    pub open spec fn advanced(self) -> Self {
        BufferView { read_seq: self.next().0, queue: self.queue.drop_first(), ..self }
    }

    /// All that can be handed on now, in order.
    pub open spec fn ready(self) -> Seq<(u64, Option<T>)>
        decreases self.queue.len(),
    {
        if self.readable() {
            seq![self.next()] + self.advanced().ready()
        } else {
            Seq::empty()
        }
    }

    /// The buffer after all that can be handed on now has been.
    pub open spec fn drained(self) -> Self
        decreases self.queue.len(),
    {
        if self.readable() {
            self.advanced().drained()
        } else {
            self
        }
    }

    /// A buffer stays sound when a source delivers a message.
    pub proof fn lemma_written_wf(self, source: int, sequence: u64, data: T)
        requires
            self.wf(),
            0 <= source < self.write_seqs.len(),
        ensures
            self.written(source, sequence, data).wf(),
            self.written(source, sequence, data).read_seq == self.read_seq,
            self.written(source, sequence, data).write_seqs.len() == self.write_seqs.len(),
    {
        let after = self.written(source, sequence, data);
        assert forall|i: int| 0 <= i < after.queue.len() implies (#[trigger] after.queue[i] matches Some(
            slot,
        ) ==> slot.0 == after.read_seq + 1 + i) by {
            if i < self.queue.len() {
                assert(self.queue[i] matches Some(slot) ==> slot.0 == self.read_seq + 1 + i);
            }
        }
    }

    /// A buffer stays sound when the next item is handed on, and the item
    /// has the number that follows the last.
    pub proof fn lemma_advanced_wf(self)
        requires
            self.wf(),
            self.readable(),
        ensures
            self.advanced().wf(),
            self.next().0 == self.read_seq + 1,
            self.advanced().read_seq == self.read_seq + 1,
            self.advanced().write_seqs == self.write_seqs,
    {
        let after = self.advanced();
        assert(self.queue[0] matches Some(slot) ==> slot.0 == self.read_seq + 1 + 0);
        assert(self.queue.last() is Some);
        assert(self.queue[self.queue.len() - 1] matches Some(slot) ==> slot.0 == self.read_seq + 1
            + (self.queue.len() - 1));
        assert forall|i: int| 0 <= i < after.queue.len() implies (#[trigger] after.queue[i] matches Some(
            slot,
        ) ==> slot.0 == after.read_seq + 1 + i) by {
            assert(self.queue[i + 1] matches Some(slot) ==> slot.0 == self.read_seq + 1 + (i + 1));
        }
    }

    /// What a buffer hands on comes in the order of the sequence numbers,
    /// none left out: message or loss, the item at place `i` has the number
    /// `i + 1` after the last one handed on before.
    pub proof fn lemma_ready_is_in_sequence(self)
        requires
            self.wf(),
        ensures
            self.drained().wf(),
            !self.drained().readable(),
            self.drained().read_seq == self.read_seq + self.ready().len(),
            self.drained().write_seqs == self.write_seqs,
            self.drained().name == self.name,
            forall|i: int|
                0 <= i < self.ready().len() ==> (#[trigger] self.ready()[i]).0 == self.read_seq + 1
                    + i,
        decreases self.queue.len(),
    {
        if self.readable() {
            self.lemma_advanced_wf();
            self.advanced().lemma_ready_is_in_sequence();
            let rest = self.advanced().ready();
            assert forall|i: int| 0 <= i < self.ready().len() implies (#[trigger] self.ready()[i]).0
                == self.read_seq + 1 + i by {
                if i > 0 {
                    assert(self.ready()[i] == rest[i - 1]);
                }
            }
        }
    }
}

/// The messages of one product that wait to be handed on in the order of
/// their sequence numbers, and how far each source has come.
pub struct Buffer<T> {
    name: String,
    read_seq: u64,
    write_seqs: Vec<u64>,
    queue: VecDeque<Option<(u64, T)>>,
}

impl<T> View for Buffer<T> {
    type V = BufferView<T>;

    closed spec fn view(&self) -> BufferView<T> {
        BufferView {
            name: self.name@,
            read_seq: self.read_seq,
            write_seqs: self.write_seqs@,
            queue: self.queue@,
        }
    }
}

impl<T> Buffer<T> {
    /// A buffer for `count` sources, with nothing waiting, that has handed
    /// on everything up to `sequence`.
    pub fn new(name: String, count: usize, sequence: u64) -> (buffer: Self)
        ensures
            buffer@.wf(),
            buffer@ == (BufferView::<T> {
                name: name@,
                read_seq: sequence,
                write_seqs: Seq::new(count as nat, |i: int| 0u64),
                queue: Seq::empty(),
            }),
    {
        let buffer = Self { name, read_seq: sequence, write_seqs: vec![0; count], queue: VecDeque::new() };
        assert(buffer.write_seqs@ =~= Seq::new(count as nat, |i: int| 0u64));
        buffer
    }

    /// The product whose stream the buffer puts in order.
    pub fn name(&self) -> (name: &String)
        ensures
            name@ == self@.name,
    {
        &self.name
    }

    /// The last sequence number that was handed on.
    pub fn read_seq(&self) -> (sequence: u64)
        ensures
            sequence == self@.read_seq,
    {
        self.read_seq
    }

    /// For each source the highest sequence number that it has delivered.
    pub fn write_seqs(&self) -> (sequences: &Vec<u64>)
        ensures
            sequences@ == self@.write_seqs,
    {
        &self.write_seqs
    }

    /// How many places the queue has.
    pub fn waiting(&self) -> (places: usize)
        ensures
            places == self@.queue.len(),
    {
        self.queue.len()
    }

    /// How a message with a sequence number would come from a source:
    /// after the last of the source, after a gap, or out of turn.
    pub fn arrival(&self, source: usize, sequence: u64) -> (how: Arrival)
        requires
            source < self@.write_seqs.len(),
        ensures
            how == arrival_of(self@.write_seqs[source as int], sequence),
    {
        arrival(self.write_seqs[source], sequence)
    }

    /// Takes a message from a source.
    pub fn write(&mut self, source: usize, sequence: u64, data: T)
        requires
            old(self)@.wf(),
            source < old(self)@.write_seqs.len(),
            sequence > old(self)@.read_seq ==> sequence - old(self)@.read_seq <= usize::MAX,
        ensures
            final(self)@.wf(),
            final(self)@ == old(self)@.written(source as int, sequence, data),
    {
        proof {
            old(self)@.lemma_written_wf(source as int, sequence, data);
        }
        if self.write_seqs[source] < sequence {
            self.write_seqs[source] = sequence;
        }
        proof {
            assert(self.write_seqs@ =~= old(self)@.write_seqs.update(
                source as int,
                larger(old(self)@.write_seqs[source as int], sequence),
            ));
        }
        if sequence > self.read_seq {
            let len_queue: usize = self.queue.len();
            let len_required: usize = (sequence - self.read_seq) as usize;
            if len_queue >= len_required {
                let index: usize = len_required - 1;
                if self.queue[index].is_none() {
                    let _ = self.queue.remove(index);
                    self.queue.insert(index, Some((sequence, data)));
                    proof {
                        assert(self.queue@ =~= old(self)@.queue.update(
                            index as int,
                            Some((sequence, data)),
                        ));
                    }
                }
            } else {
                let mut filled: usize = len_queue;
                while filled < len_required - 1
                    invariant
                        len_queue <= filled <= len_required - 1,
                        self.queue@ == old(self)@.queue + Seq::new(
                            (filled - len_queue) as nat,
                            |i: int| None::<(u64, T)>,
                        ),
                        self.read_seq == old(self).read_seq,
                        self.name == old(self).name,
                        self.write_seqs@ == old(self)@.write_seqs.update(
                            source as int,
                            larger(old(self)@.write_seqs[source as int], sequence),
                        ),
                    decreases len_required - 1 - filled,
                {
                    self.queue.push_back(None);
                    filled += 1;
                    proof {
                        assert(self.queue@ =~= old(self)@.queue + Seq::new(
                            (filled - len_queue) as nat,
                            |i: int| None::<(u64, T)>,
                        ));
                    }
                }
                self.queue.push_back(Some((sequence, data)));
            }
        }
    }

    /// Whether every source has come further than the last number handed on.
    fn all_past(&self) -> (past: bool)
        ensures
            past == self@.all_past(),
    {
        let mut i: usize = 0;
        while i < self.write_seqs.len()
            invariant
                i <= self.write_seqs@.len(),
                forall|j: int| 0 <= j < i ==> self.write_seqs@[j] > self.read_seq,
            decreases self.write_seqs@.len() - i,
        {
            if self.write_seqs[i] <= self.read_seq {
                assert(self@.write_seqs[i as int] <= self@.read_seq);
                return false;
            }
            i += 1;
        }
        true
    }

    /// Hands on what is next in sequence: a message, or the loss of one.
    ///
    /// A loss is reported only when every source has come further than the
    /// missing number. Until then, and while nothing waits, nothing is
    /// handed on.
    pub fn read(&mut self) -> (item: Option<(u64, Option<T>)>)
        requires
            old(self)@.wf(),
        ensures
            final(self)@.wf(),
            match item {
                Some(next) => {
                    &&& old(self)@.readable()
                    &&& next == old(self)@.next()
                    &&& final(self)@ == old(self)@.advanced()
                },
                None => !old(self)@.readable() && final(self)@ == old(self)@,
            },
    {
        if self.queue.len() == 0 {
            return None;
        }
        proof {
            if old(self)@.readable() {
                old(self)@.lemma_advanced_wf();
            }
        }
        if self.queue[0].is_some() {
            let head = self.queue.pop_front();
            let (seq, data) = head.unwrap().unwrap();
            self.read_seq = seq;
            proof {
                assert(self.queue@ =~= old(self)@.queue.drop_first());
            }
            Some((seq, Some(data)))
        } else if !self.all_past() {
            None
        } else {
            let _ = self.queue.pop_front();
            self.read_seq += 1;
            proof {
                assert(self.queue@ =~= old(self)@.queue.drop_first());
            }
            Some((self.read_seq, None))
        }
    }

    /// Hands on all that can be handed on now, in order.
    pub fn drain(&mut self) -> (items: Vec<(u64, Option<T>)>)
        requires
            old(self)@.wf(),
        ensures
            final(self)@.wf(),
            items@ == old(self)@.ready(),
            final(self)@ == old(self)@.drained(),
    {
        let mut items: Vec<(u64, Option<T>)> = Vec::new();
        let ghost start = self@;
        loop
            invariant
                self@.wf(),
                start.ready() == items@ + self@.ready(),
                start.drained() == self@.drained(),
            ensures
                self@.wf(),
                items@ == start.ready(),
                self@ == start.drained(),
            decreases self@.queue.len(),
        {
            let ghost before = self@;
            match self.read() {
                Some(item) => {
                    proof {
                        assert(items@ + (seq![item] + self@.ready()) =~= items@.push(item)
                            + self@.ready());
                    }
                    items.push(item);
                },
                None => {
                    proof {
                        assert(items@ + Seq::<(u64, Option<T>)>::empty() =~= items@);
                    }
                    break;
                },
            }
        }
        items
    }
}

/// A gap in the stream of a product: no source has delivered the message
/// with this sequence number, and every source has passed it by.
#[derive(Debug, Clone)]
pub struct Loss {
    pub product_id: String,
    pub sequence: u64,
}

/// A message as a source delivers it.
pub struct Delivery<T> {
    pub source: int,
    pub sequence: u64,
    pub data: T,
}

impl<T> BufferView<T> {
    /// All that a buffer hands on while it takes the deliveries one after
    /// the other and hands on, after each, all that it can.
    pub open spec fn merged(self, deliveries: Seq<Delivery<T>>) -> Seq<(u64, Option<T>)>
        decreases deliveries.len(),
    {
        if deliveries.len() == 0 {
            Seq::empty()
        } else {
            let d = deliveries.first();
            let taken = self.written(d.source, d.sequence, d.data);
            taken.ready() + taken.drained().merged(deliveries.drop_first())
        }
    }

    /// One stream in order comes out of any deliveries: message or loss,
    /// the item at place `i` of all that a buffer hands on has the sequence
    /// number `i + 1` after the last one handed on before. No number comes
    /// twice and none is left out.
    pub proof fn law_merged_is_in_sequence(self, deliveries: Seq<Delivery<T>>)
        requires
            self.wf(),
            forall|i: int|
                0 <= i < deliveries.len() ==> 0 <= (#[trigger] deliveries[i]).source
                    < self.write_seqs.len(),
        ensures
            forall|i: int|
                0 <= i < self.merged(deliveries).len() ==> (#[trigger] self.merged(deliveries)[i]).0
                    == self.read_seq + 1 + i,
        decreases deliveries.len(),
    {
        if deliveries.len() > 0 {
            let d = deliveries.first();
            let taken = self.written(d.source, d.sequence, d.data);
            self.lemma_written_wf(d.source, d.sequence, d.data);
            taken.lemma_ready_is_in_sequence();
            let rest = deliveries.drop_first();
            assert forall|i: int| 0 <= i < rest.len() implies 0 <= (#[trigger] rest[i]).source
                < taken.drained().write_seqs.len() by {
                assert(rest[i] == deliveries[i + 1]);
            }
            taken.drained().law_merged_is_in_sequence(rest);
            let now = taken.ready();
            let later = taken.drained().merged(rest);
            assert forall|i: int| 0 <= i < self.merged(deliveries).len() implies (
            #[trigger] self.merged(deliveries)[i]).0 == self.read_seq + 1 + i by {
                if i < now.len() {
                    assert(self.merged(deliveries)[i] == now[i]);
                } else {
                    assert(self.merged(deliveries)[i] == later[i - now.len()]);
                }
            }
        }
    }

    /// A loss is handed on for a sequence number only when no source has
    /// delivered its message and every source has delivered a later one.
    pub proof fn law_loss_means_all_passed(self)
        requires
            self.wf(),
            self.readable(),
            self.next().1 is None,
        ensures
            self.queue[0] is None,
            forall|i: int|
                0 <= i < self.write_seqs.len() ==> (#[trigger] self.write_seqs[i]) >= self.next().0,
    {
    }

    /// A message that is handed on is the one that was delivered first
    /// under its sequence number: a later delivery under the same number
    /// changes nothing of what waits.
    pub proof fn law_first_delivery_wins(self, source: int, sequence: u64, data: T)
        requires
            self.wf(),
            0 <= source < self.write_seqs.len(),
            sequence > self.read_seq,
            self.place(sequence) < self.queue.len(),
            self.queue[self.place(sequence)] is Some,
        ensures
            self.written(source, sequence, data).queue == self.queue,
    {
    }
}

/// Takes a new request to subscribe into the one that is kept, or keeps it
/// where none is kept yet.
pub fn merge_subscribe(orig: &mut Option<Subscribe>, update: Subscribe)
    ensures
        *final(orig) is Some,
        *old(orig) is None ==> *final(orig) == Some(update),
        *old(orig) matches Some(kept) ==> {
            &&& crate::coinbase::websocket::channel_views((*final(orig))->0.channels@)
                == crate::coinbase::websocket::deduped(
                crate::coinbase::websocket::channel_views(kept.channels@)
                    + crate::coinbase::websocket::channel_views(update.channels@),
            )
            &&& crate::coinbase::websocket::texts((*final(orig))->0.product_ids@)
                == crate::coinbase::websocket::deduped(
                crate::coinbase::websocket::texts(kept.product_ids@)
                    + crate::coinbase::websocket::texts(update.product_ids@),
            )
        },
{
    match orig.take() {
        Some(mut kept) => {
            kept.merge(update);
            *orig = Some(kept);
        },
        None => {
            *orig = Some(update);
        },
    }
}

/// The buffers of all products: what puts the streams of several sources
/// into one stream per product.
pub struct Broker<T> {
    count: usize,
    flows: Vec<Buffer<T>>,
}

/// The buffers as plain values.
pub open spec fn flow_views<T>(flows: Seq<Buffer<T>>) -> Seq<BufferView<T>> {
    flows.map_values(|b: Buffer<T>| b@)
}

/// The place of the buffer of a product among the buffers, if it has one.
pub open spec fn flow_of<T>(flows: Seq<BufferView<T>>, name: Seq<char>) -> Option<int>
    decreases flows.len(),
{
    if flows.len() == 0 {
        None
    } else if flows.first().name == name {
        Some(0)
    } else {
        match flow_of(flows.drop_first(), name) {
            Some(i) => Some(i + 1),
            None => None,
        }
    }
}

/// What a buffer hands on, as the stream of its product has it: a message,
/// or the loss of one.
pub open spec fn handed_on<T>(name: Seq<char>, items: Seq<(u64, Option<T>)>) -> Seq<
    Result<T, (Seq<char>, u64)>,
> {
    items.map_values(
        |item: (u64, Option<T>)|
            match item.1 {
                Some(data) => Ok(data),
                None => Err((name, item.0)),
            },
    )
}

/// The stream as plain values.
pub open spec fn stream_view<T>(stream: Seq<Result<T, Loss>>) -> Seq<Result<T, (Seq<char>, u64)>> {
    stream.map_values(
        |item: Result<T, Loss>|
            match item {
                Ok(data) => Ok(data),
                Err(loss) => Err((loss.product_id@, loss.sequence)),
            },
    )
}

impl<T> Broker<T> {
    /// How many sources deliver.
    pub closed spec fn sources(&self) -> nat {
        self.count as nat
    }

    /// The buffers, in the order in which their products were first seen.
    pub closed spec fn flows(&self) -> Seq<BufferView<T>> {
        flow_views(self.flows@)
    }

    /// Every buffer is sound and counts on all sources.
    pub open spec fn wf(&self) -> bool {
        forall|i: int|
            0 <= i < self.flows().len() ==> (#[trigger] self.flows()[i]).wf()
                && self.flows()[i].write_seqs.len() == self.sources()
    }

    /// A broker for so many sources, with no product seen yet.
    pub fn new(count: usize) -> (broker: Self)
        ensures
            broker.wf(),
            broker.sources() == count,
            broker.flows().len() == 0,
    {
        Self { count, flows: Vec::new() }
    }

    fn find(&self, product_id: &String) -> (at: Option<usize>)
        ensures
            match at {
                Some(i) => flow_of(self.flows(), product_id@) == Some(i as int) && i
                    < self.flows().len() && self.flows()[i as int].name == product_id@,
                None => flow_of(self.flows(), product_id@) is None,
            },
    {
        let mut i: usize = 0;
        let ghost all = self.flows();
        assert(all.skip(0) =~= all);
        while i < self.flows.len()
            invariant
                i <= self.flows@.len(),
                all == self.flows(),
                flow_of(all, product_id@) == match flow_of(all.skip(i as int), product_id@) {
                    Some(k) => Some(k + i),
                    None => None,
                },
            decreases self.flows@.len() - i,
        {
            proof {
                assert(all.skip(i as int).first() == all[i as int]);
                assert(all.skip(i as int).drop_first() =~= all.skip(i + 1));
            }
            if *self.flows[i].name() == *product_id {
                return Some(i);
            }
            i += 1;
        }
        None
    }

    /// How a message of a product with a sequence number would come from
    /// a source: after the last of the source, after a gap, or out of
    /// turn. Of a product that is new, no source has delivered anything.
    pub fn arrival(&self, id: usize, product_id: &String, sequence: u64) -> (how: Arrival)
        requires
            self.wf(),
            id < self.sources(),
        ensures
            how == match flow_of(self.flows(), product_id@) {
                Some(i) => arrival_of(self.flows()[i].write_seqs[id as int], sequence),
                None => arrival_of(0, sequence),
            },
    {
        match self.find(product_id) {
            Some(i) => {
                proof {
                    assert(self.flows()[i as int] == self.flows@[i as int]@);
                }
                self.flows[i].arrival(id, sequence)
            },
            None => arrival(0, sequence),
        }
    }

    /// Takes a message of a product from a source, and hands on all that
    /// the stream of the product can now go on with: messages in the order
    /// of their sequence numbers, and a loss for every number that no source
    /// has delivered and every source has passed by.
    ///
    /// The first message of a product starts its stream: what came before
    /// it in the sequence is not waited for.
    pub fn handle(&mut self, id: usize, product_id: &String, sequence: u64, data: T) -> (stream: Vec<
        Result<T, Loss>,
    >)
        requires
            old(self).wf(),
            id < old(self).sources(),
            sequence >= 1,
            usize::MAX >= u64::MAX,
        ensures
            final(self).wf(),
            final(self).sources() == old(self).sources(),
            ({
                let flows = old(self).flows();
                let at = match flow_of(flows, product_id@) {
                    Some(i) => i,
                    None => flows.len() as int,
                };
                let before = match flow_of(flows, product_id@) {
                    Some(i) => flows[i],
                    None => BufferView {
                        name: product_id@,
                        read_seq: (sequence - 1) as u64,
                        write_seqs: Seq::new(old(self).sources(), |i: int| 0u64),
                        queue: Seq::empty(),
                    },
                };
                let taken = before.written(id as int, sequence, data);
                &&& final(self).flows() == (if flow_of(flows, product_id@) is Some {
                    flows
                } else {
                    flows.push(before)
                }).update(at, taken.drained())
                &&& stream_view(stream@) == handed_on(product_id@, taken.ready())
            }),
    {
        let at: usize = match self.find(product_id) {
            Some(i) => i,
            None => {
                let buffer = Buffer::new(product_id.clone(), self.count, sequence - 1);
                self.flows.push(buffer);
                proof {
                    assert(self.flows() =~= old(self).flows().push(buffer@));
                }
                self.flows.len() - 1
            },
        };
        let ghost flows = self.flows();
        let ghost before = flows[at as int];
        proof {
            assert(before.wf() && before.write_seqs.len() == self.sources()) by {
                if at < old(self).flows().len() {
                    assert(old(self).flows()[at as int] == before);
                }
            }
        }
        let mut buffer = self.flows.remove(at);
        buffer.write(id, sequence, data);
        let ghost taken = before.written(id as int, sequence, data);
        proof {
            before.lemma_written_wf(id as int, sequence, data);
            taken.lemma_ready_is_in_sequence();
        }
        let mut stream: Vec<Result<T, Loss>> = Vec::new();
        let ghost mut done: Seq<(u64, Option<T>)> = Seq::empty();
        proof {
            assert(done + taken.ready() =~= taken.ready());
            assert(stream_view(stream@) =~= handed_on(product_id@, done));
        }
        loop
            invariant
                buffer@.wf(),
                buffer@.name == product_id@,
                buffer@.write_seqs.len() == self.count,
                taken.ready() == done + buffer@.ready(),
                taken.drained() == buffer@.drained(),
                stream_view(stream@) == handed_on(product_id@, done),
            ensures
                buffer@.wf(),
                buffer@.write_seqs.len() == self.count,
                buffer@ == taken.drained(),
                stream_view(stream@) == handed_on(product_id@, taken.ready()),
            decreases buffer@.queue.len(),
        {
            let ghost waiting = buffer@;
            match buffer.read() {
                Some((seq, item)) => {
                    proof {
                        assert(done + (seq![(seq, item)] + buffer@.ready()) =~= done.push((seq, item))
                            + buffer@.ready());
                    }
                    let ghost before_stream = stream@;
                    match item {
                        Some(data) => {
                            stream.push(Ok(data));
                        },
                        None => {
                            stream.push(Err(Loss { product_id: product_id.clone(), sequence: seq }));
                        },
                    }
                    proof {
                        let longer = done.push((seq, item));
                        assert(stream@.len() == before_stream.len() + 1);
                        assert(stream_view(before_stream).len() == before_stream.len());
                        assert(handed_on(product_id@, done).len() == done.len());
                        assert(handed_on(product_id@, longer).len() == longer.len());
                        assert(stream_view(stream@).len() == stream@.len());
                        assert(stream_view(stream@).len() == handed_on(product_id@, longer).len());
                        assert forall|k: int| 0 <= k < stream@.len() implies stream_view(stream@)[k]
                            == handed_on(product_id@, longer)[k] by {
                            if k < before_stream.len() {
                                assert(stream@[k] == before_stream[k]);
                                assert(stream_view(before_stream)[k] == handed_on(
                                    product_id@,
                                    done,
                                )[k]);
                            }
                        }
                        assert(stream_view(stream@) =~= handed_on(product_id@, longer));
                        done = longer;
                    }
                },
                None => {
                    proof {
                        assert(done + Seq::<(u64, Option<T>)>::empty() =~= done);
                    }
                    break;
                },
            }
        }
        self.flows.insert(at, buffer);
        proof {
            assert(self.flows() =~= flows.update(at as int, taken.drained()));
        }
        stream
    }
}

} // verus!
