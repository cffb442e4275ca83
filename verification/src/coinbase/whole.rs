//! When one whole stream comes out of what several sources deliver.
use vstd::prelude::*;
use crate::coinbase::high_availability::{BufferView, Delivery};

verus! {

/// Whether one of the deliveries has the sequence number.
pub open spec fn delivered<T>(deliveries: Seq<Delivery<T>>, sequence: int) -> bool {
    exists|k: int| 0 <= k < deliveries.len() && (#[trigger] deliveries[k]).sequence == sequence
}

/// Whether a source passes a sequence number by: one of its deliveries has
/// a later one.
pub open spec fn passed<T>(deliveries: Seq<Delivery<T>>, source: int, sequence: int) -> bool {
    exists|k: int|
        0 <= k < deliveries.len() && (#[trigger] deliveries[k]).source == source
            && deliveries[k].sequence > sequence
}

/// Whether every source delivers its messages in the order of their
/// sequence numbers, none twice.
pub open spec fn in_order<T>(deliveries: Seq<Delivery<T>>) -> bool {
    forall|j: int, k: int|
        0 <= j < k < deliveries.len() && (#[trigger] deliveries[j]).source == (
        #[trigger] deliveries[k]).source ==> deliveries[j].sequence < deliveries[k].sequence
}

/// What is done with a buffer: a source delivers a message, or the next
/// item is asked for.
pub enum Step<T> {
    Write(Delivery<T>),
    Read,
}

/// The deliveries among the steps, in their order.
pub open spec fn writes_of<T>(steps: Seq<Step<T>>) -> Seq<Delivery<T>>
    decreases steps.len(),
{
    if steps.len() == 0 {
        Seq::empty()
    } else {
        match steps.first() {
            Step::Write(d) => seq![d] + writes_of(steps.drop_first()),
            Step::Read => writes_of(steps.drop_first()),
        }
    }
}

/// Whether one of the deliveries has the sequence number and the message.
pub open spec fn brought<T>(deliveries: Seq<Delivery<T>>, sequence: u64, data: T) -> bool {
    exists|k: int|
        0 <= k < deliveries.len() && (#[trigger] deliveries[k]).sequence == sequence
            && deliveries[k].data == data
}

impl<T> BufferView<T> {
    /// Whether the message with a sequence number waits to be handed on.
    pub open spec fn waits(self, sequence: int) -> bool {
        0 <= sequence - self.read_seq - 1 < self.queue.len() && self.queue[sequence - self.read_seq
            - 1] is Some
    }

    /// Whether a sequence number will be handed on: its message waits, or
    /// is still to be delivered, or every source has passed it by or will.
    pub open spec fn covered(self, rest: Seq<Delivery<T>>, sequence: int) -> bool {
        ||| self.waits(sequence)
        ||| delivered(rest, sequence)
        ||| forall|i: int|
            0 <= i < self.write_seqs.len() ==> self.write_seqs[i] > sequence || #[trigger] passed(
                rest,
                i,
                sequence,
            )
    }

    /// Whether a buffer, with the deliveries that are still to come, is on
    /// its way to hand on every sequence number up to `top`.
    pub open spec fn on_course(self, rest: Seq<Delivery<T>>, top: int) -> bool {
        &&& self.wf()
        &&& self.read_seq + self.queue.len() <= top
        &&& top > self.read_seq ==> self.write_seqs.len() > 0
        &&& forall|i: int|
            0 <= i < self.write_seqs.len() ==> #[trigger] self.write_seqs[i] <= self.read_seq
                + self.queue.len()
        &&& in_order(rest)
        &&& forall|k: int|
            0 <= k < rest.len() ==> 0 <= (#[trigger] rest[k]).source < self.write_seqs.len()
                && self.write_seqs[rest[k].source] < rest[k].sequence <= top
        &&& forall|s: int| self.read_seq < s <= top ==> #[trigger] self.covered(rest, s)
    }

    /// A buffer stays on course when it takes the next delivery.
    proof fn lemma_written_on_course(self, rest: Seq<Delivery<T>>, top: int)
        requires
            self.on_course(rest, top),
            rest.len() > 0,
        ensures
            self.written(rest[0].source, rest[0].sequence, rest[0].data).on_course(
                rest.drop_first(),
                top,
            ),
            forall|s: int|
                self.read_seq < s ==> (self.written(
                    rest[0].source,
                    rest[0].sequence,
                    rest[0].data,
                ).waits(s) <==> self.waits(s) || s == rest[0].sequence),
    {
        let d = rest[0];
        let after = self.written(d.source, d.sequence, d.data);
        let later = rest.drop_first();
        self.lemma_written_wf(d.source, d.sequence, d.data);
        assert forall|s: int| self.read_seq < s implies (after.waits(s) <==> self.waits(s) || s
            == d.sequence) by {}
        assert forall|j: int, k: int|
            0 <= j < k < later.len() && (#[trigger] later[j]).source == (
            #[trigger] later[k]).source implies later[j].sequence < later[k].sequence by {
            assert(later[j] == rest[j + 1]);
            assert(later[k] == rest[k + 1]);
        }
        assert forall|k: int| 0 <= k < later.len() implies 0 <= (#[trigger] later[k]).source
            < after.write_seqs.len() && after.write_seqs[later[k].source] < later[k].sequence
            <= top by {
            assert(later[k] == rest[k + 1]);
            assert(rest[0].source == d.source);
        }
        assert forall|s: int| after.read_seq < s <= top implies #[trigger] after.covered(later, s) by {
            assert(self.covered(rest, s));
            if self.waits(s) {
            } else if delivered(rest, s) {
                let k = choose|k: int|
                    0 <= k < rest.len() && (#[trigger] rest[k]).sequence == s;
                if k > 0 {
                    assert(later[k - 1] == rest[k]);
                }
            } else {
                assert forall|i: int| 0 <= i < after.write_seqs.len() implies after.write_seqs[i]
                    > s || #[trigger] passed(later, i, s) by {
                    if self.write_seqs[i] > s {
                    } else {
                        assert(passed(rest, i, s));
                        let k = choose|k: int|
                            0 <= k < rest.len() && (#[trigger] rest[k]).source == i
                                && rest[k].sequence > s;
                        if k > 0 {
                            assert(later[k - 1] == rest[k]);
                        }
                    }
                }
            }
        }
    }

    /// On course, a buffer hands on a loss only for a sequence number that
    /// no source is still to deliver, and stays on course.
    proof fn lemma_advanced_on_course(self, rest: Seq<Delivery<T>>, top: int)
        requires
            self.on_course(rest, top),
            self.readable(),
        ensures
            self.advanced().on_course(rest, top),
            self.next().1 is Some <==> self.waits(self.read_seq + 1) || delivered(
                rest,
                self.read_seq + 1,
            ),
            forall|s: int| self.read_seq + 1 < s ==> (self.advanced().waits(s) <==> self.waits(s)),
    {
        let after = self.advanced();
        let first = self.read_seq + 1;
        self.lemma_advanced_wf();
        if delivered(rest, first) && self.queue[0] is None {
            let k = choose|k: int| 0 <= k < rest.len() && (#[trigger] rest[k]).sequence == first;
            assert(self.write_seqs[rest[k].source] < first);
            assert(self.all_past());
        }
        assert forall|s: int| first < s implies (after.waits(s) <==> self.waits(s)) by {
            if 0 <= s - first - 1 < after.queue.len() {
                assert(after.queue[s - first - 1] == self.queue[s - first]);
            }
        }
        assert forall|s: int| after.read_seq < s <= top implies #[trigger] after.covered(rest, s) by {
            assert(self.covered(rest, s));
        }
    }

    /// On course, all that a buffer can hand on now is a message for every
    /// sequence number that waits or is still to be delivered, and a loss
    /// for every other; and the buffer stays on course.
    proof fn lemma_drained_on_course(self, rest: Seq<Delivery<T>>, top: int)
        requires
            self.on_course(rest, top),
        ensures
            self.drained().on_course(rest, top),
            !self.drained().readable(),
            self.drained().read_seq == self.read_seq + self.ready().len(),
            forall|i: int|
                0 <= i < self.ready().len() ==> ((#[trigger] self.ready()[i]).1 is Some
                    <==> self.waits(self.read_seq + 1 + i) || delivered(
                    rest,
                    self.read_seq + 1 + i,
                )),
            forall|s: int|
                self.drained().read_seq < s ==> (self.drained().waits(s) <==> self.waits(s)),
        decreases self.queue.len(),
    {
        if self.readable() {
            self.lemma_advanced_on_course(rest, top);
            let after = self.advanced();
            after.lemma_drained_on_course(rest, top);
            let later = after.ready();
            assert forall|i: int| 0 <= i < self.ready().len() implies ((
            #[trigger] self.ready()[i]).1 is Some <==> self.waits(self.read_seq + 1 + i)
                || delivered(rest, self.read_seq + 1 + i)) by {
                if i > 0 {
                    assert(self.ready()[i] == later[i - 1]);
                    assert(after.read_seq + 1 + (i - 1) == self.read_seq + 1 + i);
                }
            }
        }
    }

    /// On course, and with nothing to hand on, a buffer hands on every
    /// sequence number up to `top` while it takes the deliveries that are
    /// still to come: the message where it waits or is still to be
    /// delivered, and a loss where not.
    proof fn lemma_merged_on_course(self, rest: Seq<Delivery<T>>, top: int)
        requires
            self.on_course(rest, top),
            !self.readable(),
        ensures
            self.merged(rest).len() == top - self.read_seq,
            forall|i: int|
                0 <= i < self.merged(rest).len() ==> ((#[trigger] self.merged(rest)[i]).1 is Some
                    <==> self.waits(self.read_seq + 1 + i) || delivered(
                    rest,
                    self.read_seq + 1 + i,
                )),
        decreases rest.len(),
    {
        if rest.len() == 0 {
            assert(rest =~= Seq::<Delivery<T>>::empty());
            self.lemma_done_at_top(top);
        } else {
            let d = rest[0];
            let taken = self.written(d.source, d.sequence, d.data);
            let later = rest.drop_first();
            self.lemma_written_on_course(rest, top);
            taken.lemma_drained_on_course(later, top);
            let left = taken.drained();
            left.lemma_merged_on_course(later, top);
            let now = taken.ready();
            let then = left.merged(later);
            assert(self.merged(rest) == now + then);
            assert forall|i: int| 0 <= i < self.merged(rest).len() implies ((
            #[trigger] self.merged(rest)[i]).1 is Some <==> self.waits(self.read_seq + 1 + i)
                || delivered(rest, self.read_seq + 1 + i)) by {
                let s = self.read_seq + 1 + i;
                assert(taken.waits(s) <==> self.waits(s) || s == d.sequence);
                assert(delivered(rest, s) <==> s == d.sequence || delivered(later, s)) by {
                    if delivered(rest, s) {
                        let k = choose|k: int|
                            0 <= k < rest.len() && (#[trigger] rest[k]).sequence == s;
                        if k > 0 {
                            assert(later[k - 1] == rest[k]);
                        }
                    }
                    if delivered(later, s) {
                        let k = choose|k: int|
                            0 <= k < later.len() && (#[trigger] later[k]).sequence == s;
                        assert(rest[k + 1] == later[k]);
                    }
                    if s == d.sequence {
                        assert(rest[0].sequence == s);
                    }
                }
                if i < now.len() {
                    assert(self.merged(rest)[i] == now[i]);
                } else {
                    assert(self.merged(rest)[i] == then[i - now.len()]);
                    assert(left.read_seq + 1 + (i - now.len()) == s);
                    assert(left.waits(s) <==> taken.waits(s));
                }
            }
        }
    }

    /// One whole stream comes out of what the sources deliver.
    ///
    /// Let nothing wait in a buffer, let no source have come further than
    /// the last sequence number handed on, and let every source deliver its
    /// messages in the order of their sequence numbers, all of them above
    /// that number and none above `top`. If every sequence number up to
    /// `top` is delivered by some source or passed by by all of them, then,
    /// however the deliveries of the sources are interleaved, the buffer
    /// hands on every sequence number up to `top`, in order: the message
    /// where a source delivers it, and a loss where none does.
    pub proof fn law_stream_is_whole(self, deliveries: Seq<Delivery<T>>, top: u64)
        requires
            self.wf(),
            self.queue.len() == 0,
            self.read_seq <= top,
            self.read_seq < top ==> self.write_seqs.len() > 0,
            forall|i: int| 0 <= i < self.write_seqs.len() ==> self.write_seqs[i] <= self.read_seq,
            in_order(deliveries),
            forall|k: int|
                0 <= k < deliveries.len() ==> 0 <= (#[trigger] deliveries[k]).source
                    < self.write_seqs.len() && self.read_seq < deliveries[k].sequence <= top,
            forall|s: int|
                self.read_seq < s <= top ==> #[trigger] delivered(deliveries, s) || forall|i: int|
                    0 <= i < self.write_seqs.len() ==> #[trigger] passed(deliveries, i, s),
        ensures
            self.merged(deliveries).len() == top - self.read_seq,
            forall|i: int|
                0 <= i < self.merged(deliveries).len() ==> {
                    &&& (#[trigger] self.merged(deliveries)[i]).0 == self.read_seq + 1 + i
                    &&& self.merged(deliveries)[i].1 is Some <==> delivered(
                        deliveries,
                        self.read_seq + 1 + i,
                    )
                },
    {
        assert forall|s: int| self.read_seq < s <= top implies #[trigger] self.covered(
            deliveries,
            s,
        ) by {
            if !delivered(deliveries, s) {
                assert forall|i: int| 0 <= i < self.write_seqs.len() implies self.write_seqs[i] > s
                    || #[trigger] passed(deliveries, i, s) by {}
            }
        }
        self.lemma_merged_on_course(deliveries, top as int);
        self.law_merged_is_in_sequence(deliveries);
    }

    /// Whether every message that waits is one that the deliveries brought.
    pub open spec fn holds_only(self, all: Seq<Delivery<T>>) -> bool {
        forall|p: int|
            0 <= p < self.queue.len() ==> (#[trigger] self.queue[p] matches Some(slot) ==> brought(
                all,
                slot.0,
                slot.1,
            ))
    }

    /// What a buffer can hand on now are messages that wait in it.
    proof fn lemma_ready_was_brought(self, all: Seq<Delivery<T>>)
        requires
            self.wf(),
            self.holds_only(all),
        ensures
            self.drained().holds_only(all),
            forall|i: int|
                0 <= i < self.ready().len() ==> ((#[trigger] self.ready()[i]).1 matches Some(data)
                    ==> brought(all, self.ready()[i].0, data)),
        decreases self.queue.len(),
    {
        if self.readable() {
            self.lemma_advanced_wf();
            let after = self.advanced();
            assert forall|p: int| 0 <= p < after.queue.len() implies (
            #[trigger] after.queue[p] matches Some(slot) ==> brought(all, slot.0, slot.1)) by {
                assert(after.queue[p] == self.queue[p + 1]);
            }
            after.lemma_ready_was_brought(all);
            let later = after.ready();
            assert forall|i: int| 0 <= i < self.ready().len() implies ((
            #[trigger] self.ready()[i]).1 matches Some(data) ==> brought(
                all,
                self.ready()[i].0,
                data,
            )) by {
                if i > 0 {
                    assert(self.ready()[i] == later[i - 1]);
                } else {
                    assert(self.queue[0] matches Some(slot) ==> brought(all, slot.0, slot.1));
                }
            }
        }
    }

    /// What a buffer hands on while it takes deliveries are messages that
    /// waited in it or that the deliveries bring.
    proof fn lemma_merged_was_brought(self, rest: Seq<Delivery<T>>, all: Seq<Delivery<T>>)
        requires
            self.wf(),
            self.holds_only(all),
            forall|k: int|
                0 <= k < rest.len() ==> 0 <= (#[trigger] rest[k]).source < self.write_seqs.len()
                    && brought(all, rest[k].sequence, rest[k].data),
        ensures
            forall|i: int|
                0 <= i < self.merged(rest).len() ==> ((
                #[trigger] self.merged(rest)[i]).1 matches Some(data) ==> brought(
                    all,
                    self.merged(rest)[i].0,
                    data,
                )),
        decreases rest.len(),
    {
        if rest.len() > 0 {
            let d = rest[0];
            let taken = self.written(d.source, d.sequence, d.data);
            let later = rest.drop_first();
            self.lemma_written_wf(d.source, d.sequence, d.data);
            assert forall|p: int| 0 <= p < taken.queue.len() implies (
            #[trigger] taken.queue[p] matches Some(slot) ==> brought(all, slot.0, slot.1)) by {
                if p < self.queue.len() {
                    assert(self.queue[p] matches Some(slot) ==> brought(all, slot.0, slot.1));
                }
            }
            taken.lemma_ready_was_brought(all);
            taken.lemma_ready_is_in_sequence();
            let left = taken.drained();
            assert forall|k: int| 0 <= k < later.len() implies 0 <= (#[trigger] later[k]).source
                < left.write_seqs.len() && brought(all, later[k].sequence, later[k].data) by {
                assert(later[k] == rest[k + 1]);
            }
            left.lemma_merged_was_brought(later, all);
            let now = taken.ready();
            let then = left.merged(later);
            assert forall|i: int| 0 <= i < self.merged(rest).len() implies ((
            #[trigger] self.merged(rest)[i]).1 matches Some(data) ==> brought(
                all,
                self.merged(rest)[i].0,
                data,
            )) by {
                if i < now.len() {
                    assert(self.merged(rest)[i] == now[i]);
                } else {
                    assert(self.merged(rest)[i] == then[i - now.len()]);
                }
            }
        }
    }

    /// A message that is handed on is one that a source has delivered,
    /// under the sequence number under which it was delivered.
    pub proof fn law_messages_are_deliveries(self, deliveries: Seq<Delivery<T>>)
        requires
            self.wf(),
            self.queue.len() == 0,
            forall|k: int|
                0 <= k < deliveries.len() ==> 0 <= (#[trigger] deliveries[k]).source
                    < self.write_seqs.len(),
        ensures
            forall|i: int|
                0 <= i < self.merged(deliveries).len() ==> ((
                #[trigger] self.merged(deliveries)[i]).1 matches Some(data) ==> brought(
                    deliveries,
                    self.merged(deliveries)[i].0,
                    data,
                )),
    {
        assert forall|k: int| 0 <= k < deliveries.len() implies brought(
            deliveries,
            (#[trigger] deliveries[k]).sequence,
            deliveries[k].data,
        ) by {}
        self.lemma_merged_was_brought(deliveries, deliveries);
    }

    /// All that a buffer hands on while the steps are done one after the
    /// other, and when at the end all is asked for that it can hand on. A
    /// step that asks for the next item where there is none gives nothing.
    pub open spec fn played(self, steps: Seq<Step<T>>) -> Seq<(u64, Option<T>)>
        decreases steps.len(),
    {
        if steps.len() == 0 {
            self.ready()
        } else {
            match steps.first() {
                Step::Write(d) => self.written(d.source, d.sequence, d.data).played(
                    steps.drop_first(),
                ),
                Step::Read => if self.readable() {
                    seq![self.next()] + self.advanced().played(steps.drop_first())
                } else {
                    self.played(steps.drop_first())
                },
            }
        }
    }

    /// On course, and with no delivery to come and nothing to hand on, a
    /// buffer has handed on every sequence number up to `top`.
    proof fn lemma_done_at_top(self, top: int)
        requires
            self.on_course(Seq::<Delivery<T>>::empty(), top),
            !self.readable(),
        ensures
            self.read_seq == top,
    {
        let rest = Seq::<Delivery<T>>::empty();
        if self.read_seq < top {
            let first = self.read_seq + 1;
            assert(self.covered(rest, first));
            assert(!delivered(rest, first));
            assert(!self.waits(first)) by {
                if self.waits(first) {
                    assert(self.queue[0] is Some);
                }
            }
            assert forall|i: int| 0 <= i < self.write_seqs.len() implies self.write_seqs[i]
                > self.read_seq by {
                assert(!passed(rest, i, first));
            }
            assert(self.all_past());
            assert(self.write_seqs[0] <= self.read_seq + self.queue.len());
        }
    }

    /// On course, a buffer hands on every sequence number up to `top`
    /// while the steps are done, wherever among the deliveries the next
    /// item is asked for: the message where it waits or is still to be
    /// delivered, and a loss where not.
    proof fn lemma_played_on_course(self, steps: Seq<Step<T>>, top: int)
        requires
            self.on_course(writes_of(steps), top),
        ensures
            self.played(steps).len() == top - self.read_seq,
            forall|i: int|
                0 <= i < self.played(steps).len() ==> {
                    &&& (#[trigger] self.played(steps)[i]).0 == self.read_seq + 1 + i
                    &&& self.played(steps)[i].1 is Some <==> self.waits(self.read_seq + 1 + i)
                        || delivered(writes_of(steps), self.read_seq + 1 + i)
                },
        decreases steps.len(),
    {
        let writes = writes_of(steps);
        if steps.len() == 0 {
            self.lemma_drained_on_course(writes, top);
            self.lemma_ready_is_in_sequence();
            self.drained().lemma_done_at_top(top);
        } else {
            let later = steps.drop_first();
            match steps.first() {
                Step::Write(d) => {
                    let taken = self.written(d.source, d.sequence, d.data);
                    assert(writes[0] == d);
                    assert(writes.drop_first() =~= writes_of(later));
                    self.lemma_written_on_course(writes, top);
                    taken.lemma_played_on_course(later, top);
                    assert forall|i: int| 0 <= i < self.played(steps).len() implies {
                        &&& (#[trigger] self.played(steps)[i]).0 == self.read_seq + 1 + i
                        &&& self.played(steps)[i].1 is Some <==> self.waits(self.read_seq + 1 + i)
                            || delivered(writes, self.read_seq + 1 + i)
                    } by {
                        let s = self.read_seq + 1 + i;
                        assert(taken.waits(s) <==> self.waits(s) || s == d.sequence);
                        assert(delivered(writes, s) <==> s == d.sequence || delivered(
                            writes_of(later),
                            s,
                        )) by {
                            if delivered(writes, s) {
                                let k = choose|k: int|
                                    0 <= k < writes.len() && (#[trigger] writes[k]).sequence == s;
                                if k > 0 {
                                    assert(writes_of(later)[k - 1] == writes[k]);
                                }
                            }
                            if delivered(writes_of(later), s) {
                                let k = choose|k: int|
                                    0 <= k < writes_of(later).len() && (
                                    #[trigger] writes_of(later)[k]).sequence == s;
                                assert(writes[k + 1] == writes_of(later)[k]);
                            }
                            if s == d.sequence {
                                assert(writes[0].sequence == s);
                            }
                        }
                    }
                },
                Step::Read => {
                    assert(writes == writes_of(later));
                    if self.readable() {
                        self.lemma_advanced_on_course(writes, top);
                        self.lemma_advanced_wf();
                        let after = self.advanced();
                        after.lemma_played_on_course(later, top);
                        let then = after.played(later);
                        assert forall|i: int| 0 <= i < self.played(steps).len() implies {
                            &&& (#[trigger] self.played(steps)[i]).0 == self.read_seq + 1 + i
                            &&& self.played(steps)[i].1 is Some <==> self.waits(
                                self.read_seq + 1 + i,
                            ) || delivered(writes, self.read_seq + 1 + i)
                        } by {
                            if i > 0 {
                                assert(self.played(steps)[i] == then[i - 1]);
                                assert(after.read_seq + 1 + (i - 1) == self.read_seq + 1 + i);
                                assert(after.waits(self.read_seq + 1 + i) <==> self.waits(
                                    self.read_seq + 1 + i,
                                ));
                            }
                        }
                    } else {
                        self.lemma_played_on_course(later, top);
                    }
                },
            }
        }
    }

    /// One whole stream comes out of what the sources deliver, wherever
    /// among the deliveries the buffer is asked for the next item.
    ///
    /// Under what `law_stream_is_whole` asks of the buffer and of the
    /// deliveries, the steps hand on every sequence number up to `top`, in
    /// order, once all is asked for at the end that the buffer can hand on:
    /// the message where a source delivers it, and a loss where none does.
    pub proof fn law_stream_is_whole_however_read(self, steps: Seq<Step<T>>, top: u64)
        requires
            self.wf(),
            self.queue.len() == 0,
            self.read_seq <= top,
            self.read_seq < top ==> self.write_seqs.len() > 0,
            forall|i: int| 0 <= i < self.write_seqs.len() ==> self.write_seqs[i] <= self.read_seq,
            in_order(writes_of(steps)),
            forall|k: int|
                0 <= k < writes_of(steps).len() ==> 0 <= (#[trigger] writes_of(steps)[k]).source
                    < self.write_seqs.len() && self.read_seq < writes_of(steps)[k].sequence <= top,
            forall|s: int|
                self.read_seq < s <= top ==> #[trigger] delivered(writes_of(steps), s) || forall|
                    i: int,
                |
                    0 <= i < self.write_seqs.len() ==> #[trigger] passed(writes_of(steps), i, s),
        ensures
            self.played(steps).len() == top - self.read_seq,
            forall|i: int|
                0 <= i < self.played(steps).len() ==> {
                    &&& (#[trigger] self.played(steps)[i]).0 == self.read_seq + 1 + i
                    &&& self.played(steps)[i].1 is Some <==> delivered(
                        writes_of(steps),
                        self.read_seq + 1 + i,
                    )
                },
    {
        let writes = writes_of(steps);
        assert forall|s: int| self.read_seq < s <= top implies #[trigger] self.covered(writes, s) by {
            if !delivered(writes, s) {
                assert forall|i: int| 0 <= i < self.write_seqs.len() implies self.write_seqs[i] > s
                    || #[trigger] passed(writes, i, s) by {}
            }
        }
        self.lemma_played_on_course(steps, top as int);
    }
}

} // verus!
