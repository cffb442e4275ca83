//! The messages of the websocket feed.
use vstd::prelude::*;
use crate::collections::book::OrderPrice;

verus! {

#[verifier::external_type_specification]
#[verifier::external_body]
pub struct ExUuid(uuid::Uuid);

/// `Uuid::clone`: a copy of the same id. The type is `Copy`, and its clone
/// is derived.
pub assume_specification[ <uuid::Uuid as Clone>::clone ](id: &uuid::Uuid) -> (copy: uuid::Uuid)
    ensures
        copy == *id,
;

/// A point in time: nanoseconds since the start of 1970, in universal time.
#[derive(PartialEq, Eq, Hash, Debug, Clone, Copy, Structural)]
pub struct UtcDateTime {
    pub nanoseconds: i64,
}

/// The side of an order, as the venue names it.
#[derive(PartialEq, Eq, Hash, Debug, Clone, Copy, Structural)]
pub enum Side {
    Buy,
    Sell,
}

/// Why an order is done.
#[derive(PartialEq, Eq, Hash, Debug, Clone, Copy, Structural)]
pub enum Reason {
    Filled,
    Canceled,
}

/// The kind of a stop order.
#[derive(PartialEq, Eq, Hash, Debug, Clone, Copy, Structural)]
pub enum StopType {
    Entry,
    Exit,
}

/// The user and the profile that an order of one's own belongs to.
#[derive(PartialEq, Eq, Hash, Debug, Clone)]
pub struct UserProfile {
    pub user_id: String,
    pub profile_id: String,
}

/// Whether an order made the trade or took it.
#[derive(PartialEq, Eq, Hash, Debug, Clone, Copy, Structural)]
pub enum PartType {
    Maker,
    Taker,
}

/// The part of one's own order in a trade, and the fee rate that it pays.
#[derive(PartialEq, Eq, Hash, Debug, Clone)]
pub struct OrderProfile {
    pub part_type: PartType,
    pub fee_rate: String,
}

/// The price and the size of a limit order.
#[derive(PartialEq, Eq, Hash, Debug, Clone)]
pub struct LimitQuote {
    pub price: String,
    pub remaining_size: String,
}

/// What a market order asks for: a size, funds to spend, or both.
#[derive(PartialEq, Eq, Hash, Debug, Clone)]
pub enum MarketQuote {
    Both { size: String, funds: String },
    Size { size: String },
    Funds { funds: String },
}

/// What an order asks for.
#[derive(PartialEq, Eq, Hash, Debug, Clone)]
pub enum Quote {
    Limit(LimitQuote),
    Market(MarketQuote),
}

/// How an order has shrunk: a limit order in its size, a market order in
/// its funds or in its size.
#[derive(PartialEq, Eq, Hash, Debug, Clone)]
pub enum Decrement {
    Limit { price: String, old_size: String, new_size: String },
    MarketFunds { old_funds: String, new_funds: String },
    MarketSize { old_size: String, new_size: String },
}

/// An order has been received.
#[derive(PartialEq, Eq, Hash, Debug, Clone)]
pub struct Received {
    pub sequence: u64,
    pub product_id: String,
    pub time: UtcDateTime,
    pub order_id: uuid::Uuid,
    pub side: Side,
    pub quote: Quote,
    pub client_oid: Option<uuid::Uuid>,
    pub user_profile: Option<UserProfile>,
}

/// An order is on the book.
#[derive(PartialEq, Eq, Hash, Debug, Clone)]
pub struct Open {
    pub sequence: u64,
    pub product_id: String,
    pub time: UtcDateTime,
    pub order_id: uuid::Uuid,
    pub side: Side,
    pub quote: LimitQuote,
    pub user_profile: Option<UserProfile>,
}

/// The size that is left of an order of which the venue says nothing.
pub fn zero() -> (size: String)
    ensures
        size@ == "0"@,
{
    "0".to_owned()
}

/// An order is off the book.
#[derive(PartialEq, Eq, Hash, Debug, Clone)]
pub struct Done {
    pub sequence: u64,
    pub product_id: String,
    pub time: UtcDateTime,
    pub order_id: uuid::Uuid,
    pub side: Side,
    pub reason: Reason,
    pub price: OrderPrice<String>,
    pub remaining_size: String,
    pub user_profile: Option<UserProfile>,
}

/// Two orders have traded.
#[derive(PartialEq, Eq, Hash, Debug, Clone)]
pub struct Match {
    pub sequence: u64,
    pub product_id: String,
    pub time: UtcDateTime,
    pub trade_id: u64,
    pub maker_order_id: uuid::Uuid,
    pub taker_order_id: uuid::Uuid,
    pub side: Side,
    pub price: String,
    pub size: String,
    pub user_profile: Option<UserProfile>,
    pub order_profile: Option<OrderProfile>,
}

/// An order has shrunk.
#[derive(PartialEq, Eq, Hash, Debug, Clone)]
pub struct Decremented {
    pub sequence: u64,
    pub product_id: String,
    pub time: UtcDateTime,
    pub order_id: uuid::Uuid,
    pub side: Side,
    pub decrement: Decrement,
    pub user_profile: Option<UserProfile>,
}

/// A message of the full channel.
#[derive(PartialEq, Eq, Hash, Debug, Clone)]
pub enum Full {
    Received(Received),
    Open(Open),
    Done(Done),
    Match(Match),
    Decremented(Decremented),
}

impl Full {
    /// The time of the message.
    pub open spec fn spec_time(&self) -> UtcDateTime {
        match self {
            Full::Received(m) => m.time,
            Full::Open(m) => m.time,
            Full::Done(m) => m.time,
            Full::Match(m) => m.time,
            Full::Decremented(m) => m.time,
        }
    }

    /// The number of the message in the sequence of its product.
    pub open spec fn spec_sequence(&self) -> u64 {
        match self {
            Full::Received(m) => m.sequence,
            Full::Open(m) => m.sequence,
            Full::Done(m) => m.sequence,
            Full::Match(m) => m.sequence,
            Full::Decremented(m) => m.sequence,
        }
    }

    /// The product that the message is about.
    pub open spec fn spec_product_id(&self) -> Seq<char> {
        match self {
            Full::Received(m) => m.product_id@,
            Full::Open(m) => m.product_id@,
            Full::Done(m) => m.product_id@,
            Full::Match(m) => m.product_id@,
            Full::Decremented(m) => m.product_id@,
        }
    }

    pub fn time(&self) -> (time: &UtcDateTime)
        ensures
            *time == self.spec_time(),
    {
        match &self {
            Full::Received(Received { time, .. }) => time,
            Full::Open(Open { time, .. }) => time,
            Full::Done(Done { time, .. }) => time,
            Full::Match(Match { time, .. }) => time,
            Full::Decremented(Decremented { time, .. }) => time,
        }
    }

    pub fn sequence(&self) -> (sequence: u64)
        ensures
            sequence == self.spec_sequence(),
    {
        match &self {
            Full::Received(Received { sequence, .. }) => *sequence,
            Full::Open(Open { sequence, .. }) => *sequence,
            Full::Done(Done { sequence, .. }) => *sequence,
            Full::Match(Match { sequence, .. }) => *sequence,
            Full::Decremented(Decremented { sequence, .. }) => *sequence,
        }
    }

    pub fn product_id(&self) -> (product_id: &str)
        ensures
            product_id@ == self.spec_product_id(),
    {
        match &self {
            Full::Received(Received { product_id, .. }) => product_id.as_str(),
            Full::Open(Open { product_id, .. }) => product_id.as_str(),
            Full::Done(Done { product_id, .. }) => product_id.as_str(),
            Full::Match(Match { product_id, .. }) => product_id.as_str(),
            Full::Decremented(Decremented { product_id, .. }) => product_id.as_str(),
        }
    }
}

/// A stop order has been activated.
#[derive(PartialEq, Eq, Hash, Debug, Clone)]
pub struct Activate {
    pub product_id: String,
    pub timestamp: String,
    pub order_id: uuid::Uuid,
    pub stop_type: StopType,
    pub side: Side,
    pub stop_price: String,
    pub size: String,
    pub funds: String,
    pub private: bool,
    pub user_profile: Option<UserProfile>,
}

/// The venue reports an error.
#[derive(PartialEq, Eq, Hash, Debug, Clone)]
pub struct ErrorMessage {
    pub message: String,
}

/// The channels that the venue has subscribed the connection to.
#[derive(PartialEq, Eq, Hash, Debug, Clone)]
pub struct Subscriptions {
    pub channels: Vec<Channel>,
}

/// The venue is alive.
#[derive(PartialEq, Eq, Hash, Debug, Clone)]
pub struct Heartbeat {
    pub last_sequence: u64,
    pub last_trade_id: u64,
    pub product_id: String,
    pub time: UtcDateTime,
}

/// A message of the feed.
#[derive(PartialEq, Eq, Hash, Debug, Clone)]
pub enum CBMessage {
    Full(Full),
    Heartbeat(Heartbeat),
    Activate(Activate),
    Subscriptions(Subscriptions),
    ErrorMessage(ErrorMessage),
}

/// The channels of the feed.
#[derive(PartialEq, Eq, Hash, Debug, Clone, Copy, Structural)]
pub enum ChannelType {
    Heartbeat,
    Ticker,
    Level2,
    Matches,
    Full,
    User,
}

/// A channel to subscribe to: for all products of the subscription, or for
/// products of its own.
#[derive(PartialEq, Eq, Hash, Debug, Clone)]
pub enum Channel {
    Name(ChannelType),
    WithProductIDs { name: ChannelType, product_ids: Vec<String> },
}

/// A channel as plain values.
pub struct ChannelView {
    pub name: ChannelType,
    /// The products of the channel's own, where it has any.
    pub product_ids: Option<Seq<Seq<char>>>,
}

/// The texts as plain values.
pub open spec fn texts(strings: Seq<String>) -> Seq<Seq<char>> {
    strings.map_values(|s: String| s@)
}

impl View for Channel {
    type V = ChannelView;

    open spec fn view(&self) -> ChannelView {
        match self {
            Channel::Name(name) => ChannelView { name: *name, product_ids: None },
            Channel::WithProductIDs { name, product_ids } => ChannelView {
                name: *name,
                product_ids: Some(texts(product_ids@)),
            },
        }
    }
}

/// Whether two lists hold the same texts in the same order.
pub fn same_texts(a: &Vec<String>, b: &Vec<String>) -> (same: bool)
    ensures
        same == (texts(a@) == texts(b@)),
{
    if a.len() != b.len() {
        assert(texts(a@).len() != texts(b@).len());
        return false;
    }
    let mut i: usize = 0;
    while i < a.len()
        invariant
            a@.len() == b@.len(),
            i <= a@.len(),
            forall|j: int| 0 <= j < i ==> a@[j]@ == b@[j]@,
        decreases a@.len() - i,
    {
        if a[i] != b[i] {
            assert(texts(a@)[i as int] != texts(b@)[i as int]);
            return false;
        }
        i += 1;
    }
    assert(texts(a@) =~= texts(b@));
    true
}

impl Channel {
    pub fn new(name: ChannelType) -> (channel: Self)
        ensures
            channel == Channel::Name(name),
    {
        Channel::Name(name)
    }

    pub fn with_product_ids(name: ChannelType, product_ids: Vec<String>) -> (channel: Self)
        ensures
            channel == (Channel::WithProductIDs { name, product_ids }),
    {
        Channel::WithProductIDs { name, product_ids }
    }

    /// Whether two channels are the same.
    pub fn same(&self, other: &Channel) -> (same: bool)
        ensures
            same == (self@ == other@),
    {
        match (self, other) {
            (Channel::Name(a), Channel::Name(b)) => *a == *b,
            (
                Channel::WithProductIDs { name: a, product_ids: pa },
                Channel::WithProductIDs { name: b, product_ids: pb },
            ) => *a == *b && same_texts(pa, pb),
            _ => false,
        }
    }
}

/// The items without those that have come before: of every item the
/// first stays, in its place among the others.
pub open spec fn deduped<T>(items: Seq<T>) -> Seq<T>
    decreases items.len(),
{
    if items.len() == 0 {
        items
    } else if deduped(items.drop_last()).contains(items.last()) {
        deduped(items.drop_last())
    } else {
        deduped(items.drop_last()).push(items.last())
    }
}

/// Whether no item comes twice.
pub open spec fn no_repeats<T>(items: Seq<T>) -> bool {
    forall|i: int, j: int| 0 <= i < j < items.len() ==> items[i] != items[j]
}

/// What is left of items is their union: every item once, and no other.
pub proof fn lemma_deduped_is_the_union<T>(items: Seq<T>)
    ensures
        no_repeats(deduped(items)),
        forall|x: T| deduped(items).contains(x) <==> items.contains(x),
    decreases items.len(),
{
    if items.len() > 0 {
        let front = items.drop_last();
        lemma_deduped_is_the_union(front);
        let kept = deduped(front);
        assert forall|x: T| deduped(items).contains(x) <==> items.contains(x) by {
            if items.contains(x) {
                let i = choose|i: int| 0 <= i < items.len() && items[i] == x;
                if i < front.len() {
                    assert(front[i] == x);
                    assert(front.contains(x));
                    assert(kept.contains(x));
                    let k = choose|k: int| 0 <= k < kept.len() && kept[k] == x;
                    assert(deduped(items)[k] == x);
                } else if !kept.contains(x) {
                    assert(deduped(items)[kept.len() as int] == x);
                }
            }
            if deduped(items).contains(x) {
                let k = choose|k: int| 0 <= k < deduped(items).len() && deduped(items)[k] == x;
                if k < kept.len() {
                    assert(kept[k] == x);
                    assert(front.contains(x));
                    let i = choose|i: int| 0 <= i < front.len() && front[i] == x;
                    assert(items[i] == x);
                } else {
                    assert(items[items.len() - 1] == x);
                }
            }
        }
        assert forall|i: int, j: int| 0 <= i < j < deduped(items).len() implies deduped(items)[i]
            != deduped(items)[j] by {
            if j == kept.len() {
                assert(kept[i] == deduped(items)[i]);
                if kept[i] == items.last() {
                    assert(kept.contains(items.last()));
                }
            } else {
                assert(kept[i] != kept[j]);
            }
        }
    }
}

/// Items of which none comes twice stay as they are.
pub proof fn lemma_deduped_keeps_what_has_no_repeats<T>(items: Seq<T>)
    requires
        no_repeats(items),
    ensures
        deduped(items) == items,
    decreases items.len(),
{
    if items.len() > 0 {
        let front = items.drop_last();
        assert(no_repeats(front)) by {
            assert forall|i: int, j: int| 0 <= i < j < front.len() implies front[i] != front[j] by {
                assert(items[i] != items[j]);
            }
        }
        lemma_deduped_keeps_what_has_no_repeats(front);
        if front.contains(items.last()) {
            let i = choose|i: int| 0 <= i < front.len() && front[i] == items.last();
            assert(items[i] != items[items.len() - 1]);
        }
        assert(front.push(items.last()) =~= items);
    }
}

/// What is left of a list stays first, and in its order, when more items
/// come behind the list.
pub proof fn lemma_deduped_goes_on<T>(first: Seq<T>, more: Seq<T>)
    ensures
        deduped(first).len() <= deduped(first + more).len(),
        deduped(first + more).take(deduped(first).len() as int) == deduped(first),
    decreases more.len(),
{
    if more.len() == 0 {
        assert(first + more =~= first);
        assert(deduped(first).take(deduped(first).len() as int) =~= deduped(first));
    } else {
        let front = more.drop_last();
        lemma_deduped_goes_on(first, front);
        assert((first + more).drop_last() =~= first + front);
        assert((first + more).last() == more.last());
        let kept = deduped(first + front);
        let n = deduped(first).len() as int;
        assert(deduped(first + more).take(n) =~= kept.take(n));
    }
}

/// A list that has taken items in is not changed by taking them in again.
pub proof fn lemma_merge_again_changes_nothing<T>(first: Seq<T>, more: Seq<T>)
    ensures
        deduped(deduped(first + more) + more) == deduped(first + more),
{
    let merged = deduped(first + more);
    lemma_deduped_is_the_union(first + more);
    lemma_deduped_keeps_what_has_no_repeats(merged);
    assert forall|i: int| 0 <= i < more.len() implies merged.contains(#[trigger] more[i]) by {
        assert((first + more)[first.len() + i] == more[i]);
        assert((first + more).contains(more[i]));
    }
    lemma_nothing_new(merged, more);
}

/// Items that a list without repeats holds already add nothing to it.
proof fn lemma_nothing_new<T>(list: Seq<T>, more: Seq<T>)
    requires
        deduped(list) == list,
        forall|i: int| 0 <= i < more.len() ==> list.contains(#[trigger] more[i]),
    ensures
        deduped(list + more) == list,
    decreases more.len(),
{
    if more.len() == 0 {
        assert(list + more =~= list);
    } else {
        let front = more.drop_last();
        assert forall|i: int| 0 <= i < front.len() implies list.contains(#[trigger] front[i]) by {
            assert(front[i] == more[i]);
        }
        lemma_nothing_new(list, front);
        assert((list + more).drop_last() =~= list + front);
        assert((list + more).last() == more[more.len() - 1]);
    }
}

/// The channels as plain values.
pub open spec fn channel_views(channels: Seq<Channel>) -> Seq<ChannelView> {
    channels.map_values(|c: Channel| c@)
}

/// A request to subscribe to channels for products.
#[derive(PartialEq, Eq, Hash, Debug, Clone)]
pub struct Subscribe {
    pub product_ids: Vec<String>,
    pub channels: Vec<Channel>,
}

/// What one more item does to what is left of a list: it joins where it
/// has not come before.
pub proof fn lemma_dedup_step<T>(items: Seq<T>, i: int)
    requires
        0 <= i < items.len(),
    ensures
        deduped(items.take(i + 1)) == if deduped(items.take(i)).contains(items[i]) {
            deduped(items.take(i))
        } else {
            deduped(items.take(i)).push(items[i])
        },
{
    assert(items.take(i + 1).drop_last() =~= items.take(i));
}

/// Whether a text is among the texts.
fn has_text(list: &Vec<String>, item: &String) -> (found: bool)
    ensures
        found == texts(list@).contains(item@),
{
    let mut i: usize = 0;
    while i < list.len()
        invariant
            i <= list@.len(),
            forall|k: int| 0 <= k < i ==> texts(list@)[k] != item@,
        decreases list@.len() - i,
    {
        if list[i] == *item {
            assert(texts(list@)[i as int] == item@);
            return true;
        }
        i += 1;
    }
    false
}

/// Whether a channel is among the channels.
fn has_channel(list: &Vec<Channel>, item: &Channel) -> (found: bool)
    ensures
        found == channel_views(list@).contains(item@),
{
    let mut i: usize = 0;
    while i < list.len()
        invariant
            i <= list@.len(),
            forall|k: int| 0 <= k < i ==> channel_views(list@)[k] != item@,
        decreases list@.len() - i,
    {
        if list[i].same(item) {
            assert(channel_views(list@)[i as int] == item@);
            return true;
        }
        i += 1;
    }
    false
}

/// Puts the texts of `more` behind those of `list`, each once: a text that
/// has come before is dropped.
fn merge_texts(list: &mut Vec<String>, more: Vec<String>)
    ensures
        texts(final(list)@) == deduped(texts(old(list)@) + texts(more@)),
{
    let ghost all = texts(old(list)@) + texts(more@);
    let mut joined: Vec<String> = Vec::new();
    let mut i: usize = 0;
    let total: usize = list.len();
    proof {
        assert(all.take(0) =~= Seq::<Seq<char>>::empty());
    }
    while i < total
        invariant
            total == list@.len(),
            *list == *old(list),
            i <= total,
            all == texts(old(list)@) + texts(more@),
            texts(joined@) == deduped(all.take(i as int)),
        decreases total - i,
    {
        let item = list[i].clone();
        proof {
            lemma_dedup_step(all, i as int);
        }
        if !has_text(&joined, &item) {
            joined.push(item);
        }
        proof {
            assert(texts(joined@) =~= deduped(all.take(i + 1)));
        }
        i += 1;
    }
    let mut j: usize = 0;
    while j < more.len()
        invariant
            total == old(list)@.len(),
            j <= more@.len(),
            all == texts(old(list)@) + texts(more@),
            texts(joined@) == deduped(all.take(total + j)),
        decreases more@.len() - j,
    {
        let item = more[j].clone();
        proof {
            lemma_dedup_step(all, total + j);
        }
        if !has_text(&joined, &item) {
            joined.push(item);
        }
        proof {
            assert(texts(joined@) =~= deduped(all.take(total + j + 1)));
        }
        j += 1;
    }
    proof {
        assert(all.take(all.len() as int) =~= all);
    }
    *list = joined;
}

/// Puts the channels of `more` behind those of `list`, each once: a
/// channel that has come before is dropped.
fn merge_channels(list: &mut Vec<Channel>, more: Vec<Channel>)
    ensures
        channel_views(final(list)@) == deduped(channel_views(old(list)@) + channel_views(more@)),
{
    let ghost all = channel_views(old(list)@) + channel_views(more@);
    let mut joined: Vec<Channel> = Vec::new();
    let mut i: usize = 0;
    let total: usize = list.len();
    proof {
        assert(all.take(0) =~= Seq::<ChannelView>::empty());
    }
    while i < total
        invariant
            total == list@.len(),
            *list == *old(list),
            i <= total,
            all == channel_views(old(list)@) + channel_views(more@),
            channel_views(joined@) == deduped(all.take(i as int)),
        decreases total - i,
    {
        proof {
            lemma_dedup_step(all, i as int);
        }
        if !has_channel(&joined, &list[i]) {
            let item = copy_channel(&list[i]);
            joined.push(item);
        }
        proof {
            assert(channel_views(joined@) =~= deduped(all.take(i + 1)));
        }
        i += 1;
    }
    let mut j: usize = 0;
    while j < more.len()
        invariant
            total == old(list)@.len(),
            j <= more@.len(),
            all == channel_views(old(list)@) + channel_views(more@),
            channel_views(joined@) == deduped(all.take(total + j)),
        decreases more@.len() - j,
    {
        proof {
            lemma_dedup_step(all, total + j);
        }
        if !has_channel(&joined, &more[j]) {
            let item = copy_channel(&more[j]);
            joined.push(item);
        }
        proof {
            assert(channel_views(joined@) =~= deduped(all.take(total + j + 1)));
        }
        j += 1;
    }
    proof {
        assert(all.take(all.len() as int) =~= all);
    }
    *list = joined;
}

/// A copy of the texts.
fn copy_texts(list: &Vec<String>) -> (copy: Vec<String>)
    ensures
        texts(copy@) == texts(list@),
{
    let mut copy: Vec<String> = Vec::new();
    let mut i: usize = 0;
    while i < list.len()
        invariant
            i <= list@.len(),
            copy@.len() == i,
            forall|j: int| 0 <= j < i ==> copy@[j]@ == list@[j]@,
        decreases list@.len() - i,
    {
        copy.push(list[i].clone());
        i += 1;
    }
    assert(texts(copy@) =~= texts(list@));
    copy
}

/// A copy of the channel.
fn copy_channel(channel: &Channel) -> (copy: Channel)
    ensures
        copy@ == channel@,
{
    match channel {
        Channel::Name(name) => Channel::Name(*name),
        Channel::WithProductIDs { name, product_ids } => Channel::WithProductIDs {
            name: *name,
            product_ids: copy_texts(product_ids),
        },
    }
}

impl Subscribe {
    /// Takes the channels and the products of another request in.
    ///
    /// The request then holds the union of the channels and of the
    /// products: its own first, then those of the other request that it
    /// did not hold, and none twice.
    pub fn merge(&mut self, other: Subscribe)
        ensures
            channel_views(final(self).channels@) == deduped(
                channel_views(old(self).channels@) + channel_views(other.channels@),
            ),
            texts(final(self).product_ids@) == deduped(
                texts(old(self).product_ids@) + texts(other.product_ids@),
            ),
    {
        merge_channels(&mut self.channels, other.channels);
        merge_texts(&mut self.product_ids, other.product_ids);
    }
}

} // verus!
