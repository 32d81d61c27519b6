//! The distributor: the merged book as subscribers see it, and what the
//! publisher and each subscription do next.
//!
//! The publisher hands every merged book once to a broadcast channel. Each
//! subscription reads that channel at its own pace and forwards into a
//! queue of its own, so that a slow subscriber holds up nobody else.

use vstd::prelude::*;
use crate::exchanges::{spec_xch_name, xch_name, Ask, Bid, BookView, Orderbook};

verus! {

/// How many updates wait between the exchanges and the aggregator, and how
/// many merged books between the aggregator and the publisher.
pub const QUEUE_LEN: usize = 64;

/// How many summaries the broadcast channel keeps for a subscription that
/// has fallen behind.
pub const BROADCAST_LEN: usize = 64;

/// How many summaries wait between a subscription and its subscriber.
pub const STREAM_LEN: usize = 4;

/// A level as subscribers see it.
#[derive(Debug, Clone, PartialEq, Eq)]
pub struct Level {
    /// The display name of the exchange.
    pub exchange: String,
    /// The price, in ticks.
    pub price: u64,
    /// The quantity, in ticks.
    pub amount: u64,
}

/// What a level holds.
pub struct LevelView {
    pub exchange: Seq<char>,
    pub price: u64,
    pub amount: u64,
}

impl View for Level {
    type V = LevelView;

    open spec fn view(&self) -> LevelView {
        LevelView { exchange: self.exchange@, price: self.price, amount: self.amount }
    }
}

/// The merged book as subscribers see it.
#[derive(Debug, Clone, PartialEq, Eq)]
pub struct Summary {
    /// The spread, in ticks.
    pub spread: i128,
    /// The bids, best first.
    pub bids: Vec<Level>,
    /// The asks, best first.
    pub asks: Vec<Level>,
}

/// What a summary holds.
pub struct SummaryView {
    pub spread: int,
    pub bids: Seq<LevelView>,
    pub asks: Seq<LevelView>,
}

impl View for Summary {
    type V = SummaryView;

    open spec fn view(&self) -> SummaryView {
        SummaryView {
            spread: self.spread as int,
            bids: self.bids@.map_values(|l: Level| l@),
            asks: self.asks@.map_values(|l: Level| l@),
        }
    }
}

/// A bid as subscribers see it.
pub open spec fn spec_bid_lvl(bid: Bid) -> LevelView {
    LevelView { exchange: spec_xch_name(bid.xch_id), price: bid.prc, amount: bid.qty }
}

/// An ask as subscribers see it.
pub open spec fn spec_ask_lvl(ask: Ask) -> LevelView {
    LevelView { exchange: spec_xch_name(ask.xch_id), price: ask.prc, amount: ask.qty }
}

/// A book as subscribers see it: the same spread, and level for level the
/// same bids and asks.
pub open spec fn spec_summary(book: BookView) -> SummaryView {
    SummaryView {
        spread: book.spd,
        bids: book.bids.map_values(|b: Bid| spec_bid_lvl(b)),
        asks: book.asks.map_values(|a: Ask| spec_ask_lvl(a)),
    }
}

/// Converts a bid to a level.
pub fn bid_lvl(bid: Bid) -> (lvl: Level)
    ensures
        lvl@ == spec_bid_lvl(bid),
{
    Level { exchange: xch_name(bid.xch_id), price: bid.prc, amount: bid.qty }
}

/// Converts an ask to a level.
pub fn ask_lvl(ask: Ask) -> (lvl: Level)
    ensures
        lvl@ == spec_ask_lvl(ask),
{
    Level { exchange: xch_name(ask.xch_id), price: ask.prc, amount: ask.qty }
}

/// Converts a book to what subscribers see of it.
pub fn summary(book: &Orderbook) -> (s: Summary)
    ensures
        s@ == spec_summary(book@),
{
    let mut bids: Vec<Level> = Vec::new();
    let mut i: usize = 0;
    while i < book.bids.len()
        invariant
            i <= book.bids.len(),
            bids@.map_values(|l: Level| l@) == book.bids@.take(i as int).map_values(
                |b: Bid| spec_bid_lvl(b),
            ),
        decreases book.bids.len() - i,
    {
        let ghost before = bids@;
        let lvl = bid_lvl(book.bids[i]);
        bids.push(lvl);
        proof {
            assert(book.bids@.take(i + 1) == book.bids@.take(i as int).push(book.bids@[i as int]));
            assert(bids@.map_values(|l: Level| l@) == before.map_values(|l: Level| l@).push(lvl@));
            assert(book.bids@.take(i + 1).map_values(|b: Bid| spec_bid_lvl(b)) == book.bids@.take(
                i as int,
            ).map_values(|b: Bid| spec_bid_lvl(b)).push(spec_bid_lvl(book.bids@[i as int])));
        }
        i += 1;
    }
    let mut asks: Vec<Level> = Vec::new();
    let mut j: usize = 0;
    while j < book.asks.len()
        invariant
            j <= book.asks.len(),
            asks@.map_values(|l: Level| l@) == book.asks@.take(j as int).map_values(
                |a: Ask| spec_ask_lvl(a),
            ),
        decreases book.asks.len() - j,
    {
        let ghost before = asks@;
        let lvl = ask_lvl(book.asks[j]);
        asks.push(lvl);
        proof {
            assert(book.asks@.take(j + 1) == book.asks@.take(j as int).push(book.asks@[j as int]));
            assert(asks@.map_values(|l: Level| l@) == before.map_values(|l: Level| l@).push(lvl@));
            assert(book.asks@.take(j + 1).map_values(|a: Ask| spec_ask_lvl(a)) == book.asks@.take(
                j as int,
            ).map_values(|a: Ask| spec_ask_lvl(a)).push(spec_ask_lvl(book.asks@[j as int])));
        }
        j += 1;
    }
    proof {
        assert(book.bids@.take(book.bids.len() as int) == book.bids@);
        assert(book.asks@.take(book.asks.len() as int) == book.asks@);
    }
    Summary { spread: book.spd, bids, asks }
}

/// Whether a loop of the distributor still runs.
#[derive(Debug, Clone, Copy, PartialEq, Eq)]
pub enum Stage {
    /// The loop runs.
    Active,
    /// The loop has ended, and does not start again.
    Closed,
}

/// What the publisher does next.
#[derive(Debug, Clone, PartialEq, Eq)]
pub enum Publish {
    /// Hand the summary to the broadcast channel, then wait for the next
    /// merged book.
    Send(Summary),
    /// End the loop.
    Stop,
}

/// The publisher: it takes the merged books from the aggregator and hands
/// each to the broadcast channel.
#[derive(Debug)]
pub struct KeyrockService {
    /// Whether the publisher still runs.
    pub stage: Stage,
}

impl KeyrockService {
    /// Returns a new publisher, running.
    pub fn new() -> (svc: Self)
        ensures
            svc.stage == Stage::Active,
    {
        KeyrockService { stage: Stage::Active }
    }

    /// What the publisher does with what the aggregator's queue gave: a
    /// merged book is sent on as a summary; the end of the queue ends the
    /// publisher, and an ended publisher sends nothing.
    pub fn on_merged(&mut self, merged: Option<Orderbook>) -> (next: Publish)
        ensures
            old(self).stage == Stage::Active && merged is Some ==> final(self).stage
                == Stage::Active && next is Send && next->Send_0@ == spec_summary(
                merged->Some_0@,
            ),
            old(self).stage == Stage::Closed || merged is None ==> final(self).stage
                == Stage::Closed && next == Publish::Stop,
    {
        match self.stage {
            Stage::Closed => Publish::Stop,
            Stage::Active => match merged {
                None => {
                    self.stage = Stage::Closed;
                    Publish::Stop
                },
                Some(book) => Publish::Send(summary(&book)),
            },
        }
    }

    /// What the publisher does once the broadcast channel has taken a
    /// summary, for `receivers` subscriptions or for none at all: nothing.
    /// It runs on as before, however many read it.
    pub fn on_sent(&mut self, receivers: Option<usize>)
        ensures
            *final(self) == *old(self),
    {
    }
}

/// What a subscription's loop has met.
#[derive(Debug, Clone, PartialEq, Eq)]
pub enum Heard {
    /// The broadcast channel gave the next summary.
    Message(Summary),
    /// The subscription fell behind, and the channel dropped this many
    /// summaries that it had not read yet.
    Lagged(u64),
    /// The broadcast channel is closed: the publisher is gone.
    ChannelClosed,
    /// The subscriber's queue took the summary that was forwarded.
    Delivered,
    /// The subscriber's queue is closed: the subscriber is gone.
    Disconnected,
}

/// What a subscription's loop does next.
#[derive(Debug, Clone, PartialEq, Eq)]
pub enum Bridge {
    /// Put the summary into the subscriber's queue, waiting for room.
    Forward(Summary),
    /// Wait for the broadcast channel.
    Receive,
    /// End the loop.
    Stop,
}

/// One subscriber's reader of the broadcast channel.
#[derive(Debug)]
pub struct Subscription {
    /// Whether the subscription still runs.
    pub stage: Stage,
    /// How many summaries the subscription has missed, as far as 64 bits
    /// count.
    pub missed: u64,
}

/// How many summaries are missed after `more` on top of `missed`.
pub open spec fn missed_after(missed: u64, more: u64) -> u64 {
    if missed + more > u64::MAX {
        u64::MAX
    } else {
        (missed + more) as u64
    }
}

/// The subscription after `heard`, and what its loop does next. An ended
/// subscription stays so. A running one forwards each summary, reads on
/// after a delivery and after a lag, of which it keeps count, and ends
/// where the channel or the subscriber is gone.
pub open spec fn bridge_step(stage: Stage, missed: u64, heard: Heard) -> (Stage, u64, Bridge) {
    match stage {
        Stage::Closed => (Stage::Closed, missed, Bridge::Stop),
        Stage::Active => match heard {
            Heard::Message(s) => (Stage::Active, missed, Bridge::Forward(s)),
            Heard::Lagged(n) => (Stage::Active, missed_after(missed, n), Bridge::Receive),
            Heard::Delivered => (Stage::Active, missed, Bridge::Receive),
            Heard::ChannelClosed => (Stage::Closed, missed, Bridge::Stop),
            Heard::Disconnected => (Stage::Closed, missed, Bridge::Stop),
        },
    }
}

impl Subscription {
    /// Returns a new subscription, running, that has missed nothing.
    pub fn new() -> (sub: Self)
        ensures
            sub.stage == Stage::Active,
            sub.missed == 0,
    {
        Subscription { stage: Stage::Active, missed: 0 }
    }

    /// Takes what the loop has met, and says what it does next.
    pub fn on_heard(&mut self, heard: Heard) -> (next: Bridge)
        ensures
            (final(self).stage, final(self).missed, next) == bridge_step(
                old(self).stage,
                old(self).missed,
                heard,
            ),
    {
        match self.stage {
            Stage::Closed => Bridge::Stop,
            Stage::Active => match heard {
                Heard::Message(s) => Bridge::Forward(s),
                Heard::Lagged(n) => {
                    self.missed = if n > u64::MAX - self.missed {
                        u64::MAX
                    } else {
                        self.missed + n
                    };
                    Bridge::Receive
                },
                Heard::Delivered => Bridge::Receive,
                Heard::ChannelClosed => {
                    self.stage = Stage::Closed;
                    Bridge::Stop
                },
                Heard::Disconnected => {
                    self.stage = Stage::Closed;
                    Bridge::Stop
                },
            },
        }
    }
}

/// The subscriptions of a distributor after the one at `i` has met `heard`:
/// that one takes its step, and every other stays as it is.
pub open spec fn heard_by(subs: Seq<(Stage, u64)>, i: int, heard: Heard) -> Seq<(Stage, u64)> {
    subs.update(
        i,
        (bridge_step(subs[i].0, subs[i].1, heard).0, bridge_step(subs[i].0, subs[i].1, heard).1),
    )
}

/// Whatever one subscription meets, a lag or the loss of its subscriber,
/// every other subscription is left as it was, and runs on if it ran.
pub proof fn lemma_others_run_on(subs: Seq<(Stage, u64)>, i: int, heard: Heard, j: int)
    requires
        0 <= i < subs.len(),
        0 <= j < subs.len(),
        i != j,
    ensures
        heard_by(subs, i, heard).len() == subs.len(),
        heard_by(subs, i, heard)[j] == subs[j],
        heard_by(subs, i, Heard::Disconnected)[i].0 == Stage::Closed,
{
}

/// A lag never ends a subscription: it reads on, and forwards the very
/// next summary that the channel gives.
pub proof fn lemma_lag_resumes(missed: u64, skipped: u64, s: Summary)
    ensures
        bridge_step(Stage::Active, missed, Heard::Lagged(skipped)).0 == Stage::Active,
        bridge_step(Stage::Active, missed, Heard::Lagged(skipped)).2 == Bridge::Receive,
        bridge_step(
            Stage::Active,
            bridge_step(Stage::Active, missed, Heard::Lagged(skipped)).1,
            Heard::Message(s),
        ).2 == Bridge::Forward(s),
{
}

/// An ended subscription stays ended, whatever it meets, and forwards
/// nothing more.
pub proof fn lemma_closed_is_final(missed: u64, heard: Heard)
    ensures
        bridge_step(Stage::Closed, missed, heard) == (Stage::Closed, missed, Bridge::Stop),
{
}

/// A subscription ends only where its own subscriber or the channel is
/// gone.
pub proof fn lemma_ends_only_when_gone(missed: u64, heard: Heard)
    ensures
        bridge_step(Stage::Active, missed, heard).0 == Stage::Closed <==> (heard
            == Heard::ChannelClosed || heard == Heard::Disconnected),
{
}

} // verus!
