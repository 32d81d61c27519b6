//! The aggregator: the last book of each exchange, and their merged view.

use vstd::prelude::*;
use crate::BID_ASK_LEN;
use crate::decimal::DecimalError;
use crate::exchanges::{
    lemma_levels_ok, level_verdict, snapshot_verdict, Ask, Bid, BookView, Orderbook, Quote,
    BINANCE_XCH_ID, BITSTAMP_XCH_ID,
};
use crate::rank::{
    lemma_rank_len, lemma_rank_permutes, lemma_rank_ranked, rank, stable_rank, top,
};

verus! {

/// Why an update was dropped.
#[derive(Debug, Clone, Copy, PartialEq, Eq)]
pub enum UpdateError {
    /// The update names an exchange that the aggregator does not follow.
    UnknownSource,
    /// A side of the book holds more levels than the depth limit.
    TooDeep,
    /// A level is attributed to another exchange than the update's.
    ForeignLevel,
    /// A level has no price.
    ZeroPrice,
}

/// The exchanges that the aggregator follows.
pub open spec fn known_source(xch_id: u8) -> bool {
    xch_id == BINANCE_XCH_ID || xch_id == BITSTAMP_XCH_ID
}

/// Every level of `s` comes from `xch_id`.
pub open spec fn tagged<T: Quote>(s: Seq<T>, xch_id: u8) -> bool {
    forall|i: int| 0 <= i < s.len() ==> (#[trigger] s[i]).source() == xch_id
}

/// Every level of `s` has a price above zero.
pub open spec fn priced<T: Quote>(s: Seq<T>) -> bool {
    forall|i: int| 0 <= i < s.len() ==> (#[trigger] s[i]).price() > 0
}

/// Whether `book` is taken as the new book of `xch_id`, and if not, why.
pub open spec fn update_verdict(xch_id: u8, book: BookView) -> Result<(), UpdateError> {
    if !known_source(xch_id) {
        Err(UpdateError::UnknownSource)
    } else if book.bids.len() > BID_ASK_LEN || book.asks.len() > BID_ASK_LEN {
        Err(UpdateError::TooDeep)
    } else if !tagged(book.bids, xch_id) || !tagged(book.asks, xch_id) {
        Err(UpdateError::ForeignLevel)
    } else if !priced(book.bids) || !priced(book.asks) {
        Err(UpdateError::ZeroPrice)
    } else {
        Ok(())
    }
}

/// The spread of a book: its best ask less its best bid, and zero where a
/// side is empty. It is negative where the book is crossed.
pub open spec fn spread_of(bids: Seq<Bid>, asks: Seq<Ask>) -> int {
    if bids.len() > 0 && asks.len() > 0 {
        asks[0].prc - bids[0].prc
    } else {
        0
    }
}

/// The merged book of two exchanges: on each side the levels of both,
/// Binance's first, ranked and cut to the depth limit.
pub open spec fn merged(bin: BookView, bit: BookView) -> BookView {
    let bids = top(stable_rank(bin.bids + bit.bids), BID_ASK_LEN as nat);
    let asks = top(stable_rank(bin.asks + bit.asks), BID_ASK_LEN as nat);
    BookView { spd: spread_of(bids, asks), bids, asks }
}

/// A book as the aggregator hands it on: no side deeper than the depth
/// limit, bids from the highest price down, asks from the lowest price up.
pub open spec fn in_order(book: BookView) -> bool {
    &&& book.bids.len() <= BID_ASK_LEN
    &&& book.asks.len() <= BID_ASK_LEN
    &&& forall|i: int, j: int| 0 <= i < j < book.bids.len() ==> book.bids[i].prc >= book.bids[j].prc
    &&& forall|i: int, j: int| 0 <= i < j < book.asks.len() ==> book.asks[i].prc <= book.asks[j].prc
}

/// What an aggregator holds.
pub struct AggregatorView {
    pub mrg: BookView,
    pub bin: BookView,
    pub bit: BookView,
}

impl AggregatorView {
    /// The aggregator before any exchange has reported.
    pub open spec fn initial() -> AggregatorView {
        AggregatorView { mrg: BookView::empty(), bin: BookView::empty(), bit: BookView::empty() }
    }

    /// The aggregator after the update `book` of `xch_id`: a dropped update
    /// changes nothing; one that is taken replaces the last book of its
    /// exchange, and the merged book is made anew.
    pub open spec fn apply(self, xch_id: u8, book: BookView) -> AggregatorView {
        if update_verdict(xch_id, book) is Err {
            self
        } else {
            let bin = if xch_id == BINANCE_XCH_ID {
                book
            } else {
                self.bin
            };
            let bit = if xch_id == BINANCE_XCH_ID {
                self.bit
            } else {
                book
            };
            AggregatorView { mrg: merged(bin, bit), bin, bit }
        }
    }

    /// The aggregator after the updates `events`, in their order.
    pub open spec fn run(self, events: Seq<(u8, BookView)>) -> AggregatorView
        decreases events.len(),
    {
        if events.len() == 0 {
            self
        } else {
            self.run(events.drop_last()).apply(events.last().0, events.last().1)
        }
    }

    /// The merged books that the updates `events` give rise to, in their
    /// order: one for each update that is taken.
    pub open spec fn emitted(self, events: Seq<(u8, BookView)>) -> Seq<BookView>
        decreases events.len(),
    {
        if events.len() == 0 {
            Seq::empty()
        } else {
            let before = self.emitted(events.drop_last());
            if update_verdict(events.last().0, events.last().1) is Ok {
                before.push(self.run(events).mrg)
            } else {
                before
            }
        }
    }

    /// The merged book is the merge of the two last books.
    pub open spec fn wf(self) -> bool {
        self.mrg == merged(self.bin, self.bit)
    }
}

/// The updates in `updates`, each with what its book holds.
pub open spec fn events_of(updates: Seq<(u8, Orderbook)>) -> Seq<(u8, BookView)> {
    updates.map_values(|e: (u8, Orderbook)| (e.0, e.1@))
}

/// What the books in `books` hold.
pub open spec fn books_of(books: Seq<Orderbook>) -> Seq<BookView> {
    books.map_values(|b: Orderbook| b@)
}

/// What the aggregator's loop does next. It ends on `Stop`, and where the
/// queue that takes the merged books is closed.
#[derive(Debug, Clone, PartialEq, Eq)]
pub enum Emit {
    /// Hand the merged book on, then wait for the next update.
    Send(Orderbook),
    /// The update was dropped for this reason: wait for the next one.
    Skip(UpdateError),
    /// End the loop.
    Stop,
}

/// An order book aggregator.
#[derive(Debug, Clone)]
pub struct Aggregator {
    /// The merged order book.
    pub mrg: Orderbook,
    /// The last received Binance order book.
    pub bin: Orderbook,
    /// The last received Bitstamp order book.
    pub bit: Orderbook,
}

impl View for Aggregator {
    type V = AggregatorView;

    open spec fn view(&self) -> AggregatorView {
        AggregatorView { mrg: self.mrg@, bin: self.bin@, bit: self.bit@ }
    }
}

/// Whether every level of `levels` comes from `xch_id`.
pub fn all_from<T: Quote>(levels: &Vec<T>, xch_id: u8) -> (b: bool)
    ensures
        b == tagged(levels@, xch_id),
{
    let mut i: usize = 0;
    while i < levels.len()
        invariant
            i <= levels.len(),
            tagged(levels@.take(i as int), xch_id),
        decreases levels.len() - i,
    {
        if levels[i].xch() != xch_id {
            return false;
        }
        proof {
            let s = levels@.take(i + 1);
            assert forall|k: int| 0 <= k < s.len() implies (#[trigger] s[k]).source()
                == xch_id by {
                if k < i {
                    assert(s[k] == levels@.take(i as int)[k]);
                }
            }
        }
        i += 1;
    }
    proof {
        assert(levels@.take(levels.len() as int) == levels@);
    }
    true
}

/// Whether every level of `levels` has a price above zero.
pub fn all_priced<T: Quote>(levels: &Vec<T>) -> (b: bool)
    ensures
        b == priced(levels@),
{
    let mut i: usize = 0;
    while i < levels.len()
        invariant
            i <= levels.len(),
            priced(levels@.take(i as int)),
        decreases levels.len() - i,
    {
        if levels[i].ticks() == 0 {
            return false;
        }
        proof {
            let s = levels@.take(i + 1);
            assert forall|k: int| 0 <= k < s.len() implies (#[trigger] s[k]).price() > 0 by {
                if k < i {
                    assert(s[k] == levels@.take(i as int)[k]);
                }
            }
        }
        i += 1;
    }
    proof {
        assert(levels@.take(levels.len() as int) == levels@);
    }
    true
}

/// Decides whether `book` is taken as the new book of `xch_id`.
pub fn check_update(xch_id: u8, book: &Orderbook) -> (r: Result<(), UpdateError>)
    ensures
        r == update_verdict(xch_id, book@),
{
    if xch_id != BINANCE_XCH_ID && xch_id != BITSTAMP_XCH_ID {
        Err(UpdateError::UnknownSource)
    } else if book.bids.len() > BID_ASK_LEN || book.asks.len() > BID_ASK_LEN {
        Err(UpdateError::TooDeep)
    } else if !all_from(&book.bids, xch_id) || !all_from(&book.asks, xch_id) {
        Err(UpdateError::ForeignLevel)
    } else if !all_priced(&book.bids) || !all_priced(&book.asks) {
        Err(UpdateError::ZeroPrice)
    } else {
        Ok(())
    }
}

/// The levels of `first` followed by those of `second`, ranked and cut to
/// the depth limit.
pub fn merge_side<T: Quote>(first: &Vec<T>, second: &Vec<T>) -> (out: Vec<T>)
    ensures
        out@ == top(stable_rank(first@ + second@), BID_ASK_LEN as nat),
{
    let mut all: Vec<T> = Vec::new();
    let mut i: usize = 0;
    while i < first.len()
        invariant
            i <= first.len(),
            all@ == first@.take(i as int),
        decreases first.len() - i,
    {
        all.push(first[i]);
        proof {
            assert(first@.take(i + 1) == first@.take(i as int).push(first@[i as int]));
        }
        i += 1;
    }
    let mut j: usize = 0;
    while j < second.len()
        invariant
            j <= second.len(),
            all@ == first@ + second@.take(j as int),
        decreases second.len() - j,
    {
        all.push(second[j]);
        proof {
            assert(second@.take(j + 1) == second@.take(j as int).push(second@[j as int]));
            assert(first@ + second@.take(j + 1) == (first@ + second@.take(j as int)).push(
                second@[j as int],
            ));
        }
        j += 1;
    }
    proof {
        assert(first@.take(first.len() as int) == first@);
        assert(second@.take(second.len() as int) == second@);
    }
    let mut out = rank(&all);
    out.truncate(BID_ASK_LEN);
    out
}

/// Every merged book is in order, whatever the two books that it is made of.
pub proof fn lemma_merged_in_order(bin: BookView, bit: BookView)
    ensures
        in_order(merged(bin, bit)),
{
    let bids = stable_rank(bin.bids + bit.bids);
    let asks = stable_rank(bin.asks + bit.asks);
    lemma_rank_ranked(bin.bids + bit.bids);
    lemma_rank_ranked(bin.asks + bit.asks);
    let m = merged(bin, bit);
    assert forall|i: int, j: int| 0 <= i < j < m.bids.len() implies m.bids[i].prc
        >= m.bids[j].prc by {
        assert(m.bids[i] == bids[i] && m.bids[j] == bids[j]);
        assert(bids[i].rank_key() <= bids[j].rank_key());
    }
    assert forall|i: int, j: int| 0 <= i < j < m.asks.len() implies m.asks[i].prc
        <= m.asks[j].prc by {
        assert(m.asks[i] == asks[i] && m.asks[j] == asks[j]);
        assert(asks[i].rank_key() <= asks[j].rank_key());
    }
}

/// A merged bid is a bid of one of the two books, and a bid that the depth
/// limit cuts off is priced no higher than any bid that is kept.
pub proof fn lemma_merged_bids_best(bin: BookView, bit: BookView, i: int, j: int)
    requires
        0 <= i < merged(bin, bit).bids.len(),
        merged(bin, bit).bids.len() <= j < bin.bids.len() + bit.bids.len(),
    ensures
        stable_rank(bin.bids + bit.bids).to_multiset() == (bin.bids + bit.bids).to_multiset(),
        merged(bin, bit).bids[i] == stable_rank(bin.bids + bit.bids)[i],
        merged(bin, bit).bids[i].prc >= stable_rank(bin.bids + bit.bids)[j].prc,
{
    let all = stable_rank(bin.bids + bit.bids);
    lemma_rank_ranked(bin.bids + bit.bids);
    lemma_rank_len(bin.bids + bit.bids);
    lemma_rank_permutes(bin.bids + bit.bids);
    assert(all[i].rank_key() <= all[j].rank_key());
}

/// A merged ask is an ask of one of the two books, and an ask that the depth
/// limit cuts off is priced no lower than any ask that is kept.
pub proof fn lemma_merged_asks_best(bin: BookView, bit: BookView, i: int, j: int)
    requires
        0 <= i < merged(bin, bit).asks.len(),
        merged(bin, bit).asks.len() <= j < bin.asks.len() + bit.asks.len(),
    ensures
        stable_rank(bin.asks + bit.asks).to_multiset() == (bin.asks + bit.asks).to_multiset(),
        merged(bin, bit).asks[i] == stable_rank(bin.asks + bit.asks)[i],
        merged(bin, bit).asks[i].prc <= stable_rank(bin.asks + bit.asks)[j].prc,
{
    let all = stable_rank(bin.asks + bit.asks);
    lemma_rank_ranked(bin.asks + bit.asks);
    lemma_rank_len(bin.asks + bit.asks);
    lemma_rank_permutes(bin.asks + bit.asks);
    assert(all[i].rank_key() <= all[j].rank_key());
}

/// Taking the same update twice in a row leaves the aggregator as taking
/// it once does.
pub proof fn lemma_update_idempotent(s: AggregatorView, xch_id: u8, book: BookView)
    ensures
        s.apply(xch_id, book).apply(xch_id, book) == s.apply(xch_id, book),
{
}

/// An update is judged by itself, and merged with whatever the other
/// exchange has last reported: where that exchange has not reported at all,
/// the merged book is the update's own levels, ranked and cut.
pub proof fn lemma_first_report(s: AggregatorView, xch_id: u8, book: BookView)
    requires
        update_verdict(xch_id, book) is Ok,
    ensures
        xch_id == BINANCE_XCH_ID ==> s.apply(xch_id, book).bit == s.bit && s.apply(
            xch_id,
            book,
        ).mrg == merged(book, s.bit),
        xch_id == BITSTAMP_XCH_ID ==> s.apply(xch_id, book).bin == s.bin && s.apply(
            xch_id,
            book,
        ).mrg == merged(s.bin, book),
        (xch_id == BINANCE_XCH_ID && s.bit.bids.len() == 0 && s.bit.asks.len() == 0) || (xch_id
            == BITSTAMP_XCH_ID && s.bin.bids.len() == 0 && s.bin.asks.len() == 0) ==> {
            &&& s.apply(xch_id, book).mrg.bids == top(stable_rank(book.bids), BID_ASK_LEN as nat)
            &&& s.apply(xch_id, book).mrg.asks == top(stable_rank(book.asks), BID_ASK_LEN as nat)
        },
{
    if xch_id == BINANCE_XCH_ID && s.bit.bids.len() == 0 && s.bit.asks.len() == 0 {
        assert(book.bids + s.bit.bids == book.bids);
        assert(book.asks + s.bit.asks == book.asks);
    }
    if xch_id == BITSTAMP_XCH_ID && s.bin.bids.len() == 0 && s.bin.asks.len() == 0 {
        assert(s.bin.bids + book.bids == book.bids);
        assert(s.bin.asks + book.asks == book.asks);
    }
}

/// A book made from a depth message has no spread, is no deeper than the
/// depth limit and holds levels of its exchange only: the aggregator drops
/// it for nothing but an exchange that it does not follow or a price of
/// zero.
pub proof fn lemma_snapshot_shape(
    xch_id: u8,
    bids: Seq<(Seq<u8>, Seq<u8>)>,
    asks: Seq<(Seq<u8>, Seq<u8>)>,
)
    requires
        snapshot_verdict(xch_id, bids, asks) is Ok,
    ensures
        snapshot_verdict(xch_id, bids, asks)->Ok_0.spd == 0,
        snapshot_verdict(xch_id, bids, asks)->Ok_0.bids.len() == top(
            bids,
            BID_ASK_LEN as nat,
        ).len(),
        snapshot_verdict(xch_id, bids, asks)->Ok_0.asks.len() == top(
            asks,
            BID_ASK_LEN as nat,
        ).len(),
        tagged(snapshot_verdict(xch_id, bids, asks)->Ok_0.bids, xch_id),
        tagged(snapshot_verdict(xch_id, bids, asks)->Ok_0.asks, xch_id),
        known_source(xch_id) ==> update_verdict(xch_id, snapshot_verdict(xch_id, bids, asks)->Ok_0)
            is Ok || update_verdict(xch_id, snapshot_verdict(xch_id, bids, asks)->Ok_0) == Err::<
            (),
            UpdateError,
        >(UpdateError::ZeroPrice),
{
    let book = snapshot_verdict(xch_id, bids, asks)->Ok_0;
    let b = top(bids, BID_ASK_LEN as nat);
    let a = top(asks, BID_ASK_LEN as nat);
    lemma_levels_ok::<Bid>(xch_id, b);
    lemma_levels_ok::<Ask>(xch_id, a);
    assert forall|i: int| 0 <= i < book.bids.len() implies (#[trigger] book.bids[i]).source()
        == xch_id by {
        assert(level_verdict::<Bid>(xch_id, b[i]) == Ok::<Bid, DecimalError>(book.bids[i]));
    }
    assert forall|i: int| 0 <= i < book.asks.len() implies (#[trigger] book.asks[i]).source()
        == xch_id by {
        assert(level_verdict::<Ask>(xch_id, a[i]) == Ok::<Ask, DecimalError>(book.asks[i]));
    }
}

/// From its start on, whatever updates arrive, the aggregator's merged book
/// is the merge of the two last books, and is in order.
pub proof fn lemma_run_in_order(events: Seq<(u8, BookView)>)
    ensures
        AggregatorView::initial().run(events).wf(),
        in_order(AggregatorView::initial().run(events).mrg),
    decreases events.len(),
{
    let start = AggregatorView::initial();
    if events.len() == 0 {
        assert(start.bin.bids + start.bit.bids == Seq::<Bid>::empty());
        assert(start.bin.asks + start.bit.asks == Seq::<Ask>::empty());
        assert(start.mrg.bids == merged(start.bin, start.bit).bids);
        assert(start.mrg.asks == merged(start.bin, start.bit).asks);
    } else {
        lemma_run_in_order(events.drop_last());
    }
    let end = start.run(events);
    lemma_merged_in_order(end.bin, end.bit);
}

/// Every merged book that is handed on is in order, whatever the
/// aggregator held before and whatever updates arrive.
pub proof fn lemma_emitted_in_order(s: AggregatorView, events: Seq<(u8, BookView)>, i: int)
    requires
        0 <= i < s.emitted(events).len(),
    ensures
        in_order(s.emitted(events)[i]),
    decreases events.len(),
{
    if events.len() > 0 {
        let before = s.emitted(events.drop_last());
        if i < before.len() {
            lemma_emitted_in_order(s, events.drop_last(), i);
        } else {
            let end = s.run(events);
            lemma_merged_in_order(end.bin, end.bit);
        }
    }
}

/// Merges the last books of the two exchanges.
pub fn merge(bin: &Orderbook, bit: &Orderbook) -> (mrg: Orderbook)
    ensures
        mrg@ == merged(bin@, bit@),
        in_order(mrg@),
{
    proof {
        lemma_merged_in_order(bin@, bit@);
    }
    let bids = merge_side(&bin.bids, &bit.bids);
    let asks = merge_side(&bin.asks, &bit.asks);
    let spd: i128 = if bids.len() > 0 && asks.len() > 0 {
        asks[0].prc as i128 - bids[0].prc as i128
    } else {
        0
    };
    Orderbook { spd, bids, asks }
}

impl Aggregator {
    /// Returns a new instance of an order book aggregator.
    pub fn new() -> (agg: Self)
        ensures
            agg@ == AggregatorView::initial(),
    {
        Aggregator {
            mrg: Orderbook::with_capacity(BID_ASK_LEN * 2),
            bin: Orderbook::new(),
            bit: Orderbook::new(),
        }
    }

    /// Takes one update: `book` becomes the last book of `xch_id` and the
    /// merged book is made anew, or the update is dropped and nothing
    /// changes.
    pub fn on_update(&mut self, xch_id: u8, book: Orderbook) -> (r: Result<(), UpdateError>)
        ensures
            r == update_verdict(xch_id, book@),
            final(self)@ == old(self)@.apply(xch_id, book@),
            r is Err ==> *final(self) == *old(self),
            r is Ok ==> final(self)@.wf() && in_order(final(self)@.mrg),
    {
        let verdict = check_update(xch_id, &book);
        if verdict.is_err() {
            return verdict;
        }
        if xch_id == BINANCE_XCH_ID {
            self.bin = book;
        } else {
            self.bit = book;
        }
        self.mrg = merge(&self.bin, &self.bit);
        Ok(())
    }

    /// What the aggregator does with what the queue of updates gave: an
    /// update is taken or dropped as `on_update` says, and the merged book
    /// of one that is taken is handed on; the end of the queue ends the loop.
    pub fn on_inbound(&mut self, inbound: Option<(u8, Orderbook)>) -> (next: Emit)
        ensures
            match inbound {
                None => next == Emit::Stop && *final(self) == *old(self),
                Some(update) => final(self)@ == old(self)@.apply(update.0, update.1@)
                    && match update_verdict(update.0, update.1@) {
                    Ok(_) => next is Send && next->Send_0@ == final(self)@.mrg,
                    Err(e) => next == Emit::Skip(e),
                },
            },
    {
        match inbound {
            None => Emit::Stop,
            Some(update) => match self.on_update(update.0, update.1) {
                Ok(_) => Emit::Send(self.mrg.duplicate()),
                Err(e) => Emit::Skip(e),
            },
        }
    }

    /// Takes the updates of `updates` one after the other, and returns the
    /// merged books to hand on: one for each update that is taken.
    pub fn aggregate_streams(&mut self, updates: &Vec<(u8, Orderbook)>) -> (out: Vec<Orderbook>)
        ensures
            final(self)@ == old(self)@.run(events_of(updates@)),
            books_of(out@) == old(self)@.emitted(events_of(updates@)),
    {
        let ghost events = events_of(updates@);
        let ghost start = self@;
        let mut out: Vec<Orderbook> = Vec::new();
        let mut i: usize = 0;
        proof {
            assert(books_of(out@) == Seq::<BookView>::empty());
        }
        while i < updates.len()
            invariant
                i <= updates.len(),
                events == events_of(updates@),
                self@ == start.run(events.take(i as int)),
                books_of(out@) == start.emitted(events.take(i as int)),
            decreases updates.len() - i,
        {
            let ghost before = out@;
            let book = updates[i].1.duplicate();
            proof {
                assert(events.take(i + 1).drop_last() == events.take(i as int));
                assert(events.take(i + 1).last() == (updates@[i as int].0, updates@[i as int].1@));
            }
            if self.on_update(updates[i].0, book).is_ok() {
                out.push(self.mrg.duplicate());
                proof {
                    assert(books_of(out@) == books_of(before).push(self@.mrg));
                }
            }
            i += 1;
        }
        proof {
            assert(events.take(updates.len() as int) == events);
        }
        out
    }
}

} // verus!
