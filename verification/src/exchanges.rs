//! The normalized order book and the sources that feed it.

use vstd::prelude::*;
use vstd::string::StringExecFns;
use vstd::utf8::encode_utf8;
use crate::BID_ASK_LEN;
use crate::decimal::{parse_decimal, parse_verdict, DecimalError};
use crate::rank::top;

verus! {

/// The Binance exchange id.
pub const BINANCE_XCH_ID: u8 = 1;

/// The Bitstamp exchange id.
pub const BITSTAMP_XCH_ID: u8 = 2;

/// The Binance display name.
pub const BINANCE_NAME: &'static str = "binance";

/// The Bitstamp display name.
pub const BITSTAMP_NAME: &'static str = "bitstamp";

/// A level of one side of the book: attributed to a source, priced, and
/// ranked against the other levels of its side.
pub trait Quote: Copy + Sized {
    /// The exchange that the level comes from.
    spec fn source(&self) -> u8;

    /// The price of the level, in ticks.
    spec fn price(&self) -> u64;

    /// The ranking key: the smaller the key, the better the level.
    spec fn rank_key(&self) -> int;

    /// The level of `xch_id` with price `prc` and quantity `qty`.
    spec fn level(xch_id: u8, prc: u64, qty: u64) -> Self;

    /// Makes the level of `xch_id` with price `prc` and quantity `qty`.
    fn make(xch_id: u8, prc: u64, qty: u64) -> (l: Self)
        ensures
            l == Self::level(xch_id, prc, qty),
    ;

    /// The exchange that the level comes from.
    fn xch(&self) -> (id: u8)
        ensures
            id == self.source(),
    ;

    /// The price of the level, in ticks.
    fn ticks(&self) -> (p: u64)
        ensures
            p == self.price(),
    ;

    /// Whether `self` is strictly better than `other`.
    fn outranks(&self, other: &Self) -> (b: bool)
        ensures
            b == (self.rank_key() < other.rank_key()),
    ;
}

/// An order book `bid`.
#[derive(Debug, Clone, Copy, PartialEq, Eq)]
pub struct Bid {
    /// An exchange id.
    pub xch_id: u8,
    /// A bid price, in ticks.
    pub prc: u64,
    /// A bid quantity, in ticks.
    pub qty: u64,
}

/// An order book `ask`.
#[derive(Debug, Clone, Copy, PartialEq, Eq)]
pub struct Ask {
    /// An exchange id.
    pub xch_id: u8,
    /// An ask price, in ticks.
    pub prc: u64,
    /// An ask quantity, in ticks.
    pub qty: u64,
}

impl Quote for Bid {
    open spec fn source(&self) -> u8 {
        self.xch_id
    }

    open spec fn price(&self) -> u64 {
        self.prc
    }

    /// The highest bid is the best one.
    open spec fn rank_key(&self) -> int {
        -(self.prc as int)
    }

    open spec fn level(xch_id: u8, prc: u64, qty: u64) -> Self {
        Bid { xch_id, prc, qty }
    }

    fn make(xch_id: u8, prc: u64, qty: u64) -> (l: Self) {
        Bid { xch_id, prc, qty }
    }

    fn xch(&self) -> (id: u8) {
        self.xch_id
    }

    fn ticks(&self) -> (p: u64) {
        self.prc
    }

    fn outranks(&self, other: &Self) -> (b: bool) {
        self.prc > other.prc
    }
}

impl Quote for Ask {
    open spec fn source(&self) -> u8 {
        self.xch_id
    }

    open spec fn price(&self) -> u64 {
        self.prc
    }

    /// The lowest ask is the best one.
    open spec fn rank_key(&self) -> int {
        self.prc as int
    }

    open spec fn level(xch_id: u8, prc: u64, qty: u64) -> Self {
        Ask { xch_id, prc, qty }
    }

    fn make(xch_id: u8, prc: u64, qty: u64) -> (l: Self) {
        Ask { xch_id, prc, qty }
    }

    fn xch(&self) -> (id: u8) {
        self.xch_id
    }

    fn ticks(&self) -> (p: u64) {
        self.prc
    }

    fn outranks(&self, other: &Self) -> (b: bool) {
        self.prc < other.prc
    }
}

/// An order book.
#[derive(Debug, Clone, PartialEq, Eq)]
pub struct Orderbook {
    /// Spread for the order book, in ticks.
    pub spd: i128,
    /// Bids of an order book.
    pub bids: Vec<Bid>,
    /// Asks of an order book.
    pub asks: Vec<Ask>,
}

/// What an order book holds.
pub struct BookView {
    pub spd: int,
    pub bids: Seq<Bid>,
    pub asks: Seq<Ask>,
}

impl View for Orderbook {
    type V = BookView;

    open spec fn view(&self) -> BookView {
        BookView { spd: self.spd as int, bids: self.bids@, asks: self.asks@ }
    }
}

impl BookView {
    /// The book with no level on either side and no spread.
    pub open spec fn empty() -> BookView {
        BookView { spd: 0, bids: Seq::empty(), asks: Seq::empty() }
    }
}

/// A copy of `levels`.
pub fn copy_levels<T: Quote>(levels: &Vec<T>) -> (out: Vec<T>)
    ensures
        out@ == levels@,
{
    let mut out: Vec<T> = Vec::new();
    let mut i: usize = 0;
    while i < levels.len()
        invariant
            i <= levels.len(),
            out@ == levels@.take(i as int),
        decreases levels.len() - i,
    {
        out.push(levels[i]);
        proof {
            assert(levels@.take(i + 1) == levels@.take(i as int).push(levels@[i as int]));
        }
        i += 1;
    }
    proof {
        assert(levels@.take(levels.len() as int) == levels@);
    }
    out
}

impl Orderbook {
    /// Returns a new order book.
    pub fn new() -> (book: Self)
        ensures
            book@ == BookView::empty(),
    {
        Orderbook { spd: 0, bids: Vec::new(), asks: Vec::new() }
    }

    /// Returns a new order book with vectors initialized with the specified capacity.
    pub fn with_capacity(capacity: usize) -> (book: Self)
        ensures
            book@ == BookView::empty(),
    {
        Orderbook { spd: 0, bids: Vec::with_capacity(capacity), asks: Vec::with_capacity(capacity) }
    }

    /// Clear the asks and bids.
    pub fn clear(&mut self)
        ensures
            final(self)@ == (BookView { spd: old(self)@.spd, ..BookView::empty() }),
    {
        self.bids.clear();
        self.asks.clear();
    }

    /// A copy of the book.
    pub fn duplicate(&self) -> (book: Self)
        ensures
            book@ == self@,
    {
        Orderbook { spd: self.spd, bids: copy_levels(&self.bids), asks: copy_levels(&self.asks) }
    }
}

/// The display name of an exchange: Binance's for its id, Bitstamp's for
/// every other id.
pub open spec fn spec_xch_name(id: u8) -> Seq<char> {
    if id == BINANCE_XCH_ID {
        BINANCE_NAME@
    } else {
        BITSTAMP_NAME@
    }
}

#[inline]
pub fn xch_name(id: u8) -> (name: String)
    ensures
        name@ == spec_xch_name(id),
{
    if id == BINANCE_XCH_ID {
        return BINANCE_NAME.to_owned();
    }
    BITSTAMP_NAME.to_owned()
}

/// The rows of a depth message, each as the bytes of its price and of its
/// quantity.
pub open spec fn row_bytes(rows: Seq<(String, String)>) -> Seq<(Seq<u8>, Seq<u8>)> {
    rows.map_values(|r: (String, String)| (encode_utf8(r.0@), encode_utf8(r.1@)))
}

/// The level of `xch_id` that a row writes, or why the row is not read: the
/// price is read first.
pub open spec fn level_verdict<T: Quote>(xch_id: u8, row: (Seq<u8>, Seq<u8>)) -> Result<
    T,
    DecimalError,
> {
    match parse_verdict(row.0) {
        Err(e) => Err(e),
        Ok(prc) => match parse_verdict(row.1) {
            Err(e) => Err(e),
            Ok(qty) => Ok(T::level(xch_id, prc, qty)),
        },
    }
}

/// The levels of `xch_id` that the rows write, in their order, or why the
/// first row that is not read is not.
pub open spec fn levels_verdict<T: Quote>(xch_id: u8, rows: Seq<(Seq<u8>, Seq<u8>)>) -> Result<
    Seq<T>,
    DecimalError,
>
    decreases rows.len(),
{
    if rows.len() == 0 {
        Ok(Seq::empty())
    } else {
        match levels_verdict::<T>(xch_id, rows.drop_last()) {
            Err(e) => Err(e),
            Ok(levels) => match level_verdict::<T>(xch_id, rows.last()) {
                Err(e) => Err(e),
                Ok(level) => Ok(levels.push(level)),
            },
        }
    }
}

/// The book of `xch_id` that a depth message writes: of each side the rows
/// up to the depth limit, bids read before asks, and no spread.
pub open spec fn snapshot_verdict(
    xch_id: u8,
    bids: Seq<(Seq<u8>, Seq<u8>)>,
    asks: Seq<(Seq<u8>, Seq<u8>)>,
) -> Result<BookView, DecimalError> {
    match levels_verdict::<Bid>(xch_id, top(bids, BID_ASK_LEN as nat)) {
        Err(e) => Err(e),
        Ok(b) => match levels_verdict::<Ask>(xch_id, top(asks, BID_ASK_LEN as nat)) {
            Err(e) => Err(e),
            Ok(a) => Ok(BookView { spd: 0, bids: b, asks: a }),
        },
    }
}

/// A row that is not read among the first rows is not read among all.
pub proof fn lemma_levels_err<T: Quote>(xch_id: u8, rows: Seq<(Seq<u8>, Seq<u8>)>, k: int)
    requires
        0 <= k <= rows.len(),
        levels_verdict::<T>(xch_id, rows.take(k)) is Err,
    ensures
        levels_verdict::<T>(xch_id, rows) == levels_verdict::<T>(xch_id, rows.take(k)),
    decreases rows.len(),
{
    if k == rows.len() {
        assert(rows.take(k) == rows);
    } else {
        assert(rows.drop_last().take(k) == rows.take(k));
        lemma_levels_err::<T>(xch_id, rows.drop_last(), k);
    }
}

/// As many levels are read as there are rows, and each comes from the row
/// at its place.
pub proof fn lemma_levels_ok<T: Quote>(xch_id: u8, rows: Seq<(Seq<u8>, Seq<u8>)>)
    requires
        levels_verdict::<T>(xch_id, rows) is Ok,
    ensures
        levels_verdict::<T>(xch_id, rows)->Ok_0.len() == rows.len(),
        forall|i: int|
            0 <= i < rows.len() ==> level_verdict::<T>(xch_id, rows[i]) == Ok::<T, DecimalError>(
                #[trigger] levels_verdict::<T>(xch_id, rows)->Ok_0[i],
            ),
    decreases rows.len(),
{
    if rows.len() > 0 {
        lemma_levels_ok::<T>(xch_id, rows.drop_last());
    }
}

/// Reads the rows of one side of a depth message, up to the depth limit,
/// as levels of `xch_id`.
pub fn read_levels<T: Quote>(xch_id: u8, rows: &Vec<(String, String)>) -> (r: Result<
    Vec<T>,
    DecimalError,
>)
    ensures
        match r {
            Ok(levels) => levels_verdict::<T>(xch_id, top(row_bytes(rows@), BID_ASK_LEN as nat))
                == Ok::<Seq<T>, DecimalError>(levels@),
            Err(e) => levels_verdict::<T>(xch_id, top(row_bytes(rows@), BID_ASK_LEN as nat))
                == Err::<Seq<T>, DecimalError>(e),
        },
{
    let ghost all = top(row_bytes(rows@), BID_ASK_LEN as nat);
    let cnt: usize = if rows.len() < BID_ASK_LEN {
        rows.len()
    } else {
        BID_ASK_LEN
    };
    let mut out: Vec<T> = Vec::new();
    let mut i: usize = 0;
    while i < cnt
        invariant
            i <= cnt,
            cnt == all.len(),
            cnt <= rows@.len(),
            all == top(row_bytes(rows@), BID_ASK_LEN as nat),
            levels_verdict::<T>(xch_id, all.take(i as int)) == Ok::<Seq<T>, DecimalError>(out@),
        decreases cnt - i,
    {
        proof {
            assert(all.take(i + 1).drop_last() == all.take(i as int));
            assert(all.take(i + 1).last() == all[i as int]);
            assert(all[i as int] == row_bytes(rows@)[i as int]);
        }
        let prc = match parse_decimal(rows[i].0.as_str()) {
            Ok(prc) => prc,
            Err(e) => {
                proof {
                    lemma_levels_err::<T>(xch_id, all, i + 1);
                }
                return Err(e);
            },
        };
        let qty = match parse_decimal(rows[i].1.as_str()) {
            Ok(qty) => qty,
            Err(e) => {
                proof {
                    lemma_levels_err::<T>(xch_id, all, i + 1);
                }
                return Err(e);
            },
        };
        out.push(T::make(xch_id, prc, qty));
        i += 1;
    }
    proof {
        assert(all.take(cnt as int) == all);
    }
    Ok(out)
}

/// Makes the book of `xch_id` from the rows of a depth message.
pub fn snapshot(xch_id: u8, bids: &Vec<(String, String)>, asks: &Vec<(String, String)>) -> (r:
    Result<Orderbook, DecimalError>)
    ensures
        match r {
            Ok(book) => snapshot_verdict(xch_id, row_bytes(bids@), row_bytes(asks@)) == Ok::<
                BookView,
                DecimalError,
            >(book@),
            Err(e) => snapshot_verdict(xch_id, row_bytes(bids@), row_bytes(asks@)) == Err::<
                BookView,
                DecimalError,
            >(e),
        },
{
    let b = match read_levels::<Bid>(xch_id, bids) {
        Ok(b) => b,
        Err(e) => {
            return Err(e);
        },
    };
    let a = match read_levels::<Ask>(xch_id, asks) {
        Ok(a) => a,
        Err(e) => {
            return Err(e);
        },
    };
    Ok(Orderbook { spd: 0, bids: b, asks: a })
}

/// The Binance exchange.
#[derive(Debug, Clone)]
pub struct Binance {
    /// An instrument to stream.
    pub instr: String,
}

impl Binance {
    /// Returns a new instance of a Binance exchange.
    pub fn new(instr: String) -> (xch: Self)
        ensures
            xch.instr == instr,
    {
        Binance { instr }
    }

    /// The address of the depth stream of the instrument.
    pub fn stream_url(&self) -> (url: String)
        ensures
            url@ == "wss://stream.binance.us:9443/ws/"@ + self.instr@ + "@depth10@100ms"@,
    {
        String::from_str("wss://stream.binance.us:9443/ws/").concat(self.instr.as_str()).concat(
            "@depth10@100ms",
        )
    }

    /// Makes Binance's book from the rows of a depth message.
    pub fn snapshot(&self, bids: &Vec<(String, String)>, asks: &Vec<(String, String)>) -> (r:
        Result<Orderbook, DecimalError>)
        ensures
            match r {
                Ok(book) => snapshot_verdict(BINANCE_XCH_ID, row_bytes(bids@), row_bytes(asks@))
                    == Ok::<BookView, DecimalError>(book@),
                Err(e) => snapshot_verdict(BINANCE_XCH_ID, row_bytes(bids@), row_bytes(asks@))
                    == Err::<BookView, DecimalError>(e),
            },
    {
        snapshot(BINANCE_XCH_ID, bids, asks)
    }
}

/// The Bitstamp exchange.
#[derive(Debug, Clone)]
pub struct Bitstamp {
    /// An instrument to stream.
    pub instr: String,
}

impl Bitstamp {
    /// Returns a new instance of a Bitstamp exchange.
    pub fn new(instr: String) -> (xch: Self)
        ensures
            xch.instr == instr,
    {
        Bitstamp { instr }
    }

    /// Makes Bitstamp's book from the rows of a book event.
    pub fn snapshot(&self, bids: &Vec<(String, String)>, asks: &Vec<(String, String)>) -> (r:
        Result<Orderbook, DecimalError>)
        ensures
            match r {
                Ok(book) => snapshot_verdict(BITSTAMP_XCH_ID, row_bytes(bids@), row_bytes(asks@))
                    == Ok::<BookView, DecimalError>(book@),
                Err(e) => snapshot_verdict(BITSTAMP_XCH_ID, row_bytes(bids@), row_bytes(asks@))
                    == Err::<BookView, DecimalError>(e),
            },
    {
        snapshot(BITSTAMP_XCH_ID, bids, asks)
    }
}

} // verus!
