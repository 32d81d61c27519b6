//! Binance's depth messages: JSON text, read with `serde_json`.

use vstd::prelude::*;
use vstd::utf8::encode_utf8;
use crate::BID_ASK_LEN;
use crate::decimal::DecimalError;
use crate::exchanges::{
    row_bytes, snapshot, snapshot_verdict, Binance, BookView, Orderbook, BINANCE_XCH_ID,
};
use crate::rank::top;

verus! {

/// `serde_json::Value`, a JSON value: what it holds is known through
/// `json_model` only.
#[verifier::external_type_specification]
#[verifier::external_body]
pub struct ExValue(serde_json::Value);

/// `serde_json::Error`, why a text is no JSON text: nothing is read from it.
#[verifier::external_type_specification]
#[verifier::external_body]
pub struct ExError(serde_json::Error);

/// What a JSON value holds, as far as a depth message is read: its text
/// where it is a string, its items where it is an array, its members where
/// it is an object.
pub enum JsonView {
    Text(Seq<char>),
    Array(Seq<JsonView>),
    Object(Map<Seq<char>, JsonView>),
    Other,
}

/// What the JSON value `v` holds: the text of a string, the items of an
/// array in their order, the members of an object by their names, and
/// `Other` for null, a boolean or a number.
pub uninterp spec fn json_model(v: serde_json::Value) -> JsonView;

/// What `serde_json::from_slice` reads from `text` as a JSON value, if
/// `text` is JSON text at all.
pub uninterp spec fn json_doc(text: Seq<u8>) -> Option<JsonView>;

/// What the values of `items` hold, one for one.
pub open spec fn json_models(items: Seq<serde_json::Value>) -> Seq<JsonView> {
    items.map_values(|v: serde_json::Value| json_model(v))
}

/// `serde_json::from_slice`, at the type `serde_json::Value`: the value of
/// a JSON text, or an error where the bytes are no JSON text. What the
/// value holds depends on the bytes alone.
#[verifier::external_body]
fn parse_json(text: &[u8]) -> (r: Result<serde_json::Value, serde_json::Error>)
    ensures
        match r {
            Ok(v) => json_doc(text@) == Some(json_model(v)),
            Err(_) => json_doc(text@) is None,
        },
{
    serde_json::from_slice(text)
}

/// `serde_json::Value::get` with a string: the member of that name where
/// the value is an object that has one, and nothing otherwise.
#[verifier::external_body]
fn member<'a>(v: &'a serde_json::Value, name: &str) -> (r: Option<&'a serde_json::Value>)
    ensures
        match r {
            Some(m) => json_model(*v) is Object && json_model(*v)->Object_0.contains_key(name@)
                && json_model(*v)->Object_0[name@] == json_model(*m),
            None => !(json_model(*v) is Object && json_model(*v)->Object_0.contains_key(name@)),
        },
{
    v.get(name)
}

/// `serde_json::Value::as_array`: the items where the value is an array,
/// and nothing otherwise.
#[verifier::external_body]
fn items<'a>(v: &'a serde_json::Value) -> (r: Option<&'a Vec<serde_json::Value>>)
    ensures
        match r {
            Some(a) => json_model(*v) == JsonView::Array(json_models(a@)),
            None => !(json_model(*v) is Array),
        },
{
    v.as_array()
}

/// `serde_json::Value::as_str`: the text where the value is a string, and
/// nothing otherwise.
#[verifier::external_body]
fn text_of<'a>(v: &'a serde_json::Value) -> (r: Option<&'a str>)
    ensures
        match r {
            Some(s) => json_model(*v) == JsonView::Text(s@),
            None => !(json_model(*v) is Text),
        },
{
    v.as_str()
}

/// Why a depth message gives no book.
#[derive(Debug, Clone, Copy, PartialEq, Eq)]
pub enum SourceError {
    /// The message is no JSON text.
    NotJson,
    /// The message lacks a side, or a row of a side is not made of a price
    /// and a quantity, each a string.
    Shape,
    /// A price or a quantity is not read as a number.
    Number(DecimalError),
}

/// The row that a JSON value writes: an array whose first two items are
/// strings, the price and the quantity.
pub open spec fn row_of(item: JsonView) -> Option<(Seq<u8>, Seq<u8>)> {
    match item {
        JsonView::Array(cells) => if cells.len() >= 2 && cells[0] is Text && cells[1] is Text {
            Some((encode_utf8(cells[0]->Text_0), encode_utf8(cells[1]->Text_0)))
        } else {
            None
        },
        _ => None,
    }
}

/// The rows that the JSON values write, if each of them writes one.
pub open spec fn rows_of(items: Seq<JsonView>) -> Option<Seq<(Seq<u8>, Seq<u8>)>>
    decreases items.len(),
{
    if items.len() == 0 {
        Some(Seq::empty())
    } else {
        match rows_of(items.drop_last()) {
            None => None,
            Some(rows) => match row_of(items.last()) {
                None => None,
                Some(row) => Some(rows.push(row)),
            },
        }
    }
}

/// The rows of one side of a depth message, up to the depth limit: the
/// message is an object, the side a member of it and an array.
pub open spec fn side_rows(doc: JsonView, side: Seq<char>) -> Option<Seq<(Seq<u8>, Seq<u8>)>> {
    match doc {
        JsonView::Object(members) => if members.contains_key(side) {
            match members[side] {
                JsonView::Array(items) => rows_of(top(items, BID_ASK_LEN as nat)),
                _ => None,
            }
        } else {
            None
        },
        _ => None,
    }
}

/// Binance's book that a depth message writes, or why it writes none: the
/// bids are looked at before the asks, and the shape of both before any
/// number.
pub open spec fn depth_verdict(doc: JsonView) -> Result<BookView, SourceError> {
    match side_rows(doc, "bids"@) {
        None => Err(SourceError::Shape),
        Some(bids) => match side_rows(doc, "asks"@) {
            None => Err(SourceError::Shape),
            Some(asks) => match snapshot_verdict(BINANCE_XCH_ID, bids, asks) {
                Err(e) => Err(SourceError::Number(e)),
                Ok(book) => Ok(book),
            },
        },
    }
}

/// Binance's book that the text of a depth message writes, or why it writes
/// none.
pub open spec fn decode_verdict(text: Seq<u8>) -> Result<BookView, SourceError> {
    match json_doc(text) {
        None => Err(SourceError::NotJson),
        Some(doc) => depth_verdict(doc),
    }
}

/// Where one of the first values writes no row, the values write no rows.
pub proof fn lemma_rows_none(items: Seq<JsonView>, k: int)
    requires
        0 <= k <= items.len(),
        rows_of(items.take(k)) is None,
    ensures
        rows_of(items) is None,
    decreases items.len(),
{
    if k == items.len() {
        assert(items.take(k) == items);
    } else {
        assert(items.drop_last().take(k) == items.take(k));
        lemma_rows_none(items.drop_last(), k);
    }
}

/// Reads the rows of one side of a depth message, up to the depth limit.
pub fn read_rows(doc: &serde_json::Value, side: &str) -> (r: Option<Vec<(String, String)>>)
    ensures
        match r {
            Some(rows) => side_rows(json_model(*doc), side@) == Some(row_bytes(rows@)),
            None => side_rows(json_model(*doc), side@) is None,
        },
{
    let found = match member(doc, side) {
        Some(found) => found,
        None => {
            return None;
        },
    };
    let list = match items(found) {
        Some(list) => list,
        None => {
            return None;
        },
    };
    let ghost all = top(json_models(list@), BID_ASK_LEN as nat);
    let cnt: usize = if list.len() < BID_ASK_LEN {
        list.len()
    } else {
        BID_ASK_LEN
    };
    let mut out: Vec<(String, String)> = Vec::new();
    let mut i: usize = 0;
    proof {
        assert(row_bytes(out@) == Seq::<(Seq<u8>, Seq<u8>)>::empty());
    }
    while i < cnt
        invariant
            i <= cnt,
            cnt == all.len(),
            cnt <= list@.len(),
            all == top(json_models(list@), BID_ASK_LEN as nat),
            side_rows(json_model(*doc), side@) == rows_of(all),
            rows_of(all.take(i as int)) == Some(row_bytes(out@)),
        decreases cnt - i,
    {
        proof {
            assert(all.take(i + 1).drop_last() == all.take(i as int));
            assert(all.take(i + 1).last() == json_model(list@[i as int]));
        }
        let cells = match items(&list[i]) {
            Some(cells) => cells,
            None => {
                proof {
                    lemma_rows_none(all, i + 1);
                }
                return None;
            },
        };
        if cells.len() < 2 {
            proof {
                lemma_rows_none(all, i + 1);
            }
            return None;
        }
        proof {
            assert(json_models(cells@)[0] == json_model(cells@[0]));
            assert(json_models(cells@)[1] == json_model(cells@[1]));
        }
        let prc = match text_of(&cells[0]) {
            Some(prc) => prc,
            None => {
                proof {
                    lemma_rows_none(all, i + 1);
                }
                return None;
            },
        };
        let qty = match text_of(&cells[1]) {
            Some(qty) => qty,
            None => {
                proof {
                    lemma_rows_none(all, i + 1);
                }
                return None;
            },
        };
        let ghost before = out@;
        let row = (prc.to_owned(), qty.to_owned());
        out.push(row);
        proof {
            assert(row_bytes(out@) == row_bytes(before).push(
                (encode_utf8(prc@), encode_utf8(qty@)),
            ));
        }
        i += 1;
    }
    proof {
        assert(all.take(cnt as int) == all);
    }
    Some(out)
}

/// Makes Binance's book from the JSON value of a depth message.
pub fn depth_book(doc: &serde_json::Value) -> (r: Result<Orderbook, SourceError>)
    ensures
        match r {
            Ok(book) => depth_verdict(json_model(*doc)) == Ok::<BookView, SourceError>(book@),
            Err(e) => depth_verdict(json_model(*doc)) == Err::<BookView, SourceError>(e),
        },
{
    let bids = match read_rows(doc, "bids") {
        Some(bids) => bids,
        None => {
            return Err(SourceError::Shape);
        },
    };
    let asks = match read_rows(doc, "asks") {
        Some(asks) => asks,
        None => {
            return Err(SourceError::Shape);
        },
    };
    match snapshot(BINANCE_XCH_ID, &bids, &asks) {
        Ok(book) => Ok(book),
        Err(e) => Err(SourceError::Number(e)),
    }
}

impl Binance {
    /// Makes Binance's book from the text of a depth message.
    pub fn decode(&self, text: &[u8]) -> (r: Result<Orderbook, SourceError>)
        ensures
            match r {
                Ok(book) => decode_verdict(text@) == Ok::<BookView, SourceError>(book@),
                Err(e) => decode_verdict(text@) == Err::<BookView, SourceError>(e),
            },
    {
        match parse_json(text) {
            Err(_) => Err(SourceError::NotJson),
            Ok(doc) => depth_book(&doc),
        }
    }
}

} // verus!
