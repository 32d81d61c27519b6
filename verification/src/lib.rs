//! Consolidated top-of-book view over several exchanges.
//!
//! Prices and quantities are fixed-point integers (`PRICE_SCALE` ticks per
//! unit), so that ranking and the spread are exact.

use vstd::prelude::*;

pub mod exchanges;
pub mod rank;
pub mod decimal;
pub mod aggregator;
pub mod service;
pub mod json;

verus! {

/// Depth limit: how many levels a book keeps on each side.
pub const BID_ASK_LEN: usize = 10;

} // verus!
