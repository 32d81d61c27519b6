use orderbook_aggregator::exchanges::{xch_name, BINANCE_XCH_ID, BITSTAMP_XCH_ID};

#[test]
fn xch_name_of_binance() {
    assert_eq!(xch_name(BINANCE_XCH_ID), "binance");
}

#[test]
fn xch_name_of_bitstamp() {
    assert_eq!(xch_name(BITSTAMP_XCH_ID), "bitstamp");
}

#[test]
fn xch_name_of_any_other_id_is_bitstamp() {
    assert_eq!(xch_name(0), "bitstamp");
    assert_eq!(xch_name(77), "bitstamp");
}
