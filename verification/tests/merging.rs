use orderbook_aggregator::aggregator::{
    all_from, all_priced, check_update, merge, merge_side, Aggregator, Emit, UpdateError,
};
use orderbook_aggregator::exchanges::{Ask, Bid, Orderbook, BINANCE_XCH_ID, BITSTAMP_XCH_ID};
use orderbook_aggregator::BID_ASK_LEN;

const A: u8 = BINANCE_XCH_ID;
const B: u8 = BITSTAMP_XCH_ID;

fn bid(xch_id: u8, prc: u64, qty: u64) -> Bid {
    Bid { xch_id, prc, qty }
}

fn ask(xch_id: u8, prc: u64, qty: u64) -> Ask {
    Ask { xch_id, prc, qty }
}

fn book(bids: Vec<Bid>, asks: Vec<Ask>) -> Orderbook {
    Orderbook { spd: 0, bids, asks }
}

fn bids_of(xch_id: u8, prices: &[u64]) -> Vec<Bid> {
    prices.iter().map(|p| bid(xch_id, *p, 1)).collect()
}

fn asks_of(xch_id: u8, prices: &[u64]) -> Vec<Ask> {
    prices.iter().map(|p| ask(xch_id, *p, 1)).collect()
}

#[test]
fn depth_limit_is_ten() {
    assert_eq!(BID_ASK_LEN, 10);
}

#[test]
fn a_new_aggregator_is_empty() {
    let agg = Aggregator::new();
    assert_eq!(agg.mrg, Orderbook::new());
    assert_eq!(agg.bin, Orderbook::new());
    assert_eq!(agg.bit, Orderbook::new());
}

#[test]
fn the_higher_bid_of_the_other_exchange_comes_first() {
    let mut agg = Aggregator::new();
    assert_eq!(agg.on_update(A, book(vec![bid(A, 100, 1)], vec![])), Ok(()));
    assert_eq!(agg.on_update(B, book(vec![bid(B, 101, 2)], vec![])), Ok(()));
    assert_eq!(agg.mrg.bids, vec![bid(B, 101, 2), bid(A, 100, 1)]);
    assert_eq!(agg.mrg.asks, Vec::<Ask>::new());
    assert_eq!(agg.mrg.spd, 0);
}

#[test]
fn fifteen_bids_are_cut_to_the_ten_highest() {
    let mut agg = Aggregator::new();
    let a = bids_of(A, &[150, 130, 110, 90, 70, 50, 30, 10]);
    let b = bids_of(B, &[140, 120, 100, 80, 60, 40, 20]);
    assert_eq!(agg.on_update(A, book(a, vec![])), Ok(()));
    assert_eq!(agg.on_update(B, book(b, vec![])), Ok(()));
    assert_eq!(
        agg.mrg.bids,
        vec![
            bid(A, 150, 1),
            bid(B, 140, 1),
            bid(A, 130, 1),
            bid(B, 120, 1),
            bid(A, 110, 1),
            bid(B, 100, 1),
            bid(A, 90, 1),
            bid(B, 80, 1),
            bid(A, 70, 1),
            bid(B, 60, 1),
        ]
    );
}

#[test]
fn fifteen_asks_are_cut_to_the_ten_lowest() {
    let mut agg = Aggregator::new();
    let a = asks_of(A, &[150, 130, 110, 90, 70, 50, 30, 10]);
    let b = asks_of(B, &[140, 120, 100, 80, 60, 40, 20]);
    assert_eq!(agg.on_update(A, book(vec![], a)), Ok(()));
    assert_eq!(agg.on_update(B, book(vec![], b)), Ok(()));
    let prices: Vec<u64> = agg.mrg.asks.iter().map(|l| l.prc).collect();
    assert_eq!(prices, vec![10, 20, 30, 40, 50, 60, 70, 80, 90, 100]);
    let sources: Vec<u8> = agg.mrg.asks.iter().map(|l| l.xch_id).collect();
    assert_eq!(sources, vec![A, B, A, B, A, B, A, B, A, B]);
}

#[test]
fn spread_is_best_ask_less_best_bid() {
    let mut agg = Aggregator::new();
    assert_eq!(agg.on_update(A, book(vec![bid(A, 100, 1)], vec![ask(A, 105, 1)])), Ok(()));
    assert_eq!(agg.mrg.spd, 5);
    assert_eq!(agg.on_update(B, book(vec![bid(B, 99, 1)], vec![ask(B, 101, 1)])), Ok(()));
    assert_eq!(agg.mrg.spd, 1);
    assert_eq!(agg.mrg.bids[0], bid(A, 100, 1));
    assert_eq!(agg.mrg.asks[0], ask(B, 101, 1));
}

#[test]
fn spread_is_zero_where_a_side_is_empty() {
    let mut agg = Aggregator::new();
    assert_eq!(agg.on_update(A, book(vec![bid(A, 100, 1)], vec![])), Ok(()));
    assert_eq!(agg.mrg.spd, 0);
    assert_eq!(agg.mrg.bids, vec![bid(A, 100, 1)]);
    let mut agg = Aggregator::new();
    assert_eq!(agg.on_update(B, book(vec![], vec![ask(B, 100, 1)])), Ok(()));
    assert_eq!(agg.mrg.spd, 0);
    assert_eq!(agg.mrg.asks, vec![ask(B, 100, 1)]);
    let mut agg = Aggregator::new();
    assert_eq!(agg.on_update(B, book(vec![], vec![])), Ok(()));
    assert_eq!(agg.mrg, Orderbook::new());
}

#[test]
fn spread_of_a_crossed_book_is_negative() {
    let mut agg = Aggregator::new();
    assert_eq!(agg.on_update(A, book(vec![bid(A, 103, 1)], vec![ask(A, 104, 1)])), Ok(()));
    assert_eq!(agg.on_update(B, book(vec![bid(B, 100, 1)], vec![ask(B, 101, 1)])), Ok(()));
    assert_eq!(agg.mrg.spd, -2);
}

#[test]
fn spread_of_the_widest_book() {
    let mut agg = Aggregator::new();
    assert_eq!(agg.on_update(A, book(vec![bid(A, 1, 1)], vec![ask(A, u64::MAX, 1)])), Ok(()));
    assert_eq!(agg.mrg.spd, u64::MAX as i128 - 1);
    assert_eq!(agg.on_update(A, book(vec![bid(A, u64::MAX, 1)], vec![ask(A, 1, 1)])), Ok(()));
    assert_eq!(agg.mrg.spd, 1 - u64::MAX as i128);
}

#[test]
fn the_same_update_twice_gives_the_same_merged_book() {
    let mut agg = Aggregator::new();
    assert_eq!(agg.on_update(B, book(bids_of(B, &[7, 9]), asks_of(B, &[12, 11]))), Ok(()));
    let update = book(bids_of(A, &[8, 10, 9]), asks_of(A, &[13, 11]));
    assert_eq!(agg.on_update(A, update.clone()), Ok(()));
    let first = agg.mrg.clone();
    assert_eq!(agg.on_update(A, update.clone()), Ok(()));
    assert_eq!(agg.mrg, first);
    assert_eq!(agg.bin, update);
}

#[test]
fn an_update_replaces_the_last_book_of_its_exchange() {
    let mut agg = Aggregator::new();
    assert_eq!(agg.on_update(A, book(bids_of(A, &[50, 40]), asks_of(A, &[60]))), Ok(()));
    assert_eq!(agg.on_update(B, book(bids_of(B, &[45]), asks_of(B, &[55]))), Ok(()));
    assert_eq!(agg.on_update(A, book(bids_of(A, &[30]), vec![])), Ok(()));
    assert_eq!(agg.bin, book(bids_of(A, &[30]), vec![]));
    assert_eq!(agg.bit, book(bids_of(B, &[45]), asks_of(B, &[55])));
    assert_eq!(agg.mrg.bids, vec![bid(B, 45, 1), bid(A, 30, 1)]);
    assert_eq!(agg.mrg.asks, vec![ask(B, 55, 1)]);
    assert_eq!(agg.mrg.spd, 10);
}

#[test]
fn a_first_report_is_merged_with_what_is_known() {
    let mut agg = Aggregator::new();
    assert_eq!(agg.on_update(B, book(bids_of(B, &[3, 5, 4]), asks_of(B, &[9, 7]))), Ok(()));
    assert_eq!(agg.mrg.bids, vec![bid(B, 5, 1), bid(B, 4, 1), bid(B, 3, 1)]);
    assert_eq!(agg.mrg.asks, vec![ask(B, 7, 1), ask(B, 9, 1)]);
    assert_eq!(agg.mrg.spd, 2);
    assert_eq!(agg.bin, Orderbook::new());
    assert_eq!(agg.on_update(A, book(bids_of(A, &[6]), asks_of(A, &[8]))), Ok(()));
    assert_eq!(agg.mrg.bids, vec![bid(A, 6, 1), bid(B, 5, 1), bid(B, 4, 1), bid(B, 3, 1)]);
    assert_eq!(agg.mrg.asks, vec![ask(B, 7, 1), ask(A, 8, 1), ask(B, 9, 1)]);
    assert_eq!(agg.mrg.spd, 1);
}

#[test]
fn equal_prices_rank_binance_before_bitstamp() {
    let mut agg = Aggregator::new();
    assert_eq!(agg.on_update(B, book(vec![bid(B, 10, 1), bid(B, 9, 2)], vec![ask(B, 11, 3)])), Ok(()));
    assert_eq!(agg.on_update(A, book(vec![bid(A, 9, 4), bid(A, 10, 5)], vec![ask(A, 11, 6)])), Ok(()));
    assert_eq!(agg.mrg.bids, vec![bid(A, 10, 5), bid(B, 10, 1), bid(A, 9, 4), bid(B, 9, 2)]);
    assert_eq!(agg.mrg.asks, vec![ask(A, 11, 6), ask(B, 11, 3)]);
}

#[test]
fn the_spread_of_an_update_is_stored_as_given_and_not_used() {
    let mut agg = Aggregator::new();
    let update = Orderbook { spd: 77, bids: vec![bid(A, 10, 1)], asks: vec![ask(A, 12, 1)] };
    assert_eq!(agg.on_update(A, update.clone()), Ok(()));
    assert_eq!(agg.bin, update);
    assert_eq!(agg.mrg.spd, 2);
}

#[test]
fn an_update_of_an_unknown_exchange_is_dropped() {
    let mut agg = Aggregator::new();
    assert_eq!(agg.on_update(A, book(bids_of(A, &[5]), asks_of(A, &[6]))), Ok(()));
    let before = (agg.mrg.clone(), agg.bin.clone(), agg.bit.clone());
    assert_eq!(agg.on_update(0, book(bids_of(0, &[9]), vec![])), Err(UpdateError::UnknownSource));
    assert_eq!(agg.on_update(3, book(vec![], vec![])), Err(UpdateError::UnknownSource));
    assert_eq!((agg.mrg.clone(), agg.bin.clone(), agg.bit.clone()), before);
}

#[test]
fn an_update_deeper_than_the_limit_is_dropped() {
    let mut agg = Aggregator::new();
    assert_eq!(agg.on_update(B, book(bids_of(B, &[5]), asks_of(B, &[6]))), Ok(()));
    let before = (agg.mrg.clone(), agg.bin.clone(), agg.bit.clone());
    let eleven: Vec<u64> = (1..=11).collect();
    let ten: Vec<u64> = (1..=10).collect();
    assert_eq!(agg.on_update(A, book(bids_of(A, &eleven), vec![])), Err(UpdateError::TooDeep));
    assert_eq!(agg.on_update(A, book(vec![], asks_of(A, &eleven))), Err(UpdateError::TooDeep));
    assert_eq!((agg.mrg.clone(), agg.bin.clone(), agg.bit.clone()), before);
    assert_eq!(agg.on_update(A, book(bids_of(A, &ten), asks_of(A, &ten))), Ok(()));
}

#[test]
fn an_update_with_a_level_of_another_exchange_is_dropped() {
    let mut agg = Aggregator::new();
    let mixed = book(vec![bid(A, 5, 1), bid(B, 4, 1)], vec![]);
    assert_eq!(agg.on_update(A, mixed.clone()), Err(UpdateError::ForeignLevel));
    assert_eq!(agg.on_update(B, mixed), Err(UpdateError::ForeignLevel));
    assert_eq!(agg.on_update(B, book(vec![], vec![ask(A, 4, 1)])), Err(UpdateError::ForeignLevel));
    assert_eq!(agg.mrg, Orderbook::new());
    assert_eq!(agg.bin, Orderbook::new());
    assert_eq!(agg.bit, Orderbook::new());
}

#[test]
fn an_update_with_a_price_of_zero_is_dropped() {
    let mut agg = Aggregator::new();
    assert_eq!(
        agg.on_update(A, book(vec![bid(A, 5, 1), bid(A, 0, 1)], vec![])),
        Err(UpdateError::ZeroPrice)
    );
    assert_eq!(agg.on_update(A, book(vec![], vec![ask(A, 0, 1)])), Err(UpdateError::ZeroPrice));
    assert_eq!(agg.on_update(A, book(vec![bid(A, 5, 0)], vec![])), Ok(()));
}

#[test]
fn the_reasons_to_drop_come_in_one_order() {
    let eleven: Vec<u64> = (0..=10).collect();
    assert_eq!(check_update(9, &book(bids_of(A, &eleven), vec![])), Err(UpdateError::UnknownSource));
    assert_eq!(check_update(A, &book(bids_of(B, &eleven), vec![])), Err(UpdateError::TooDeep));
    assert_eq!(check_update(A, &book(vec![bid(A, 0, 1)], vec![ask(B, 1, 1)])), Err(UpdateError::ForeignLevel));
    assert_eq!(check_update(A, &book(vec![bid(A, 0, 1)], vec![ask(A, 1, 1)])), Err(UpdateError::ZeroPrice));
    assert_eq!(check_update(A, &book(vec![bid(A, 1, 1)], vec![ask(A, 1, 1)])), Ok(()));
}

#[test]
fn all_from_and_all_priced() {
    assert!(all_from(&bids_of(A, &[1, 2]), A));
    assert!(!all_from(&bids_of(A, &[1, 2]), B));
    assert!(all_from(&Vec::<Ask>::new(), B));
    assert!(!all_from(&vec![ask(A, 1, 1), ask(B, 1, 1)], A));
    assert!(all_priced(&asks_of(A, &[1, 2])));
    assert!(!all_priced(&asks_of(A, &[1, 0, 2])));
    assert!(all_priced(&Vec::<Bid>::new()));
}

#[test]
fn merge_side_takes_the_first_book_first() {
    assert_eq!(
        merge_side(&vec![bid(B, 4, 1), bid(B, 6, 1)], &vec![bid(A, 6, 1), bid(A, 5, 1)]),
        vec![bid(B, 6, 1), bid(A, 6, 1), bid(A, 5, 1), bid(B, 4, 1)]
    );
    assert_eq!(merge_side(&Vec::<Ask>::new(), &Vec::<Ask>::new()), Vec::<Ask>::new());
    let many: Vec<u64> = (1..=30).collect();
    let out = merge_side(&asks_of(A, &many), &asks_of(B, &many));
    assert_eq!(out.len(), 10);
    assert_eq!(out[0], ask(A, 1, 1));
    assert_eq!(out[1], ask(B, 1, 1));
    assert_eq!(out[9], ask(B, 5, 1));
}

#[test]
fn merge_of_two_books() {
    let bin = book(bids_of(A, &[10, 8]), asks_of(A, &[12]));
    let bit = book(bids_of(B, &[9]), asks_of(B, &[11, 13]));
    let mrg = merge(&bin, &bit);
    assert_eq!(mrg.bids, vec![bid(A, 10, 1), bid(B, 9, 1), bid(A, 8, 1)]);
    assert_eq!(mrg.asks, vec![ask(B, 11, 1), ask(A, 12, 1), ask(B, 13, 1)]);
    assert_eq!(mrg.spd, 1);
}

#[test]
fn every_merged_book_of_a_run_is_in_order() {
    let mut agg = Aggregator::new();
    let mut seed: u64 = 12345;
    for round in 0..200u64 {
        let mut bids = Vec::new();
        let mut asks = Vec::new();
        let xch = if round % 3 == 0 { A } else { B };
        for _ in 0..(round % 11) {
            seed = seed.wrapping_mul(6364136223846793005).wrapping_add(1442695040888963407);
            bids.push(bid(xch, 1 + (seed >> 33) % 50, round));
            seed = seed.wrapping_mul(6364136223846793005).wrapping_add(1442695040888963407);
            asks.push(ask(xch, 1 + (seed >> 33) % 50, round));
        }
        assert_eq!(agg.on_update(xch, book(bids, asks)), Ok(()));
        assert!(agg.mrg.bids.len() <= 10 && agg.mrg.asks.len() <= 10);
        assert!(agg.mrg.bids.windows(2).all(|w| w[0].prc >= w[1].prc));
        assert!(agg.mrg.asks.windows(2).all(|w| w[0].prc <= w[1].prc));
        assert_eq!(agg.mrg, merge(&agg.bin, &agg.bit));
    }
}

#[test]
fn on_inbound_hands_on_the_merged_book() {
    let mut agg = Aggregator::new();
    let next = agg.on_inbound(Some((A, book(bids_of(A, &[5, 6]), asks_of(A, &[8])))));
    assert_eq!(
        next,
        Emit::Send(Orderbook { spd: 2, bids: bids_of(A, &[6, 5]), asks: asks_of(A, &[8]) })
    );
    assert_eq!(agg.mrg.bids, bids_of(A, &[6, 5]));
}

#[test]
fn on_inbound_skips_a_dropped_update_and_stops_at_the_end() {
    let mut agg = Aggregator::new();
    assert_eq!(agg.on_inbound(Some((A, book(bids_of(A, &[5]), vec![])))), Emit::Send(book(bids_of(A, &[5]), vec![])));
    assert_eq!(agg.on_inbound(Some((7, book(vec![], vec![])))), Emit::Skip(UpdateError::UnknownSource));
    assert_eq!(agg.on_inbound(Some((B, book(bids_of(A, &[5]), vec![])))), Emit::Skip(UpdateError::ForeignLevel));
    assert_eq!(agg.mrg.bids, bids_of(A, &[5]));
    assert_eq!(agg.on_inbound(None), Emit::Stop);
    assert_eq!(agg.mrg.bids, bids_of(A, &[5]));
    assert_eq!(agg.on_inbound(Some((B, book(bids_of(B, &[7]), vec![])))), Emit::Send(book(vec![bid(B, 7, 1), bid(A, 5, 1)], vec![])));
}

#[test]
fn aggregate_streams_gives_one_merged_book_for_each_update_taken() {
    let mut agg = Aggregator::new();
    let updates = vec![
        (A, book(bids_of(A, &[100]), vec![])),
        (9, book(bids_of(9, &[500]), vec![])),
        (B, book(bids_of(B, &[101]), asks_of(B, &[103]))),
        (A, book(bids_of(A, &[0]), vec![])),
        (A, book(vec![], asks_of(A, &[102]))),
    ];
    let out = agg.aggregate_streams(&updates);
    assert_eq!(
        out,
        vec![
            book(bids_of(A, &[100]), vec![]),
            Orderbook { spd: 2, bids: vec![bid(B, 101, 1), bid(A, 100, 1)], asks: asks_of(B, &[103]) },
            Orderbook { spd: 1, bids: bids_of(B, &[101]), asks: vec![ask(A, 102, 1), ask(B, 103, 1)] },
        ]
    );
    assert_eq!(agg.mrg, out[2]);
    assert_eq!(agg.bin, book(vec![], asks_of(A, &[102])));
    assert_eq!(agg.bit, book(bids_of(B, &[101]), asks_of(B, &[103])));
    assert_eq!(agg.aggregate_streams(&Vec::new()), Vec::<Orderbook>::new());
    assert_eq!(agg.mrg, out[2]);
}

#[test]
fn orderbook_new_with_capacity_clear_and_duplicate() {
    assert_eq!(Orderbook::new(), Orderbook { spd: 0, bids: vec![], asks: vec![] });
    assert_eq!(Orderbook::with_capacity(20), Orderbook::new());
    let mut b = Orderbook { spd: 3, bids: bids_of(A, &[1]), asks: asks_of(A, &[4]) };
    assert_eq!(b.duplicate(), b);
    b.clear();
    assert_eq!(b, Orderbook { spd: 3, bids: vec![], asks: vec![] });
}
