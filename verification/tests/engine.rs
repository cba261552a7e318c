use footprint_bars::accum::process_footprint_bar;
use footprint_bars::accum::FootprintAccumulator;
use footprint_bars::accum::PriceLevel;
use footprint_bars::bucket::bucket_start;
use footprint_bars::decimal::parse_decimal;
use footprint_bars::detector::BarBoundaryDetector;
use footprint_bars::detector::ProcessOutcome;
use footprint_bars::event::quote_events_from;
use footprint_bars::event::trade_event_from;
use footprint_bars::event::BookTickerUpdate;
use footprint_bars::event::BookTickerUpdateData;
use footprint_bars::event::Event;
use footprint_bars::event::FeedError;
use footprint_bars::event::Side;

// One unit of the fixed-point representation is 1e-8; one price-key tick is 1e-4.
const UNIT: u64 = 100_000_000;

fn trade(price: u64, size: u64, aggressor_sell: bool) -> Event {
    Event {
        timestamp: 0,
        price,
        size,
        side: if aggressor_sell { Side::Sell } else { Side::Buy },
    }
}

fn update(p: &str, q: &str, m: bool) -> BookTickerUpdate {
    BookTickerUpdate {
        stream: String::from("ethusdt@trade"),
        data: BookTickerUpdateData {
            e: String::from("trade"),
            e2: 0,
            s: String::from("ETHUSDT"),
            t: 0,
            p: String::from(p),
            q: String::from(q),
            t2: 0,
            m,
        },
    }
}

#[test]
fn parse_plain_and_fractional() {
    assert_eq!(parse_decimal("100"), Some(100 * UNIT));
    assert_eq!(parse_decimal("100.0"), Some(100 * UNIT));
    assert_eq!(parse_decimal("0.005"), Some(500_000));
    assert_eq!(parse_decimal("1234.56780000"), Some(123_456_780_000));
    assert_eq!(parse_decimal("0"), Some(0));
}

#[test]
fn parse_rejects_malformed() {
    assert_eq!(parse_decimal(""), None);
    assert_eq!(parse_decimal("."), None);
    assert_eq!(parse_decimal("1."), None);
    assert_eq!(parse_decimal(".5"), None);
    assert_eq!(parse_decimal("1.2.3"), None);
    assert_eq!(parse_decimal("-1"), None);
    assert_eq!(parse_decimal("1e3"), None);
    assert_eq!(parse_decimal("12a"), None);
    // nine fractional digits is more than the format holds
    assert_eq!(parse_decimal("1.000000001"), None);
}

#[test]
fn parse_range_edges() {
    // u64::MAX in fixed-point units, exactly representable
    assert_eq!(parse_decimal("184467440737.09551615"), Some(u64::MAX));
    // one unit more does not fit
    assert_eq!(parse_decimal("184467440737.09551616"), None);
    // an integer part too large for the scale
    assert_eq!(parse_decimal("18446744073709551616"), None);
}

#[test]
fn price_rounding_collapses_noise() {
    // 100.00001 and 100.00004 share a price level at four-digit precision;
    // 100.00006 does not.
    let a = parse_decimal("100.00001").unwrap();
    let b = parse_decimal("100.00004").unwrap();
    let c = parse_decimal("100.00006").unwrap();
    assert_eq!(
        footprint_bars::accum::price_key_of(a),
        footprint_bars::accum::price_key_of(b)
    );
    assert_eq!(footprint_bars::accum::price_key_of(a), 100_0000);
    assert_eq!(footprint_bars::accum::price_key_of(c), 100_0001);
}

#[test]
fn key_derivation_is_pure() {
    let p = parse_decimal("4321.1234").unwrap();
    let first = footprint_bars::accum::price_key_of(p);
    let second = footprint_bars::accum::price_key_of(p);
    assert_eq!(first, second);
    // deriving a key folds nothing: a fresh accumulator stays empty around it
    let acc = FootprintAccumulator::new();
    let _ = footprint_bars::accum::price_key_of(p);
    let bar = acc.finalize();
    assert_eq!(bar.total_volume, 0);
    assert!(bar.levels.is_empty());
}

#[test]
fn bucket_start_floors_to_duration() {
    assert_eq!(bucket_start(125, 60), 120);
    assert_eq!(bucket_start(120, 60), 120);
    assert_eq!(bucket_start(59, 60), 0);
    let d = 60_000_000_000u128;
    assert_eq!(bucket_start(43_205_000_000_000, d), 43_200_000_000_000);
}

#[test]
fn zero_event_finalize_is_all_zero() {
    let acc = FootprintAccumulator::new();
    let bar = acc.finalize();
    assert_eq!(bar.open, 0);
    assert_eq!(bar.high, 0);
    assert_eq!(bar.low, 0);
    assert_eq!(bar.close, 0);
    assert_eq!(bar.total_volume, 0);
    assert!(bar.levels.is_empty());
}

#[test]
fn end_to_end_single_bucket() {
    // trades: (100.0, 1, buy), (100.0, 2, sell), (101.0, 1, buy)
    let mut acc = FootprintAccumulator::new();
    acc.fold(trade(100 * UNIT, UNIT, false));
    acc.fold(trade(100 * UNIT, 2 * UNIT, true));
    acc.fold(trade(101 * UNIT, UNIT, false));
    let bar = acc.finalize();
    assert_eq!(bar.open, 100 * UNIT);
    assert_eq!(bar.high, 101 * UNIT);
    assert_eq!(bar.low, 100 * UNIT);
    assert_eq!(bar.close, 101 * UNIT);
    assert_eq!(bar.total_volume, 4 * UNIT as u128);
    assert_eq!(bar.levels.len(), 2);
    assert_eq!(
        bar.levels[0],
        PriceLevel {
            key: 100_0000,
            buy_volume: UNIT as u128,
            sell_volume: 2 * UNIT as u128,
        }
    );
    assert_eq!(
        bar.levels[1],
        PriceLevel {
            key: 101_0000,
            buy_volume: UNIT as u128,
            sell_volume: 0,
        }
    );
}

#[test]
fn volume_is_conserved_across_levels() {
    let mut acc = FootprintAccumulator::new();
    let sizes = [3u64, 14, 15, 92, 65];
    let prices = [7u64, 7, 11, 11, 13];
    let mut expected_total = 0u128;
    for i in 0..sizes.len() {
        acc.fold(trade(prices[i] * UNIT, sizes[i], i % 2 == 0));
        expected_total += sizes[i] as u128;
    }
    let bar = acc.finalize();
    assert_eq!(bar.total_volume, expected_total);
    let mut level_sum = 0u128;
    for lv in &bar.levels {
        level_sum += lv.buy_volume + lv.sell_volume;
    }
    assert_eq!(level_sum, bar.total_volume);
}

#[test]
fn high_low_envelope_holds() {
    let mut acc = FootprintAccumulator::new();
    for (p, s) in [(5u64, 1u64), (9, 2), (2, 3), (7, 4)] {
        acc.fold(trade(p * UNIT, s, false));
    }
    let bar = acc.finalize();
    assert!(bar.high >= bar.open && bar.high >= bar.close);
    assert!(bar.low <= bar.open && bar.low <= bar.close);
    assert_eq!(bar.high, 9 * UNIT);
    assert_eq!(bar.low, 2 * UNIT);
}

#[test]
fn boundary_emits_exactly_one_bar() {
    // keys [k, k, k, k+1] at 60 s: 12:00:05, 12:00:30, 12:00:55, 12:01:02
    let d = 60_000_000_000u128;
    let mut det = BarBoundaryDetector::new(d);
    let stamps: [u128; 4] = [
        43_205_000_000_000,
        43_230_000_000_000,
        43_255_000_000_000,
        43_262_000_000_000,
    ];
    let mut bars = 0usize;
    let mut emitted = None;
    for (i, ts) in stamps.iter().enumerate() {
        let mut e = trade(100 * UNIT, UNIT, false);
        e.timestamp = *ts;
        match det.process_event(e) {
            ProcessOutcome::Accumulated => {}
            ProcessOutcome::AccumulatedLate => panic!("event was not late"),
            ProcessOutcome::Completed(bar) => {
                bars += 1;
                emitted = Some(bar);
                assert_eq!(i, 3);
            }
        }
    }
    assert_eq!(bars, 1);
    let bar = emitted.unwrap();
    // the finished bar covers the three events of bucket k
    assert_eq!(bar.total_volume, 3 * UNIT as u128);
    assert_eq!(bar.open, 100 * UNIT);
    assert_eq!(bar.close, 100 * UNIT);
}

#[test]
fn late_event_folds_into_active_bucket() {
    let d = 60u128;
    let mut det = BarBoundaryDetector::new(d);
    let mut first = trade(100 * UNIT, UNIT, false);
    first.timestamp = 120;
    assert!(matches!(
        det.process_event(first),
        ProcessOutcome::Accumulated
    ));
    // an event from the previous bucket: folded, flagged, nothing emitted
    let mut late = trade(99 * UNIT, UNIT, false);
    late.timestamp = 119;
    assert!(matches!(
        det.process_event(late),
        ProcessOutcome::AccumulatedLate
    ));
    // the active bucket now carries both
    let mut next = trade(100 * UNIT, UNIT, false);
    next.timestamp = 185;
    match det.process_event(next) {
        ProcessOutcome::Completed(bar) => {
            assert_eq!(bar.total_volume, 2 * UNIT as u128);
            assert_eq!(bar.low, 99 * UNIT);
        }
        _ => panic!("the key advanced; a bar was due"),
    }
}

#[test]
fn trade_event_from_classifies_errors() {
    let good = update("100.5", "2", true);
    let e = trade_event_from(&good.data, 7).unwrap();
    assert_eq!(e.timestamp, 7);
    assert_eq!(e.price, 100 * UNIT + UNIT / 2);
    assert_eq!(e.size, 2 * UNIT);
    assert_eq!(e.side, Side::Sell);

    let bad_price = update("1oo", "2", false);
    assert_eq!(
        trade_event_from(&bad_price.data, 0),
        Err(FeedError::MalformedPrice)
    );
    let bad_size = update("100.5", "", false);
    assert_eq!(
        trade_event_from(&bad_size.data, 0),
        Err(FeedError::MalformedSize)
    );
}

#[test]
fn process_footprint_bar_skips_malformed() {
    let stamps = vec![
        update("100.0", "1", false),
        update("not-a-price", "1", false),
        update("100.0", "2", true),
        update("101.0", "1", false),
    ];
    let bar = process_footprint_bar(&stamps);
    assert_eq!(bar.open, 100 * UNIT);
    assert_eq!(bar.high, 101 * UNIT);
    assert_eq!(bar.low, 100 * UNIT);
    assert_eq!(bar.close, 101 * UNIT);
    assert_eq!(bar.total_volume, 4 * UNIT as u128);
    assert_eq!(bar.levels.len(), 2);
    assert_eq!(bar.levels[0].buy_volume, UNIT as u128);
    assert_eq!(bar.levels[0].sell_volume, 2 * UNIT as u128);
}

#[test]
fn half_tick_rounds_upward() {
    let p = parse_decimal("100.00005").unwrap();
    assert_eq!(footprint_bars::accum::price_key_of(p), 100_0001);
}

#[test]
fn quote_snapshot_becomes_two_events() {
    let bid = parse_decimal("100.0").unwrap();
    let ask = parse_decimal("101.0").unwrap();
    let (buy, sell) = quote_events_from(bid, 3 * UNIT, ask, 5 * UNIT, 42);
    let mid = parse_decimal("100.5").unwrap();
    assert_eq!(buy.price, mid);
    assert_eq!(sell.price, mid);
    assert_eq!(buy.size, 3 * UNIT);
    assert_eq!(sell.size, 5 * UNIT);
    assert_eq!(buy.side, Side::Buy);
    assert_eq!(sell.side, Side::Sell);
    assert_eq!(buy.timestamp, 42);
    assert_eq!(sell.timestamp, 42);
}

#[test]
fn process_footprint_bar_empty_input() {
    let stamps: Vec<BookTickerUpdate> = Vec::new();
    let bar = process_footprint_bar(&stamps);
    assert_eq!(bar.open, 0);
    assert_eq!(bar.total_volume, 0);
    assert!(bar.levels.is_empty());
}
