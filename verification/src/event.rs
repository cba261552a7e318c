//! The normalized market event model, and the raw feed message shape it is
//! derived from. A raw message carries price and size as decimal text; a
//! message whose numeric fields do not parse is reported as a recoverable
//! per-event error and is never folded into a bar.

use vstd::prelude::*;

verus! {

use crate::decimal::decimal_units;
use crate::decimal::parse_decimal;
use crate::decimal::valid_decimal;

/// Which side an event's size is attributed to.
#[derive(Clone, Copy, PartialEq, Eq, Structural, Debug)]
pub enum Side {
    Buy,
    Sell,
}

/// A normalized market event, one per accepted feed message.
#[derive(Clone, Copy, PartialEq, Eq, Structural, Debug)]
pub struct Event {
    /// Arrival instant, nanoseconds since the epoch.
    pub timestamp: u128,
    /// Price, in fixed-point units of `1 / DECIMAL_SCALE`.
    pub price: u64,
    /// Size, in fixed-point units of `1 / DECIMAL_SCALE`.
    pub size: u64,
    /// Side the size is attributed to.
    pub side: Side,
}

/// One feed message, as decoded from the stream envelope.
#[derive(Debug)]
pub struct BookTickerUpdate {
    pub stream: String,
    pub data: BookTickerUpdateData,
}

/// The payload of a feed message. Numeric price and quantity arrive as
/// decimal text; `m` tells whether the buyer was the market maker, in which
/// case the aggressor was the seller.
#[derive(Debug)]
pub struct BookTickerUpdateData {
    pub e: String,
    pub e2: i64,
    pub s: String,
    pub t: i64,
    pub p: String,
    pub q: String,
    pub t2: i64,
    pub m: bool,
}

/// A recoverable per-event error: the event is skipped, never folded.
#[derive(Clone, Copy, PartialEq, Eq, Structural, Debug)]
pub enum FeedError {
    MalformedPrice,
    MalformedSize,
}

/// The decimal text `s` denotes a value this engine can hold.
pub open spec fn parses_to_u64(s: Seq<char>) -> bool {
    valid_decimal(s) && decimal_units(s) <= u64::MAX
}

/// Both numeric fields of the payload parse.
pub open spec fn update_parses(d: BookTickerUpdateData) -> bool {
    parses_to_u64(d.p@) && parses_to_u64(d.q@)
}

/// The side a payload's size is attributed to: a buyer who is the market
/// maker means the aggressor was the seller.
pub open spec fn side_of(d: BookTickerUpdateData) -> Side {
    if d.m {
        Side::Sell
    } else {
        Side::Buy
    }
}

/// The event a parsing payload normalizes to.
pub open spec fn event_of(d: BookTickerUpdateData, timestamp: u128) -> Event {
    Event {
        timestamp,
        price: decimal_units(d.p@) as u64,
        size: decimal_units(d.q@) as u64,
        side: side_of(d),
    }
}

/// Normalizes one trade payload, received at `timestamp`, into an event.
/// A malformed price or size field is a recoverable error, reported rather
/// than folded as zero.
pub fn trade_event_from(d: &BookTickerUpdateData, timestamp: u128) -> (r: Result<Event, FeedError>)
    ensures
        match r {
            Ok(e) => update_parses(*d) && e == event_of(*d, timestamp),
            Err(FeedError::MalformedPrice) => !parses_to_u64(d.p@),
            Err(FeedError::MalformedSize) => parses_to_u64(d.p@) && !parses_to_u64(d.q@),
        },
{
    let price = match parse_decimal(d.p.as_str()) {
        Some(p) => p,
        None => {
            return Err(FeedError::MalformedPrice);
        },
    };
    let size = match parse_decimal(d.q.as_str()) {
        Some(q) => q,
        None => {
            return Err(FeedError::MalformedSize);
        },
    };
    Ok(
        Event {
            timestamp,
            price,
            size,
            side: if d.m {
                Side::Sell
            } else {
                Side::Buy
            },
        },
    )
}

/// The midpoint of the best bid and best ask, rounded down to a unit.
pub open spec fn midpoint(bid_price: u64, ask_price: u64) -> u64 {
    ((bid_price + ask_price) / 2) as u64
}

/// Normalizes one quote snapshot, received at `timestamp`, into two events:
/// the bid size attributed to the buy side and the ask size to the sell
/// side, both priced at the midpoint of best bid and best ask.
pub fn quote_events_from(
    bid_price: u64,
    bid_size: u64,
    ask_price: u64,
    ask_size: u64,
    timestamp: u128,
) -> (r: (Event, Event))
    ensures
        r.0 == (Event {
            timestamp,
            price: midpoint(bid_price, ask_price),
            size: bid_size,
            side: Side::Buy,
        }),
        r.1 == (Event {
            timestamp,
            price: midpoint(bid_price, ask_price),
            size: ask_size,
            side: Side::Sell,
        }),
{
    let mid = ((bid_price as u128 + ask_price as u128) / 2) as u64;
    (
        Event { timestamp, price: mid, size: bid_size, side: Side::Buy },
        Event { timestamp, price: mid, size: ask_size, side: Side::Sell },
    )
}

} // verus!
