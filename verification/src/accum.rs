//! The footprint accumulator: per-bucket OHLC tracking, total volume, and a
//! per-price-level breakdown of buy and sell volume. An accumulator is
//! created on the first event of a bucket, folded once per event, and
//! consumed into an immutable [`FinalizedBar`] when the bucket completes.

use vstd::prelude::*;

verus! {

use vstd::pervasive::VecAdditionalExecFns;

use crate::event::BookTickerUpdate;
use crate::event::Event;
use crate::event::Side;
use crate::event::event_of;
use crate::event::trade_event_from;
use crate::event::update_parses;

/// Fixed-point units per price-key tick: prices are rounded from eight to
/// four fractional digits when they are grouped into levels.
pub const PRICE_KEY_UNIT: u64 = 10_000;

/// Half a price-key tick; used to round to the nearest tick, halves upward.
pub const PRICE_KEY_HALF: u64 = 5_000;

/// The canonical price-level key of a price: the price rounded to the
/// nearest four-fractional-digit tick, in units of `PRICE_KEY_UNIT`.
pub open spec fn key_of(p: u64) -> u64 {
    (((p + PRICE_KEY_HALF) / (PRICE_KEY_UNIT as int))) as u64
}

/// Derives the price-level key of a price. Pure: the result depends on `p`
/// alone and equals `key_of(p)` on every call.
pub fn price_key_of(p: u64) -> (k: u64)
    ensures
        k == key_of(p),
{
    proof {
        vstd::arithmetic::div_mod::lemma_div_is_ordered(
            p + PRICE_KEY_HALF,
            u64::MAX + PRICE_KEY_HALF,
            PRICE_KEY_UNIT as int,
        );
    }
    ((p as u128 + PRICE_KEY_HALF as u128) / PRICE_KEY_UNIT as u128) as u64
}

/// The sum of the sizes of a sequence of events.
pub open spec fn sum_sizes(s: Seq<Event>) -> int
    decreases s.len(),
{
    if s.len() == 0 {
        0
    } else {
        sum_sizes(s.drop_last()) + s.last().size
    }
}

/// The contribution of one event to the volume of level `k` on side `sd`.
pub open spec fn side_size(e: Event, k: u64, sd: Side) -> int {
    if key_of(e.price) == k && e.side == sd {
        e.size as int
    } else {
        0
    }
}

/// The volume folded into level `k` on side `sd` by a sequence of events.
pub open spec fn side_volume_at(s: Seq<Event>, k: u64, sd: Side) -> int
    decreases s.len(),
{
    if s.len() == 0 {
        0
    } else {
        side_volume_at(s.drop_last(), k, sd) + side_size(s.last(), k, sd)
    }
}

/// The set of price-level keys a sequence of events touches.
pub open spec fn keys_of(s: Seq<Event>) -> Set<u64>
    decreases s.len(),
{
    if s.len() == 0 {
        Set::empty()
    } else {
        keys_of(s.drop_last()).insert(key_of(s.last().price))
    }
}

/// The greatest price among the events, zero when there are none.
pub open spec fn max_price(s: Seq<Event>) -> int
    decreases s.len(),
{
    if s.len() == 0 {
        0
    } else {
        let rest = max_price(s.drop_last());
        if s.last().price > rest {
            s.last().price as int
        } else {
            rest
        }
    }
}

/// The least price among the events, zero when there are none.
pub open spec fn min_price(s: Seq<Event>) -> int
    decreases s.len(),
{
    if s.len() == 0 {
        0
    } else if s.len() == 1 {
        s.last().price as int
    } else {
        let rest = min_price(s.drop_last());
        if (s.last().price as int) < rest {
            s.last().price as int
        } else {
            rest
        }
    }
}

/// One price level of a footprint: the rounded price key and the buy and
/// sell volume attributed to it.
#[derive(Clone, Copy, PartialEq, Eq, Structural, Debug)]
pub struct PriceLevel {
    pub key: u64,
    pub buy_volume: u128,
    pub sell_volume: u128,
}

/// The total volume recorded across a sequence of price levels.
pub open spec fn levels_volume(ls: Seq<PriceLevel>) -> int
    decreases ls.len(),
{
    if ls.len() == 0 {
        0
    } else {
        levels_volume(ls.drop_last()) + ls.last().buy_volume + ls.last().sell_volume
    }
}

/// The footprint state `(open, high, low, close, total_volume, levels)` is
/// exactly the aggregate of the events `s`, with one level per distinct key
/// and all numeric fields zero when `s` is empty.
pub open spec fn footprint_wf(
    s: Seq<Event>,
    open: u64,
    high: u64,
    low: u64,
    close: u64,
    total_volume: u128,
    levels: Seq<PriceLevel>,
) -> bool {
    &&& total_volume == sum_sizes(s)
    &&& levels_volume(levels) == sum_sizes(s)
    &&& (forall|i: int, j: int|
        0 <= i < j < levels.len() ==> (#[trigger] levels[i]).key != (#[trigger] levels[j]).key)
    &&& (forall|i: int|
        0 <= i < levels.len() ==> (#[trigger] levels[i]).buy_volume == side_volume_at(
            s,
            levels[i].key,
            Side::Buy,
        ))
    &&& (forall|i: int|
        0 <= i < levels.len() ==> (#[trigger] levels[i]).sell_volume == side_volume_at(
            s,
            levels[i].key,
            Side::Sell,
        ))
    &&& (forall|i: int| 0 <= i < levels.len() ==> keys_of(s).contains((#[trigger] levels[i]).key))
    &&& (forall|k: u64|
        #[trigger] keys_of(s).contains(k) ==> exists|i: int|
            0 <= i < levels.len() && (#[trigger] levels[i]).key == k)
    &&& if s.len() == 0 {
        open == 0 && high == 0 && low == 0 && close == 0 && levels.len() == 0
    } else {
        open == s[0].price && close == s.last().price && high == max_price(s) && low == min_price(
            s,
        )
    }
}

/// Mutable per-bucket state. `folded` is the ghost record of every event
/// folded so far; the invariant ties each concrete field to it.
pub struct FootprintAccumulator {
    pub started: bool,
    pub open: u64,
    pub high: u64,
    pub low: u64,
    pub close: u64,
    pub total_volume: u128,
    pub levels: Vec<PriceLevel>,
    pub folded: Ghost<Seq<Event>>,
}

/// Immutable output, produced exactly once per completed bucket.
pub struct FinalizedBar {
    pub open: u64,
    pub high: u64,
    pub low: u64,
    pub close: u64,
    pub total_volume: u128,
    pub levels: Vec<PriceLevel>,
    pub events: Ghost<Seq<Event>>,
}

impl FinalizedBar {
    pub open spec fn inv(self) -> bool {
        footprint_wf(
            self.events@,
            self.open,
            self.high,
            self.low,
            self.close,
            self.total_volume,
            self.levels@,
        )
    }
}

/// How folding one more event moves every part of the model.
proof fn lemma_push_model(s: Seq<Event>, e: Event)
    ensures
        sum_sizes(s.push(e)) == sum_sizes(s) + e.size,
        forall|k: u64, sd: Side| #[trigger]
            side_volume_at(s.push(e), k, sd) == side_volume_at(s, k, sd) + side_size(e, k, sd),
        keys_of(s.push(e)) == keys_of(s).insert(key_of(e.price)),
        max_price(s.push(e)) == if e.price > max_price(s) {
            e.price as int
        } else {
            max_price(s)
        },
        s.len() > 0 ==> min_price(s.push(e)) == if (e.price as int) < min_price(s) {
            e.price as int
        } else {
            min_price(s)
        },
        s.len() == 0 ==> min_price(s.push(e)) == e.price,
        s.len() > 0 ==> s.push(e)[0] == s[0],
        s.push(e).last() == e,
{
    assert(s.push(e).drop_last() =~= s);
    assert(s.push(e).last() == e);
}

/// A key no folded event touched carries no volume.
proof fn lemma_absent_key_zero(s: Seq<Event>, k: u64, sd: Side)
    requires
        !keys_of(s).contains(k),
    ensures
        side_volume_at(s, k, sd) == 0,
    decreases s.len(),
{
    if s.len() > 0 {
        lemma_absent_key_zero(s.drop_last(), k, sd);
    }
}

proof fn lemma_levels_volume_nonneg(ls: Seq<PriceLevel>)
    ensures
        levels_volume(ls) >= 0,
    decreases ls.len(),
{
    if ls.len() > 0 {
        lemma_levels_volume_nonneg(ls.drop_last());
    }
}

/// Each entry's two volumes are bounded by the recorded total.
proof fn lemma_levels_volume_entry_le(ls: Seq<PriceLevel>, i: int)
    requires
        0 <= i < ls.len(),
    ensures
        ls[i].buy_volume + ls[i].sell_volume <= levels_volume(ls),
    decreases ls.len(),
{
    if i == ls.len() - 1 {
        lemma_levels_volume_nonneg(ls.drop_last());
    } else {
        assert(ls.drop_last()[i] == ls[i]);
        lemma_levels_volume_entry_le(ls.drop_last(), i);
    }
}

/// Replacing one entry moves the recorded total by the entry's change.
proof fn lemma_levels_volume_update(ls: Seq<PriceLevel>, i: int, v: PriceLevel)
    requires
        0 <= i < ls.len(),
    ensures
        levels_volume(ls.update(i, v)) == levels_volume(ls) - ls[i].buy_volume
            - ls[i].sell_volume + v.buy_volume + v.sell_volume,
    decreases ls.len(),
{
    let u = ls.update(i, v);
    if i == ls.len() - 1 {
        assert(u.drop_last() =~= ls.drop_last());
        assert(u.last() == v);
    } else {
        assert(u.drop_last() =~= ls.drop_last().update(i, v));
        assert(u.last() == ls.last());
        lemma_levels_volume_update(ls.drop_last(), i, v);
    }
}

/// The index of the level holding key `k`, if one exists.
fn find_level(levels: &Vec<PriceLevel>, k: u64) -> (r: Option<usize>)
    ensures
        match r {
            Some(i) => i < levels.len() && levels@[i as int].key == k,
            None => forall|i: int| 0 <= i < levels@.len() ==> (#[trigger] levels@[i]).key != k,
        },
{
    let mut i: usize = 0;
    while i < levels.len()
        invariant
            i <= levels.len(),
            forall|m: int| 0 <= m < i ==> (#[trigger] levels@[m]).key != k,
        decreases levels.len() - i,
    {
        if levels[i].key == k {
            return Some(i);
        }
        i += 1;
    }
    None
}

impl FootprintAccumulator {
    /// The concrete fields are exactly the aggregate of the folded events.
    pub open spec fn inv(self) -> bool {
        &&& (self.started <==> self.folded@.len() > 0)
        &&& footprint_wf(
            self.folded@,
            self.open,
            self.high,
            self.low,
            self.close,
            self.total_volume,
            self.levels@,
        )
    }

    /// A fresh accumulator: no events folded, every numeric field zero.
    pub fn new() -> (a: Self)
        ensures
            a.inv(),
            a.folded@ == Seq::<Event>::empty(),
    {
        FootprintAccumulator {
            started: false,
            open: 0,
            high: 0,
            low: 0,
            close: 0,
            total_volume: 0,
            levels: Vec::new(),
            folded: Ghost(Seq::empty()),
        }
    }

    /// Folds one event: the first event seeds the OHLC fields, every event
    /// updates close, the extrema, the total volume, and the buy or sell
    /// volume of the level its rounded price falls on.
    pub fn fold(&mut self, e: Event)
        requires
            old(self).inv(),
            sum_sizes(old(self).folded@) + e.size <= u128::MAX,
        ensures
            final(self).inv(),
            final(self).folded@ == old(self).folded@.push(e),
    {
        proof {
            lemma_push_model(old(self).folded@, e);
        }
        if !self.started {
            self.started = true;
            self.open = e.price;
            self.high = e.price;
            self.low = e.price;
        } else {
            if e.price > self.high {
                self.high = e.price;
            }
            if e.price < self.low {
                self.low = e.price;
            }
        }
        self.close = e.price;
        self.total_volume = self.total_volume + e.size as u128;
        let k = price_key_of(e.price);
        match find_level(&self.levels, k) {
            Some(i) => {
                proof {
                    lemma_levels_volume_entry_le(self.levels@, i as int);
                }
                let lv = self.levels[i];
                let updated = match e.side {
                    Side::Buy => PriceLevel {
                        key: lv.key,
                        buy_volume: lv.buy_volume + e.size as u128,
                        sell_volume: lv.sell_volume,
                    },
                    Side::Sell => PriceLevel {
                        key: lv.key,
                        buy_volume: lv.buy_volume,
                        sell_volume: lv.sell_volume + e.size as u128,
                    },
                };
                proof {
                    lemma_levels_volume_update(self.levels@, i as int, updated);
                }
                self.levels.set(i, updated);
                proof {
                    let s0 = old(self).folded@;
                    let s1 = s0.push(e);
                    let ls0 = old(self).levels@;
                    let ls1 = self.levels@;
                    assert forall|k2: u64| #[trigger] keys_of(s1).contains(k2) implies exists|
                        m: int,
                    | 0 <= m < ls1.len() && (#[trigger] ls1[m]).key == k2 by {
                        if k2 == key_of(e.price) {
                            assert(ls1[i as int].key == k2);
                        } else {
                            assert(keys_of(s0).contains(k2));
                            let m0 = choose|m: int|
                                0 <= m < ls0.len() && (#[trigger] ls0[m]).key == k2;
                            assert(ls1[m0].key == k2);
                        }
                    }
                }
            },
            None => {
                proof {
                    lemma_absent_key_zero(old(self).folded@, k, Side::Buy);
                    lemma_absent_key_zero(old(self).folded@, k, Side::Sell);
                }
                let fresh = match e.side {
                    Side::Buy => PriceLevel {
                        key: k,
                        buy_volume: e.size as u128,
                        sell_volume: 0,
                    },
                    Side::Sell => PriceLevel {
                        key: k,
                        buy_volume: 0,
                        sell_volume: e.size as u128,
                    },
                };
                self.levels.push(fresh);
                proof {
                    let s0 = old(self).folded@;
                    let s1 = s0.push(e);
                    let ls0 = old(self).levels@;
                    let ls1 = self.levels@;
                    assert(ls1.drop_last() =~= ls0);
                    assert(ls1.last() == fresh);
                    assert forall|k2: u64| #[trigger] keys_of(s1).contains(k2) implies exists|
                        m: int,
                    | 0 <= m < ls1.len() && (#[trigger] ls1[m]).key == k2 by {
                        if k2 == key_of(e.price) {
                            assert(ls1[ls1.len() - 1].key == k2);
                        } else {
                            assert(keys_of(s0).contains(k2));
                            let m0 = choose|m: int|
                                0 <= m < ls0.len() && (#[trigger] ls0[m]).key == k2;
                            assert(ls1[m0].key == k2);
                        }
                    }
                }
            },
        }
        self.folded = Ghost(old(self).folded@.push(e));
    }

    /// Snapshots the accumulator into an immutable bar, consuming it. With
    /// zero folded events the bar has every numeric field zero and an empty
    /// level list, never an error.
    pub fn finalize(self) -> (b: FinalizedBar)
        requires
            self.inv(),
        ensures
            b.inv(),
            b.events@ == self.folded@,
            b.open == self.open,
            b.high == self.high,
            b.low == self.low,
            b.close == self.close,
            b.total_volume == self.total_volume,
            b.levels@ == self.levels@,
    {
        FinalizedBar {
            open: self.open,
            high: self.high,
            low: self.low,
            close: self.close,
            total_volume: self.total_volume,
            levels: self.levels,
            events: Ghost(self.folded@),
        }
    }
}

/// Volume conservation: a bar's total volume is the sum of the folded event
/// sizes, and the buy and sell volumes across its price levels sum to
/// exactly that total.
pub proof fn lemma_volume_conservation(b: FinalizedBar)
    requires
        b.inv(),
    ensures
        b.total_volume == sum_sizes(b.events@),
        levels_volume(b.levels@) == b.total_volume,
{
}

/// Every folded event's price lies between the bar's extrema.
pub proof fn lemma_extrema_bound(s: Seq<Event>, i: int)
    requires
        0 <= i < s.len(),
    ensures
        min_price(s) <= s[i].price <= max_price(s),
    decreases s.len(),
{
    if i < s.len() - 1 {
        assert(s.drop_last()[i] == s[i]);
        lemma_extrema_bound(s.drop_last(), i);
    }
}

/// OHLC envelope: `high >= max(open, close)` and `low <= min(open, close)`
/// for every bar with at least one event.
pub proof fn lemma_ohlc_envelope(b: FinalizedBar)
    requires
        b.inv(),
        b.events@.len() > 0,
    ensures
        b.low <= b.open <= b.high,
        b.low <= b.close <= b.high,
{
    lemma_extrema_bound(b.events@, 0);
    lemma_extrema_bound(b.events@, b.events@.len() - 1);
}

/// The events that a run of raw feed messages normalizes to: each message
/// whose numeric fields parse contributes one event, in order.
pub open spec fn trade_events_of(s: Seq<BookTickerUpdate>) -> Seq<Event>
    decreases s.len(),
{
    if s.len() == 0 {
        Seq::empty()
    } else {
        let rest = trade_events_of(s.drop_last());
        if update_parses(s.last().data) {
            rest.push(event_of(s.last().data, 0))
        } else {
            rest
        }
    }
}

proof fn lemma_trade_events_take_succ(s: Seq<BookTickerUpdate>, i: int)
    requires
        0 <= i < s.len(),
    ensures
        trade_events_of(s.take(i + 1)) == if update_parses(s[i].data) {
            trade_events_of(s.take(i)).push(event_of(s[i].data, 0))
        } else {
            trade_events_of(s.take(i))
        },
{
    assert(s.take(i + 1).drop_last() =~= s.take(i));
    assert(s.take(i + 1).last() == s[i]);
}

/// The volume of a prefix of the stream never exceeds that of the whole.
proof fn lemma_trade_events_sum_le(s: Seq<BookTickerUpdate>, i: int)
    requires
        0 <= i <= s.len(),
    ensures
        sum_sizes(trade_events_of(s.take(i))) <= sum_sizes(trade_events_of(s)),
    decreases s.len() - i,
{
    if i == s.len() {
        assert(s.take(i) =~= s);
    } else {
        lemma_trade_events_take_succ(s, i);
        if update_parses(s[i].data) {
            lemma_push_model(trade_events_of(s.take(i)), event_of(s[i].data, 0));
        }
        lemma_trade_events_sum_le(s, i + 1);
    }
}

/// Aggregates one bucket's worth of raw feed messages into a finished bar:
/// each message's price and size are parsed, malformed messages are skipped,
/// and the rest are folded in arrival order.
pub fn process_footprint_bar(book_stamp_vec: &Vec<BookTickerUpdate>) -> (b: FinalizedBar)
    requires
        sum_sizes(trade_events_of(book_stamp_vec@)) <= u128::MAX,
    ensures
        b.inv(),
        b.events@ == trade_events_of(book_stamp_vec@),
{
    let mut acc = FootprintAccumulator::new();
    let n = book_stamp_vec.len();
    let mut i: usize = 0;
    while i < n
        invariant
            n == book_stamp_vec@.len(),
            i <= n,
            acc.inv(),
            acc.folded@ == trade_events_of(book_stamp_vec@.take(i as int)),
            sum_sizes(trade_events_of(book_stamp_vec@)) <= u128::MAX,
        decreases n - i,
    {
        proof {
            lemma_trade_events_take_succ(book_stamp_vec@, i as int);
            lemma_trade_events_sum_le(book_stamp_vec@, i + 1);
            if update_parses(book_stamp_vec@[i as int].data) {
                lemma_push_model(
                    trade_events_of(book_stamp_vec@.take(i as int)),
                    event_of(book_stamp_vec@[i as int].data, 0),
                );
            }
        }
        match trade_event_from(&book_stamp_vec[i].data, 0) {
            Ok(e) => {
                acc.fold(e);
            },
            Err(_) => {},
        }
        i += 1;
    }
    proof {
        assert(book_stamp_vec@.take(n as int) =~= book_stamp_vec@);
    }
    acc.finalize()
}

} // verus!
