//! The bar boundary detector: a two-state machine (`NoActiveBucket`,
//! `ActiveBucket`) that feeds each event to the accumulator of its bucket
//! and finalizes the previous accumulator the moment the bucket key
//! advances. A bucket with no events is never created and never emitted; an
//! event whose key lies *before* the active bucket is folded into the
//! active bucket anyway (late events belong to "now") and flagged, so that
//! an already-finished bucket is never reopened.

use vstd::prelude::*;

verus! {

use crate::accum::FinalizedBar;
use crate::accum::FootprintAccumulator;
use crate::accum::sum_sizes;
use crate::bucket::bucket_of;
use crate::bucket::bucket_start;
use crate::event::Event;

/// The bucket currently being accumulated.
pub struct ActiveBucket {
    /// The bucket's start instant, nanoseconds since the epoch.
    pub key: u128,
    pub acc: FootprintAccumulator,
}

/// What processing one event did.
pub enum ProcessOutcome {
    /// The event was folded into the active bucket, opening one if none was.
    Accumulated,
    /// The event's bucket key lies before the active bucket: it was folded
    /// into the active bucket regardless, and the anomaly is flagged here.
    AccumulatedLate,
    /// The event opened a new bucket; the bar of the finished one is carried
    /// here, emitted exactly once.
    Completed(FinalizedBar),
}

/// Compares each event's bucket key against the active bucket and decides
/// when a bar is finished. Holds at most one accumulator at a time.
pub struct BarBoundaryDetector {
    /// Bar duration in nanoseconds; fixed for the detector's lifetime.
    pub duration: u128,
    pub current: Option<ActiveBucket>,
}

impl BarBoundaryDetector {
    pub open spec fn wf(self) -> bool {
        &&& self.duration > 0
        &&& match self.current {
            Some(b) => {
                &&& b.acc.inv()
                &&& b.acc.folded@.len() > 0
                &&& b.key == bucket_of(b.acc.folded@[0].timestamp, self.duration)
                &&& forall|i: int|
                    0 <= i < b.acc.folded@.len() ==> bucket_of(
                        (#[trigger] b.acc.folded@[i]).timestamp,
                        self.duration,
                    ) <= b.key
            },
            None => true,
        }
    }

    /// The active accumulator, if the event would fold into it, can take
    /// the event's size without its running total exceeding `u128::MAX`.
    pub open spec fn fold_fits(self, e: Event) -> bool {
        match self.current {
            Some(b) => bucket_of(e.timestamp, self.duration) <= b.key ==> sum_sizes(b.acc.folded@)
                + e.size <= u128::MAX,
            None => true,
        }
    }

    /// A detector with no active bucket.
    pub fn new(duration: u128) -> (d: Self)
        requires
            duration > 0,
        ensures
            d.wf(),
            d.duration == duration,
            d.current is None,
    {
        BarBoundaryDetector { duration, current: None }
    }

    /// Feeds one event through the state machine. With no active bucket the
    /// event opens one; with a matching key it is folded into the active
    /// bucket; with an earlier key it is folded there too and flagged; with
    /// a later key the active bucket is finalized and handed out, and the
    /// event opens a fresh one.
    pub fn process_event(&mut self, e: Event) -> (r: ProcessOutcome)
        requires
            old(self).wf(),
            old(self).fold_fits(e),
        ensures
            final(self).wf(),
            final(self).duration == old(self).duration,
            ({
                let k = bucket_of(e.timestamp, old(self).duration);
                match old(self).current {
                    None => {
                        &&& r is Accumulated
                        &&& final(self).current matches Some(b2) && b2.key == k
                            && b2.acc.folded@ == seq![e]
                    },
                    Some(b) => {
                        if k > b.key {
                            &&& r matches ProcessOutcome::Completed(bar) && bar.inv()
                                && bar.events@ == b.acc.folded@ && bar.open == b.acc.open
                                && bar.high == b.acc.high && bar.low == b.acc.low && bar.close
                                == b.acc.close && bar.total_volume == b.acc.total_volume
                                && bar.levels@ == b.acc.levels@
                            &&& final(self).current matches Some(b2) && b2.key == k
                                && b2.acc.folded@ == seq![e]
                        } else {
                            &&& if k == b.key {
                                r is Accumulated
                            } else {
                                r is AccumulatedLate
                            }
                            &&& final(self).current matches Some(b2) && b2.key == b.key
                                && b2.acc.folded@ == b.acc.folded@.push(e)
                        }
                    },
                }
            }),
    {
        let k = bucket_start(e.timestamp, self.duration);
        match self.current.take() {
            None => {
                let mut acc = FootprintAccumulator::new();
                acc.fold(e);
                proof {
                    assert(acc.folded@ =~= seq![e]);
                }
                self.current = Some(ActiveBucket { key: k, acc });
                ProcessOutcome::Accumulated
            },
            Some(mut b) => {
                if k > b.key {
                    let bar = b.acc.finalize();
                    let mut acc = FootprintAccumulator::new();
                    acc.fold(e);
                    proof {
                        assert(acc.folded@ =~= seq![e]);
                    }
                    self.current = Some(ActiveBucket { key: k, acc });
                    ProcessOutcome::Completed(bar)
                } else {
                    let late = k < b.key;
                    b.acc.fold(e);
                    self.current = Some(b);
                    if late {
                        ProcessOutcome::AccumulatedLate
                    } else {
                        ProcessOutcome::Accumulated
                    }
                }
            },
        }
    }
}

} // verus!
