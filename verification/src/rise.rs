//! The rise scorer: at each crossover signal it looks back at how the price moved since the
//! previous signal and scores that movement against the previous signal's side.

use vstd::prelude::*;
use crate::extrema::{tracker_at, tracker_with, ExtremaTracker};
use crate::fixed::Fixed;
use crate::indicators::{IndicatorSnapshot, Tick, NEUTRAL_CROSSOVER};
use crate::record::{adjusted_score, is_performance_score, Adjustment, ScoreRecord, StrategyKind};

verus! {

/// A movement counts as favourable once it exceeds this many spreads.
pub const RISE_SPREADS: i64 = 10;

/// The state of a rise scorer between two ticks.
pub struct RiseState {
    pub previous_price: Option<Fixed>,
    pub previous_crossover: Option<Fixed>,
    pub extrema: Option<ExtremaTracker>,
}

/// The extrema once the tick's price has been taken in.
pub open spec fn observed_extrema(extrema: Option<ExtremaTracker>, price: Fixed)
    -> ExtremaTracker {
    match extrema {
        Some(tracker) => tracker_with(tracker, price),
        None => tracker_at(price),
    }
}

/// Whether the tick is one at which the movement is looked at: its crossover is a signal
/// and an earlier signal has been recorded.
pub open spec fn evaluates(state: RiseState, indicators: IndicatorSnapshot) -> bool {
    indicators.crossover@ != NEUTRAL_CROSSOVER && state.previous_crossover.is_some()
}

/// Whether the price rose: yes where the running maximum exceeds the previous price, no
/// where the running minimum fell below it, undefined where neither happened.
pub open spec fn price_rise(extrema: ExtremaTracker, previous_price: Fixed) -> Option<bool> {
    if extrema.max_since_event@ > previous_price@ {
        Some(true)
    } else if extrema.min_since_event@ < previous_price@ {
        Some(false)
    } else {
        None
    }
}

/// How far the price went on the side that the earlier signal pointed to.
pub open spec fn favourable_move(extrema: ExtremaTracker, previous_price: Fixed, bullish: bool)
    -> int {
    if bullish {
        extrema.max_since_event@ - previous_price@
    } else {
        previous_price@ - extrema.min_since_event@
    }
}

/// The adjustment for a defined movement under an earlier signal `previous_crossover`:
/// against the signal's side the penalty; with it and beyond ten spreads the bonus; with it
/// but within ten spreads nothing.
pub open spec fn movement_adjustment(
    extrema: ExtremaTracker,
    previous_price: Fixed,
    previous_crossover: Fixed,
    rise: bool,
    spread: Fixed,
) -> Adjustment {
    let bullish = previous_crossover@ > NEUTRAL_CROSSOVER;
    if rise != bullish {
        Adjustment::Penalty
    } else if favourable_move(extrema, previous_price, bullish) > RISE_SPREADS * spread@ {
        Adjustment::Bonus
    } else {
        Adjustment::Unchanged
    }
}

/// The one adjustment of a tick.
pub open spec fn rise_adjustment(state: RiseState, tick: Tick, indicators: IndicatorSnapshot)
    -> Adjustment {
    let extrema = observed_extrema(state.extrema, tick.price);
    if evaluates(state, indicators) && state.previous_price.is_some() {
        match price_rise(extrema, state.previous_price.unwrap()) {
            Some(rise) => movement_adjustment(
                extrema,
                state.previous_price.unwrap(),
                state.previous_crossover.unwrap(),
                rise,
                indicators.spread,
            ),
            None => Adjustment::Unchanged,
        }
    } else {
        Adjustment::Unchanged
    }
}

/// The state after a tick: the price becomes the previous price, a signal becomes the
/// previous signal, and the extrema either start anew at the price (at a tick where the
/// movement was looked at) or have taken the price in.
pub open spec fn rise_next(state: RiseState, tick: Tick, indicators: IndicatorSnapshot)
    -> RiseState {
    RiseState {
        previous_price: Some(tick.price),
        previous_crossover: if indicators.crossover@ != NEUTRAL_CROSSOVER {
            Some(indicators.crossover)
        } else {
            state.previous_crossover
        },
        extrema: Some(
            if evaluates(state, indicators) {
                tracker_at(tick.price)
            } else {
                observed_extrema(state.extrema, tick.price)
            },
        ),
    }
}

/// The record of a tick.
pub open spec fn rise_record(state: RiseState, tick: Tick, indicators: IndicatorSnapshot)
    -> ScoreRecord {
    ScoreRecord {
        kind: StrategyKind::CrossoverRise,
        price: tick.price,
        indicators,
        score: Fixed { raw: adjusted_score(rise_adjustment(state, tick, indicators)) as i64 },
    }
}

/// Scores each crossover signal by the price movement since the signal before it.
pub struct CrossoverRiseScorer {
    previous_price: Option<Fixed>,
    previous_crossover: Option<Fixed>,
    extrema: Option<ExtremaTracker>,
}

impl View for CrossoverRiseScorer {
    type V = RiseState;

    closed spec fn view(&self) -> RiseState {
        RiseState {
            previous_price: self.previous_price,
            previous_crossover: self.previous_crossover,
            extrema: self.extrema,
        }
    }
}

impl CrossoverRiseScorer {
    /// A scorer that has seen no tick.
    pub fn new() -> (r: CrossoverRiseScorer)
        ensures
            r@ == (RiseState { previous_price: None, previous_crossover: None, extrema: None }),
    {
        CrossoverRiseScorer { previous_price: None, previous_crossover: None, extrema: None }
    }

    /// The price of the tick before, if there was one.
    pub fn previous_price(&self) -> (r: Option<Fixed>)
        ensures
            r == self@.previous_price,
    {
        self.previous_price
    }

    /// The latest crossover value that was a signal, if there was one.
    pub fn previous_crossover(&self) -> (r: Option<Fixed>)
        ensures
            r == self@.previous_crossover,
    {
        self.previous_crossover
    }

    /// The running extrema, once a tick has been seen.
    pub fn extrema(&self) -> (r: Option<ExtremaTracker>)
        ensures
            r == self@.extrema,
    {
        self.extrema
    }

    /// The adjustment for a movement `rise` seen in `extrema`.
    fn judge(
        extrema: &ExtremaTracker,
        previous_price: Fixed,
        previous_crossover: Fixed,
        rise: bool,
        spread: Fixed,
    ) -> (r: Adjustment)
        ensures
            r == movement_adjustment(*extrema, previous_price, previous_crossover, rise, spread),
    {
        let bullish: bool = previous_crossover.raw > NEUTRAL_CROSSOVER;
        if rise != bullish {
            Adjustment::Penalty
        } else {
            let moved: i128 = if bullish {
                extrema.max_since_event.raw as i128 - previous_price.raw as i128
            } else {
                previous_price.raw as i128 - extrema.min_since_event.raw as i128
            };
            let spreads: i128 = RISE_SPREADS as i128;
            assert(spreads == 10);
            if moved > spreads * (spread.raw as i128) {
                Adjustment::Bonus
            } else {
                Adjustment::Unchanged
            }
        }
    }

    /// Takes one tick: updates the extrema, scores the movement since the previous signal
    /// where this tick carries a signal, and remembers the tick.
    ///
    /// The score is the baseline with at most one adjustment, so it is 1.1, 1.3 or 1.5, and
    /// the extrema enclose the tick's price afterwards.
    pub fn step(&mut self, tick: Tick, indicators: IndicatorSnapshot) -> (record: ScoreRecord)
        ensures
            final(self)@ == rise_next(old(self)@, tick, indicators),
            record == rise_record(old(self)@, tick, indicators),
            record.score@ == adjusted_score(rise_adjustment(old(self)@, tick, indicators)),
            is_performance_score(record.score@),
            final(self)@.extrema.is_some(),
            final(self)@.extrema.unwrap().encloses(tick.price),
    {
        let mut extrema: ExtremaTracker = match self.extrema {
            Some(tracker) => {
                let mut tracker: ExtremaTracker = tracker;
                tracker.observe(tick.price);
                tracker
            },
            None => ExtremaTracker::new(tick.price),
        };
        let mut adjustment: Adjustment = Adjustment::Unchanged;
        let signalled: bool = indicators.crossover.raw != NEUTRAL_CROSSOVER;
        if signalled {
            match self.previous_crossover {
                Some(previous_crossover) => {
                    match self.previous_price {
                        Some(previous_price) => {
                            if extrema.max_since_event.raw > previous_price.raw {
                                adjustment =
                                Self::judge(
                                    &extrema,
                                    previous_price,
                                    previous_crossover,
                                    true,
                                    indicators.spread,
                                );
                            } else if extrema.min_since_event.raw < previous_price.raw {
                                adjustment =
                                Self::judge(
                                    &extrema,
                                    previous_price,
                                    previous_crossover,
                                    false,
                                    indicators.spread,
                                );
                            }
                        },
                        None => {},
                    }
                    extrema.reset(tick.price);
                },
                None => {},
            }
            self.previous_crossover = Some(indicators.crossover);
        }
        self.previous_price = Some(tick.price);
        self.extrema = Some(extrema);
        ScoreRecord {
            kind: StrategyKind::CrossoverRise,
            price: tick.price,
            indicators,
            score: adjustment.score(),
        }
    }
}

} // verus!
