//! The target scorer: a hypothetical trade opens at each crossover signal and is scored by
//! whether the price reaches a target before the trading window closes.

use vstd::prelude::*;
use crate::fixed::Fixed;
use crate::indicators::{crossover_direction, Direction, IndicatorSnapshot, Tick, NEUTRAL_CROSSOVER};
use crate::record::{
    adjusted_score, is_performance_score, lemma_net_score, net_adjustment, Adjustment, ScoreRecord, StrategyKind,
    BASELINE_SCORE, SCORE_STEP,
};

verus! {

/// The secondary volatility above which a crossover counts as an event: 0.3.
pub const VOLATILITY_THRESHOLD: i64 = 30_000_000;

/// The target lies one part in `TARGET_DIVISOR` of the spread away from the anchor price,
/// that is at 0.0005 times the spread.
pub const TARGET_DIVISOR: i64 = 2000;

/// An open hypothetical trade, anchored at the tick where the signal was seen.
#[derive(Clone, Copy, Debug, PartialEq, Eq, Structural)]
pub struct CrossoverEvent {
    pub anchor_index: u64,
    pub direction: Direction,
    pub anchor_price: Fixed,
}

/// The state of a target scorer between two ticks.
pub struct TargetState {
    pub trading_period: u64,
    pub open_event: Option<CrossoverEvent>,
    pub target_achieved: bool,
}

/// Whether a tick with these indicators starts a new event: the secondary volatility
/// exceeds its threshold and the crossover is not at the neutral midpoint.
pub open spec fn opens_event(indicators: IndicatorSnapshot) -> bool {
    indicators.volatility2@ > VOLATILITY_THRESHOLD && indicators.crossover@ != NEUTRAL_CROSSOVER
}

/// The event that a tick starts: anchored at the tick, pointing where the crossover points.
pub open spec fn event_at(tick: Tick, indicators: IndicatorSnapshot) -> CrossoverEvent {
    CrossoverEvent {
        anchor_index: tick.index,
        direction: if indicators.crossover@ > NEUTRAL_CROSSOVER {
            Direction::Up
        } else {
            Direction::Down
        },
        anchor_price: tick.price,
    }
}

/// Whether tick `index` still lies in the trading window of `event`, its last tick included.
pub open spec fn in_window(event: CrossoverEvent, index: u64, trading_period: u64) -> bool {
    index <= event.anchor_index + trading_period
}

/// Whether `price` has reached or passed the target of `event`: the anchor price plus
/// 0.0005 times `spread` for an upward event, minus it for a downward one.
pub open spec fn target_reached(event: CrossoverEvent, price: Fixed, spread: Fixed) -> bool {
    match event.direction {
        Direction::Up => TARGET_DIVISOR * (price@ - event.anchor_price@) >= spread@,
        Direction::Down => TARGET_DIVISOR * (event.anchor_price@ - price@) >= spread@,
    }
}

/// The state once a tick's signal has been looked at: a new event replaces whatever was
/// open and clears the achieved flag.
pub open spec fn after_detection(state: TargetState, tick: Tick, indicators: IndicatorSnapshot)
    -> TargetState {
    if opens_event(indicators) {
        TargetState {
            trading_period: state.trading_period,
            open_event: Some(event_at(tick, indicators)),
            target_achieved: false,
        }
    } else {
        state
    }
}

/// Whether the tick cuts short an event that was still open.
pub open spec fn replaces_event(state: TargetState, indicators: IndicatorSnapshot) -> bool {
    opens_event(indicators) && state.open_event.is_some()
}

/// Whether the target counts as achieved at this tick: the flag was already set, or the
/// event that is open after detection is inside its window and the price has reached its
/// target.
pub open spec fn achieves(state: TargetState, tick: Tick, indicators: IndicatorSnapshot) -> bool {
    let detected = after_detection(state, tick, indicators);
    detected.target_achieved || match detected.open_event {
        Some(event) => in_window(event, tick.index, detected.trading_period) && target_reached(
            event,
            tick.price,
            indicators.spread,
        ),
        None => false,
    }
}

/// Whether the event that is open after detection has outlived its window at this tick.
pub open spec fn expires(state: TargetState, tick: Tick, indicators: IndicatorSnapshot) -> bool {
    let detected = after_detection(state, tick, indicators);
    match detected.open_event {
        Some(event) => !in_window(event, tick.index, detected.trading_period),
        None => false,
    }
}

/// Whether the tick charges the penalty: it cuts short an event that was still open, or the
/// open event has outlived its window and no achieved target takes precedence over that.
pub open spec fn charges_penalty(state: TargetState, tick: Tick, indicators: IndicatorSnapshot)
    -> bool {
    replaces_event(state, indicators) || (expires(state, tick, indicators) && !achieves(
        state,
        tick,
        indicators,
    ))
}

/// What a tick does to the baseline on balance. An achieved target pays the bonus; a
/// replaced event costs the penalty, also where the event that replaces it is achieved on
/// the same tick, so that the two cancel; an expired event costs the penalty unless the
/// target is achieved.
pub open spec fn target_adjustment(state: TargetState, tick: Tick, indicators: IndicatorSnapshot)
    -> Adjustment {
    net_adjustment(charges_penalty(state, tick, indicators), achieves(state, tick, indicators))
}

/// The state after a tick. Achievement and expiry both close the event; the achieved flag
/// is paid out in the tick that sets it and is clear afterwards.
pub open spec fn target_next(state: TargetState, tick: Tick, indicators: IndicatorSnapshot)
    -> TargetState {
    let detected = after_detection(state, tick, indicators);
    TargetState {
        trading_period: state.trading_period,
        open_event: if achieves(state, tick, indicators) || expires(state, tick, indicators) {
            None
        } else {
            detected.open_event
        },
        target_achieved: false,
    }
}

/// The record of a tick.
pub open spec fn target_record(state: TargetState, tick: Tick, indicators: IndicatorSnapshot)
    -> ScoreRecord {
    ScoreRecord {
        kind: StrategyKind::CrossoverTarget,
        price: tick.price,
        indicators,
        score: Fixed { raw: adjusted_score(target_adjustment(state, tick, indicators)) as i64 },
    }
}

/// The number of events that are open in `state`.
pub open spec fn open_event_count(state: TargetState) -> nat {
    if state.open_event.is_some() {
        1
    } else {
        0
    }
}

/// Scores each tick by the fate of the trade that the latest crossover event opened.
pub struct CrossoverTargetScorer {
    trading_period: u64,
    open_event: Option<CrossoverEvent>,
    target_achieved: bool,
}

impl View for CrossoverTargetScorer {
    type V = TargetState;

    closed spec fn view(&self) -> TargetState {
        TargetState {
            trading_period: self.trading_period,
            open_event: self.open_event,
            target_achieved: self.target_achieved,
        }
    }
}

impl CrossoverTargetScorer {
    /// A scorer with no open event, whose events live for `trading_period` ticks after the
    /// tick that anchors them.
    pub fn new(trading_period: u64) -> (r: CrossoverTargetScorer)
        ensures
            r@ == (TargetState { trading_period, open_event: None, target_achieved: false }),
    {
        CrossoverTargetScorer { trading_period, open_event: None, target_achieved: false }
    }

    /// The window length in ticks.
    pub fn trading_period(&self) -> (r: u64)
        ensures
            r == self@.trading_period,
    {
        self.trading_period
    }

    /// The event that is open, if one is.
    pub fn open_event(&self) -> (r: Option<CrossoverEvent>)
        ensures
            r == self@.open_event,
    {
        self.open_event
    }

    /// Whether an achieved target is still waiting to be paid out.
    pub fn target_achieved(&self) -> (r: bool)
        ensures
            r == self@.target_achieved,
    {
        self.target_achieved
    }

    /// Whether `price` has reached the target of `event` at the spread `spread`.
    fn reached(event: &CrossoverEvent, price: Fixed, spread: Fixed) -> (r: bool)
        ensures
            r == target_reached(*event, price, spread),
    {
        let gain: i128 = match event.direction {
            Direction::Up => price.raw as i128 - event.anchor_price.raw as i128,
            Direction::Down => event.anchor_price.raw as i128 - price.raw as i128,
        };
        assert(-0x1_0000_0000_0000_0000 <= gain <= 0x1_0000_0000_0000_0000);
        let divisor: i128 = TARGET_DIVISOR as i128;
        assert(divisor == 2000);
        divisor * gain >= spread.raw as i128
    }

    /// Whether tick `index` lies in the window of `event`.
    fn within(event: &CrossoverEvent, index: u64, trading_period: u64) -> (r: bool)
        ensures
            r == in_window(*event, index, trading_period),
    {
        index <= event.anchor_index || index - event.anchor_index <= trading_period
    }

    /// Takes one tick: detects a new event, evaluates the open one against its target and
    /// its window, and reports the tick's score.
    ///
    /// The score is the baseline, less 0.2 where the tick charges the penalty, plus 0.2
    /// where it pays the bonus, so it is 1.1, 1.3 or 1.5, and at most one event is open
    /// afterwards.
    pub fn step(&mut self, tick: Tick, indicators: IndicatorSnapshot) -> (record: ScoreRecord)
        ensures
            final(self)@ == target_next(old(self)@, tick, indicators),
            record == target_record(old(self)@, tick, indicators),
            record.score@ == BASELINE_SCORE - (if charges_penalty(old(self)@, tick, indicators) {
                SCORE_STEP as int
            } else {
                0
            }) + (if achieves(old(self)@, tick, indicators) {
                SCORE_STEP as int
            } else {
                0
            }),
            is_performance_score(record.score@),
            open_event_count(final(self)@) <= 1,
            !final(self)@.target_achieved,
            final(self)@.open_event matches Some(event) ==> in_window(
                event,
                tick.index,
                final(self)@.trading_period,
            ),
    {
        let mut replaced: bool = false;
        if indicators.volatility2.raw > VOLATILITY_THRESHOLD {
            match indicators.direction() {
                Some(direction) => {
                    replaced = self.open_event.is_some();
                    self.open_event = Some(
                        CrossoverEvent {
                            anchor_index: tick.index,
                            direction,
                            anchor_price: tick.price,
                        },
                    );
                    self.target_achieved = false;
                },
                None => {},
            }
        }
        let mut achieved: bool = self.target_achieved;
        let mut expired: bool = false;
        match self.open_event {
            Some(event) => {
                if Self::within(&event, tick.index, self.trading_period) {
                    if Self::reached(&event, tick.price, indicators.spread) {
                        achieved = true;
                    }
                } else {
                    expired = true;
                }
            },
            None => {},
        }
        if achieved || expired {
            self.open_event = None;
        }
        self.target_achieved = false;
        let adjustment: Adjustment = Adjustment::net(replaced || (expired && !achieved), achieved);
        proof {
            lemma_net_score(
                charges_penalty(old(self)@, tick, indicators),
                achieves(old(self)@, tick, indicators),
            );
        }
        ScoreRecord {
            kind: StrategyKind::CrossoverTarget,
            price: tick.price,
            indicators,
            score: adjustment.score(),
        }
    }
}

/// At most one event is open in any state of the scorer.
pub proof fn lemma_at_most_one_open_event(state: TargetState)
    ensures
        open_event_count(state) <= 1,
{
}

/// What a tick charges and pays. The score is the baseline, less the step where the tick
/// charges the penalty, plus the step where it pays the bonus. It charges at most one
/// penalty, since a replaced event and an expired one never fall on the same tick, and
/// from a clear achieved flag an expiry and an achievement never do either. Penalty and
/// bonus meet only where an open event is replaced by one that is achieved on the spot.
/// After the tick the achieved flag is clear, and an event that is still open lies inside
/// its window: no event outlives the trading period.
pub proof fn lemma_adjustments(state: TargetState, tick: Tick, indicators: IndicatorSnapshot)
    ensures
        adjusted_score(target_adjustment(state, tick, indicators)) == BASELINE_SCORE - (
        if charges_penalty(state, tick, indicators) {
            SCORE_STEP as int
        } else {
            0
        }) + (if achieves(state, tick, indicators) {
            SCORE_STEP as int
        } else {
            0
        }),
        !(replaces_event(state, indicators) && expires(state, tick, indicators)),
        !state.target_achieved ==> !(achieves(state, tick, indicators) && expires(
            state,
            tick,
            indicators,
        )),
        charges_penalty(state, tick, indicators) && achieves(state, tick, indicators)
            <==> replaces_event(state, indicators) && achieves(state, tick, indicators),
        !target_next(state, tick, indicators).target_achieved,
        open_event_count(target_next(state, tick, indicators)) <= 1,
        target_next(state, tick, indicators).open_event matches Some(event) ==> in_window(
            event,
            tick.index,
            state.trading_period,
        ),
        is_performance_score(adjusted_score(target_adjustment(state, tick, indicators))),
{
    lemma_net_score(
        charges_penalty(state, tick, indicators),
        achieves(state, tick, indicators),
    );
}

/// A signal while an event is open closes that event and charges the penalty for it, once.
/// From then on only the new anchor counts: the new event stays open, anchored at the
/// tick, unless its own target is reached on the spot, which happens exactly where the
/// spread is not positive; then the bonus is paid beside the penalty, the score is the
/// baseline, and no event stays open.
pub proof fn lemma_replacement_charges_once(
    state: TargetState,
    tick: Tick,
    indicators: IndicatorSnapshot,
)
    requires
        state.open_event.is_some(),
        opens_event(indicators),
    ensures
        charges_penalty(state, tick, indicators),
        achieves(state, tick, indicators) <==> indicators.spread@ <= 0,
        indicators.spread@ > 0 ==> target_adjustment(state, tick, indicators)
            == Adjustment::Penalty && target_next(state, tick, indicators).open_event == Some(
            event_at(tick, indicators),
        ),
        indicators.spread@ <= 0 ==> target_adjustment(state, tick, indicators)
            == Adjustment::Unchanged && target_next(state, tick, indicators).open_event.is_none(),
        adjusted_score(target_adjustment(state, tick, indicators)) == if indicators.spread@ > 0 {
            BASELINE_SCORE - SCORE_STEP
        } else {
            BASELINE_SCORE as int
        },
{
    let event = event_at(tick, indicators);
    assert(in_window(event, tick.index, state.trading_period));
}

/// A tick that opens an event while none is open charges nothing, and pays the bonus
/// exactly where the new event's target is reached on the spot.
pub proof fn lemma_opening_charges_nothing(
    state: TargetState,
    tick: Tick,
    indicators: IndicatorSnapshot,
)
    requires
        state.open_event.is_none(),
        opens_event(indicators),
    ensures
        !charges_penalty(state, tick, indicators),
        target_adjustment(state, tick, indicators) == if indicators.spread@ <= 0 {
            Adjustment::Bonus
        } else {
            Adjustment::Unchanged
        },
{
    let event = event_at(tick, indicators);
    assert(in_window(event, tick.index, state.trading_period));
}

/// The neutral crossover never starts an event, whatever the volatility.
pub proof fn lemma_neutral_never_opens(indicators: IndicatorSnapshot)
    requires
        indicators.crossover@ == NEUTRAL_CROSSOVER,
    ensures
        !opens_event(indicators),
        crossover_direction(indicators.crossover).is_none(),
{
}

/// A bonus or an expiry closes the event for good: the tick pays its adjustment once, and
/// the ticks after it report the baseline until a new event opens.
pub proof fn lemma_closed_event_stays_closed(
    state: TargetState,
    tick: Tick,
    indicators: IndicatorSnapshot,
    later: Tick,
    later_indicators: IndicatorSnapshot,
)
    requires
        achieves(state, tick, indicators) || expires(state, tick, indicators),
        !opens_event(later_indicators),
    ensures
        target_next(state, tick, indicators).open_event.is_none(),
        target_adjustment(target_next(state, tick, indicators), later, later_indicators)
            == Adjustment::Unchanged,
        target_next(target_next(state, tick, indicators), later, later_indicators)
            == target_next(state, tick, indicators),
{
}

} // verus!
