//! The three scoring policies behind one interface.

use vstd::prelude::*;
use crate::indicators::{IndicatorSnapshot, Tick};
use crate::record::{is_display_value, is_performance_score, ScoreRecord, StrategyKind};
use crate::rise::{rise_next, rise_record, CrossoverRiseScorer, RiseState};
use crate::target::{target_next, target_record, CrossoverTargetScorer, TargetState};
use crate::trend_gate::{gate_next, gate_record, GateState, TrendFollowGate};

verus! {

/// A scoring policy with its state: a transducer that takes one tick at a time, in the
/// order of the series, and answers each with one record.
pub enum ScoringStrategy {
    TrendFollowGate(TrendFollowGate),
    CrossoverRise(CrossoverRiseScorer),
    CrossoverTarget(CrossoverTargetScorer),
}

/// The state of a strategy between two ticks.
pub enum StrategyState {
    Gate(GateState),
    Rise(RiseState),
    Target(TargetState),
}

impl View for ScoringStrategy {
    type V = StrategyState;

    open spec fn view(&self) -> StrategyState {
        match self {
            ScoringStrategy::TrendFollowGate(gate) => StrategyState::Gate(gate@),
            ScoringStrategy::CrossoverRise(scorer) => StrategyState::Rise(scorer@),
            ScoringStrategy::CrossoverTarget(scorer) => StrategyState::Target(scorer@),
        }
    }
}

/// The policy that a state belongs to.
pub open spec fn state_kind(state: StrategyState) -> StrategyKind {
    match state {
        StrategyState::Gate(_) => StrategyKind::TrendFollowGate,
        StrategyState::Rise(_) => StrategyKind::CrossoverRise,
        StrategyState::Target(_) => StrategyKind::CrossoverTarget,
    }
}

/// The state of a newly made strategy of kind `kind`. Only the target scorer reads
/// `trading_period`.
pub open spec fn fresh_state(kind: StrategyKind, trading_period: u64) -> StrategyState {
    match kind {
        StrategyKind::TrendFollowGate => StrategyState::Gate(GateState { ticks_seen: 0 }),
        StrategyKind::CrossoverRise => StrategyState::Rise(
            RiseState { previous_price: None, previous_crossover: None, extrema: None },
        ),
        StrategyKind::CrossoverTarget => StrategyState::Target(
            TargetState { trading_period, open_event: None, target_achieved: false },
        ),
    }
}

/// The state after a tick.
pub open spec fn strategy_next(state: StrategyState, tick: Tick, indicators: IndicatorSnapshot)
    -> StrategyState {
    match state {
        StrategyState::Gate(gate) => StrategyState::Gate(gate_next(gate)),
        StrategyState::Rise(rise) => StrategyState::Rise(rise_next(rise, tick, indicators)),
        StrategyState::Target(target) => StrategyState::Target(
            target_next(target, tick, indicators),
        ),
    }
}

/// The record of a tick.
pub open spec fn strategy_record(state: StrategyState, tick: Tick, indicators: IndicatorSnapshot)
    -> ScoreRecord {
    match state {
        StrategyState::Gate(_) => gate_record(tick, indicators),
        StrategyState::Rise(rise) => rise_record(rise, tick, indicators),
        StrategyState::Target(target) => target_record(target, tick, indicators),
    }
}

/// Whether `score` is a value that a policy of kind `kind` can report.
pub open spec fn is_score_of(kind: StrategyKind, score: int) -> bool {
    match kind {
        StrategyKind::TrendFollowGate => is_display_value(score),
        StrategyKind::CrossoverRise => is_performance_score(score),
        StrategyKind::CrossoverTarget => is_performance_score(score),
    }
}

impl ScoringStrategy {
    /// A new strategy of kind `kind`. The target scorer keeps its events open for
    /// `trading_period` ticks; the other two do not read it.
    pub fn new(kind: StrategyKind, trading_period: u64) -> (r: ScoringStrategy)
        ensures
            r@ == fresh_state(kind, trading_period),
    {
        match kind {
            StrategyKind::TrendFollowGate => ScoringStrategy::TrendFollowGate(
                TrendFollowGate::new(),
            ),
            StrategyKind::CrossoverRise => ScoringStrategy::CrossoverRise(
                CrossoverRiseScorer::new(),
            ),
            StrategyKind::CrossoverTarget => ScoringStrategy::CrossoverTarget(
                CrossoverTargetScorer::new(trading_period),
            ),
        }
    }

    /// The policy that this strategy follows.
    pub fn kind(&self) -> (r: StrategyKind)
        ensures
            r == state_kind(self@),
    {
        match self {
            ScoringStrategy::TrendFollowGate(_) => StrategyKind::TrendFollowGate,
            ScoringStrategy::CrossoverRise(_) => StrategyKind::CrossoverRise,
            ScoringStrategy::CrossoverTarget(_) => StrategyKind::CrossoverTarget,
        }
    }

    /// Takes one tick and reports its record. Defined for every state and every tick; the
    /// policy stays the same and the score is one of the values that the policy allows.
    pub fn step(&mut self, tick: Tick, indicators: IndicatorSnapshot) -> (record: ScoreRecord)
        ensures
            final(self)@ == strategy_next(old(self)@, tick, indicators),
            record == strategy_record(old(self)@, tick, indicators),
            state_kind(final(self)@) == state_kind(old(self)@),
            record.kind == state_kind(old(self)@),
            record.price == tick.price,
            record.indicators == indicators,
            is_score_of(state_kind(old(self)@), record.score@),
    {
        match self {
            ScoringStrategy::TrendFollowGate(gate) => gate.step(tick, indicators),
            ScoringStrategy::CrossoverRise(scorer) => scorer.step(tick, indicators),
            ScoringStrategy::CrossoverTarget(scorer) => scorer.step(tick, indicators),
        }
    }
}

/// A step keeps the policy, labels its record with it, copies price and indicators into
/// the record, and reports a score that the policy allows.
pub proof fn lemma_step_record(state: StrategyState, tick: Tick, indicators: IndicatorSnapshot)
    ensures
        state_kind(strategy_next(state, tick, indicators)) == state_kind(state),
        strategy_record(state, tick, indicators).kind == state_kind(state),
        strategy_record(state, tick, indicators).price == tick.price,
        strategy_record(state, tick, indicators).indicators == indicators,
        is_score_of(state_kind(state), strategy_record(state, tick, indicators).score@),
{
}

} // verus!
