//! The trend gate: it keeps no history and only shows whether a trade would open now.

use vstd::prelude::*;
use crate::fixed::Fixed;
use crate::indicators::{IndicatorSnapshot, OpenSignal, Tick};
use crate::record::{
    is_display_value, ScoreRecord, StrategyKind, BUY_DISPLAY, QUIET_DISPLAY, SELL_DISPLAY,
};

verus! {

/// The state of a trend gate between two ticks: how many ticks it has taken.
pub struct GateState {
    pub ticks_seen: u64,
}

/// The value shown for an open signal: 1.025 for a buy, 0.975 for a sell, 1.0 otherwise.
pub open spec fn display_value(signal: OpenSignal) -> int {
    match signal {
        OpenSignal::BuyOpen => BUY_DISPLAY as int,
        OpenSignal::SellOpen => SELL_DISPLAY as int,
        OpenSignal::Quiet => QUIET_DISPLAY as int,
    }
}

/// The state after a tick: one more tick seen. The count stops at the largest number it can
/// hold.
pub open spec fn gate_next(state: GateState) -> GateState {
    GateState {
        ticks_seen: if state.ticks_seen < u64::MAX {
            (state.ticks_seen + 1) as u64
        } else {
            state.ticks_seen
        },
    }
}

/// The record of a tick.
pub open spec fn gate_record(tick: Tick, indicators: IndicatorSnapshot) -> ScoreRecord {
    ScoreRecord {
        kind: StrategyKind::TrendFollowGate,
        price: tick.price,
        indicators,
        score: Fixed { raw: display_value(indicators.open_signal) as i64 },
    }
}

/// Shows the engine's open signal of each tick as a display value.
pub struct TrendFollowGate {
    ticks_seen: u64,
}

impl View for TrendFollowGate {
    type V = GateState;

    closed spec fn view(&self) -> GateState {
        GateState { ticks_seen: self.ticks_seen }
    }
}

impl TrendFollowGate {
    /// A gate that has seen no tick.
    pub fn new() -> (r: TrendFollowGate)
        ensures
            r@ == (GateState { ticks_seen: 0 }),
    {
        TrendFollowGate { ticks_seen: 0 }
    }

    /// The number of ticks taken so far.
    pub fn ticks_seen(&self) -> (r: u64)
        ensures
            r == self@.ticks_seen,
    {
        self.ticks_seen
    }

    /// Takes one tick and shows its open signal. The value is 0.975, 1.0 or 1.025.
    pub fn step(&mut self, tick: Tick, indicators: IndicatorSnapshot) -> (record: ScoreRecord)
        ensures
            final(self)@ == gate_next(old(self)@),
            record == gate_record(tick, indicators),
            record.score@ == display_value(indicators.open_signal),
            is_display_value(record.score@),
    {
        if self.ticks_seen < u64::MAX {
            self.ticks_seen = self.ticks_seen + 1;
        }
        let shown: i64 = match indicators.open_signal {
            OpenSignal::BuyOpen => BUY_DISPLAY,
            OpenSignal::SellOpen => SELL_DISPLAY,
            OpenSignal::Quiet => QUIET_DISPLAY,
        };
        ScoreRecord {
            kind: StrategyKind::TrendFollowGate,
            price: tick.price,
            indicators,
            score: Fixed { raw: shown },
        }
    }
}

} // verus!
