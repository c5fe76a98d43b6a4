//! What the analysis engine reports for one tick, and the tick itself.

use vstd::prelude::*;
use crate::fixed::Fixed;

verus! {

/// The crossover value that means "no directional signal": one half.
pub const NEUTRAL_CROSSOVER: i64 = 50_000_000;

/// One indexed price observation of an ordered series. Indices count from zero.
#[derive(Clone, Copy, Debug, PartialEq, Eq, Structural)]
pub struct Tick {
    pub index: u64,
    pub price: Fixed,
}

/// Whether the engine would open a trade now, and on which side.
#[derive(Clone, Copy, Debug, PartialEq, Eq, Structural)]
pub enum OpenSignal {
    BuyOpen,
    SellOpen,
    Quiet,
}

/// The side a crossover points to.
#[derive(Clone, Copy, Debug, PartialEq, Eq, Structural)]
pub enum Direction {
    Up,
    Down,
}

/// The indicator values of one tick. The strategies only react to them; none is recomputed.
///
/// `crossover` lies between zero and one, and exactly one half means that there is no
/// signal. Each strategy reads the fields it is defined over and carries the rest through.
#[derive(Clone, Copy, Debug, PartialEq, Eq, Structural)]
pub struct IndicatorSnapshot {
    pub open_signal: OpenSignal,
    pub crossover: Fixed,
    pub spread: Fixed,
    pub volatility: Fixed,
    pub volatility2: Fixed,
}

/// The side that the crossover value `crossover` points to; none exactly at one half.
pub open spec fn crossover_direction(crossover: Fixed) -> Option<Direction> {
    if crossover@ > NEUTRAL_CROSSOVER {
        Some(Direction::Up)
    } else if crossover@ < NEUTRAL_CROSSOVER {
        Some(Direction::Down)
    } else {
        None
    }
}

impl IndicatorSnapshot {
    /// The side that this snapshot's crossover points to.
    pub fn direction(&self) -> (r: Option<Direction>)
        ensures
            r == crossover_direction(self.crossover),
    {
        if self.crossover.raw > NEUTRAL_CROSSOVER {
            Some(Direction::Up)
        } else if self.crossover.raw < NEUTRAL_CROSSOVER {
            Some(Direction::Down)
        } else {
            None
        }
    }
}

} // verus!
