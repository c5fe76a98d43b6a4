//! The settings of one backtest, passed in by whoever runs it.

use vstd::prelude::*;
use crate::record::StrategyKind;
use crate::strategy::{fresh_state, ScoringStrategy};

verus! {

/// The periods, in ticks, that the analysis engine and the scorer are set up with, and the
/// engine's grid settings.
#[derive(Clone, Copy, Debug, PartialEq, Eq, Structural)]
pub struct BacktestConfig {
    pub short_period: usize,
    pub long_period: usize,
    pub trading_period: usize,
    pub history_size: usize,
    pub grid_size: usize,
    pub grid_bias: usize,
}

impl BacktestConfig {
    /// The standard settings: a short period of one minute and a long period and a trading
    /// window of ten minutes at one tick per second, a day of history, a grid of twenty
    /// with a bias factor of three.
    pub fn standard() -> (r: BacktestConfig)
        ensures
            r == (BacktestConfig {
                short_period: 60,
                long_period: 600,
                trading_period: 600,
                history_size: 86_400,
                grid_size: 20,
                grid_bias: 3,
            }),
    {
        BacktestConfig {
            short_period: 60,
            long_period: 600,
            trading_period: 600,
            history_size: 86_400,
            grid_size: 20,
            grid_bias: 3,
        }
    }

    /// A new strategy of kind `kind` whose trading window is the one of these settings.
    pub fn strategy(&self, kind: StrategyKind) -> (r: ScoringStrategy)
        ensures
            r@ == fresh_state(kind, self.trading_period as u64),
    {
        ScoringStrategy::new(kind, self.trading_period as u64)
    }
}

} // verus!
