//! The record a strategy emits for one tick.

use vstd::prelude::*;
use crate::fixed::Fixed;
use crate::indicators::IndicatorSnapshot;
use crate::price_print::{format_price, price_text};

verus! {

/// The neutral performance value, 1.3.
pub const BASELINE_SCORE: i64 = 130_000_000;

/// The size of one adjustment, 0.2.
pub const SCORE_STEP: i64 = 20_000_000;

/// The value shown where a buy would open, 1.025.
pub const BUY_DISPLAY: i64 = 102_500_000;

/// The value shown where a sell would open, 0.975.
pub const SELL_DISPLAY: i64 = 97_500_000;

/// The value shown where nothing would open, 1.0.
pub const QUIET_DISPLAY: i64 = 100_000_000;

/// The three scoring policies.
#[derive(Clone, Copy, Debug, PartialEq, Eq, Structural)]
pub enum StrategyKind {
    TrendFollowGate,
    CrossoverRise,
    CrossoverTarget,
}

/// The score state of one tick: what the tick does to the baseline on balance. It is made
/// anew for every tick and is not carried forward. A tick that charges the penalty and
/// pays the bonus at once leaves the baseline unchanged.
#[derive(Clone, Copy, Debug, PartialEq, Eq, Structural)]
pub enum Adjustment {
    Penalty,
    Unchanged,
    Bonus,
}

/// The score that the baseline and `adjustment` make: 1.1, 1.3 or 1.5.
pub open spec fn adjusted_score(adjustment: Adjustment) -> int {
    match adjustment {
        Adjustment::Penalty => BASELINE_SCORE - SCORE_STEP,
        Adjustment::Unchanged => BASELINE_SCORE as int,
        Adjustment::Bonus => BASELINE_SCORE + SCORE_STEP,
    }
}

/// What a tick does to the baseline on balance, where it charges the penalty, pays the
/// bonus, both or neither.
pub open spec fn net_adjustment(penalty: bool, bonus: bool) -> Adjustment {
    if penalty == bonus {
        Adjustment::Unchanged
    } else if bonus {
        Adjustment::Bonus
    } else {
        Adjustment::Penalty
    }
}

/// Whether `score` is one of the three performance scores 1.1, 1.3 and 1.5.
pub open spec fn is_performance_score(score: int) -> bool {
    score == 110_000_000 || score == 130_000_000 || score == 150_000_000
}

/// Whether `score` is one of the three display values 0.975, 1.0 and 1.025.
pub open spec fn is_display_value(score: int) -> bool {
    score == 97_500_000 || score == 100_000_000 || score == 102_500_000
}

impl Adjustment {
    /// The score that the baseline and this adjustment make.
    pub fn score(self) -> (r: Fixed)
        ensures
            r@ == adjusted_score(self),
            is_performance_score(r@),
    {
        match self {
            Adjustment::Penalty => Fixed { raw: BASELINE_SCORE - SCORE_STEP },
            Adjustment::Unchanged => Fixed { raw: BASELINE_SCORE },
            Adjustment::Bonus => Fixed { raw: BASELINE_SCORE + SCORE_STEP },
        }
    }

    /// What a tick does on balance, where it charges the penalty, pays the bonus, both or
    /// neither.
    pub fn net(penalty: bool, bonus: bool) -> (r: Adjustment)
        ensures
            r == net_adjustment(penalty, bonus),
    {
        if penalty == bonus {
            Adjustment::Unchanged
        } else if bonus {
            Adjustment::Bonus
        } else {
            Adjustment::Penalty
        }
    }
}

/// The score on balance is the baseline, less the step where the penalty is charged, plus
/// the step where the bonus is paid.
pub proof fn lemma_net_score(penalty: bool, bonus: bool)
    ensures
        adjusted_score(net_adjustment(penalty, bonus)) == BASELINE_SCORE - (if penalty {
            SCORE_STEP as int
        } else {
            0
        }) + (if bonus {
            SCORE_STEP as int
        } else {
            0
        }),
        is_performance_score(adjusted_score(net_adjustment(penalty, bonus))),
{
}

/// One output record: the tick's price, the indicator values it was scored with, and the
/// score. `kind` says which policy made it and thereby fixes the columns.
#[derive(Clone, Copy, Debug, PartialEq, Eq, Structural)]
pub struct ScoreRecord {
    pub kind: StrategyKind,
    pub price: Fixed,
    pub indicators: IndicatorSnapshot,
    pub score: Fixed,
}

/// The columns of a record, in the order in which a sink writes them.
///
/// Every policy starts with the price. The trend gate follows with its display value; the
/// rise scorer with crossover, score and spread; the target scorer with crossover, score and
/// the two volatilities.
pub open spec fn record_columns(record: ScoreRecord) -> Seq<Fixed> {
    match record.kind {
        StrategyKind::TrendFollowGate => seq![record.price, record.score],
        StrategyKind::CrossoverRise => seq![
            record.price,
            record.indicators.crossover,
            record.score,
            record.indicators.spread,
        ],
        StrategyKind::CrossoverTarget => seq![
            record.price,
            record.indicators.crossover,
            record.score,
            record.indicators.volatility,
            record.indicators.volatility2,
        ],
    }
}

impl ScoreRecord {
    /// The columns of this record, in writing order.
    pub fn columns(&self) -> (r: Vec<Fixed>)
        ensures
            r@ == record_columns(*self),
    {
        let mut out: Vec<Fixed> = Vec::new();
        out.push(self.price);
        match self.kind {
            StrategyKind::TrendFollowGate => {
                out.push(self.score);
            },
            StrategyKind::CrossoverRise => {
                out.push(self.indicators.crossover);
                out.push(self.score);
                out.push(self.indicators.spread);
            },
            StrategyKind::CrossoverTarget => {
                out.push(self.indicators.crossover);
                out.push(self.score);
                out.push(self.indicators.volatility);
                out.push(self.indicators.volatility2);
            },
        }
        out
    }
}

/// What stands between two columns of a line: a comma and a blank.
pub open spec fn separator() -> Seq<u8> {
    seq![44u8, 32u8]
}

/// The text of some columns: each written as a number, with a separator between every two.
pub open spec fn joined_text(columns: Seq<Fixed>) -> Seq<u8>
    decreases columns.len(),
{
    if columns.len() == 0 {
        Seq::<u8>::empty()
    } else if columns.len() == 1 {
        price_text(columns[0]@)
    } else {
        joined_text(columns.drop_last()) + separator() + price_text(columns.last()@)
    }
}

/// The line that a sink writes for a record, without the line end.
pub open spec fn record_line(record: ScoreRecord) -> Seq<u8> {
    joined_text(record_columns(record))
}

impl ScoreRecord {
    /// The line that a sink writes for this record, without the line end.
    pub fn line(&self) -> (r: Vec<u8>)
        ensures
            r@ == record_line(*self),
    {
        let columns: Vec<Fixed> = self.columns();
        let mut out: Vec<u8> = Vec::new();
        let mut i: usize = 0;
        assert(columns@.take(0) =~= Seq::<Fixed>::empty());
        while i < columns.len()
            invariant
                i <= columns@.len(),
                out@ == joined_text(columns@.take(i as int)),
            decreases columns@.len() - i,
        {
            let ghost longer = columns@.take(i + 1);
            assert(longer.drop_last() =~= columns@.take(i as int));
            assert(longer.last() == columns@[i as int]);
            if i > 0 {
                out.push(44);
                out.push(32);
            }
            let ghost before = out@;
            let text: Vec<u8> = format_price(columns[i]);
            let mut j: usize = 0;
            while j < text.len()
                invariant
                    j <= text@.len(),
                    out@ == before + text@.take(j as int),
                decreases text@.len() - j,
            {
                out.push(text[j]);
                assert(text@.take(j + 1) =~= text@.take(j as int).push(text@[j as int]));
                j = j + 1;
            }
            assert(text@.take(j as int) =~= text@);
            assert(out@ =~= joined_text(longer)) by {
                if i > 0 {
                    assert(before =~= joined_text(columns@.take(i as int)) + separator());
                } else {
                    assert(before =~= Seq::<u8>::empty());
                }
            }
            i = i + 1;
        }
        assert(columns@.take(i as int) =~= columns@);
        out
    }
}

} // verus!
