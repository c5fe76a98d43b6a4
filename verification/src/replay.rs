//! Replaying a whole series through a strategy, and what holds of every replay.

use vstd::prelude::*;
use crate::fixed::Fixed;
use crate::indicators::{IndicatorSnapshot, Tick};
use crate::record::ScoreRecord;
use crate::strategy::{
    is_score_of, lemma_step_record, state_kind, strategy_next, strategy_record, ScoringStrategy,
    StrategyState,
};
use crate::target::{
    charges_penalty, event_at, in_window, open_event_count, opens_event, target_reached,
    TargetState,
};

verus! {

/// One price of a series with the indicator values reported for it.
#[derive(Clone, Copy, Debug, PartialEq, Eq, Structural)]
pub struct Sample {
    pub price: Fixed,
    pub indicators: IndicatorSnapshot,
}

/// The tick that position `i` of a series makes: ticks are numbered by position, from zero.
pub open spec fn tick_of(samples: Seq<Sample>, i: int) -> Tick {
    Tick { index: i as u64, price: samples[i].price }
}

/// The state of a strategy that started in `start` and has taken the first `n` samples.
pub open spec fn state_after(start: StrategyState, samples: Seq<Sample>, n: nat) -> StrategyState
    decreases n,
{
    if n == 0 {
        start
    } else {
        strategy_next(
            state_after(start, samples, (n - 1) as nat),
            tick_of(samples, n - 1),
            samples[n - 1].indicators,
        )
    }
}

/// The record that the sample at position `i` earns.
pub open spec fn record_at(start: StrategyState, samples: Seq<Sample>, i: int) -> ScoreRecord {
    strategy_record(state_after(start, samples, i as nat), tick_of(samples, i), samples[i].indicators)
}

/// The records of a whole series, one per sample, in order.
pub open spec fn replayed(start: StrategyState, samples: Seq<Sample>) -> Seq<ScoreRecord> {
    Seq::new(samples.len(), |i: int| record_at(start, samples, i))
}

/// Replays `samples` through `strategy` and returns one record per sample, in order. The
/// samples are numbered by position, from zero. The result is a function of the arguments
/// alone, and every score is one that the strategy's policy allows.
pub fn backtest(strategy: ScoringStrategy, samples: &Vec<Sample>) -> (records: Vec<ScoreRecord>)
    ensures
        records@ == replayed(strategy@, samples@),
        records@.len() == samples@.len(),
        forall|i: int|
            0 <= i < records@.len() ==> is_score_of(
                state_kind(strategy@),
                #[trigger] records@[i].score@,
            ),
{
    let ghost start = strategy@;
    let mut strategy: ScoringStrategy = strategy;
    let mut records: Vec<ScoreRecord> = Vec::new();
    let mut i: usize = 0;
    while i < samples.len()
        invariant
            i <= samples.len(),
            strategy@ == state_after(start, samples@, i as nat),
            state_kind(strategy@) == state_kind(start),
            records@.len() == i,
            forall|j: int| 0 <= j < i ==> #[trigger] records@[j] == record_at(start, samples@, j),
            forall|j: int|
                0 <= j < i ==> is_score_of(state_kind(start), #[trigger] records@[j].score@),
        decreases samples.len() - i,
    {
        let sample: Sample = samples[i];
        let tick: Tick = Tick { index: i as u64, price: sample.price };
        let record: ScoreRecord = strategy.step(tick, sample.indicators);
        records.push(record);
        i = i + 1;
    }
    assert(records@ =~= replayed(start, samples@));
    records
}

/// A replay never changes the policy it started with.
pub proof fn lemma_replay_keeps_kind(start: StrategyState, samples: Seq<Sample>, n: nat)
    ensures
        state_kind(state_after(start, samples, n)) == state_kind(start),
    decreases n,
{
    if n > 0 {
        lemma_replay_keeps_kind(start, samples, (n - 1) as nat);
        lemma_step_record(
            state_after(start, samples, (n - 1) as nat),
            tick_of(samples, n - 1),
            samples[n - 1].indicators,
        );
    }
}

/// Every record of a replay carries a value that its policy allows: 0.975, 1.0 or 1.025 for
/// the trend gate, and 1.1, 1.3 or 1.5 for the two scorers.
pub proof fn lemma_scores_in_range(start: StrategyState, samples: Seq<Sample>, i: int)
    requires
        0 <= i < samples.len(),
    ensures
        is_score_of(state_kind(start), record_at(start, samples, i).score@),
        record_at(start, samples, i).kind == state_kind(start),
        record_at(start, samples, i).price == samples[i].price,
{
    lemma_replay_keeps_kind(start, samples, i as nat);
    lemma_step_record(state_after(start, samples, i as nat), tick_of(samples, i), samples[i].indicators);
}

/// Two replays of one series through equal starting states give the same records: the
/// output is a function of the ordered input.
pub proof fn lemma_replay_repeatable(
    first: StrategyState,
    second: StrategyState,
    samples: Seq<Sample>,
    first_records: Seq<ScoreRecord>,
    second_records: Seq<ScoreRecord>,
)
    requires
        first == second,
        first_records == replayed(first, samples),
        second_records == replayed(second, samples),
    ensures
        first_records == second_records,
{
}

/// The state after `n` samples depends on those `n` samples alone.
pub proof fn lemma_state_reads_prefix(
    start: StrategyState,
    samples: Seq<Sample>,
    other: Seq<Sample>,
    n: nat,
)
    requires
        n <= samples.len(),
        n <= other.len(),
        samples.take(n as int) == other.take(n as int),
    ensures
        state_after(start, samples, n) == state_after(start, other, n),
    decreases n,
{
    if n > 0 {
        assert(samples.take(n as int)[n - 1] == samples[n - 1]);
        assert(other.take(n as int)[n - 1] == other[n - 1]);
        assert(samples.take(n - 1) =~= samples.take(n as int).take(n - 1));
        assert(other.take(n - 1) =~= other.take(n as int).take(n - 1));
        lemma_state_reads_prefix(start, samples, other, (n - 1) as nat);
    }
}

/// No strategy looks ahead: the record at position `i` is the same in every series that
/// agrees with this one up to and including `i`.
pub proof fn lemma_no_look_ahead(
    start: StrategyState,
    samples: Seq<Sample>,
    other: Seq<Sample>,
    i: int,
)
    requires
        0 <= i < samples.len(),
        i < other.len(),
        samples.take(i + 1) == other.take(i + 1),
    ensures
        record_at(start, samples, i) == record_at(start, other, i),
{
    assert(samples.take(i + 1)[i] == samples[i]);
    assert(other.take(i + 1)[i] == other[i]);
    assert(samples.take(i) =~= samples.take(i + 1).take(i));
    assert(other.take(i) =~= other.take(i + 1).take(i));
    lemma_state_reads_prefix(start, samples, other, i as nat);
}

/// The records of a shorter series are the first records of every longer series that
/// begins with it; records once emitted are never revised.
pub proof fn lemma_replay_prefix(start: StrategyState, samples: Seq<Sample>, n: int)
    requires
        0 <= n <= samples.len(),
    ensures
        replayed(start, samples.take(n)) == replayed(start, samples).take(n),
{
    let short = samples.take(n);
    assert forall|i: int| 0 <= i < n implies record_at(start, short, i) == record_at(
        start,
        samples,
        i,
    ) by {
        assert(short.take(i + 1) =~= samples.take(i + 1));
        lemma_no_look_ahead(start, short, samples, i);
    }
    assert(replayed(start, short) =~= replayed(start, samples).take(n));
}

/// The target scorer's state as it stands inside a strategy state.
pub open spec fn target_state(state: StrategyState) -> TargetState {
    match state {
        StrategyState::Target(target) => target,
        _ => TargetState { trading_period: 0, open_event: None, target_achieved: false },
    }
}

/// In every replay of the target scorer that starts with a clear achieved flag, the flag
/// is clear at every tick boundary, the window length never changes, and at most one event
/// is open.
pub proof fn lemma_target_boundary(start: StrategyState, samples: Seq<Sample>, n: nat)
    requires
        start is Target,
        !target_state(start).target_achieved,
    ensures
        state_after(start, samples, n) is Target,
        !target_state(state_after(start, samples, n)).target_achieved,
        target_state(state_after(start, samples, n)).trading_period == target_state(
            start,
        ).trading_period,
        open_event_count(target_state(state_after(start, samples, n))) <= 1,
    decreases n,
{
    if n > 0 {
        lemma_target_boundary(start, samples, (n - 1) as nat);
    }
}

/// While an event stays inside its window, is not replaced and does not reach its target,
/// it stays open: after every tick from the one that opened it up to tick `upto`, the open
/// event is the one anchored at `opened`.
proof fn lemma_event_survives(start: StrategyState, samples: Seq<Sample>, opened: int, upto: int)
    requires
        start is Target,
        !target_state(start).target_achieved,
        samples.len() <= u64::MAX,
        0 <= opened <= upto < samples.len(),
        upto <= opened + target_state(start).trading_period,
        opens_event(samples[opened].indicators),
        forall|j: int|
            opened <= j <= upto ==> !target_reached(
                event_at(tick_of(samples, opened), samples[opened].indicators),
                #[trigger] samples[j].price,
                samples[j].indicators.spread,
            ),
        forall|j: int| opened < j <= upto ==> !opens_event(#[trigger] samples[j].indicators),
    ensures
        target_state(state_after(start, samples, (upto + 1) as nat)).open_event == Some(
            event_at(tick_of(samples, opened), samples[opened].indicators),
        ),
    decreases upto - opened,
{
    lemma_target_boundary(start, samples, upto as nat);
    let event = event_at(tick_of(samples, opened), samples[opened].indicators);
    let before = target_state(state_after(start, samples, upto as nat));
    let tick = tick_of(samples, upto);
    assert(!target_reached(event, samples[upto].price, samples[upto].indicators.spread));
    if upto > opened {
        lemma_event_survives(start, samples, opened, upto - 1);
        assert(!opens_event(samples[upto].indicators));
        assert(before.open_event == Some(event));
        assert(in_window(event, tick.index, before.trading_period));
    } else {
        assert(in_window(event, tick.index, before.trading_period));
    }
}

/// Window expiry. Let an event open at position `opened`, let no other event open and the
/// price not reach the target at any tick of its window, the opening tick and the last
/// tick of the window included. Then the first tick after the window charges the penalty
/// and reports 1.1. The one exception is a tick that opens a new event and reaches that
/// event's target on the spot, which it does exactly when its spread is not positive: it
/// charges the penalty for the old event and pays the bonus for the new one, and so
/// reports the baseline.
pub proof fn lemma_window_expiry(start: StrategyState, samples: Seq<Sample>, opened: int)
    requires
        start is Target,
        !target_state(start).target_achieved,
        samples.len() <= u64::MAX,
        0 <= opened,
        opened + target_state(start).trading_period + 1 < samples.len(),
        opens_event(samples[opened].indicators),
        forall|j: int|
            opened <= j <= opened + target_state(start).trading_period ==> !target_reached(
                event_at(tick_of(samples, opened), samples[opened].indicators),
                #[trigger] samples[j].price,
                samples[j].indicators.spread,
            ),
        forall|j: int|
            opened < j <= opened + target_state(start).trading_period ==> !opens_event(
                #[trigger] samples[j].indicators,
            ),
    ensures
        ({
            let after = opened + target_state(start).trading_period + 1;
            let on_the_spot = opens_event(samples[after].indicators)
                && samples[after].indicators.spread@ <= 0;
            &&& charges_penalty(
                target_state(state_after(start, samples, after as nat)),
                tick_of(samples, after),
                samples[after].indicators,
            )
            &&& on_the_spot ==> record_at(start, samples, after).score@ == 130_000_000
            &&& !on_the_spot ==> record_at(start, samples, after).score@ == 110_000_000
        }),
{
    let period = target_state(start).trading_period;
    let last = opened + period;
    let after = last + 1;
    lemma_event_survives(start, samples, opened, last);
    lemma_target_boundary(start, samples, after as nat);
    let event = event_at(tick_of(samples, opened), samples[opened].indicators);
    let before = target_state(state_after(start, samples, after as nat));
    let tick = tick_of(samples, after);
    assert(before.open_event == Some(event));
    assert(!in_window(event, tick.index, before.trading_period));
    if opens_event(samples[after].indicators) {
        let fresh = event_at(tick, samples[after].indicators);
        assert(in_window(fresh, tick.index, before.trading_period));
        assert(target_reached(fresh, tick.price, samples[after].indicators.spread)
            <==> samples[after].indicators.spread@ <= 0);
    }
}

} // verus!
