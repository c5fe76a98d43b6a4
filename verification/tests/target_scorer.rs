use backtester::fixed::Fixed;
use backtester::indicators::{Direction, IndicatorSnapshot, OpenSignal, Tick};
use backtester::price_text::parse_price;
use backtester::record::{ScoreRecord, StrategyKind};
use backtester::target::{CrossoverEvent, CrossoverTargetScorer};

fn num(text: &str) -> Fixed {
    parse_price(text.as_bytes()).expect("a number")
}

fn snapshot(crossover: &str, spread: &str, volatility2: &str) -> IndicatorSnapshot {
    IndicatorSnapshot {
        open_signal: OpenSignal::Quiet,
        crossover: num(crossover),
        spread: num(spread),
        volatility: num("0"),
        volatility2: num(volatility2),
    }
}

fn tick(index: u64, price: &str) -> Tick {
    Tick { index, price: num(price) }
}

/// Feeds the prices through a scorer; the first tick carries `first`, the others `later`.
fn scores(
    trading_period: u64,
    prices: &[&str],
    first: IndicatorSnapshot,
    later: IndicatorSnapshot,
) -> Vec<Fixed> {
    let mut scorer = CrossoverTargetScorer::new(trading_period);
    let mut out = Vec::new();
    for (i, price) in prices.iter().enumerate() {
        let indicators = if i == 0 { first } else { later };
        out.push(scorer.step(tick(i as u64, price), indicators).score);
    }
    out
}

#[test]
fn new_scorer_has_no_open_event() {
    let scorer = CrossoverTargetScorer::new(600);
    assert_eq!(scorer.trading_period(), 600);
    assert_eq!(scorer.open_event(), None);
    assert!(!scorer.target_achieved());
}

#[test]
fn quiet_tick_reports_the_baseline() {
    let mut scorer = CrossoverTargetScorer::new(2);
    let indicators = snapshot("0.5", "1", "0");
    let record = scorer.step(tick(0, "100"), indicators);
    assert_eq!(
        record,
        ScoreRecord {
            kind: StrategyKind::CrossoverTarget,
            price: num("100"),
            indicators,
            score: num("1.3"),
        }
    );
    assert_eq!(scorer.open_event(), None);
}

#[test]
fn upward_signal_opens_an_upward_event_at_the_tick() {
    let mut scorer = CrossoverTargetScorer::new(2);
    let record = scorer.step(tick(7, "100"), snapshot("0.6", "1", "0.5"));
    assert_eq!(record.score, num("1.3"));
    assert_eq!(
        scorer.open_event(),
        Some(CrossoverEvent {
            anchor_index: 7,
            direction: Direction::Up,
            anchor_price: num("100"),
        })
    );
}

#[test]
fn downward_signal_opens_a_downward_event() {
    let mut scorer = CrossoverTargetScorer::new(2);
    scorer.step(tick(0, "100"), snapshot("0.4", "1", "0.5"));
    assert_eq!(
        scorer.open_event(),
        Some(CrossoverEvent {
            anchor_index: 0,
            direction: Direction::Down,
            anchor_price: num("100"),
        })
    );
}

#[test]
fn neutral_crossover_never_opens_an_event() {
    let mut scorer = CrossoverTargetScorer::new(2);
    let record = scorer.step(tick(0, "100"), snapshot("0.5", "1", "0.9"));
    assert_eq!(record.score, num("1.3"));
    assert_eq!(scorer.open_event(), None);
}

#[test]
fn volatility_at_the_threshold_does_not_open_an_event() {
    let mut scorer = CrossoverTargetScorer::new(2);
    scorer.step(tick(0, "100"), snapshot("0.6", "1", "0.3"));
    assert_eq!(scorer.open_event(), None);
    scorer.step(tick(1, "100"), snapshot("0.6", "1", "0.30000001"));
    assert!(scorer.open_event().is_some());
}

#[test]
fn rising_series_reaches_the_target_at_index_one() {
    // Anchor 100, spread 1: the target is 100.0005, and 101 is past it.
    let got = scores(
        2,
        &["100", "101", "99", "98", "97"],
        snapshot("0.6", "1", "0.5"),
        snapshot("0.5", "1", "0"),
    );
    assert_eq!(got, vec![num("1.3"), num("1.5"), num("1.3"), num("1.3"), num("1.3")]);
}

#[test]
fn series_that_stays_below_the_target_expires_after_the_window() {
    // Anchor 100 at index 0 and a window of 2: indices 1 and 2 are inside, index 3 is the
    // first outside and carries the penalty.
    let got = scores(
        2,
        &["100", "99.5", "99", "98", "97"],
        snapshot("0.6", "1", "0.5"),
        snapshot("0.5", "1", "0"),
    );
    assert_eq!(got, vec![num("1.3"), num("1.3"), num("1.3"), num("1.1"), num("1.3")]);
}

#[test]
fn target_reached_at_index_one_pays_the_bonus_once() {
    let got = scores(
        2,
        &["100", "100.01", "99", "98"],
        snapshot("0.6", "1", "0.5"),
        snapshot("0.5", "1", "0"),
    );
    assert_eq!(got, vec![num("1.3"), num("1.5"), num("1.3"), num("1.3")]);
}

#[test]
fn achievement_closes_the_event_and_clears_the_flag() {
    let mut scorer = CrossoverTargetScorer::new(2);
    scorer.step(tick(0, "100"), snapshot("0.6", "1", "0.5"));
    let record = scorer.step(tick(1, "100.01"), snapshot("0.5", "1", "0"));
    assert_eq!(record.score, num("1.5"));
    assert_eq!(scorer.open_event(), None);
    assert!(!scorer.target_achieved());
}

#[test]
fn target_is_anchor_plus_spread_times_k_exactly() {
    // spread 1 gives a target of 100.0005: 100.00049999 is short of it, 100.0005 is on it.
    let below = scores(
        5,
        &["100", "100.00049999"],
        snapshot("0.6", "1", "0.5"),
        snapshot("0.5", "1", "0"),
    );
    assert_eq!(below, vec![num("1.3"), num("1.3")]);
    let on = scores(
        5,
        &["100", "100.0005"],
        snapshot("0.6", "1", "0.5"),
        snapshot("0.5", "1", "0"),
    );
    assert_eq!(on, vec![num("1.3"), num("1.5")]);
}

#[test]
fn downward_target_is_anchor_minus_spread_times_k() {
    // spread 2 gives a target of 99.999.
    let above = scores(
        5,
        &["100", "99.99900001"],
        snapshot("0.4", "2", "0.5"),
        snapshot("0.5", "2", "0"),
    );
    assert_eq!(above, vec![num("1.3"), num("1.3")]);
    let on = scores(
        5,
        &["100", "99.999"],
        snapshot("0.4", "2", "0.5"),
        snapshot("0.5", "2", "0"),
    );
    assert_eq!(on, vec![num("1.3"), num("1.5")]);
}

#[test]
fn direction_is_fixed_when_the_event_opens() {
    // The event is upward; a later downward crossover below the volatility threshold does
    // not turn a falling price into an achievement.
    let got = scores(
        5,
        &["100", "99"],
        snapshot("0.6", "1", "0.5"),
        snapshot("0.4", "1", "0"),
    );
    assert_eq!(got, vec![num("1.3"), num("1.3")]);
}

#[test]
fn spread_of_the_current_tick_sets_the_target() {
    let mut scorer = CrossoverTargetScorer::new(5);
    scorer.step(tick(0, "100"), snapshot("0.6", "1", "0.5"));
    // With a spread of 40 the target is 100.02, so 100.01 does not reach it.
    let far = scorer.step(tick(1, "100.01"), snapshot("0.5", "40", "0"));
    assert_eq!(far.score, num("1.3"));
    // With a spread of 1 the target is 100.0005.
    let near = scorer.step(tick(2, "100.01"), snapshot("0.5", "1", "0"));
    assert_eq!(near.score, num("1.5"));
}

#[test]
fn last_tick_of_the_window_can_still_achieve() {
    let got = scores(
        2,
        &["100", "99", "101", "98"],
        snapshot("0.6", "1", "0.5"),
        snapshot("0.5", "1", "0"),
    );
    assert_eq!(got, vec![num("1.3"), num("1.3"), num("1.5"), num("1.3")]);
}

#[test]
fn price_past_the_target_after_the_window_does_not_count() {
    let got = scores(
        2,
        &["100", "99", "99", "101", "101"],
        snapshot("0.6", "1", "0.5"),
        snapshot("0.5", "1", "0"),
    );
    assert_eq!(got, vec![num("1.3"), num("1.3"), num("1.3"), num("1.1"), num("1.3")]);
}

#[test]
fn a_window_of_zero_holds_the_opening_tick_only() {
    let got = scores(
        0,
        &["100", "101"],
        snapshot("0.6", "1", "0.5"),
        snapshot("0.5", "1", "0"),
    );
    assert_eq!(got, vec![num("1.3"), num("1.1")]);
}

#[test]
fn replacing_an_open_event_costs_the_penalty() {
    let mut scorer = CrossoverTargetScorer::new(10);
    scorer.step(tick(0, "100"), snapshot("0.6", "1", "0.5"));
    let record = scorer.step(tick(1, "99"), snapshot("0.4", "1", "0.5"));
    assert_eq!(record.score, num("1.1"));
    assert_eq!(
        scorer.open_event(),
        Some(CrossoverEvent {
            anchor_index: 1,
            direction: Direction::Down,
            anchor_price: num("99"),
        })
    );
}

#[test]
fn expiry_on_a_tick_that_opens_a_new_event_costs_the_penalty_once() {
    let mut scorer = CrossoverTargetScorer::new(1);
    scorer.step(tick(0, "100"), snapshot("0.6", "1", "0.5"));
    scorer.step(tick(1, "99"), snapshot("0.5", "1", "0"));
    let record = scorer.step(tick(2, "99"), snapshot("0.6", "1", "0.5"));
    assert_eq!(record.score, num("1.1"));
    assert_eq!(scorer.open_event().map(|event| event.anchor_index), Some(2));
}

#[test]
fn new_event_reached_on_the_spot_pays_the_bonus() {
    // A spread of zero puts the target on the anchor price itself.
    let mut scorer = CrossoverTargetScorer::new(3);
    let record = scorer.step(tick(0, "100"), snapshot("0.6", "0", "0.5"));
    assert_eq!(record.score, num("1.5"));
    assert_eq!(scorer.open_event(), None);
}

#[test]
fn replacement_penalty_and_bonus_on_one_tick_leave_the_baseline() {
    // The event of index 0 is cut short at index 1 (less 0.2) by an event whose target lies
    // on or below its own anchor price and is reached on the spot (plus 0.2).
    let mut scorer = CrossoverTargetScorer::new(3);
    scorer.step(tick(0, "100"), snapshot("0.6", "1", "0.5"));
    let record = scorer.step(tick(1, "99"), snapshot("0.6", "-1", "0.5"));
    assert_eq!(record.score, num("1.3"));
    assert_eq!(scorer.open_event(), None);
    assert!(!scorer.target_achieved());
    // Nothing is left to pay or to charge.
    let after = scorer.step(tick(2, "99"), snapshot("0.5", "1", "0"));
    assert_eq!(after.score, num("1.3"));
}

#[test]
fn signal_on_a_flat_series_with_no_spread_charges_and_pays_at_once() {
    let mut scorer = CrossoverTargetScorer::new(600);
    let first = scorer.step(tick(0, "100"), snapshot("0.6", "1", "0.4"));
    assert_eq!(first.score, num("1.3"));
    assert_eq!(scorer.open_event().map(|event| event.anchor_index), Some(0));
    let second = scorer.step(tick(1, "100"), snapshot("0.6", "0", "0.4"));
    assert_eq!(second.score, num("1.3"));
    assert_eq!(scorer.open_event(), None);
}

#[test]
fn replacement_with_a_positive_spread_leaves_only_the_new_anchor() {
    let mut scorer = CrossoverTargetScorer::new(2);
    scorer.step(tick(0, "100"), snapshot("0.6", "1", "0.5"));
    let replaced = scorer.step(tick(1, "90"), snapshot("0.6", "1", "0.5"));
    assert_eq!(replaced.score, num("1.1"));
    // 100.0005, the target of the first event, pays nothing: the anchor is 90 now.
    // 90.0005 is reached at index 2.
    let reached = scorer.step(tick(2, "90.0005"), snapshot("0.5", "1", "0"));
    assert_eq!(reached.score, num("1.5"));
    let mut other = CrossoverTargetScorer::new(2);
    other.step(tick(0, "100"), snapshot("0.6", "1", "0.5"));
    other.step(tick(1, "90"), snapshot("0.6", "1", "0.5"));
    // No expiry falls due at index 3 for the first event; the second expires at index 4.
    let scores: Vec<Fixed> = (2..6)
        .map(|i| other.step(tick(i, "89"), snapshot("0.5", "1", "0")).score)
        .collect();
    assert_eq!(scores, vec![num("1.3"), num("1.3"), num("1.1"), num("1.3")]);
}

#[test]
fn an_event_can_open_and_resolve_again_and_again() {
    let mut scorer = CrossoverTargetScorer::new(3);
    let open = snapshot("0.6", "1", "0.5");
    let quiet = snapshot("0.5", "1", "0");
    let mut got = Vec::new();
    got.push(scorer.step(tick(0, "100"), open).score);
    got.push(scorer.step(tick(1, "100.5"), quiet).score);
    got.push(scorer.step(tick(2, "100.5"), open).score);
    got.push(scorer.step(tick(3, "100.4"), quiet).score);
    got.push(scorer.step(tick(4, "100.6"), quiet).score);
    assert_eq!(got, vec![num("1.3"), num("1.5"), num("1.3"), num("1.3"), num("1.5")]);
}

#[test]
fn scores_stay_in_the_three_values() {
    let mut scorer = CrossoverTargetScorer::new(2);
    let allowed = [num("1.1"), num("1.3"), num("1.5")];
    let prices = ["100", "101", "99", "98", "97", "120", "80", "80", "80", "81"];
    let crossovers = ["0.6", "0.5", "0.4", "0.4", "0.5", "0.6", "0.4", "0.5", "0.5", "0.6"];
    let volatilities = ["0.5", "0", "0.4", "0.31", "0", "0.9", "0.2", "0", "0", "1"];
    for i in 0..prices.len() {
        let record = scorer.step(
            tick(i as u64, prices[i]),
            snapshot(crossovers[i], "1", volatilities[i]),
        );
        assert!(allowed.contains(&record.score));
        assert!(!scorer.target_achieved());
    }
}

#[test]
fn extreme_values_do_not_overflow() {
    let mut scorer = CrossoverTargetScorer::new(u64::MAX);
    let top = Fixed::from_raw(i64::MAX);
    let bottom = Fixed::from_raw(i64::MIN);
    let open = IndicatorSnapshot {
        open_signal: OpenSignal::Quiet,
        crossover: top,
        spread: top,
        volatility: bottom,
        volatility2: top,
    };
    let first = scorer.step(Tick { index: u64::MAX, price: bottom }, open);
    assert_eq!(first.score, num("1.3"));
    let quiet = IndicatorSnapshot { volatility2: bottom, spread: bottom, ..open };
    let second = scorer.step(Tick { index: 0, price: top }, quiet);
    assert_eq!(second.score, num("1.5"));
}

#[test]
fn only_the_latest_event_is_open_at_a_tick_boundary() {
    let mut scorer = CrossoverTargetScorer::new(4);
    let open_up = snapshot("0.6", "1", "0.5");
    let open_down = snapshot("0.4", "1", "0.5");
    let quiet = snapshot("0.5", "1", "0");
    let steps = [
        ("100", quiet, None),
        ("100", open_up, Some(1)),
        ("99", quiet, Some(1)),
        ("99", open_down, Some(3)),
        ("99", open_up, Some(4)),
        ("98", quiet, Some(4)),
        ("99.5", quiet, None),
        ("99.5", quiet, None),
        ("99.5", open_down, Some(8)),
    ];
    for (i, (price, indicators, anchor)) in steps.iter().enumerate() {
        scorer.step(tick(i as u64, price), *indicators);
        assert_eq!(scorer.open_event().map(|event| event.anchor_index), *anchor);
        if let Some(event) = scorer.open_event() {
            assert!(i as u64 <= event.anchor_index + scorer.trading_period());
        }
    }
}
