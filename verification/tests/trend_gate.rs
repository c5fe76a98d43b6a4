use backtester::fixed::Fixed;
use backtester::indicators::{IndicatorSnapshot, OpenSignal, Tick};
use backtester::record::{ScoreRecord, StrategyKind};
use backtester::trend_gate::TrendFollowGate;

fn with_signal(open_signal: OpenSignal) -> IndicatorSnapshot {
    IndicatorSnapshot {
        open_signal,
        crossover: Fixed::from_raw(50_000_000),
        spread: Fixed::from_raw(0),
        volatility: Fixed::from_raw(0),
        volatility2: Fixed::from_raw(0),
    }
}

#[test]
fn buy_open_shows_above_one() {
    let mut gate = TrendFollowGate::new();
    let indicators = with_signal(OpenSignal::BuyOpen);
    let tick = Tick { index: 0, price: Fixed::from_raw(12_345_000_000) };
    let record = gate.step(tick, indicators);
    assert_eq!(
        record,
        ScoreRecord {
            kind: StrategyKind::TrendFollowGate,
            price: Fixed::from_raw(12_345_000_000),
            indicators,
            score: Fixed::from_raw(102_500_000),
        }
    );
}

#[test]
fn sell_open_shows_below_one() {
    let mut gate = TrendFollowGate::new();
    let tick = Tick { index: 0, price: Fixed::from_raw(1) };
    let record = gate.step(tick, with_signal(OpenSignal::SellOpen));
    assert_eq!(record.score, Fixed::from_raw(97_500_000));
}

#[test]
fn no_signal_shows_one() {
    let mut gate = TrendFollowGate::new();
    let tick = Tick { index: 0, price: Fixed::from_raw(1) };
    let record = gate.step(tick, with_signal(OpenSignal::Quiet));
    assert_eq!(record.score, Fixed::from_raw(100_000_000));
}

#[test]
fn gate_counts_its_ticks_and_keeps_no_history() {
    let mut gate = TrendFollowGate::new();
    assert_eq!(gate.ticks_seen(), 0);
    let signals = [OpenSignal::BuyOpen, OpenSignal::Quiet, OpenSignal::SellOpen, OpenSignal::BuyOpen];
    let shown: Vec<i64> = signals
        .iter()
        .enumerate()
        .map(|(i, signal)| {
            let tick = Tick { index: i as u64, price: Fixed::from_raw(100 + i as i64) };
            gate.step(tick, with_signal(*signal)).score.raw
        })
        .collect();
    assert_eq!(shown, vec![102_500_000, 100_000_000, 97_500_000, 102_500_000]);
    assert_eq!(gate.ticks_seen(), 4);
}
