use spread_arb::engine::{pnl_cents, Action, Config, Engine, EngineState};
use spread_arb::ledger::{Direction, LedgerError, Position, PositionLedger};
use spread_arb::spread::{spread_pct, SpreadSample, PRICE_SCALE, SPREAD_SCALE};

fn price(cents: u64) -> u64 {
    cents * PRICE_SCALE / 100
}

fn hype() -> Engine {
    Engine::new("HYPE".to_string(), Config::default())
}

fn in_sync(e: &Engine) -> bool {
    e.ledger().contains(e.symbol()) == (e.state() == EngineState::InPosition)
}

#[test]
fn default_config_values() {
    let c = Config::default();
    assert_eq!(c.entry_threshold, 20 * SPREAD_SCALE / 100);
    assert_eq!(c.exit_threshold, 0);
    assert_eq!(c.trade_size_cents, 10_000);
    assert_eq!(c.poll_interval_ms, 50);
    assert_eq!(c.fetch_timeout_ms, 500);
}

#[test]
fn spread_formula_exact_values() {
    assert_eq!(spread_pct(price(1000), price(1025)), 2_500_000);
    assert_eq!(spread_pct(price(1000), price(1000)), 0);
    assert_eq!(spread_pct(price(1025), price(1000)), -2_439_025);
    assert_eq!(spread_pct(3, 4), 33_333_334);
    assert_eq!(spread_pct(3, 2), -33_333_334);
    assert_eq!(spread_pct(1, u64::MAX), (u64::MAX as i128 - 1) * 100_000_000);
}

#[test]
fn sample_needs_two_positive_prices() {
    let s = SpreadSample::from_prices("HYPE".to_string(), Some(price(1000)), Some(price(1025)));
    let s = s.unwrap();
    assert_eq!(s.spread, 2_500_000);
    assert_eq!(s.price_a, price(1000));
    assert_eq!(s.price_b, price(1025));
    assert!(SpreadSample::from_prices("HYPE".to_string(), None, Some(5)).is_none());
    assert!(SpreadSample::from_prices("HYPE".to_string(), Some(5), None).is_none());
    assert!(SpreadSample::from_prices("HYPE".to_string(), Some(0), Some(5)).is_none());
    assert!(SpreadSample::from_prices("HYPE".to_string(), Some(5), Some(0)).is_none());
}

#[test]
fn entry_scenario_opens_short_b() {
    let mut e = hype();
    let a = e.on_tick(Some(price(1000)), Some(price(1025)), 1_000);
    assert_eq!(
        a,
        Action::Opened { direction: Direction::ShortBLongA, entry_spread: 2_500_000 }
    );
    assert_eq!(e.state(), EngineState::InPosition);
    let p = e.ledger().get(&"HYPE".to_string()).unwrap();
    assert_eq!(p.entry_spread, 2_500_000);
    assert_eq!(p.direction, Direction::ShortBLongA);
    assert_eq!(p.opened_at_ms, 1_000);
    assert!(in_sync(&e));
}

#[test]
fn exit_scenario_realises_two_fifty() {
    let mut e = hype();
    e.on_tick(Some(price(1000)), Some(price(1025)), 1_000);
    let a = e.on_tick(Some(price(1000)), Some(price(1000)), 3_500);
    assert_eq!(
        a,
        Action::Closed {
            direction: Direction::ShortBLongA,
            entry_spread: 2_500_000,
            exit_spread: 0,
            profit: 2_500_000,
            pnl: 250,
            held_ms: 2_500,
        }
    );
    assert_eq!(e.state(), EngineState::Flat);
    assert!(e.ledger().open_positions().is_empty());
    assert_eq!(e.ledger().closed_pnl(), &vec![250i128]);
    assert!(in_sync(&e));
}

#[test]
fn negative_spread_opens_short_a() {
    let mut e = hype();
    let a = e.on_tick(Some(price(1025)), Some(price(1000)), 7);
    assert_eq!(
        a,
        Action::Opened { direction: Direction::ShortALongB, entry_spread: -2_439_025 }
    );
}

#[test]
fn dropped_frame_while_in_position() {
    let mut e = hype();
    e.on_tick(Some(price(1000)), Some(price(1025)), 1_000);
    assert_eq!(e.on_tick(None, Some(price(1000)), 2_000), Action::Dropped);
    assert_eq!(e.on_tick(Some(price(1000)), None, 2_050), Action::Dropped);
    assert_eq!(e.on_tick(Some(0), Some(price(1000)), 2_100), Action::Dropped);
    assert_eq!(e.state(), EngineState::InPosition);
    assert_eq!(e.ledger().open_positions().len(), 1);
    assert!(e.ledger().closed_pnl().is_empty());
    assert!(in_sync(&e));
}

#[test]
fn flat_sub_threshold_repeats_change_nothing() {
    let mut e = hype();
    for t in 0..100u64 {
        // 10.00 against 10.01: 0.1%, under the 0.2% entry threshold.
        assert_eq!(e.on_tick(Some(price(1000)), Some(price(1001)), t), Action::Hold);
        assert_eq!(e.state(), EngineState::Flat);
        assert!(e.ledger().open_positions().is_empty());
        assert!(e.ledger().closed_pnl().is_empty());
    }
}

#[test]
fn in_position_above_exit_holds() {
    let mut e = hype();
    e.on_tick(Some(price(1000)), Some(price(1025)), 0);
    assert_eq!(e.on_tick(Some(price(1000)), Some(price(1001)), 1), Action::Hold);
    assert_eq!(e.state(), EngineState::InPosition);
}

#[test]
fn thresholds_are_inclusive() {
    let c = Config { entry_threshold: 2_500_000, exit_threshold: 1_000_000, ..Config::default() };
    let mut e = Engine::new("HYPE".to_string(), c);
    // Exactly 2.5%: enters.
    assert!(matches!(
        e.on_tick(Some(price(1000)), Some(price(1025)), 0),
        Action::Opened { .. }
    ));
    // Exactly 1%: exits, profit 1.5% of $100.
    let a = e.on_tick(Some(price(1000)), Some(price(1010)), 10);
    assert!(matches!(a, Action::Closed { profit: 1_500_000, pnl: 150, .. }));
    assert_eq!(e.state(), EngineState::Flat);
}

#[test]
fn just_under_entry_threshold_holds() {
    let c = Config { entry_threshold: 2_500_001, ..Config::default() };
    let mut e = Engine::new("HYPE".to_string(), c);
    assert_eq!(e.on_tick(Some(price(1000)), Some(price(1025)), 0), Action::Hold);
}

#[test]
fn invariant_over_a_mixed_run() {
    let mut e = hype();
    let ticks: Vec<(Option<u64>, Option<u64>)> = vec![
        (Some(price(1000)), Some(price(1030))),
        (None, None),
        (Some(price(1000)), Some(price(1010))),
        (Some(price(1000)), Some(price(1000))),
        (Some(price(1000)), Some(price(990))),
        (Some(price(1000)), Some(price(1000))),
        (Some(price(1000)), Some(price(1001))),
    ];
    for (t, (a, b)) in ticks.into_iter().enumerate() {
        e.on_tick(a, b, t as u64);
        assert!(in_sync(&e));
    }
    assert_eq!(e.ledger().closed_pnl(), &vec![300i128, 100i128]);
}

#[test]
fn sample_of_other_symbol_is_ignored() {
    let mut e = hype();
    let s = SpreadSample::from_prices("BTC".to_string(), Some(price(1000)), Some(price(1100)))
        .unwrap();
    assert_eq!(e.on_sample(&s, 0), Action::Ignored);
    assert_eq!(e.state(), EngineState::Flat);
}

#[test]
fn pnl_rounds_toward_zero() {
    assert_eq!(pnl_cents(2_500_000, 10_000), 250);
    assert_eq!(pnl_cents(-2_500_000, 10_000), -250);
    assert_eq!(pnl_cents(9_999, 10_000), 0);
    assert_eq!(pnl_cents(-15_000, 10_000), -1);
    assert_eq!(pnl_cents(0, 10_000), 0);
}

#[test]
fn losing_exit_records_negative_pnl() {
    let c = Config { entry_threshold: 100_000, exit_threshold: 2_000_000, ..Config::default() };
    let mut e = Engine::new("HYPE".to_string(), c);
    e.on_tick(Some(price(1000)), Some(price(1001)), 0);
    let a = e.on_tick(Some(price(1000)), Some(price(1020)), 5);
    assert!(matches!(a, Action::Closed { profit: -1_900_000, pnl: -190, .. }));
    assert_eq!(e.ledger().closed_pnl(), &vec![-190i128]);
}

fn position(sym: &str, spread: i128) -> Position {
    Position {
        symbol: sym.to_string(),
        entry_spread: spread,
        direction: Direction::ShortBLongA,
        opened_at_ms: 0,
    }
}

#[test]
fn ledger_refuses_double_open() {
    let mut l = PositionLedger::new();
    assert_eq!(l.open(position("HYPE", 1)), Ok(()));
    assert_eq!(l.open(position("HYPE", 2)), Err(LedgerError::AlreadyOpen));
    assert_eq!(l.open_positions().len(), 1);
    assert_eq!(l.get(&"HYPE".to_string()).unwrap().entry_spread, 1);
}

#[test]
fn ledger_close_absent_fails() {
    let mut l = PositionLedger::new();
    assert_eq!(l.close(&"HYPE".to_string()).unwrap_err(), LedgerError::NoPosition);
    l.open(position("BTC", 5)).unwrap();
    assert_eq!(l.close(&"HYPE".to_string()).unwrap_err(), LedgerError::NoPosition);
    assert!(l.contains(&"BTC".to_string()));
}

#[test]
fn ledger_keeps_symbols_apart() {
    let mut l = PositionLedger::new();
    l.open(position("HYPE", 1)).unwrap();
    l.open(position("BTC", 2)).unwrap();
    let p = l.close(&"HYPE".to_string()).unwrap();
    assert_eq!(p.entry_spread, 1);
    assert!(!l.contains(&"HYPE".to_string()));
    assert!(l.contains(&"BTC".to_string()));
    assert!(l.get(&"HYPE".to_string()).is_none());
}

#[test]
fn pnl_history_is_append_only_in_order() {
    let mut l = PositionLedger::new();
    l.record_pnl(5);
    l.record_pnl(-3);
    l.record_pnl(5);
    assert_eq!(l.closed_pnl(), &vec![5i128, -3, 5]);
    assert!(l.open_positions().is_empty());
}

#[test]
fn tiny_difference_keeps_its_sign() {
    assert_eq!(spread_pct(2_500_000_000, 2_500_000_001), 1);
    assert_eq!(spread_pct(2_500_000_001, 2_500_000_000), -1);
    assert_eq!(spread_pct(2_500_000_000, 2_500_000_000), 0);
}

#[test]
fn tiny_difference_does_not_exit_at_zero() {
    let mut e = hype();
    e.on_tick(Some(price(1000)), Some(price(1025)), 0);
    assert_eq!(e.on_tick(Some(2_500_000_000), Some(2_500_000_001), 1), Action::Hold);
    assert_eq!(e.state(), EngineState::InPosition);
    assert!(matches!(
        e.on_tick(Some(2_500_000_000), Some(2_500_000_000), 2),
        Action::Closed { exit_spread: 0, pnl: 250, .. }
    ));
}

#[test]
fn zero_entry_threshold_direction_follows_prices() {
    let c = Config { entry_threshold: 0, ..Config::default() };
    let mut e = Engine::new("HYPE".to_string(), c);
    assert_eq!(
        e.on_tick(Some(2_500_000_000), Some(2_500_000_001), 0),
        Action::Opened { direction: Direction::ShortBLongA, entry_spread: 1 }
    );
    let mut f = Engine::new("HYPE".to_string(), c);
    assert_eq!(
        f.on_tick(Some(2_500_000_000), Some(2_500_000_000), 0),
        Action::Opened { direction: Direction::ShortALongB, entry_spread: 0 }
    );
}

#[test]
fn entry_compares_the_exact_spread() {
    // 10.25 against 10.00 is -2.43902439..%, shown as -2.439025%: under a
    // 2.439025% threshold, over a 2.439024% one.
    let high = Config { entry_threshold: 2_439_025, ..Config::default() };
    let mut e = Engine::new("HYPE".to_string(), high);
    assert_eq!(e.on_tick(Some(price(1025)), Some(price(1000)), 0), Action::Hold);
    let low = Config { entry_threshold: 2_439_024, ..Config::default() };
    let mut f = Engine::new("HYPE".to_string(), low);
    assert!(matches!(f.on_tick(Some(price(1025)), Some(price(1000)), 0), Action::Opened { .. }));
}

#[test]
fn sample_threshold_tests_are_exact() {
    let s = SpreadSample::from_prices("HYPE".to_string(), Some(3), Some(4)).unwrap();
    assert!(s.reaches(33_333_333));
    assert!(!s.reaches(33_333_334));
    assert!(s.within(33_333_334));
    assert!(!s.within(33_333_333));
}
