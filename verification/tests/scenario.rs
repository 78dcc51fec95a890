use kraken_mm::collections::StrMap;
use kraken_mm::mock::scenario::{
    EndBehavior, Interpolation, Mid, PairScenario, ScenarioDefaults, ScenarioError, ScenarioFile,
    Waypoint,
};
use kraken_mm::mock::sizes::{
    base_qty_for_price, cost_min_for, order_min_for, price_decimals_for, qty_decimals_for,
};

/// The key of a number that is not negative.
fn key(x: f64) -> i64 {
    x.to_bits() as i64
}

fn number(k: i64) -> f64 {
    f64::from_bits(k as u64)
}

fn value(mid: Mid) -> f64 {
    match mid {
        Mid::At(k) => number(k),
        Mid::Between { from, to, elapsed, span } => {
            number(from) + (number(to) - number(from)) * (elapsed as f64 / span as f64)
        }
    }
}

fn point(t_ms: u64, mid: f64) -> Waypoint {
    Waypoint { t_ms, mid: key(mid), spread_pct: None, fill_probability: None, interpolation: None }
}

fn scenario(starting_price: f64, waypoints: Vec<Waypoint>) -> PairScenario {
    PairScenario { starting_price: key(starting_price), waypoints }
}

fn no_defaults() -> ScenarioDefaults {
    ScenarioDefaults { spread_pct: None, fill_probability: None, interpolation: None }
}

fn validate(s: &PairScenario) -> Result<(), ScenarioError> {
    let close = match s.waypoints.first() {
        Some(w) => (number(s.starting_price) - number(w.mid)).abs() < 1e-10,
        None => true,
    };
    s.validate(close)
}

fn minimal_scenario() -> PairScenario {
    scenario(0.50, vec![point(0, 0.50), point(10000, 0.60)])
}

fn file(name: &str, pairs: Vec<(&str, PairScenario)>) -> ScenarioFile {
    let mut m = StrMap::new();
    for (symbol, p) in pairs {
        m.insert(symbol.to_string(), p);
    }
    ScenarioFile {
        name: name.to_string(),
        description: None,
        defaults: None,
        pairs: m,
        end_behavior: None,
    }
}

#[test]
fn test_load_valid_scenario() {
    let sc = file("test_scenario", vec![("OMG/USD", minimal_scenario())]);
    assert_eq!(sc.validate(&vec![true]), Ok(()));
    assert_eq!(sc.name, "test_scenario");
    assert!(sc.pairs.contains_key("OMG/USD"));
    let pair = sc.pairs.get("OMG/USD").unwrap();
    assert!(validate(pair).is_ok());
    assert_eq!(number(pair.starting_price), 0.50);
    assert_eq!(pair.waypoints.len(), 2);
    assert_eq!(pair.waypoints[0].t_ms, 0);
    assert_eq!(pair.waypoints[1].t_ms, 10000);
}

#[test]
fn test_validate_rejects_fewer_than_2_waypoints() {
    let err = validate(&scenario(0.50, vec![point(0, 0.50)])).unwrap_err();
    assert!(err.message("OMG/USD", "0.5", "0.6").contains("at least 2 waypoints"));
    assert_eq!(err, ScenarioError::TooFewWaypoints { count: 1 });
    assert_eq!(err.message("OMG/USD", "0.5", "0.6"), "OMG/USD: need at least 2 waypoints, got 1");
}

#[test]
fn test_validate_rejects_nonzero_first_t_ms() {
    let err = validate(&scenario(0.50, vec![point(100, 0.50), point(200, 0.60)])).unwrap_err();
    assert!(err.message("OMG/USD", "0.5", "0.6").contains("t_ms=0"));
    assert_eq!(err, ScenarioError::FirstNotAtZero { t_ms: 100 });
}

#[test]
fn test_validate_rejects_non_monotonic() {
    let s = scenario(0.50, vec![point(0, 0.50), point(1000, 0.55), point(500, 0.60)]);
    let err = validate(&s).unwrap_err();
    assert!(err.message("OMG/USD", "0.5", "0.6").contains("monotonically increasing"));
    assert_eq!(err, ScenarioError::NotIncreasing { t_ms: 1000, next: 500 });
}

#[test]
fn test_validate_rejects_starting_price_mismatch() {
    let err = validate(&scenario(0.50, vec![point(0, 0.60), point(10000, 0.70)])).unwrap_err();
    assert!(err.message("OMG/USD", "0.5", "0.6").contains("starting_price"));
    assert_eq!(err, ScenarioError::StartMismatch);
    assert_eq!(
        err.message("OMG/USD", "0.5", "0.6"),
        "OMG/USD: starting_price (0.5) must match first waypoint mid (0.6)"
    );
}

#[test]
fn files_name_the_first_pair_at_fault() {
    let short = scenario(0.5, vec![point(0, 0.5)]);
    let late = scenario(0.5, vec![point(7, 0.5), point(8, 0.5)]);
    let sc = file("s", vec![("A/USD", minimal_scenario()), ("B/USD", short), ("C/USD", late)]);
    assert_eq!(
        sc.validate(&vec![true, true, true]),
        Err(("B/USD".to_string(), ScenarioError::TooFewWaypoints { count: 1 }))
    );
    assert_eq!(
        sc.validate(&vec![false, true, true]),
        Err(("A/USD".to_string(), ScenarioError::StartMismatch))
    );
    let none = file("empty", vec![]);
    assert_eq!(none.validate(&vec![]), Ok(()));
}

#[test]
fn sizes_go_by_the_price() {
    for (price, pd, qd, least, base) in [
        (25.0, 4, 4, 1, 50),
        (1.0, 4, 4, 1, 50),
        (0.999999, 5, 5, 10, 5000),
        (0.01, 5, 5, 10, 5000),
        (0.00999999, 6, 2, 100, 50000),
        (0.001, 6, 2, 100, 50000),
        (0.00099999, 7, 0, 1000, 500000),
        (0.0, 7, 0, 1000, 500000),
    ] {
        assert_eq!(price_decimals_for(key(price)), pd);
        assert_eq!(qty_decimals_for(key(price)), qd);
        assert_eq!(order_min_for(key(price)), least);
        assert_eq!(base_qty_for_price(key(price)), base);
        assert_eq!(number(cost_min_for(key(price))), 0.50);
    }
}

#[test]
fn validate_rejects_values_out_of_range() {
    let mut bad_mid = minimal_scenario();
    bad_mid.waypoints[1].mid = 0;
    assert_eq!(validate(&bad_mid), Err(ScenarioError::BadMid { t_ms: 10000, mid: 0 }));

    let mut bad_spread = minimal_scenario();
    bad_spread.waypoints[0].spread_pct = Some(0);
    assert_eq!(validate(&bad_spread), Err(ScenarioError::BadSpread { t_ms: 0, spread_pct: 0 }));

    let mut certain = minimal_scenario();
    certain.waypoints[0].fill_probability = Some(key(1.0));
    assert_eq!(validate(&certain), Ok(()));

    let mut too_likely = minimal_scenario();
    too_likely.waypoints[0].fill_probability = Some(key(1.0000001));
    let err = validate(&too_likely).unwrap_err();
    let fill_probability = key(1.0000001);
    assert_eq!(err, ScenarioError::BadProbability { t_ms: 0, fill_probability });
    assert_eq!(
        err.message("A/B", &number(fill_probability).to_string(), ""),
        "A/B: fill_probability must be in [0, 1], got 1.0000001 at t_ms=0"
    );
    assert_eq!(
        validate(&bad_mid).unwrap_err().message("A/B", "0", ""),
        "A/B: all mid values must be positive, got 0 at t_ms=10000"
    );
    assert_eq!(
        validate(&bad_spread).unwrap_err().message("A/B", "0", ""),
        "A/B: spread_pct must be positive, got 0 at t_ms=0"
    );
}

#[test]
fn test_sample_at_exact_waypoint() {
    let pair = minimal_scenario();
    let s0 = pair.sample_at(0, &no_defaults(), EndBehavior::HoldLast);
    assert!((value(s0.mid) - 0.50).abs() < 1e-10);

    let s1 = pair.sample_at(10000, &no_defaults(), EndBehavior::HoldLast);
    assert!((value(s1.mid) - 0.60).abs() < 1e-10);
}

#[test]
fn test_sample_at_linear_midpoint() {
    let s = minimal_scenario().sample_at(5000, &no_defaults(), EndBehavior::HoldLast);
    assert!((value(s.mid) - 0.55).abs() < 1e-10);
    assert_eq!(
        s.mid,
        Mid::Between { from: key(0.50), to: key(0.60), elapsed: 5000, span: 10000 }
    );
}

#[test]
fn test_sample_at_step_holds_previous() {
    let pair = minimal_scenario();
    let mut defaults = no_defaults();
    defaults.interpolation = Some(Interpolation::Step);

    let s = pair.sample_at(5000, &defaults, EndBehavior::HoldLast);
    assert!((value(s.mid) - 0.50).abs() < 1e-10);

    let s = pair.sample_at(9999, &defaults, EndBehavior::HoldLast);
    assert!((value(s.mid) - 0.50).abs() < 1e-10);
}

#[test]
fn test_sample_at_hold_last() {
    let s = minimal_scenario().sample_at(99999, &no_defaults(), EndBehavior::HoldLast);
    assert!((value(s.mid) - 0.60).abs() < 1e-10);
    assert!(!s.finished);
}

#[test]
fn test_sample_at_loop() {
    // t=15000 with loop (period=10000) is t=5000, mid=0.55
    let s = minimal_scenario().sample_at(15000, &no_defaults(), EndBehavior::Loop);
    assert!((value(s.mid) - 0.55).abs() < 1e-10);
}

#[test]
fn test_sample_at_stop() {
    let s = minimal_scenario().sample_at(99999, &no_defaults(), EndBehavior::Stop);
    assert!((value(s.mid) - 0.60).abs() < 1e-10);
    assert!(s.finished);
}

#[test]
fn test_spread_override_per_segment() {
    let mut pair = scenario(0.50, vec![point(0, 0.50), point(10000, 0.50), point(20000, 0.50)]);
    pair.waypoints[0].spread_pct = Some(key(5.0));
    pair.waypoints[1].spread_pct = Some(key(15.0));
    assert!(validate(&pair).is_ok());

    let s0 = pair.sample_at(5000, &no_defaults(), EndBehavior::HoldLast);
    assert_eq!(s0.spread_pct.map(number), Some(5.0));

    let s1 = pair.sample_at(15000, &no_defaults(), EndBehavior::HoldLast);
    assert_eq!(s1.spread_pct.map(number), Some(15.0));
}

#[test]
fn test_fill_probability_override() {
    let mut pair = scenario(0.50, vec![point(0, 0.50), point(10000, 0.50), point(20000, 0.50)]);
    pair.waypoints[0].fill_probability = Some(key(0.8));
    pair.waypoints[1].fill_probability = Some(key(0.05));
    assert!(validate(&pair).is_ok());

    let s0 = pair.sample_at(5000, &no_defaults(), EndBehavior::HoldLast);
    assert_eq!(s0.fill_probability.map(number), Some(0.8));

    let s1 = pair.sample_at(15000, &no_defaults(), EndBehavior::HoldLast);
    assert_eq!(s1.fill_probability.map(number), Some(0.05));
}

#[test]
fn test_defaults_used_as_fallback() {
    let defaults = ScenarioDefaults {
        spread_pct: Some(key(8.0)),
        fill_probability: Some(key(0.5)),
        interpolation: None,
    };
    let s = minimal_scenario().sample_at(5000, &defaults, EndBehavior::HoldLast);
    assert_eq!(s.spread_pct.map(number), Some(8.0));
    assert_eq!(s.fill_probability.map(number), Some(0.5));
}

#[test]
fn test_multi_segment_interpolation() {
    let pair = scenario(
        0.50,
        vec![point(0, 0.50), point(5000, 0.50), point(8000, 0.30), point(20000, 0.48)],
    );
    assert!(validate(&pair).is_ok());
    let at = |t: u64| value(pair.sample_at(t, &no_defaults(), EndBehavior::HoldLast).mid);

    // t=0 and t=3000: flat at 0.50
    assert!((at(0) - 0.50).abs() < 1e-10);
    assert!((at(3000) - 0.50).abs() < 1e-10);
    // t=6500: midway through the crash from 0.50 to 0.30
    assert!((at(6500) - 0.40).abs() < 1e-10);
    // t=8000: at the bottom
    assert!((at(8000) - 0.30).abs() < 1e-10);
    // t=14000: midway through the recovery from 0.30 to 0.48
    assert!((at(14000) - 0.39).abs() < 1e-10);
}

#[test]
fn loops_repeat_and_defaults_are_linear() {
    let pair = minimal_scenario();
    for t in [0u64, 1, 4999, 9999] {
        let once = pair.sample_at(t, &no_defaults(), EndBehavior::Loop);
        let again = pair.sample_at(t + 10000, &no_defaults(), EndBehavior::Loop);
        assert_eq!(once.mid, again.mid);
        assert!(!again.finished);
    }
    assert_eq!(Interpolation::default(), Interpolation::Linear);
    assert_eq!(EndBehavior::default(), EndBehavior::HoldLast);
}
