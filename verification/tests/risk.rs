use kraken_mm::config::RiskConfig;
use kraken_mm::decimal::Decimal;
use kraken_mm::risk::{KillSwitch, RateLimiter, RateStatus};

fn d(s: &str) -> Decimal {
    Decimal::parse(s).unwrap()
}

fn test_risk_config() -> RiskConfig {
    RiskConfig {
        max_inventory_usd: d("200"),
        max_total_exposure_usd: d("2000"),
        kill_switch_loss_usd: d("-100"),
        stale_order_secs: 300,
        dms_timeout_secs: 60,
        dms_refresh_secs: 20,
        rate_limit_max_counter: 60,
        stop_loss_pct: d("0.03"),
        take_profit_pct: d("0.10"),
        cooldown_after_liquidation_secs: 3600,
    }
}

#[test]
fn test_not_triggered_initially() {
    let ks = KillSwitch::default();
    assert!(!ks.triggered);
}

#[test]
fn test_triggers_on_loss() {
    let mut ks = KillSwitch::default();
    let config = test_risk_config();
    // realized_pnl of -150 is below the -100 threshold
    let result = ks.check(d("-150"), &config);
    assert!(result);
    assert!(ks.triggered);
    assert!(!ks.reason.is_empty());
}

#[test]
fn test_no_trigger_above_threshold() {
    let mut ks = KillSwitch::default();
    let config = test_risk_config();
    // realized_pnl of -50 is above the -100 threshold
    let result = ks.check(d("-50"), &config);
    assert!(!result);
    assert!(!ks.triggered);
}

#[test]
fn test_stays_triggered() {
    let mut ks = KillSwitch::default();
    let config = test_risk_config();
    // Trigger the kill switch
    ks.check(d("-150"), &config);
    assert!(ks.triggered);
    // Even if pnl recovers, it stays triggered
    let result = ks.check(d("50"), &config);
    assert!(result);
    assert!(ks.triggered);
}

#[test]
fn test_initial_status_ok() {
    let config = test_risk_config();
    let rl = RateLimiter::new(&config);
    assert_eq!(rl.status(), RateStatus::Okay);
}

#[test]
fn test_warn_at_75_pct() {
    let config = test_risk_config();
    let mut rl = RateLimiter::new(&config);
    // 75% of 60 = 45
    rl.update(d("45.0"));
    assert_eq!(rl.status(), RateStatus::Warn);
}

#[test]
fn test_block_at_95_pct() {
    let config = test_risk_config();
    let mut rl = RateLimiter::new(&config);
    // 95% of 60 = 57
    rl.update(d("57.0"));
    assert_eq!(rl.status(), RateStatus::Block);
}

#[test]
fn test_update_changes_status() {
    let config = test_risk_config();
    let mut rl = RateLimiter::new(&config);
    assert_eq!(rl.status(), RateStatus::Okay);
    // Update to 95% of 60 = 57
    rl.update(d("57.0"));
    assert_eq!(rl.status(), RateStatus::Block);
}

#[test]
fn test_below_75_is_ok() {
    let config = test_risk_config();
    let mut rl = RateLimiter::new(&config);
    // 74% of 60 = 44.4
    rl.update(d("44.4"));
    assert_eq!(rl.status(), RateStatus::Okay);
}
