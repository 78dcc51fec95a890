use kraken_mm::collections::StrMap;
use kraken_mm::decimal::Decimal;
use kraken_mm::inventory::inventory_skew;
use kraken_mm::pairs::{GlobalDefaults, ManagedPair, PairState};
use kraken_mm::pnl::PnlTracker;
use kraken_mm::position::Position;
use kraken_mm::state::BotState;
use kraken_mm::time::Timestamp;
use kraken_mm::types::{Fill, OrderSide};

fn d(s: &str) -> Decimal {
    Decimal::parse(s).unwrap()
}

fn make_fill(pair: &str, side: OrderSide, price: Decimal, qty: Decimal, fee: Decimal) -> Fill {
    Fill {
        order_id: "test".into(),
        cl_ord_id: "test".into(),
        pair: pair.into(),
        side,
        price,
        qty,
        fee,
        is_maker: true,
        is_fully_filled: true,
        timestamp: Timestamp::new(1_767_225_600, 0).unwrap(),
    }
}

#[test]
fn test_pair_state_allows_buys() {
    assert!(PairState::Active.allows_buys());
    assert!(!PairState::WindDown.allows_buys());
    assert!(!PairState::Liquidating.allows_buys());
    assert!(!PairState::Disabled.allows_buys());
}

#[test]
fn test_pair_state_allows_sells() {
    assert!(PairState::Active.allows_sells());
    assert!(PairState::WindDown.allows_sells());
    assert!(!PairState::Liquidating.allows_sells());
    assert!(!PairState::Disabled.allows_sells());
}

#[test]
fn test_pair_state_allows_quoting() {
    assert!(PairState::Active.allows_quoting());
    assert!(PairState::WindDown.allows_quoting());
    assert!(!PairState::Liquidating.allows_quoting());
    assert!(!PairState::Disabled.allows_quoting());
}

#[test]
fn test_resolved_config_uses_defaults() {
    let defaults = GlobalDefaults::default();
    let pair = ManagedPair::new("TEST/USD".into(), None);
    let resolved = pair.resolved_config(&defaults);
    assert_eq!(resolved.order_size_usd, defaults.order_size_usd);
    assert_eq!(resolved.max_inventory_usd, defaults.max_inventory_usd);
}

#[test]
fn test_resolved_config_uses_overrides() {
    let defaults = GlobalDefaults::default();
    let mut pair = ManagedPair::new("TEST/USD".into(), None);
    pair.config.order_size_usd = Some(d("75"));
    pair.config.max_inventory_usd = Some(d("500"));
    let resolved = pair.resolved_config(&defaults);
    assert_eq!(resolved.order_size_usd, d("75"));
    assert_eq!(resolved.max_inventory_usd, d("500"));
    // Unset fields use defaults
    assert_eq!(resolved.min_spread_bps, defaults.min_spread_bps);
}

#[test]
fn test_pair_state_serde() {
    assert_eq!(PairState::WindDown.as_str(), "wind_down");
    assert_eq!(PairState::from_word("liquidating"), Some(PairState::Liquidating));
    assert_eq!(PairState::from_word("\"liquidating\""), None);
}

#[test]
fn test_buy_updates_avg_cost() {
    let mut pos = Position::new();
    pos.apply_buy(d("10"), d("100")).unwrap();
    assert_eq!(pos.qty, d("10"));
    assert_eq!(pos.avg_cost, d("100"));

    pos.apply_buy(d("10"), d("200")).unwrap();
    assert_eq!(pos.qty, d("20"));
    assert_eq!(pos.avg_cost, d("150"));
}

#[test]
fn test_sell_returns_pnl() {
    let mut pos = Position::new();
    pos.apply_buy(d("10"), d("100")).unwrap();
    let pnl = pos.apply_sell(d("5"), d("120")).unwrap();
    assert_eq!(pnl, d("100"));
    assert_eq!(pos.qty, d("5"));
    assert_eq!(pos.avg_cost, d("100"));
}

#[test]
fn test_full_sell_resets() {
    let mut pos = Position::new();
    pos.apply_buy(d("10"), d("50")).unwrap();
    pos.apply_sell(d("10"), d("60")).unwrap();
    assert!(pos.is_empty());
    assert_eq!(pos.avg_cost, Decimal::zero());
}

#[test]
fn test_no_position_skew_is_one() {
    let state = BotState::default();
    let skew = inventory_skew(&state, "TEST/USD", d("100"), d("200")).unwrap();
    assert_eq!(skew, Decimal::one());
}

#[test]
fn test_half_inventory_skew_is_zero() {
    let mut state = BotState::default();
    state.positions.insert("TEST/USD".into(), Position {
        qty: d("1"),
        avg_cost: d("100"),
    });
    // exposure = 1 * 100 = 100, max = 200
    // skew = 1 - 2*100/200 = 1 - 1 = 0
    let skew = inventory_skew(&state, "TEST/USD", d("100"), d("200")).unwrap();
    assert_eq!(skew, Decimal::zero());
}

#[test]
fn test_full_inventory_skew_is_negative_one() {
    let mut state = BotState::default();
    state.positions.insert("TEST/USD".into(), Position {
        qty: d("2"),
        avg_cost: d("100"),
    });
    let skew = inventory_skew(&state, "TEST/USD", d("100"), d("200")).unwrap();
    assert_eq!(skew, d("-1"));
}

#[test]
fn test_buy_sell_pnl() {
    let mut tracker = PnlTracker::new();

    tracker.apply_fill(&make_fill("TEST/USD", OrderSide::Buy, d("100"), d("10"), d("0.23"))).unwrap();
    assert_eq!(tracker.positions.get("TEST/USD").unwrap().qty, d("10"));

    tracker.apply_fill(&make_fill("TEST/USD", OrderSide::Sell, d("120"), d("10"), d("0.28"))).unwrap();
    assert!(tracker.positions.is_empty());

    // pnl = 10 * (120 - 100) - 0.28 = 199.72
    assert_eq!(tracker.realized_pnl, d("199.72"));
    assert_eq!(tracker.total_fees, d("0.51"));
    assert_eq!(tracker.trade_count, 2);
}

#[test]
fn test_unrealized_pnl() {
    let mut tracker = PnlTracker::new();
    tracker.apply_fill(&make_fill("TEST/USD", OrderSide::Buy, d("100"), d("10"), d("0"))).unwrap();

    let mut prices = StrMap::new();
    prices.insert("TEST/USD".into(), d("110"));
    assert_eq!(tracker.unrealized_pnl(&prices).unwrap(), d("100"));
}
