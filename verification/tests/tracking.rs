use kraken_mm::decimal::Decimal;
use kraken_mm::order_tracking::{
    FillLedger, FillRecord, FillSource, OrderRegistry, OrderStatus, PositionTracker, TrackedOrder,
};

fn d(s: &str) -> Decimal {
    Decimal::parse(s).unwrap()
}

#[test]
fn test_order_registry_lifecycle() {
    let mut reg = OrderRegistry::new();

    let order = TrackedOrder {
        cl_ord_id: "bid-1".to_string(),
        exchange_id: "ex-123".to_string(),
        pair: "BTC/USD".to_string(),
        side: "buy".to_string(),
        price: d("50000"),
        original_qty: d("0.01"),
        filled_qty: Decimal::zero(),
        status: OrderStatus::Pending,
    };
    reg.insert(order);

    assert!(reg.get("bid-1").is_some());
    assert_eq!(reg.cl_ord_id_for_exchange_id("ex-123"), Some("bid-1"));

    reg.update_status("bid-1", OrderStatus::Open);
    assert_eq!(reg.get("bid-1").unwrap().status, OrderStatus::Open);

    reg.add_fill("bid-1", d("0.005")).unwrap();
    assert_eq!(
        reg.get("bid-1").unwrap().status,
        OrderStatus::PartiallyFilled
    );

    reg.add_fill("bid-1", d("0.005")).unwrap();
    assert_eq!(reg.get("bid-1").unwrap().status, OrderStatus::Filled);
    assert_eq!(reg.cl_ord_id_for_exchange_id("ex-123"), None);
}

#[test]
fn test_fill_ledger_dedup() {
    let mut ledger = FillLedger::new();

    let fill = FillRecord {
        fill_id: "fill-1".to_string(),
        cl_ord_id: "bid-1".to_string(),
        pair: "BTC/USD".to_string(),
        side: "buy".to_string(),
        price: d("50000"),
        qty: d("0.01"),
        fee: d("0.5"),
        timestamp: "2026-01-01T00:00:00Z".to_string(),
        source: FillSource::WebSocket,
    };
    assert!(ledger.record(fill.clone()));
    assert!(!ledger.record(fill));
    assert_eq!(ledger.recent(10).len(), 1);
}

#[test]
fn test_position_tracker_buy_sell() {
    let mut tracker = PositionTracker::new();

    tracker.apply_fill("BTC/USD", "buy", d("1"), d("100")).unwrap();
    let pos = tracker.get("BTC/USD").unwrap();
    assert_eq!(pos.qty, d("1"));
    assert_eq!(pos.avg_cost, d("100"));

    tracker.apply_fill("BTC/USD", "buy", d("1"), d("200")).unwrap();
    let pos = tracker.get("BTC/USD").unwrap();
    assert_eq!(pos.qty, d("2"));
    assert_eq!(pos.avg_cost, d("150"));

    tracker.apply_fill("BTC/USD", "sell", d("1"), d("180")).unwrap();
    let pos = tracker.get("BTC/USD").unwrap();
    assert_eq!(pos.qty, d("1"));
    assert_eq!(pos.realized_pnl, d("30"));
    assert_eq!(pos.avg_cost, d("150"));
}

#[test]
fn ledgers_keep_what_they_refuse() {
    let fill = |id: &str, qty: &str| FillRecord {
        fill_id: id.to_string(),
        cl_ord_id: "bid-1".to_string(),
        pair: "BTC/USD".to_string(),
        side: "buy".to_string(),
        price: d("50000"),
        qty: d(qty),
        fee: d("0.5"),
        timestamp: "2026-01-01T00:00:00Z".to_string(),
        source: FillSource::WebSocket,
    };
    let mut ledger = FillLedger::new();
    assert!(ledger.record(fill("a", "1")));
    assert!(ledger.record(fill("b", "2")));
    // Another fill under a known id changes nothing.
    assert!(!ledger.record(fill("a", "9")));
    assert!(ledger.record(fill("c", "3")));
    let ids = |n: usize| -> Vec<(String, Decimal)> {
        ledger.recent(n).iter().map(|f| (f.fill_id.clone(), f.qty)).collect()
    };
    let all = vec![("c".to_string(), d("3")), ("b".to_string(), d("2")), ("a".to_string(), d("1"))];
    assert_eq!(ids(usize::MAX), all);
    assert_eq!(ids(2), all[..2].to_vec());
    assert!(ids(0).is_empty());
}

#[test]
fn cancelling_everything_clears_the_registry() {
    let order = |id: &str| TrackedOrder {
        cl_ord_id: id.to_string(),
        exchange_id: format!("ex-{}", id),
        pair: "BTC/USD".to_string(),
        side: "buy".to_string(),
        price: d("1"),
        original_qty: d("1"),
        filled_qty: Decimal::zero(),
        status: OrderStatus::Open,
    };
    let mut reg = OrderRegistry::new();
    reg.insert(order("a"));
    reg.insert(order("b"));
    assert_eq!(reg.len(), 2);
    // An order can be put in the place of another.
    let mut changed = order("a");
    changed.price = d("7");
    changed.status = OrderStatus::PartiallyFilled;
    assert_eq!(reg.replace("a", changed).unwrap().price, d("1"));
    assert_eq!(reg.get("a").unwrap().price, d("7"));
    assert_eq!(reg.get("a").unwrap().status, OrderStatus::PartiallyFilled);
    assert_eq!(reg.cl_ord_id_for_exchange_id("ex-a"), Some("a"));
    assert!(reg.replace("zzz", order("zzz")).is_none());
    assert_eq!(reg.len(), 2);
    reg.cancel_all();
    assert!(reg.is_empty() && reg.len() == 0 && reg.all_orders().is_empty());
    assert!(reg.get("a").is_none());
    assert_eq!(reg.cl_ord_id_for_exchange_id("ex-b"), None);
    reg.insert(order("a"));
    assert_eq!(reg.cl_ord_id_for_exchange_id("ex-a"), Some("a"));
}
