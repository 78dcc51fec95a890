use kraken_mm::collections::StrMap;
use kraken_mm::config::Config;
use kraken_mm::decimal::Decimal;
use kraken_mm::engine::Engine;
use kraken_mm::events::{EngineCommand, EngineEvent};
use kraken_mm::position::Position;
use kraken_mm::state::BotState;
use kraken_mm::time::Timestamp;
use kraken_mm::types::{Fill, LevelUpdate, OrderSide, PairInfo};

fn d(s: &str) -> Decimal {
    Decimal::parse(s).unwrap()
}

fn now() -> Timestamp {
    Timestamp::new(1_767_225_600, 0).unwrap()
}

fn test_config() -> Config {
    let mut cfg = Config::default();
    cfg.trading.order_size_usd = d("100");
    cfg.trading.min_spread_bps = d("100");
    cfg.trading.maker_fee_pct = d("0.0023");
    cfg.risk.max_inventory_usd = d("200");
    cfg.risk.max_total_exposure_usd = d("2000");
    cfg.risk.kill_switch_loss_usd = d("-100");
    cfg
}

fn test_pair_info() -> StrMap<PairInfo> {
    let mut m = StrMap::new();
    m.insert(
        "TEST/USD".into(),
        PairInfo {
            pair: "TEST/USD".into(),
            rest_key: "TESTUSD".into(),
            min_order_qty: d("1"),
            min_cost: d("0.5"),
            price_decimals: 5,
            qty_decimals: 4,
            maker_fee_pct: d("0.0023"),
            exchange_base_asset: "TEST".into(),
        },
    );
    m
}

#[test]
fn test_book_snapshot_triggers_quotes() {
    let mut engine = Engine::new(test_config(), test_pair_info(), BotState::default());
    let cmds = engine.handle_event(EngineEvent::BookSnapshot {
        pair: "TEST/USD".into(),
        bids: vec![LevelUpdate { price: d("0.10"), qty: d("100") }],
        asks: vec![LevelUpdate { price: d("0.12"), qty: d("100") }],
        timestamp: now(),
    }).unwrap();

    // Should place bid only (no inventory to sell)
    let place_cmds: Vec<_> = cmds
        .iter()
        .filter(|c| matches!(c, EngineCommand::PlaceOrder(_)))
        .collect();
    assert_eq!(place_cmds.len(), 1);
    if let EngineCommand::PlaceOrder(req) = &place_cmds[0] {
        assert_eq!(req.side, OrderSide::Buy);
    }
}

#[test]
fn test_narrow_spread_no_quote() {
    let mut engine = Engine::new(test_config(), test_pair_info(), BotState::default());
    let cmds = engine.handle_event(EngineEvent::BookSnapshot {
        pair: "TEST/USD".into(),
        bids: vec![LevelUpdate { price: d("1.000"), qty: d("100") }],
        asks: vec![LevelUpdate { price: d("1.001"), qty: d("100") }],
        timestamp: now(),
    }).unwrap();

    // 0.1% spread < 1% min => no quotes
    let place_cmds: Vec<_> = cmds
        .iter()
        .filter(|c| matches!(c, EngineCommand::PlaceOrder(_)))
        .collect();
    assert_eq!(place_cmds.len(), 0);
}

#[test]
fn test_fill_updates_pnl() {
    let mut engine = Engine::new(test_config(), test_pair_info(), BotState::default());

    // Buy
    engine.handle_event(EngineEvent::Fill(Fill {
        order_id: "o1".into(),
        cl_ord_id: "bid-1".into(),
        pair: "TEST/USD".into(),
        side: OrderSide::Buy,
        price: d("0.10"),
        qty: d("100"),
        fee: d("0.023"),
        is_maker: true,
        is_fully_filled: true,
        timestamp: now(),
    })).unwrap();

    assert_eq!(engine.state.position("TEST/USD").qty, d("100"));

    // Sell at profit
    let cmds = engine.handle_event(EngineEvent::Fill(Fill {
        order_id: "o2".into(),
        cl_ord_id: "ask-1".into(),
        pair: "TEST/USD".into(),
        side: OrderSide::Sell,
        price: d("0.12"),
        qty: d("100"),
        fee: d("0.028"),
        is_maker: true,
        is_fully_filled: true,
        timestamp: now(),
    })).unwrap();

    assert!(engine.state.position("TEST/USD").is_empty());
    // pnl = 100 * (0.12 - 0.10) - 0.028 = 2.0 - 0.028 = 1.972
    assert_eq!(engine.state.realized_pnl, d("1.972"));

    // Should have LogTrade and PersistState commands
    assert!(cmds.iter().any(|c| matches!(c, EngineCommand::LogTrade(_))));
    assert!(cmds.iter().any(|c| matches!(c, EngineCommand::PersistState(_))));
}

#[test]
fn test_kill_switch_triggers_shutdown() {
    let mut cfg = test_config();
    cfg.risk.kill_switch_loss_usd = d("-1");

    let mut engine = Engine::new(cfg, test_pair_info(), BotState::default());

    // Buy at 0.10
    engine.handle_event(EngineEvent::Fill(Fill {
        order_id: "o1".into(),
        cl_ord_id: "bid-1".into(),
        pair: "TEST/USD".into(),
        side: OrderSide::Buy,
        price: d("0.10"),
        qty: d("100"),
        fee: d("0.023"),
        is_maker: true,
        is_fully_filled: true,
        timestamp: now(),
    })).unwrap();

    // Sell at 0.05 — realize big loss: 100 * (0.05 - 0.10) - 0.5 = -5.5
    let cmds = engine.handle_event(EngineEvent::Fill(Fill {
        order_id: "o2".into(),
        cl_ord_id: "ask-1".into(),
        pair: "TEST/USD".into(),
        side: OrderSide::Sell,
        price: d("0.05"),
        qty: d("100"),
        fee: d("0.5"),
        is_maker: true,
        is_fully_filled: true,
        timestamp: now(),
    })).unwrap();

    assert!(cmds.iter().any(|c| matches!(c, EngineCommand::CancelAll)));
    assert!(cmds.iter().any(|c| matches!(c, EngineCommand::Shutdown { .. })));
}

#[test]
fn test_stop_loss_two_phase_liquidation() {
    let mut cfg = test_config();
    cfg.risk.stop_loss_pct = d("0.03"); // 3% stop-loss

    let mut state = BotState::default();
    // Position bought at 0.10 avg_cost
    state.positions.insert("TEST/USD".into(), Position { qty: d("100"), avg_cost: d("0.10") });

    let mut engine = Engine::new(cfg, test_pair_info(), state);

    // Feed book snapshot with mid at 0.096 (4% drop, > 3% threshold)
    engine.handle_event(EngineEvent::BookSnapshot {
        pair: "TEST/USD".into(),
        bids: vec![LevelUpdate { price: d("0.095"), qty: d("1000") }],
        asks: vec![LevelUpdate { price: d("0.097"), qty: d("1000") }],
        timestamp: now(),
    }).unwrap();

    // PHASE 1: First tick triggers stop-loss — should cancel orders, NOT place sell yet
    let cmds1 = engine.handle_event(EngineEvent::Tick {
        timestamp: now(),
    }).unwrap();

    // No sell orders in phase 1 (only cancels)
    let sell_orders1: Vec<_> = cmds1.iter()
        .filter_map(|c| {
            if let EngineCommand::PlaceOrder(req) = c {
                if req.side == OrderSide::Sell { return Some(req); }
            }
            None
        })
        .collect();
    assert!(sell_orders1.is_empty());

    // Pair should be marked disabled and pending liquidation
    assert!(engine.disabled_pairs.contains_key("TEST/USD"));
    assert!(engine.pending_liquidation.contains_key("TEST/USD"));

    // PHASE 2: Second tick — orders cleared, now send the market sell
    let cmds2 = engine.handle_event(EngineEvent::Tick {
        timestamp: now(),
    }).unwrap();

    let sell_orders2: Vec<_> = cmds2.iter()
        .filter_map(|c| {
            if let EngineCommand::PlaceOrder(req) = c {
                if req.side == OrderSide::Sell { return Some(req); }
            }
            None
        })
        .collect();

    assert!(!sell_orders2.is_empty());
    assert!(sell_orders2[0].market);
    assert_eq!(sell_orders2[0].post_only, false);
    assert_eq!(sell_orders2[0].qty, d("100"));

    // Third tick should NOT re-send (liq order is pending)
    let cmds3 = engine.handle_event(EngineEvent::Tick {
        timestamp: now(),
    }).unwrap();
    let sell_orders3: Vec<_> = cmds3.iter()
        .filter_map(|c| {
            if let EngineCommand::PlaceOrder(req) = c {
                if req.side == OrderSide::Sell { return Some(req); }
            }
            None
        })
        .collect();
    assert!(sell_orders3.is_empty());
}
