use kraken_mm::analyzer::{
    authorized, classify, decode_symbol, encode_symbol, evaluate, judge, judge_untraded,
    newest_first, Analyzer, AnalyzerConfig, EdgeClass, StorePairConfig,
    StorePairRecord,
};
use kraken_mm::bot::{
    build_engine_snapshot, check_settings, dispatch, goes_to_exchange, managed_pairs, snapshot_due,
    KnownPairs, MissingSetting,
};
use kraken_mm::collections::StrMap;
use kraken_mm::config::Config;
use kraken_mm::decimal::Decimal;
use kraken_mm::edge::EdgeTracker;
use kraken_mm::engine::Engine;
use kraken_mm::events::{ApiAction, EngineCommand, EngineEvent, PairRecord, StateStoreAction};
use kraken_mm::pairs::{GlobalDefaults, ManagedPair, PairConfig, PairState};
use kraken_mm::pnl::{sort_by_time, PnlTracker};
use kraken_mm::position::Position;
use kraken_mm::proxy::{
    book_event, private_event, to_proxy, BookLevel, ExchangeCapabilities, OrderPriority,
    ProxyCommand, ProxyEvent,
};
use kraken_mm::quoter::QuoteState;
use kraken_mm::risk::can_open_buy;
use kraken_mm::state::{BotState, TrackedOrder};
use kraken_mm::state_store::{
    command_for, heartbeat, on_frame, reports, state_store_cmd_to_event, BotMessage, Frame,
    FrameAction, StateStoreCommand, StateStoreConfig, StateStoreMessage,
};
use kraken_mm::time::Timestamp;
use kraken_mm::types::{Fill, LevelUpdate, OrderRequest, OrderSide, PairInfo, TradeRecord};

fn d(s: &str) -> Decimal {
    Decimal::parse(s).unwrap()
}

fn at(hours: i64) -> Timestamp {
    Timestamp::new(1_767_225_600 + hours * 3600, 0).unwrap()
}

fn record(pair: &str) -> PairRecord {
    PairRecord {
        pair: pair.into(),
        state: PairState::Active,
        config: PairConfig::default(),
        disabled_reason: None,
        auto_enable_at: None,
        created_at: at(0),
        updated_at: at(0),
    }
}

fn info(pair: &str) -> PairInfo {
    PairInfo {
        pair: pair.into(),
        rest_key: pair.replace('/', ""),
        exchange_base_asset: pair.split('/').next().unwrap().into(),
        price_decimals: 5,
        qty_decimals: 4,
        min_order_qty: d("1"),
        min_cost: d("0.5"),
        maker_fee_pct: d("0.0023"),
    }
}

fn fill(pair: &str, side: OrderSide, price: &str, qty: &str, fee: &str, when: Timestamp) -> Fill {
    Fill {
        order_id: "o".into(),
        cl_ord_id: "c".into(),
        pair: pair.into(),
        side,
        price: d(price),
        qty: d(qty),
        fee: d(fee),
        is_maker: true,
        is_fully_filled: true,
        timestamp: when,
    }
}

#[test]
fn snapshots_of_the_engine() {
    let mut state = BotState::default();
    state.positions.insert("A/USD".into(), Position { qty: d("10"), avg_cost: d("2.5") });
    state.positions.insert("B/USD".into(), Position { qty: d("3"), avg_cost: d("1") });
    let a = ManagedPair::new("A/USD".into(), None);
    let mut b = ManagedPair::with_state_and_config("B/USD".into(), PairState::Disabled, PairConfig::default(), None);
    b.quoter.state = QuoteState::BidFilled;
    b.quoter.ask_cl_ord_id = Some("x".into());
    let c = ManagedPair::with_state_and_config("C/USD".into(), PairState::WindDown, PairConfig::default(), None);
    let snap = build_engine_snapshot(&vec![a, b, c], &state).unwrap();
    assert_eq!(snap.active_pairs, 2);
    assert_eq!(snap.total_exposure_usd, d("28"));
    assert_eq!(snap.pair_reports.len(), 3);
    assert_eq!(snap.pair_reports[0].exposure_usd, d("25"));
    assert_eq!(snap.pair_reports[0].quoter_state, "idle");
    assert!(!snap.pair_reports[0].has_open_orders);
    assert_eq!(snap.pair_reports[1].quoter_state, "bid_filled");
    assert!(snap.pair_reports[1].has_open_orders);
    assert_eq!(snap.pair_reports[2].position_qty, d("0"));

    let latest = Some(snap);
    match heartbeat(&latest, at(1)) {
        Some(BotMessage::Heartbeat { timestamp, active_pairs, total_exposure_usd }) => {
            assert_eq!((timestamp, active_pairs), (at(1), 2));
            assert_eq!(total_exposure_usd, d("28"));
        }
        other => panic!("{:?}", other),
    }
    let sent = reports(&latest);
    assert_eq!(sent.len(), 3);
    assert!(matches!(&sent[1], BotMessage::PairReport(r) if r.pair == "B/USD"));
    assert!(heartbeat(&None, at(1)).is_none());
    assert!(reports(&None).is_empty());
    assert!(!snapshot_due(4999) && snapshot_due(5000));
}

#[test]
fn engine_pairs_are_reported_in_their_state() {
    let mut infos = StrMap::new();
    infos.insert("A/USD".into(), info("A/USD"));
    infos.insert("B/USD".into(), info("B/USD"));
    let mut engine = Engine::new(Config::default(), infos, BotState::default());
    engine.disabled_pairs.insert("B/USD".into(), ());
    let pairs = managed_pairs(&engine);
    assert_eq!(pairs.len(), 2);
    assert_eq!((pairs[0].pair.as_str(), pairs[0].state), ("A/USD", PairState::Active));
    assert_eq!((pairs[1].pair.as_str(), pairs[1].state), ("B/USD", PairState::Disabled));
    engine.sell_only_pairs.insert("A/USD".into(), ());
    engine.pending_liquidation.insert("B/USD".into(), ());
    let pairs = managed_pairs(&engine);
    assert_eq!(pairs[0].state, PairState::WindDown);
    assert_eq!(pairs[1].state, PairState::Liquidating);
    assert_eq!(pairs[0].pair_info.as_ref().unwrap().pair, "A/USD");
    assert_eq!(pairs[1].liq_retry_count, 0);
    engine.liq_retry_count.insert("B/USD".into(), 2);
    assert_eq!(managed_pairs(&engine)[1].liq_retry_count, 2);
    assert_eq!(managed_pairs(&engine)[1].buys_without_sell, 0);
}

#[test]
fn pairs_are_new_once() {
    let mut known = KnownPairs::new(&vec!["A/USD".into()]);
    let snap = StateStoreCommand::Snapshot {
        pairs: vec![record("A/USD"), record("B/USD"), record("C/USD")],
        defaults: GlobalDefaults::default(),
    };
    let new = known.new_pairs(&snap);
    assert_eq!(new, vec!["B/USD", "C/USD"]);
    known.learn(&new);
    assert!(known.new_pairs(&snap).is_empty());
    assert!(known.new_pairs(&StateStoreCommand::PairUpdated(record("C/USD"))).is_empty());
    assert_eq!(known.new_pairs(&StateStoreCommand::PairUpdated(record("D/USD"))), vec!["D/USD"]);
    assert!(known.new_pairs(&StateStoreCommand::PairRemoved { pair: "E/USD".into() }).is_empty());
}

#[test]
fn messages_become_events() {
    let m = StateStoreMessage::PairRemoved { pair: "A/USD".into() };
    let e = state_store_cmd_to_event(command_for(m));
    assert!(matches!(
        e,
        EngineEvent::StateStoreCommand(StateStoreAction::PairRemoved { pair }) if pair == "A/USD"
    ));
    let m = StateStoreMessage::Snapshot { pairs: vec![record("A/USD")], defaults: GlobalDefaults::default() };
    assert!(matches!(
        state_store_cmd_to_event(command_for(m)),
        EngineEvent::StateStoreCommand(StateStoreAction::Snapshot { pairs, .. }) if pairs.len() == 1
    ));
    let m = StateStoreMessage::PairUpdated { pair: record("Z") };
    assert!(matches!(command_for(m), StateStoreCommand::PairUpdated(r) if r.pair == "Z"));
    let m = StateStoreMessage::DefaultsUpdated { defaults: GlobalDefaults::default() };
    assert!(matches!(command_for(m), StateStoreCommand::DefaultsUpdated(_)));
}

#[test]
fn frames() {
    assert!(matches!(on_frame(Frame::Text), FrameAction::Handle));
    assert!(matches!(on_frame(Frame::Ping), FrameAction::Pong));
    assert!(matches!(on_frame(Frame::Other), FrameAction::Ignore));
    assert!(matches!(on_frame(Frame::Close), FrameAction::Disconnect(s) if s == "Server sent close frame"));
    assert!(matches!(on_frame(Frame::Ended), FrameAction::Disconnect(s) if s == "WebSocket stream ended"));
    assert!(matches!(on_frame(Frame::Failed("x".into())), FrameAction::Disconnect(s) if s == "WebSocket error: x"));
}

#[test]
fn settings_are_checked() {
    assert_eq!(check_settings("", "s"), Err(MissingSetting::ProxyUrl));
    assert_eq!(check_settings("p", ""), Err(MissingSetting::StateStoreUrl));
    assert_eq!(check_settings("p", "s"), Ok(()));
    let c = StateStoreConfig::default();
    assert!(!c.is_configured());
    assert_eq!((c.heartbeat_interval, c.report_interval), (30, 10));
    assert_eq!((c.reconnect_base_delay, c.reconnect_max_delay), (1, 60));
}

#[test]
fn commands_for_the_proxy() {
    let order = OrderRequest {
        cl_ord_id: "liq-1".into(),
        pair: "A/USD".into(),
        side: OrderSide::Sell,
        price: d("1"),
        qty: d("2"),
        post_only: true,
        market: true,
        urgent: true,
    };
    let sent = to_proxy(&EngineCommand::PlaceOrder(order), 7, 60);
    assert_eq!(sent.len(), 1);
    match &sent[0] {
        ProxyCommand::PlaceOrder { req_id, order_type, post_only, priority, side, .. } => {
            assert_eq!(*req_id, 7);
            assert_eq!(order_type, "market");
            assert_eq!(side, "sell");
            assert!(!post_only);
            assert_eq!(*priority, OrderPriority::Urgent);
        }
        other => panic!("{:?}", other),
    }
    assert!(!sent[0].is_rate_limit_exempt());
    assert_eq!(sent[0].priority(), OrderPriority::Urgent);
    assert_eq!(sent[0].method(), "place_order");
    let shutdown = to_proxy(&EngineCommand::Shutdown { reason: "r".into() }, 7, 60);
    assert!(matches!(&shutdown[0], ProxyCommand::CancelAll { req_id: 7 }));
    assert!(matches!(&shutdown[1], ProxyCommand::SetDms { req_id: 8, timeout_secs: 0 }));
    assert!(shutdown.iter().all(|c| c.is_rate_limit_exempt()));
    assert!(matches!(&to_proxy(&EngineCommand::RefreshDms, 3, 60)[0], ProxyCommand::SetDms { timeout_secs: 60, .. }));
    let log = EngineCommand::LogTrade(TradeRecord {
        timestamp: at(0),
        pair: "A/USD".into(),
        side: "buy".into(),
        price: d("1"),
        qty: d("1"),
        value_usd: d("1"),
        fee: d("0"),
        pnl: d("0"),
        cumulative_pnl: d("0"),
    });
    assert!(to_proxy(&log, 3, 60).is_empty());
    assert_eq!(OrderPriority::default(), OrderPriority::Normal);
    assert!(!ExchangeCapabilities::default().amend_orders);
}

#[test]
fn dry_runs_send_nothing() {
    let place = EngineCommand::PlaceOrder(OrderRequest {
        cl_ord_id: "bid-1".into(),
        pair: "OMG/USD".into(),
        side: OrderSide::Buy,
        price: d("1"),
        qty: d("2"),
        post_only: true,
        market: false,
        urgent: false,
    });
    let stop = EngineCommand::Shutdown { reason: "x".into() };
    for cmd in [&place, &stop, &EngineCommand::CancelAll, &EngineCommand::RefreshDms] {
        assert!(goes_to_exchange(false, cmd));
        assert!(!goes_to_exchange(true, cmd));
        assert!(!dispatch(false, cmd, 1, 60).is_empty());
        assert!(dispatch(true, cmd, 1, 60).is_empty());
    }
    assert_eq!(dispatch(false, &stop, 1, 60).len(), 2);
    let save = EngineCommand::PersistState(BotState::default());
    assert!(!goes_to_exchange(false, &save));
    assert!(dispatch(false, &save, 1, 60).is_empty());
}

#[test]
fn proxy_events_become_engine_events() {
    let level = BookLevel { price: d("1"), qty: d("2") };
    let e = book_event(ProxyEvent::book_snapshot("A/USD", vec![level], vec![]), at(0)).unwrap();
    assert!(matches!(e, EngineEvent::BookSnapshot { pair, bids, .. } if pair == "A/USD" && bids.len() == 1));
    assert!(private_event(ProxyEvent::book_snapshot("A/USD", vec![], vec![]), at(0)).is_none());
    let f = ProxyEvent::fill("o", "c", "A/USD", "sell", d("1"), d("2"), d("0"), true, "2026-01-01T00:00:00Z", true);
    match private_event(f, at(5)).unwrap() {
        EngineEvent::Fill(f) => {
            assert_eq!(f.side, OrderSide::Sell);
            assert_eq!(f.timestamp, at(0));
        }
        _ => panic!("not a fill"),
    }
    let f = ProxyEvent::fill("o", "c", "A/USD", "buy", d("1"), d("2"), d("0"), true, "soon", true);
    assert!(matches!(private_event(f, at(5)).unwrap(), EngineEvent::Fill(f) if f.timestamp == at(5)));
    let c = ProxyEvent::order_cancelled("c", None, None);
    assert!(matches!(
        private_event(c, at(0)).unwrap(),
        EngineEvent::OrderCancelled { pair, .. } if pair == "UNKNOWN/UNKNOWN"
    ));
    assert!(private_event(ProxyEvent::heartbeat(), at(0)).is_none());
}

#[test]
fn pending_buys_count_towards_the_limits() {
    let cfg = Config::default().risk;
    let mut state = BotState::default();
    let mut prices = StrMap::new();
    prices.insert("A/USD".into(), d("1"));
    assert_eq!(can_open_buy(&state, "A/USD", d("100"), d("1"), &prices, &cfg), Some(true));
    state.open_orders.insert(
        "b".into(),
        TrackedOrder {
            cl_ord_id: "b".into(),
            pair: "A/USD".into(),
            side: OrderSide::Buy,
            price: d("1"),
            qty: d("150"),
            placed_at: at(0),
            acked: false,
        },
    );
    assert_eq!(can_open_buy(&state, "A/USD", d("100"), d("1"), &prices, &cfg), Some(false));
    assert_eq!(can_open_buy(&state, "A/USD", d("50"), d("1"), &prices, &cfg), Some(true));
}

#[test]
fn control_commands_reach_the_engine() {
    let mut infos = StrMap::new();
    infos.insert("A/USD".into(), info("A/USD"));
    let mut engine = Engine::new(Config::default(), infos, BotState::default());
    let book = || EngineEvent::BookSnapshot {
        pair: "A/USD".into(),
        bids: vec![LevelUpdate { price: d("0.10"), qty: d("100") }],
        asks: vec![LevelUpdate { price: d("0.12"), qty: d("100") }],
        timestamp: at(0),
    };
    engine.handle_event(EngineEvent::ApiCommand(ApiAction::Pause)).unwrap();
    assert!(engine.state.paused);
    assert!(engine.handle_event(book()).unwrap().iter().all(|c| !matches!(c, EngineCommand::PlaceOrder(_))));
    engine.handle_event(EngineEvent::ApiCommand(ApiAction::Resume)).unwrap();
    let cmds = engine.handle_event(book()).unwrap();
    assert!(cmds.iter().any(|c| matches!(c, EngineCommand::PlaceOrder(o) if o.side == OrderSide::Buy)));
    assert_eq!(engine.state.open_orders.len(), 1);
    engine.handle_event(EngineEvent::ApiCommand(ApiAction::CancelAll)).unwrap();
    assert!(engine.state.open_orders.is_empty());
    engine.handle_event(EngineEvent::ApiCommand(ApiAction::DisablePair { pair: "A/USD".into() })).unwrap();
    assert!(engine.handle_event(book()).unwrap().iter().all(|c| !matches!(c, EngineCommand::PlaceOrder(_))));
    let cmds = engine.handle_event(EngineEvent::ApiCommand(ApiAction::Shutdown)).unwrap();
    assert!(cmds.iter().any(|c| matches!(c, EngineCommand::Shutdown { .. })));
}

#[test]
fn overflow_leaves_the_engine_as_it_was() {
    let mut infos = StrMap::new();
    infos.insert("A/USD".into(), info("A/USD"));
    let mut engine = Engine::new(Config::default(), infos, BotState::default());
    let huge = "79228162514264337593543950335";
    engine.handle_event(EngineEvent::Fill(fill("A/USD", OrderSide::Buy, "1", huge, "0", at(0)))).unwrap();
    let before = engine.state.trade_count;
    assert!(engine.handle_event(EngineEvent::Fill(fill("A/USD", OrderSide::Buy, "9", huge, "0", at(0)))).is_none());
    assert_eq!(engine.state.trade_count, before);
    assert_eq!(engine.state.position("A/USD").qty, d(huge));
}

#[test]
fn histories_are_sorted_and_seeded() {
    let fills = vec![
        fill("A/USD", OrderSide::Sell, "3", "2", "0.1", at(2)),
        fill("A/USD", OrderSide::Buy, "1", "1", "0", at(1)),
    ];
    let sorted = sort_by_time(&fills);
    assert_eq!(sorted[0].side, OrderSide::Buy);
    let t = PnlTracker::from_history(&sorted).unwrap();
    // One unit was bought at 1, the other is taken to have cost 3: average 2, profit 2 * (3 - 2) - 0.1.
    assert_eq!(t.realized_pnl, d("1.9"));
    assert_eq!(t.trade_count, 3);
    assert!(t.positions.is_empty());
}

#[test]
fn edges_and_verdicts() {
    let cfg = AnalyzerConfig::default();
    let mut a = Analyzer { tracker: PnlTracker::new(), edges: EdgeTracker::new(), prices: StrMap::new() };
    a.on_fill(&fill("A/USD", OrderSide::Buy, "1", "100", "0", at(0)), at(0)).unwrap();
    a.on_fill(&fill("A/USD", OrderSide::Sell, "1.02", "100", "0", at(1)), at(1)).unwrap();
    let e = a.edges.pair_edge("A/USD", 6, at(1)).unwrap();
    assert_eq!(e.realized_pnl, d("2"));
    assert_eq!(e.total_volume, d("202"));
    assert_eq!(e.trade_count, 2);
    assert_eq!(e.edge, d("2").checked_div(d("202")).unwrap());
    assert_eq!(classify(&e, &cfg), EdgeClass::HighEdge);
    let patch = judge("active", &e, at(1), &cfg).unwrap();
    assert_eq!(patch.config.unwrap().max_inventory_usd, Some(d("500")));
    assert!(judge("wind_down", &e, at(1), &cfg).is_none());
    let silent = judge("active", &e, at(14), &cfg).unwrap();
    assert_eq!(silent.state.as_deref(), Some("disabled"));
    assert_eq!(silent.disabled_reason.as_deref(), Some("No trades for 13 hours"));

    let store = |s: &str, created: Option<&str>| StorePairRecord {
        symbol: s.into(),
        state: "active".into(),
        config: StorePairConfig {
            order_size_usd: None,
            max_inventory_usd: None,
            min_spread_bps: None,
            spread_capture_pct: None,
            min_profit_pct: None,
            stop_loss_pct: None,
            take_profit_pct: None,
        },
        disabled_reason: None,
        auto_enable_at: None,
        created_at: created.map(String::from),
        updated_at: None,
    };
    let old = store("N/USD", Some("2025-12-31T00:00:00Z"));
    let p = judge_untraded(&old, &a.edges.last_trade_per_pair, at(1), &cfg).unwrap();
    assert_eq!(p.disabled_reason.as_deref(), Some("Zero trades for 25 hours since creation"));
    let due = evaluate(&vec![store("A/USD", None), old, store("Q/USD", None)], &a.edges, at(1), &cfg).unwrap();
    let symbols: Vec<&str> = due.iter().map(|x| x.symbol.as_str()).collect();
    assert_eq!(symbols, vec!["A/USD", "N/USD"]);

    assert_eq!(a.edges.pair_edge("A/USD", 1, at(5)).unwrap().trade_count, 0);
    assert_eq!(newest_first(&a.tracker.recent_trades, 1)[0].side, "sell");
    assert_eq!(encode_symbol("OMG/USD"), "OMG-USD");
    assert_eq!(decode_symbol("OMG-USD"), "OMG/USD");
    assert!(authorized("", "") && authorized("Bearer x", "x") && !authorized("x", "x"));
}

#[test]
fn analyzer_settings() {
    let mut s = StrMap::new();
    s.insert("EVAL_INTERVAL_SECS".into(), "120".into());
    s.insert("EVAL_WINDOW_HOURS".into(), "six".into());
    s.insert("HIGH_EDGE_THRESHOLD".into(), "0.02".into());
    s.insert("LOW_EDGE_THRESHOLD".into(), "low".into());
    s.insert("STATE_STORE_TOKEN".into(), "tok".into());
    let c = AnalyzerConfig::from_settings(&s);
    assert_eq!((c.eval_interval_secs, c.eval_window_hours, c.zero_trades_disable_hours), (120, 6, 12));
    assert_eq!(c.high_edge_threshold, d("0.02"));
    assert_eq!(c.low_edge_threshold, d("0"));
    assert_eq!(c.negative_edge_threshold, d("-0.002"));
    assert_eq!(c.state_store_url, "http://localhost:3040");
    assert_eq!(c.state_store_token, "tok");
}
