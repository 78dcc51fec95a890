use kraken_mm::collections::StrMap;
use kraken_mm::config::Config;
use kraken_mm::decimal::Decimal;
use kraken_mm::engine::Engine;
use kraken_mm::events::{EngineCommand, EngineEvent};
use kraken_mm::position::Position;
use kraken_mm::proxy::{replayed_event, BookLevel, ProxyEvent};
use kraken_mm::state::BotState;
use kraken_mm::time::Timestamp;
use kraken_mm::types::{OrderRequest, OrderSide, PairInfo};
use std::collections::HashSet;

fn d(s: &str) -> Decimal {
    Decimal::parse(s).unwrap()
}

fn test_config(pairs: Vec<String>) -> Config {
    let mut cfg = Config::default();
    cfg.trading.pairs = pairs;
    cfg.trading.order_size_usd = d("50");
    cfg.trading.min_spread_bps = d("100");
    cfg.trading.maker_fee_pct = d("0.0023");
    cfg.trading.spread_capture_pct = d("0.50");
    cfg.trading.requote_threshold_pct = d("0.005");
    cfg.risk.max_inventory_usd = d("200");
    cfg.risk.max_total_exposure_usd = d("2000");
    cfg.risk.kill_switch_loss_usd = d("-100");
    cfg.risk.stale_order_secs = 300;
    cfg
}

fn test_pair_info(pair: &str) -> PairInfo {
    PairInfo {
        pair: pair.to_string(),
        rest_key: pair.replace('/', ""),
        min_order_qty: d("1"),
        min_cost: d("0.5"),
        price_decimals: 7,
        qty_decimals: 5,
        maker_fee_pct: d("0.0023"),
        exchange_base_asset: pair.split('/').next().unwrap_or("").to_string(),
    }
}

fn default_pairs() -> Vec<String> {
    vec!["CAMP/USD".to_string(), "SUP/USD".to_string(), "MIM/USD".to_string()]
}

fn default_pair_info_map() -> StrMap<PairInfo> {
    let mut m = StrMap::new();
    for p in &default_pairs() {
        m.insert(p.clone(), test_pair_info(p));
    }
    m
}

fn levels(prices: &[&str]) -> Vec<BookLevel> {
    prices.iter().map(|p| BookLevel { price: d(p), qty: d("50000") }).collect()
}

/// A recorded feed: a snapshot for each pair, then updates that move the books about.
fn recorded() -> Vec<(Timestamp, ProxyEvent)> {
    let base = 1_767_225_600i64;
    let at = |s: i64| Timestamp::new(base + s, 0).unwrap();
    let snap = |p: &str, b: &[&str], a: &[&str]| ProxyEvent::book_snapshot(p, levels(b), levels(a));
    let up = |p: &str, b: &[&str], a: &[&str]| ProxyEvent::book_update(p, levels(b), levels(a));
    vec![
        (at(0), snap("CAMP/USD", &["0.0039", "0.0038"], &["0.0041", "0.0042"])),
        (at(1), snap("SUP/USD", &["0.0068", "0.0067"], &["0.0072", "0.0073"])),
        (at(2), snap("MIM/USD", &["0.00095", "0.00094"], &["0.00105", "0.00106"])),
        (at(3), ProxyEvent::heartbeat()),
        (at(8), up("CAMP/USD", &["0.00391"], &["0.00409"])),
        (at(9), up("SUP/USD", &["0.00685"], &["0.00715"])),
        (at(10), up("MIM/USD", &["0.00096"], &["0.00104"])),
        (at(20), up("CAMP/USD", &["0.004"], &["0.00408"])),
        (at(21), up("SUP/USD", &["0.0069"], &["0.0071"])),
        (at(22), up("MIM/USD", &["0.00097"], &["0.00103"])),
        (at(30), up("CAMP/USD", &["0.00392"], &["0.00407"])),
        (at(31), up("SUP/USD", &[], &["0.00705"])),
        (at(32), up("MIM/USD", &["0.000965"], &[])),
    ]
}

fn run_replay(
    config: Config,
    pair_info: StrMap<PairInfo>,
    state: BotState,
    acknowledge: bool,
) -> (Engine, Vec<EngineCommand>) {
    let mut engine = Engine::new(config, pair_info, state);
    let mut commands = vec![];
    for (at, raw) in recorded() {
        if let Some(event) = replayed_event(raw, at) {
            let cmds = engine.handle_event(event).unwrap();
            if acknowledge {
                let ids: Vec<String> = placed_orders(&cmds).iter().map(|o| o.cl_ord_id.clone()).collect();
                for id in ids {
                    let ack = EngineEvent::OrderAcknowledged {
                        cl_ord_id: id.clone(),
                        order_id: format!("EX-{}", id),
                    };
                    assert!(engine.handle_event(ack).unwrap().is_empty());
                }
            }
            commands.extend(cmds);
        }
    }
    (engine, commands)
}

fn placed_orders(cmds: &[EngineCommand]) -> Vec<&OrderRequest> {
    cmds.iter()
        .filter_map(|c| match c {
            EngineCommand::PlaceOrder(req) => Some(req),
            _ => None,
        })
        .collect()
}

#[test]
fn no_sells_without_inventory() {
    let (_, commands) =
        run_replay(test_config(default_pairs()), default_pair_info_map(), BotState::default(), false);
    let orders = placed_orders(&commands);
    assert!(orders.iter().all(|o| o.side != OrderSide::Sell));
}

#[test]
fn cold_start_only_buys_with_valid_prices() {
    let (engine, commands) =
        run_replay(test_config(default_pairs()), default_pair_info_map(), BotState::default(), false);
    let orders = placed_orders(&commands);
    assert!(!orders.is_empty());

    for order in &orders {
        assert_eq!(order.side, OrderSide::Buy);
        assert!(order.price > Decimal::zero());
        assert!(order.qty > Decimal::zero());
        assert!(!order.pair.is_empty());
        assert!(!order.cl_ord_id.is_empty());
        let book = engine.books().get(&order.pair).unwrap();
        let ask = book.best_ask().unwrap();
        assert!(order.price < ask.price);
    }

    let pairs: HashSet<_> = orders.iter().map(|o| o.pair.as_str()).collect();
    for pair in ["CAMP/USD", "SUP/USD", "MIM/USD"] {
        assert!(pairs.contains(pair));
        let book = engine.books().get(pair).unwrap();
        assert!(book.best_bid().unwrap().price < book.best_ask().unwrap().price);
    }
}

#[test]
fn with_inventory_places_sells() {
    let mut state = BotState::default();
    for pair in ["CAMP/USD", "SUP/USD", "MIM/USD"] {
        let mut pos = Position::default();
        pos.apply_buy(d("50000"), d("0.001")).unwrap();
        state.positions.insert(pair.to_string(), pos);
    }

    let mut config = test_config(default_pairs());
    config.risk.max_inventory_usd = d("500");
    let (_, commands) = run_replay(config, default_pair_info_map(), state, false);

    let orders = placed_orders(&commands);
    let sells: Vec<_> = orders.iter().filter(|o| o.side == OrderSide::Sell).collect();
    let buys: Vec<_> = orders.iter().filter(|o| o.side == OrderSide::Buy).collect();
    assert!(!sells.is_empty());
    assert!(!buys.is_empty());
    for sell in &sells {
        for buy in &buys {
            if sell.pair == buy.pair {
                assert!(sell.price > buy.price);
            }
        }
    }
}

fn same(a: &EngineCommand, b: &EngineCommand) -> bool {
    match (a, b) {
        (EngineCommand::PlaceOrder(x), EngineCommand::PlaceOrder(y)) => {
            x.pair == y.pair
                && x.side == y.side
                && x.price == y.price
                && x.qty == y.qty
                && x.cl_ord_id == y.cl_ord_id
        }
        (
            EngineCommand::AmendOrder { cl_ord_id: i, new_price: p, .. },
            EngineCommand::AmendOrder { cl_ord_id: j, new_price: q, .. },
        ) => i == j && p == q,
        _ => std::mem::discriminant(a) == std::mem::discriminant(b),
    }
}

#[test]
fn replay_is_deterministic() {
    for acknowledge in [false, true] {
        let config = test_config(default_pairs());
        let (_, first) =
            run_replay(config.clone(), default_pair_info_map(), BotState::default(), acknowledge);
        let (_, second) =
            run_replay(config, default_pair_info_map(), BotState::default(), acknowledge);
        assert_eq!(first.len(), second.len());
        assert!(first.iter().zip(second.iter()).all(|(a, b)| same(a, b)));
    }
}

#[test]
fn narrow_spread_filter_blocks_all_orders() {
    let mut config = test_config(default_pairs());
    config.trading.min_spread_bps = d("5000");
    let (_, commands) = run_replay(config, default_pair_info_map(), BotState::default(), false);
    assert!(placed_orders(&commands).is_empty());
}

#[test]
fn no_shutdown_on_book_data() {
    let (_, commands) =
        run_replay(test_config(default_pairs()), default_pair_info_map(), BotState::default(), false);
    assert!(!commands.iter().any(|c| matches!(c, EngineCommand::Shutdown { .. })));
    assert!(!commands.iter().any(|c| matches!(c, EngineCommand::CancelAll)));
}

#[test]
fn amend_references_valid_order_ids() {
    let (_, commands) =
        run_replay(test_config(default_pairs()), default_pair_info_map(), BotState::default(), true);
    let mut placed: HashSet<String> = HashSet::new();
    let mut amends = 0;
    for cmd in &commands {
        match cmd {
            EngineCommand::PlaceOrder(req) => {
                placed.insert(req.cl_ord_id.clone());
            }
            EngineCommand::AmendOrder { cl_ord_id, .. } => {
                assert!(placed.contains(cl_ord_id));
                amends += 1;
            }
            _ => {}
        }
    }
    assert!(amends > 0);
}

#[test]
fn order_qty_meets_minimums() {
    let pair_info = default_pair_info_map();
    let (_, commands) =
        run_replay(test_config(default_pairs()), default_pair_info_map(), BotState::default(), false);
    let orders = placed_orders(&commands);
    assert!(!orders.is_empty());
    for req in orders {
        let info = pair_info.get(&req.pair).unwrap();
        assert!(req.qty >= info.min_order_qty);
    }
}
