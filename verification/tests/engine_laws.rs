use kraken_mm::book::OrderBook;
use kraken_mm::collections::{StrMap, StrSet};
use kraken_mm::config::Config;
use kraken_mm::decimal::Decimal;
use kraken_mm::edge::EdgeTracker;
use kraken_mm::engine::{take_until_shutdown, Engine};
use kraken_mm::events::{ApiAction, EngineCommand, EngineEvent, StateStoreAction};
use kraken_mm::inventory::inventory_skew;
use kraken_mm::order_tracking::{
    OrderRegistry, OrderStatus, PositionTracker, ProxyPosition, TrackedOrder,
};
use kraken_mm::pairs::{GlobalDefaults, ManagedPair};
use kraken_mm::pnl::PnlTrade;
use kraken_mm::position::Position;
use kraken_mm::risk::{RateLimiter, RateStatus};
use kraken_mm::state::BotState;
use kraken_mm::time::Timestamp;
use kraken_mm::types::{Fill, LevelUpdate, OrderRequest, OrderSide, PairInfo};

fn d(s: &str) -> Decimal {
    Decimal::parse(s).unwrap()
}

fn at(secs: i64) -> Timestamp {
    Timestamp::new(1_767_225_600 + secs, 0).unwrap()
}

const PAIR: &str = "TEST/USD";

fn infos() -> StrMap<PairInfo> {
    let mut m = StrMap::new();
    m.insert(
        PAIR.into(),
        PairInfo {
            pair: PAIR.into(),
            rest_key: "TESTUSD".into(),
            exchange_base_asset: "TEST".into(),
            price_decimals: 5,
            qty_decimals: 4,
            min_order_qty: d("1"),
            min_cost: d("0.5"),
            maker_fee_pct: d("0.0023"),
        },
    );
    m
}

fn engine(held: Option<(&str, &str)>) -> Engine {
    let mut state = BotState::default();
    if let Some((qty, cost)) = held {
        state.positions.insert(PAIR.into(), Position { qty: d(qty), avg_cost: d(cost) });
    }
    Engine::new(Config::default(), infos(), state)
}

fn book(bid: &str, ask: &str, secs: i64) -> EngineEvent {
    EngineEvent::BookSnapshot {
        pair: PAIR.into(),
        bids: vec![LevelUpdate { price: d(bid), qty: d("1000") }],
        asks: vec![LevelUpdate { price: d(ask), qty: d("1000") }],
        timestamp: at(secs),
    }
}

fn fill(side: OrderSide, id: &str, price: &str, qty: &str, secs: i64) -> EngineEvent {
    EngineEvent::Fill(Fill {
        order_id: "o".into(),
        cl_ord_id: id.into(),
        pair: PAIR.into(),
        side,
        price: d(price),
        qty: d(qty),
        fee: d("0"),
        is_maker: true,
        is_fully_filled: true,
        timestamp: at(secs),
    })
}

fn orders(cmds: &[EngineCommand]) -> Vec<&OrderRequest> {
    cmds.iter()
        .filter_map(|c| match c {
            EngineCommand::PlaceOrder(o) => Some(o),
            _ => None,
        })
        .collect()
}

fn tick(e: &mut Engine, secs: i64) -> Vec<EngineCommand> {
    e.handle_event(EngineEvent::Tick { timestamp: at(secs) }).unwrap()
}

fn api(e: &mut Engine, action: ApiAction) -> Vec<EngineCommand> {
    e.handle_event(EngineEvent::ApiCommand(action)).unwrap()
}

#[test]
fn quotes_are_inside_the_book_and_above_cost() {
    let mut e = engine(Some(("500", "0.11")));
    let cmds = e.handle_event(book("0.10", "0.12", 0)).unwrap();
    let placed = orders(&cmds);
    assert_eq!(placed.len(), 2);
    assert_eq!(placed[0].cl_ord_id, "bid-1");
    assert_eq!(placed[1].cl_ord_id, "ask-2");
    assert!(placed[0].price < d("0.12"));
    assert!(placed[1].price > d("0.10"));
    // The floor is 0.11 * 1.01.
    assert!(placed[1].price >= d("0.1111"));
    assert!(placed.iter().all(|o| o.post_only && !o.market && !o.urgent));

    let mut dear = engine(Some(("500", "0.20")));
    let cmds = dear.handle_event(book("0.10", "0.12", 0)).unwrap();
    assert_eq!(orders(&cmds)[1].price, d("0.202"));
}

#[test]
fn cost_floors_are_rounded_up() {
    // 0.20333 * 1.01 = 0.2053633, and prices have five decimals.
    let mut e = engine(Some(("500", "0.20333")));
    let cmds = e.handle_event(book("0.10", "0.12", 0)).unwrap();
    let ask = orders(&cmds).into_iter().find(|o| o.side == OrderSide::Sell).unwrap();
    assert_eq!(ask.price, d("0.20537"));
    assert!(ask.price >= d("0.2053633"));

    assert_eq!(d("1.231").round_up(2), d("1.24"));
    assert_eq!(d("1.239").round_up(2), d("1.24"));
    assert_eq!(d("1.230").round_up(2), d("1.23"));
    assert_eq!(d("-1.239").round_up(2), d("-1.23"));
    assert_eq!(d("-0.001").round_up(2), d("0"));
    assert_eq!(d("0.001").round_up(2), d("0.01"));
    assert_eq!(d("1.5").round_up(28), d("1.5"));
    assert_eq!(d("79228162514264337593543950.335").round_up(2), d("79228162514264337593543950.34"));
}

#[test]
fn sells_are_backed_on_every_event() {
    // Bought in odd amounts: what is offered after the fill is no more than is held.
    let mut e = engine(None);
    e.handle_event(book("0.10", "0.12", 0)).unwrap();
    let cmds = e.handle_event(fill(OrderSide::Buy, "bid-1", "0.10", "123.456789", 1)).unwrap();
    let held = e.state.position(PAIR).qty;
    for o in orders(&cmds) {
        if o.side == OrderSide::Sell {
            assert!(o.qty <= held && held > d("0"));
        }
    }
    assert!(orders(&cmds).iter().any(|o| o.side == OrderSide::Sell && o.qty == d("123.4567")));

    // The same of a liquidation.
    let mut e = engine(Some(("10.00009", "0.10")));
    e.handle_event(book("0.05", "0.051", 0)).unwrap();
    api(&mut e, ApiAction::Liquidate { pair: PAIR.into() });
    let cmds = tick(&mut e, 10);
    let placed = orders(&cmds);
    assert_eq!(placed.len(), 1);
    assert_eq!((placed[0].side, placed[0].qty), (OrderSide::Sell, d("10")));
}

#[test]
fn sell_only_pairs_stay_unbought_until_resumed() {
    let mut e = engine(Some(("500", "0.10")));
    api(&mut e, ApiAction::Pause);
    let mut cmds = e.handle_event(book("0.10", "0.12", 0)).unwrap();
    cmds.extend(e.handle_event(fill(OrderSide::Sell, "ask-1", "0.12", "100", 1)).unwrap());
    cmds.extend(tick(&mut e, 10));
    assert!(orders(&cmds).iter().all(|o| o.side == OrderSide::Sell));
    api(&mut e, ApiAction::CancelAll);
    api(&mut e, ApiAction::Resume);
    let cmds = e.handle_event(book("0.10", "0.12", 20)).unwrap();
    assert!(orders(&cmds).iter().any(|o| o.side == OrderSide::Buy));
}

#[test]
fn nothing_is_quoted_after_the_kill_switch() {
    let mut e = engine(Some(("5000", "0.20")));
    let cmds = e.handle_event(fill(OrderSide::Sell, "x", "0.10", "2000", 0)).unwrap();
    assert!(cmds.iter().any(|c| matches!(c, EngineCommand::Shutdown { .. })));
    assert!(orders(&cmds).is_empty());
    assert!(orders(&e.handle_event(book("0.10", "0.12", 1)).unwrap()).is_empty());
    let cmds = e.handle_event(fill(OrderSide::Buy, "y", "0.10", "1", 2)).unwrap();
    assert!(orders(&cmds).is_empty());
}

#[test]
fn order_numbers_go_up() {
    let mut e = engine(Some(("500", "0.11")));
    let mut seen: Vec<String> = vec![];
    for k in 0..5i64 {
        let cmds = e.handle_event(book("0.10", "0.12", k)).unwrap();
        for o in orders(&cmds) {
            assert!(!seen.contains(&o.cl_ord_id));
            seen.push(o.cl_ord_id.clone());
        }
        api(&mut e, ApiAction::CancelAll);
    }
    assert_eq!(seen.len(), 10);
    assert_eq!(seen[9], "ask-10");
}

#[test]
fn liquidation_sells_once_and_cools_down() {
    let mut e = engine(Some(("100.12345678", "0.10")));
    e.handle_event(book("0.095", "0.097", 0)).unwrap();
    let cmds = api(&mut e, ApiAction::Liquidate { pair: PAIR.into() });
    assert!(orders(&cmds).is_empty());
    assert!(api(&mut e, ApiAction::Liquidate { pair: PAIR.into() }).is_empty());
    let cmds = tick(&mut e, 1);
    let sell = orders(&cmds)[0];
    assert_eq!(sell.qty, d("100.1234"));
    assert!(sell.market && sell.urgent && !sell.post_only && sell.cl_ord_id.starts_with("liq-"));
    let id = sell.cl_ord_id.clone();
    assert!(orders(&tick(&mut e, 2)).is_empty());

    e.handle_event(fill(OrderSide::Sell, &id, "0.095", "100.12345678", 3)).unwrap();
    assert!(!e.pending_liquidation.contains_key(PAIR));
    assert_eq!(e.state.cooldown_until.get(PAIR), Some(&at(3 + 3600)));
    assert!(orders(&e.handle_event(book("0.10", "0.12", 10)).unwrap()).is_empty());
    tick(&mut e, 3602);
    assert!(orders(&e.handle_event(book("0.10", "0.12", 3602)).unwrap()).is_empty());
    tick(&mut e, 3603);
    assert!(!orders(&e.handle_event(book("0.10", "0.12", 3603)).unwrap()).is_empty());
}

#[test]
fn liquidation_is_given_up_after_three_rejections() {
    let mut e = engine(Some(("100", "0.10")));
    e.handle_event(book("0.099", "0.101", 0)).unwrap();
    api(&mut e, ApiAction::Liquidate { pair: PAIR.into() });
    for k in 0..3i64 {
        let cmds = tick(&mut e, 1 + k);
        let id = orders(&cmds)[0].cl_ord_id.clone();
        let reject = EngineEvent::OrderRejected { cl_ord_id: id, pair: "".into(), reason: "EOrder".into() };
        assert!(e.handle_event(reject).unwrap().is_empty());
    }
    assert!(orders(&tick(&mut e, 5)).is_empty());
    assert!(!e.pending_liquidation.contains_key(PAIR));
    assert!(e.disabled_pairs.contains_key(PAIR));
}

#[test]
fn restricted_pairs_are_disabled() {
    let mut e = engine(None);
    let cmds = e.handle_event(book("0.10", "0.12", 0)).unwrap();
    let id = orders(&cmds)[0].cl_ord_id.clone();
    let reject = EngineEvent::OrderRejected {
        cl_ord_id: id,
        pair: PAIR.into(),
        reason: "EOrder:Invalid permissions:TEST trading restricted".into(),
    };
    let cmds = e.handle_event(reject).unwrap();
    assert!(matches!(&cmds[0], EngineCommand::CancelOrders(ids) if ids.len() == 1));
    assert!(e.disabled_pairs.contains_key(PAIR));
    assert!(e.handle_event(book("0.10", "0.12", 9)).unwrap().is_empty());
}

#[test]
fn removed_pairs_are_liquidated_or_cancelled() {
    let mut held = engine(Some(("100", "0.10")));
    api(&mut held, ApiAction::RemovePair { pair: PAIR.into() });
    assert!(held.pending_liquidation.contains_key(PAIR));
    assert!(held.state.disabled_pairs.contains_key(PAIR));

    let mut empty = engine(None);
    assert_eq!(orders(&empty.handle_event(book("0.10", "0.12", 0)).unwrap()).len(), 1);
    let cmds = api(&mut empty, ApiAction::RemovePair { pair: PAIR.into() });
    assert!(matches!(&cmds[0], EngineCommand::CancelOrders(ids) if ids == &["bid-1"]));
    assert!(empty.state.open_orders.is_empty());
    assert!(empty.handle_event(book("0.10", "0.12", 9)).unwrap().is_empty());
    api(&mut empty, ApiAction::EnablePair { pair: PAIR.into() });
    assert_eq!(orders(&empty.handle_event(book("0.10", "0.12", 9)).unwrap()).len(), 1);

    let mut gone = engine(None);
    let removed = StateStoreAction::PairRemoved { pair: PAIR.into() };
    gone.handle_event(EngineEvent::StateStoreCommand(removed)).unwrap();
    assert!(gone.handle_event(book("0.10", "0.12", 0)).unwrap().is_empty());
}

#[test]
fn balances_correct_the_holdings() {
    let mut e = engine(Some(("100", "0.10")));
    let mut balances = StrMap::new();
    balances.insert("TEST".into(), d("120"));
    balances.insert("OTHER".into(), d("7"));
    assert!(e.handle_event(EngineEvent::BalanceUpdate { balances }).unwrap().is_empty());
    assert_eq!(e.state.position(PAIR).qty, d("120"));
    assert_eq!(e.state.position(PAIR).avg_cost, d("0.10"));
    assert!(!e.state.positions.contains_key("OTHER"));
    let mut none = StrMap::new();
    none.insert("TEST".into(), d("0"));
    e.handle_event(EngineEvent::BalanceUpdate { balances: none }).unwrap();
    assert!(e.state.position(PAIR).is_empty());
    assert!(!e.state.positions.contains_key(PAIR));
}

#[test]
fn holdings_are_restored_with_their_cost() {
    let zero = d("0");
    let mut kept = StrMap::new();
    kept.insert(PAIR.into(), ProxyPosition { qty: d("7"), avg_cost: d("0.3"), realized_pnl: zero });
    kept.insert("A/USD".into(), ProxyPosition { qty: zero, avg_cost: zero, realized_pnl: d("1") });
    let mut e = engine(None);
    e.restore_positions_from_proxy(&kept);
    assert_eq!(e.state.position(PAIR).qty, d("7"));
    assert_eq!(e.state.position(PAIR).avg_cost, d("0.3"));
    assert!(e.state.positions.get("A/USD").is_none());

    let mut balances = StrMap::new();
    balances.insert("TEST".into(), d("5"));
    let mut e = engine(None);
    e.restore_balances(&balances);
    assert_eq!(e.state.position(PAIR).qty, d("5"));
    assert_eq!(e.state.position(PAIR).avg_cost, zero);
}

#[test]
fn sell_only_pairs_and_new_pairs() {
    let mut e = engine(Some(("500", "0.01")));
    let mut only: StrSet = StrMap::new();
    only.insert(PAIR.into(), ());
    e.set_sell_only(only);
    let cmds = e.handle_event(book("0.10", "0.12", 0)).unwrap();
    let placed = orders(&cmds);
    assert!(!placed.is_empty() && placed.iter().all(|o| o.side == OrderSide::Sell));

    let mut fresh = Engine::new(Config::default(), StrMap::new(), BotState::default());
    assert!(fresh.handle_event(book("0.10", "0.12", 0)).unwrap().is_empty());
    fresh.handle_event(EngineEvent::PairInfoFetched { info: infos() }).unwrap();
    assert_eq!(orders(&fresh.handle_event(book("0.10", "0.12", 1)).unwrap()).len(), 1);
}

#[test]
fn stale_orders_are_cancelled_and_the_switch_refreshed() {
    let mut e = engine(None);
    e.handle_event(book("0.10", "0.12", 0)).unwrap();
    let cmds = tick(&mut e, 1);
    assert!(matches!(&cmds[..], [EngineCommand::RefreshDms]));
    assert!(tick(&mut e, 20).is_empty());
    assert!(matches!(&tick(&mut e, 21)[..], [EngineCommand::RefreshDms]));
    let cmds = tick(&mut e, 301);
    assert!(matches!(&cmds[0], EngineCommand::CancelOrders(ids) if ids == &["bid-1"]));
    assert!(e.state.open_orders.is_empty());
}

#[test]
fn nothing_is_carried_out_after_a_shutdown() {
    let (kept, stop) = take_until_shutdown(vec![
        EngineCommand::CancelAll,
        EngineCommand::Shutdown { reason: "r".into() },
        EngineCommand::RefreshDms,
    ]);
    assert!(stop);
    assert_eq!(kept.len(), 2);
    let (kept, stop) = take_until_shutdown(vec![EngineCommand::RefreshDms]);
    assert!(!stop);
    assert_eq!(kept.len(), 1);
}

#[test]
fn skew_stays_between_its_bounds() {
    let mut state = BotState::default();
    for qty in ["0", "1", "2", "5", "1000"] {
        state.positions.insert(PAIR.into(), Position { qty: d(qty), avg_cost: d("1") });
        let s = inventory_skew(&state, PAIR, d("100"), d("200")).unwrap();
        assert!(s >= d("-1") && s <= d("1"));
    }
    assert_eq!(inventory_skew(&state, PAIR, d("100"), d("0")).unwrap(), d("1"));
}

#[test]
fn rate_status_rises() {
    let mut l = RateLimiter::new(&Config::default().risk);
    let mut last = 0;
    for c in ["0", "10", "44.99", "45", "56.9", "57", "60"] {
        l.update(d(c));
        let rank = match l.status() {
            RateStatus::Okay => 0,
            RateStatus::Warn => 1,
            RateStatus::Block => 2,
        };
        assert!(rank >= last);
        last = rank;
    }
    assert_eq!(last, 2);
}

#[test]
fn books_are_kept_sorted() {
    let mut b = OrderBook::new();
    b.update_bid(d("1"), d("5"));
    b.update_bid(d("3"), d("5"));
    b.update_bid(d("2"), d("5"));
    b.update_ask(d("5"), d("1"));
    b.update_ask(d("4"), d("1"));
    assert_eq!(b.best_bid().unwrap().price, d("3"));
    assert_eq!(b.best_ask().unwrap().price, d("4"));
    assert_eq!(b.mid_price().unwrap().unwrap(), d("3.5"));
    b.update_bid(d("3.0"), d("0"));
    assert_eq!(b.best_bid().unwrap().price, d("2"));
    assert_eq!((b.bid_depth(), b.ask_depth()), (2, 2));
    assert!(!b.is_empty());
}

#[test]
fn registries_follow_orders() {
    let order = |id: &str| TrackedOrder {
        cl_ord_id: id.into(),
        exchange_id: format!("ex-{}", id),
        pair: PAIR.into(),
        side: "buy".into(),
        price: d("1"),
        original_qty: d("10"),
        filled_qty: d("0"),
        status: OrderStatus::Open,
    };
    let mut r = OrderRegistry::new();
    r.insert(order("a"));
    r.insert(order("b"));
    r.update_price_qty("a", Some(d("2")), None);
    assert_eq!(r.get("a").unwrap().price, d("2"));
    assert_eq!(r.get("a").unwrap().original_qty, d("10"));
    assert_eq!(r.all_orders().len(), 2);
    r.cancel_all();
    assert!(r.all_orders().is_empty());
    assert!(r.get("a").is_none());
    assert_eq!(r.cl_ord_id_for_exchange_id("ex-a"), None);
    assert_eq!(r.len(), 0);
    assert!(r.is_empty());

    let mut p = PositionTracker::new();
    p.seed_from_balance(PAIR, d("5"));
    p.seed_from_balance(PAIR, d("9"));
    assert_eq!(p.get(PAIR).unwrap().qty, d("5"));
    p.apply_fill(PAIR, "sell", d("50"), d("1")).unwrap();
    assert!(p.all_positions().get(PAIR).unwrap().qty >= d("0"));
}

#[test]
fn edges_over_several_windows() {
    let mut t = EdgeTracker::new();
    let trade = |hours: i64, pnl: &str| PnlTrade {
        timestamp: at(hours * 3600),
        pair: PAIR.into(),
        side: "sell".into(),
        price: d("2"),
        qty: d("10"),
        fee: d("0.1"),
        pnl: d(pnl),
    };
    t.record_trade(&trade(0, "1"), at(0)).unwrap();
    t.record_trade(&trade(20, "2"), at(20 * 3600)).unwrap();
    let e = t.pair_edge_multi_window(PAIR, &vec![1, 24], at(20 * 3600)).unwrap();
    assert_eq!(e[0].1.trade_count, 1);
    assert_eq!(e[0].1.edge, d("0.1"));
    assert_eq!(e[1].1.trade_count, 2);
    assert_eq!(e[1].1.realized_pnl, d("3"));
    t.record_trade(&trade(60, "0"), at(60 * 3600)).unwrap();
    assert_eq!(t.trades.len(), 2);
    assert_eq!(t.last_trade_time(PAIR), Some(at(60 * 3600)));
}

#[test]
fn pair_settings_resolve() {
    let defaults = GlobalDefaults::default();
    let mut p = ManagedPair::new(PAIR.into(), None);
    assert_eq!(p.resolved_order_size(&defaults), d("100"));
    p.config.order_size_usd = Some(d("7"));
    p.config.max_inventory_usd = Some(d("8"));
    assert_eq!(p.resolved_order_size(&defaults), d("7"));
    assert_eq!(p.resolved_max_inventory(&defaults), d("8"));
}
