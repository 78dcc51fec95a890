use kraken_mm::collections::StrMap;
use kraken_mm::json::{strings_of, Leaf};
use kraken_mm::mock::book::OrderBook;
use kraken_mm::mock::commands::{
    book_symbols, command_of, read_book_subscription, read_command, read_fields, relays,
    should_send, Command, FeedFields,
};
use kraken_mm::mock::config::{merge_pairs, read_pair, read_pairs, PairQuery, PairStart};
use kraken_mm::mock::exchange::{
    handle_dms, handle_ping, handle_subscribe, symbol_to_kraken_asset, symbol_to_rest_key,
    with_drawn, ExchangeState, NewOrder, Placed, Quotes,
};
use kraken_mm::mock::orders::{Order, OrderStatus, OrderStore, OrderType, Side};
use kraken_mm::proxy::ProxyEvent;

fn key(x: f64) -> i64 {
    x.to_bits() as i64
}

fn exchange() -> ExchangeState {
    ExchangeState::new(&vec!["OMG/USD".to_string(), "CAMP/USD".to_string()])
}

fn order(id: &str, side: Side, order_type: OrderType, price: f64, post_only: bool) -> NewOrder {
    NewOrder {
        symbol: "OMG/USD".into(),
        side,
        order_type,
        price: key(price),
        qty: key(10.0),
        cl_ord_id: id.into(),
        post_only,
    }
}

fn quotes() -> Quotes {
    Quotes {
        best_bid: key(0.48751),
        best_ask: key(0.51249),
        rounded_bid: key(0.4875),
        rounded_ask: key(0.5125),
    }
}

fn error_of(e: &ProxyEvent) -> &str {
    match e {
        ProxyEvent::OrderRejected { error, .. } => error.as_str(),
        _ => panic!("not rejected"),
    }
}

fn reason_of(e: &ProxyEvent) -> (&str, &str, &str) {
    match e {
        ProxyEvent::OrderCancelled { cl_ord_id, reason, symbol } => {
            (cl_ord_id.as_str(), reason.as_deref().unwrap(), symbol.as_deref().unwrap())
        }
        _ => panic!("not cancelled"),
    }
}

#[test]
fn assets_and_keys() {
    assert_eq!(symbol_to_kraken_asset("OMG/USD"), "OMG");
    assert_eq!(symbol_to_kraken_asset("BTC/USD"), "XXBT");
    assert_eq!(symbol_to_kraken_asset("XBT/USD"), "XXBT");
    assert_eq!(symbol_to_kraken_asset("ETH/EUR"), "XETH");
    assert_eq!(symbol_to_kraken_asset("PLAIN"), "PLAIN");
    assert_eq!(symbol_to_rest_key("OMG/USD"), "OMGUSD");
    assert_eq!(symbol_to_rest_key("A/B/C"), "ABC");
}

#[test]
fn order_ids_count_up() {
    let mut st = exchange();
    assert_eq!(st.alloc_order_id(), "MOCK-ORD-000001");
    assert_eq!(st.alloc_order_id(), "MOCK-ORD-000002");
    st.next_order_id = 999_999;
    assert_eq!(st.alloc_order_id(), "MOCK-ORD-999999");
    assert_eq!(st.alloc_order_id(), "MOCK-ORD-1000000");
}

#[test]
fn orders_are_validated() {
    let mut st = exchange();
    let mut bad = order("a", Side::Buy, OrderType::Limit, 0.4, false);
    bad.qty = 0;
    let (placed, reply) = st.handle_add_order(bad, 7, quotes());
    assert_eq!(placed, Placed::Invalid);
    assert_eq!(error_of(&reply), "Invalid order parameters");

    let (placed, _) = st.handle_add_order(order("", Side::Buy, OrderType::Limit, 0.4, false), 7, quotes());
    assert_eq!(placed, Placed::Invalid);

    let mut unknown = order("a", Side::Buy, OrderType::Limit, 0.4, false);
    unknown.symbol = "XYZ/USD".into();
    let (placed, reply) = st.handle_add_order(unknown, 7, quotes());
    assert_eq!(placed, Placed::UnknownSymbol);
    assert_eq!(error_of(&reply), "Unknown symbol: XYZ/USD");
    assert_eq!(st.next_order_id, 1);
    assert!(st.orders.get("a").is_none());
}

#[test]
fn orders_rest_fill_or_are_cancelled() {
    let mut st = exchange();
    let (placed, reply) = st.handle_add_order(order("rest", Side::Buy, OrderType::Limit, 0.5, true), 1, quotes());
    assert_eq!(placed, Placed::Resting);
    assert!(matches!(&reply, ProxyEvent::OrderAccepted { req_id: 1, order_id, .. } if order_id == "MOCK-ORD-000001"));
    assert_eq!(st.orders.get("rest").unwrap().status, OrderStatus::New);

    let (placed, reply) = st.handle_add_order(order("cross", Side::Buy, OrderType::Limit, 0.5125, true), 2, quotes());
    assert_eq!(placed, Placed::Crossing);
    assert_eq!(reason_of(&reply), ("cross", "post_only_crossing", "OMG/USD"));
    assert!(st.orders.get("cross").is_none());

    let (placed, _) = st.handle_add_order(order("take", Side::Buy, OrderType::Limit, 0.6, false), 3, quotes());
    assert_eq!(placed, Placed::Filled(key(0.5125)));
    let taken = st.orders.get("take").unwrap();
    assert_eq!(taken.status, OrderStatus::Filled);
    assert_eq!(taken.filled_qty, taken.qty);
    assert_eq!(taken.order_id, "MOCK-ORD-000003");

    let (placed, _) = st.handle_add_order(order("m1", Side::Sell, OrderType::Market, 0.0, false), 4, quotes());
    assert_eq!(placed, Placed::Filled(key(0.48751)));
    let (placed, _) = st.handle_add_order(order("m2", Side::Buy, OrderType::Market, 0.0, false), 5, quotes());
    assert_eq!(placed, Placed::Filled(key(0.51249)));
    let (placed, _) = st.handle_add_order(order("s", Side::Sell, OrderType::Limit, 0.4875, false), 6, quotes());
    assert_eq!(placed, Placed::Filled(key(0.4875)));
    let (placed, _) = st.handle_add_order(order("s2", Side::Sell, OrderType::Limit, 0.4876, false), 6, quotes());
    assert_eq!(placed, Placed::Resting);

    let empty = Quotes { best_bid: 0, best_ask: 0, rounded_bid: 0, rounded_ask: 0 };
    let (placed, _) = st.handle_add_order(order("e", Side::Buy, OrderType::Limit, 9.0, false), 8, empty);
    assert_eq!(placed, Placed::Resting);
}

#[test]
fn orders_are_amended_and_cancelled() {
    let mut st = exchange();
    for id in ["a", "b", "c"] {
        st.handle_add_order(order(id, Side::Buy, OrderType::Limit, 0.4, false), 1, quotes());
    }
    let reply = st.handle_amend_order(5, "a", Some(key(0.41)), None);
    assert!(matches!(&reply, ProxyEvent::CommandAck { req_id: 5, cmd } if cmd == "amend_order"));
    assert_eq!(st.orders.get("a").unwrap().price, key(0.41));
    assert_eq!(st.orders.get("a").unwrap().qty, key(10.0));
    let reply = st.handle_amend_order(6, "nope", Some(1), Some(2));
    assert_eq!(error_of(&reply), "Order not found");

    let replies = st.handle_cancel_order(7, &vec!["b".into(), "zzz".into(), "b".into()]);
    assert_eq!(replies.len(), 3);
    assert_eq!(reason_of(&replies[0]), ("b", "user_requested", "OMG/USD"));
    assert_eq!(reason_of(&replies[1]), ("b", "user_requested", "OMG/USD"));
    assert!(matches!(&replies[2], ProxyEvent::CommandAck { req_id: 7, cmd } if cmd == "cancel_orders"));
    assert_eq!(st.orders.get("b").unwrap().status, OrderStatus::Canceled);

    assert_eq!(st.orders.all_open_orders().len(), 2);
    assert_eq!(st.orders.open_orders_for_symbol("CAMP/USD").len(), 0);
    let replies = st.handle_cancel_all(8);
    assert_eq!(replies.len(), 3);
    assert_eq!(reason_of(&replies[0]), ("a", "cancel_all", "OMG/USD"));
    assert_eq!(reason_of(&replies[1]), ("c", "cancel_all", "OMG/USD"));
    assert!(st.orders.all_open_orders().is_empty());
    assert_eq!(st.handle_cancel_all(9).len(), 1);
}

#[test]
fn resting_orders_are_filled() {
    let mut st = exchange();
    st.handle_add_order(order("far", Side::Buy, OrderType::Limit, 0.30, false), 1, quotes());
    st.handle_add_order(order("near", Side::Buy, OrderType::Limit, 0.49, false), 1, quotes());
    st.handle_add_order(order("there", Side::Buy, OrderType::Limit, 0.505, false), 1, quotes());
    st.handle_add_order(order("sell", Side::Sell, OrderType::Limit, 0.51, false), 1, quotes());

    let (bid, ask) = (0.48, 0.50);
    let fills = st.fillable("OMG/USD", key(bid), key(ask));
    assert_eq!(fills, vec!["there".to_string()]);
    assert!(st.fillable("CAMP/USD", key(bid), key(ask)).is_empty());
    let near = st.candidates("OMG/USD", key(bid), key(ask), key(ask * 0.95), key(bid * 1.05));
    assert_eq!(near, vec!["near".to_string()]);
    let near = st.candidates("OMG/USD", key(0.5), key(ask), key(ask * 0.95), key(0.5 * 1.05));
    assert_eq!(near, vec!["near".to_string(), "sell".to_string()]);

    assert_eq!(with_drawn(fills.clone(), &near, &vec![false, true]), vec!["there", "sell"]);
    assert_eq!(with_drawn(fills, &near, &vec![false, false]), vec!["there"]);

    let fill = st.fill_resting("there", key(bid), key(ask)).unwrap();
    assert_eq!(fill.price, key(0.50));
    assert_eq!(fill.order.filled_qty, key(10.0));
    let fill = st.fill_resting("near", key(bid), key(ask)).unwrap();
    assert_eq!(fill.price, key(0.49));
    let fill = st.fill_resting("sell", key(bid), key(ask)).unwrap();
    assert_eq!(fill.price, key(0.51));
    assert!(st.fill_resting("zzz", key(bid), key(ask)).is_none());
    assert!(st.fillable("OMG/USD", key(bid), key(ask)).is_empty());
    assert_eq!(st.orders.get("near").unwrap().status, OrderStatus::Filled);
}

#[test]
fn drawn_orders_are_filled_together() {
    let mut st = exchange();
    st.handle_add_order(order("there", Side::Buy, OrderType::Limit, 0.505, false), 1, quotes());
    st.handle_add_order(order("sell", Side::Sell, OrderType::Limit, 0.51, false), 1, quotes());
    let ids: Vec<String> = ["there", "zzz", "sell"].iter().map(|s| s.to_string()).collect();
    let fills = st.fill_all(&ids, key(0.48), key(0.50));
    assert_eq!(fills.len(), 2);
    assert_eq!((fills[0].order.cl_ord_id.as_str(), fills[0].price), ("there", key(0.50)));
    assert_eq!((fills[1].order.cl_ord_id.as_str(), fills[1].price), ("sell", key(0.51)));
    assert!(fills.iter().all(|f| f.before == 0 && f.order.filled_qty == f.order.qty));
    assert!(st.fillable("OMG/USD", key(0.48), key(0.50)).is_empty());
    assert!(st.fill_all(&vec![], key(0.48), key(0.50)).is_empty());
}

#[test]
fn order_store_basics() {
    let mut store = OrderStore::new();
    let o = Order {
        order_id: "x".into(),
        cl_ord_id: "id".into(),
        symbol: "A/B".into(),
        side: Side::Sell,
        order_type: OrderType::Limit,
        price: 1,
        qty: 2,
        filled_qty: 0,
        status: OrderStatus::PartiallyFilled,
        post_only: false,
    };
    store.insert(o.clone());
    assert_eq!(store.all_open_orders().len(), 1);
    assert_eq!(store.cancel_all(), vec!["id".to_string()]);
    assert!(store.cancel_all().is_empty());
    assert!(store.remove("id").is_some());
    assert!(store.remove("id").is_none());
    assert!(!store.replace("id", o));
    assert_eq!(Side::Buy.as_str(), "buy");
    assert_eq!(Side::Sell.as_str(), "sell");
}

/// Ten levels on each side of a mid price.
fn generated(mid: f64, spread_pct: f64) -> OrderBook {
    let half = mid * spread_pct / 200.0;
    let step = mid * 0.005;
    let mut bids = vec![];
    let mut asks = vec![];
    for i in 0..10 {
        bids.push((key((mid - half) - (i as f64) * step), key(100.0)));
        asks.push((key((mid + half) + (i as f64) * step), key(100.0)));
    }
    OrderBook::new(&bids, &asks)
}

#[test]
fn test_bids_descending_asks_ascending() {
    let book = generated(0.004, 5.0);
    let bids = book.top_bids(100);
    let asks = book.top_asks(100);
    assert!(bids.windows(2).all(|w| w[0].0 > w[1].0));
    assert!(asks.windows(2).all(|w| w[0].0 < w[1].0));
    assert_eq!(book.best_bid(), Some(bids[0].0));
    assert_eq!(book.best_ask(), Some(asks[0].0));
}

#[test]
fn test_new_book_has_levels() {
    let book = generated(0.50, 5.0);
    assert_eq!(book.bid_depth(), 10);
    assert_eq!(book.ask_depth(), 10);
}

#[test]
fn test_best_bid_below_best_ask() {
    let book = generated(0.004, 5.0);
    assert!(book.best_bid().unwrap() < book.best_ask().unwrap());
}

#[test]
fn books_store_levels_by_price() {
    let book = OrderBook::new(
        &vec![(5, 1), (-3, 1), (7, 2), (5, 9), (0, 4)],
        &vec![(8, 1), (8, 2), (-1, 3)],
    );
    assert_eq!(book.top_bids(10), vec![(7, 2), (5, 9)]);
    assert_eq!(book.top_asks(10), vec![(-1, 3), (8, 2)]);
    assert_eq!(book.top_bids(1), vec![(7, 2)]);
    assert_eq!(book.top_asks(0), vec![]);
    let empty = OrderBook::new(&vec![], &vec![]);
    assert_eq!(empty.best_bid(), None);
    assert_eq!(empty.best_ask(), None);
}

#[test]
fn commands_in_the_newer_format() {
    let raw = r#"{"cmd":"place_order","req_id":4,"symbol":"OMG/USD","side":"sell","order_type":"limit",
        "price":0.51,"qty":20,"cl_ord_id":"ask-1","post_only":true}"#;
    match read_command(raw).unwrap() {
        Command::Place { req_id, symbol, side, order_type, price, qty, cl_ord_id, post_only } => {
            assert_eq!(req_id, 4);
            assert_eq!(symbol, "OMG/USD");
            assert_eq!(side, Side::Sell);
            assert_eq!(order_type, OrderType::Limit);
            assert_eq!(price.as_deref(), Some("0.51"));
            assert_eq!(qty.as_deref(), Some("20"));
            assert_eq!(cl_ord_id, "ask-1");
            assert!(post_only);
        }
        other => panic!("{:?}", other),
    }
    let raw = r#"{"cmd":"cancel_orders","req_id":9,"cl_ord_ids":["a",7,"b"]}"#;
    assert!(matches!(read_command(raw), Some(Command::Cancel { req_id: 9, cl_ord_ids }) if cl_ord_ids == ["a", "b"]));
    let raw = r#"{"cmd":"place_order","market":true,"symbol":"A/B","cl_ord_id":"x","qty":1}"#;
    assert!(matches!(
        read_command(raw),
        Some(Command::Place { order_type: OrderType::Market, side: Side::Buy, price: None, req_id: 0, .. })
    ));
    assert!(matches!(read_command(r#"{"cmd":"set_dms","req_id":3,"timeout_secs":60}"#), Some(Command::SetDms { req_id: 3 })));
    assert!(matches!(read_command(r#"{"cmd":"cancel_all","req_id":3}"#), Some(Command::CancelAll { req_id: 3 })));
    assert!(matches!(read_command(r#"{"cmd":"ping","req_id":-3}"#), Some(Command::Ping { req_id: 0 })));
}

#[test]
fn commands_in_the_older_format() {
    let raw = r#"{"method":"add_order","params":{"symbol":"OMG/USD","side":"buy","order_type":"limit",
        "limit_price":0.4,"order_qty":15.5,"cl_ord_id":"b"},"req_id":2}"#;
    match read_command(raw).unwrap() {
        Command::Place { price, qty, post_only, side, .. } => {
            assert_eq!(price.as_deref(), Some("0.4"));
            assert_eq!(qty.as_deref(), Some("15.5"));
            assert!(!post_only);
            assert_eq!(side, Side::Buy);
        }
        other => panic!("{:?}", other),
    }
    let raw = r#"{"method":"amend_order","params":{"cl_ord_id":"b","limit_price":0.41},"req_id":2}"#;
    assert!(matches!(
        read_command(raw),
        Some(Command::Amend { req_id: 2, cl_ord_id, price: Some(p), qty: None }) if cl_ord_id == "b" && p == "0.41"
    ));
    let raw = r#"{"method":"cancel_order","params":{"cl_ord_id":["x"]}}"#;
    assert!(matches!(read_command(raw), Some(Command::Cancel { cl_ord_ids, .. }) if cl_ord_ids == ["x"]));
    let raw = r#"{"method":"subscribe","params":{"channel":"executions"}}"#;
    assert!(matches!(read_command(raw), Some(Command::Subscribe { channel }) if channel == "executions"));
    assert!(matches!(
        read_command(r#"{"method":"cancel_all_orders_after","req_id":1}"#),
        Some(Command::SetDms { req_id: 1 })
    ));
}

#[test]
fn other_messages_are_no_commands() {
    assert!(read_command("nonsense").is_none());
    assert!(read_command(r#"{"req_id":1}"#).is_none());
    assert!(read_command(r#"{"cmd":"dance"}"#).is_none());
    // A `cmd` that is no string is not passed over for `method`.
    assert!(read_command(r#"{"cmd":5,"method":"ping"}"#).is_none());
    let mut fields = read_fields("nonsense");
    assert!(fields.action.is_none());
    fields.action = Some(Leaf::Text("ping".into()));
    fields.req_id = Some(Leaf::Number { whole: Some(8), text: "8".into() });
    assert!(matches!(command_of(fields), Some(Command::Ping { req_id: 8 })));
}

#[test]
fn json_strings_are_picked() {
    let v = vec![Some(Leaf::Text("a".into())), None, Some(Leaf::Flag(true)), Some(Leaf::Text("b".into()))];
    assert_eq!(strings_of(v), vec!["a", "b"]);
}

#[test]
fn book_subscriptions() {
    let raw = r#"{"method":"subscribe","params":{"channel":"book","symbol":["OMG/USD","CAMP/USD"]}}"#;
    assert_eq!(read_book_subscription(raw).unwrap(), vec!["OMG/USD", "CAMP/USD"]);
    let raw = r#"{"method":"subscribe","params":{"channel":"book"}}"#;
    assert!(read_book_subscription(raw).unwrap().is_empty());
    let raw = r#"{"method":"subscribe","params":{"channel":"executions"}}"#;
    assert!(read_book_subscription(raw).is_none());
    assert!(book_symbols(Some(Leaf::Text("subscribe".into())), Some(Leaf::Null), None).is_none());

    let subscribed = vec!["OMG/USD".to_string()];
    assert!(relays(r#"{"event":"heartbeat"}"#, &subscribed));
    assert!(relays(r#"{"channel":"heartbeat"}"#, &subscribed));
    assert!(relays(r#"{"event":"book_snapshot","symbol":"OMG/USD","bids":[]}"#, &subscribed));
    assert!(relays(r#"{"channel":"book","data":[{"symbol":"OMG/USD"}]}"#, &subscribed));
    assert!(!relays(r#"{"event":"book_snapshot","symbol":"CAMP/USD"}"#, &subscribed));
    assert!(!relays("heartbeat", &vec!["".to_string()]));
    // A heartbeat in either field is one, and only a list has a first item.
    assert!(relays(r#"{"event":"status","channel":"heartbeat"}"#, &subscribed));
    assert!(relays(r#"{"event":"heartbeat","channel":"book"}"#, &subscribed));
    assert!(!relays(r#"{"channel":"book","data":{"0":{"symbol":"OMG/USD"}}}"#, &subscribed));
    // There is one symbol: that of the first item goes first, and the empty one stands for none.
    assert!(relays(r#"{"symbol":"X","data":[{"symbol":"OMG/USD"}]}"#, &subscribed));
    assert!(!relays(r#"{"symbol":"OMG/USD","data":[{"symbol":"X"}]}"#, &subscribed));
    assert!(relays(r#"{"symbol":7,"data":[{"symbol":"OMG/USD"}]}"#, &subscribed));
    let empty = vec!["".to_string()];
    assert!(!relays(r#"{"channel":"book","data":[{"symbol":"OMG/USD"}]}"#, &empty));
    assert!(!relays(r#"{"event":"book_snapshot","symbol":"OMG/USD"}"#, &empty));
    assert!(relays(r#"{"channel":"book","data":[]}"#, &empty));
    assert!(relays(r#"{"channel":"book","data":[{"symbol":""}]}"#, &empty));
    let text = |s: &str| Some(Leaf::Text(s.into()));
    let book = |symbol| FeedFields {
        event: text("book_snapshot"),
        channel: None,
        symbol,
        data: None,
        first_symbol: text("OMG/USD"),
    };
    assert!(should_send(book(text("OMG/USD")), &subscribed));
    assert!(!should_send(book(None), &subscribed));
}

#[test]
fn simple_replies() {
    assert!(matches!(handle_subscribe("book"), Some(ProxyEvent::Subscribed { channel }) if channel == "book"));
    assert!(handle_subscribe("executions").is_some());
    assert!(handle_subscribe("trades").is_none());
    assert!(matches!(handle_dms(4), ProxyEvent::CommandAck { req_id: 4, cmd } if cmd == "set_dms"));
    assert!(matches!(handle_ping(5), ProxyEvent::Pong { req_id: 5 }));
}

#[test]
fn pair_settings() {
    let pairs = read_pairs("OMG/USD:0.50, CAMP/USD : 0.004 ,bad,a:b:c,\u{a0}SUP/USD:0.007");
    let got: Vec<(String, String)> = pairs.into_iter().map(|p| (p.symbol, p.price)).collect();
    assert_eq!(
        got,
        vec![
            ("OMG/USD".to_string(), "0.50".to_string()),
            ("CAMP/USD".to_string(), "0.004".to_string()),
            ("SUP/USD".to_string(), "0.007".to_string()),
        ]
    );
    assert!(read_pair("").is_none());

    let start = |s: &str, p: f64| PairStart { symbol: s.into(), price: key(p) };
    let merged = merge_pairs(vec![start("A", 1.0), start("B", 2.0)], &vec![start("B", 3.0), start("C", 4.0)]);
    let got: Vec<(&str, i64)> = merged.iter().map(|p| (p.symbol.as_str(), p.price)).collect();
    assert_eq!(got, vec![("A", key(1.0)), ("B", key(3.0)), ("C", key(4.0))]);
}

#[test]
fn ticker_queries() {
    let q = PairQuery { pair: Some("OMGUSD, CAMPUSD".into()) };
    assert!(q.wants("OMG/USD"));
    assert!(q.wants("CAMP/USD"));
    assert!(!q.wants("SUP/USD"));
    assert!(PairQuery { pair: None }.wants("SUP/USD"));
    assert!(!PairQuery { pair: Some("".into()) }.wants("SUP/USD"));
}

#[test]
fn maps_keep_their_order() {
    let mut m: StrMap<u32> = StrMap::new();
    m.insert("b".into(), 1);
    m.insert("a".into(), 2);
    m.insert("b".into(), 3);
    assert_eq!(m.keys(), vec!["b", "a"]);
    assert_eq!(m.get("b"), Some(&3));
    assert_eq!(m.remove("b"), Some(3));
    assert_eq!(m.get("b"), None);
    assert_eq!(m.len(), 1);
}
