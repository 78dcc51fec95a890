use base64::engine::general_purpose::STANDARD;
use base64::Engine;
use kraken_mm::auth::{sign_request, sign_with, SignError};
use kraken_mm::decimal::Decimal;
use kraken_mm::json::{inject_token, rewritten_or};
use kraken_mm::messages::{
    millis_nonce, nonced_body, DeadManSwitch, OrderManager, RequestCounter, SubscribeExecMsg,
};
use kraken_mm::net::{
    bears, build_ws_url, next_backoff, pairs_url, post_data, proxy_ws_url, relay_url,
    token_is_fresh, trades_url,
};
use kraken_mm::proxy::{OrderPriority, ProxyCommand};
use kraken_mm::types::{OrderRequest, OrderSide};

#[test]
fn test_build_ws_url_http() {
    let url = build_ws_url("http://localhost:3040", "secret123");
    assert_eq!(url, "ws://localhost:3040/ws?token=secret123");
}

#[test]
fn test_build_ws_url_https() {
    let url = build_ws_url("https://example.com:3040", "tok");
    assert_eq!(url, "wss://example.com:3040/ws?token=tok");
}

#[test]
fn test_build_ws_url_already_ws() {
    let url = build_ws_url("ws://localhost:3040", "abc");
    assert_eq!(url, "ws://localhost:3040/ws?token=abc");
}

#[test]
fn test_build_ws_url_trailing_slash() {
    let url = build_ws_url("http://localhost:3040/", "t");
    assert_eq!(url, "ws://localhost:3040/ws?token=t");
}

#[test]
fn test_build_ws_url_bare_host() {
    let url = build_ws_url("localhost:3040", "t");
    assert_eq!(url, "ws://localhost:3040/ws?token=t");
}

#[test]
fn test_sign_produces_base64() {
    let secret = STANDARD.encode(b"test-secret-key-bytes-here-32bb");
    let result = sign_request(
        "/0/private/GetWebSocketsToken",
        "1234567890",
        "nonce=1234567890",
        &secret,
    );
    assert!(result.is_ok());
    let sig = result.unwrap();
    assert_eq!(STANDARD.decode(&sig).unwrap().len(), 64);
}

#[test]
fn signatures_are_exact() {
    let want = "2BDPglGFO0e5eSHKD9BmONEPlUD/VfwslyYja6kUmOFsFZ4kCHRU02ygz0GjsdK1a2jMsG42Va9BP2CwcjabBA==";
    let path = "/0/private/GetWebSocketsToken";
    let key = b"test-secret-key-bytes-here-32bb".to_vec();
    assert_eq!(sign_with(path, "1234567890", "nonce=1234567890", &key), want);
    let encoded = STANDARD.encode(&key);
    assert_eq!(sign_request(path, "1234567890", "nonce=1234567890", &encoded).unwrap(), want);
    assert_ne!(sign_request(path, "1234567891", "nonce=1234567891", &encoded).unwrap(), want);
}

#[test]
fn bad_secrets_are_refused() {
    assert_eq!(sign_request("/p", "1", "nonce=1", "not base64!"), Err(SignError::BadSecret));
    assert!(sign_request("/p", "1", "nonce=1", "").is_ok());
}

#[test]
fn ws_urls_keep_inner_parts() {
    assert_eq!(build_ws_url("wss://h///", ""), "wss://h/ws?token=");
    assert_eq!(build_ws_url("https://a/http://b", "t"), "wss://a/http://b/ws?token=t");
    assert_eq!(build_ws_url("", "t"), "ws:/ws?token=t");
}

#[test]
fn proxy_urls() {
    assert_eq!(proxy_ws_url("http://localhost:3053/", "/ws/private"), "ws://localhost:3053/ws/private");
    assert_eq!(proxy_ws_url("https://p.example", "/ws/public"), "wss://p.example/ws/public");
    assert_eq!(proxy_ws_url("p.example", "/ws/public"), "p.example/ws/public");
}

#[test]
fn dashboard_urls() {
    assert_eq!(relay_url("http://localhost:3040", ""), "ws://localhost:3040/ws");
    assert_eq!(relay_url("https://h", "tok"), "wss://h/ws?token=tok");
    assert_eq!(relay_url("http://a?x=http://b", ""), "ws://a?x=ws://b/ws");
    assert_eq!(pairs_url("http://s", None), "http://s/pairs");
    assert_eq!(pairs_url("http://s", Some("active")), "http://s/pairs?state=active");
    assert_eq!(trades_url("http://s", None), "http://s/trades?limit=100");
    assert_eq!(trades_url("http://s", Some(7)), "http://s/trades?limit=7");
}

#[test]
fn request_bodies() {
    assert_eq!(post_data("17", ""), "nonce=17");
    assert_eq!(post_data("17", "ofs=50"), "nonce=17&ofs=50");
    assert_eq!(millis_nonce(1_616_492_376_594), "1616492376594");
    assert_eq!(nonced_body(0, ""), "nonce=0");
    assert_eq!(nonced_body(12, "a=b"), "nonce=12&a=b");
}

#[test]
fn bearer_tokens() {
    assert!(bears("Bearer abc", "abc"));
    assert!(!bears("Bearer abc ", "abc"));
    assert!(!bears("bearer abc", "abc"));
    assert!(!bears("", ""));
    assert!(bears("Bearer ", ""));
}

#[test]
fn backoff_doubles_up_to_its_maximum() {
    let mut waits = vec![1u64];
    for _ in 0..6 {
        waits.push(next_backoff(*waits.last().unwrap(), 30));
    }
    assert_eq!(waits, vec![1, 2, 4, 8, 16, 30, 30]);
    assert_eq!(next_backoff(u64::MAX, 30), 30);
    assert_eq!(next_backoff(u64::MAX, u64::MAX), u64::MAX);
    assert_eq!(next_backoff(3, 6), 6);
    assert_eq!(next_backoff(3, 7), 6);
}

#[test]
fn tokens_age() {
    assert!(token_is_fresh(599));
    assert!(!token_is_fresh(600));
}

#[test]
fn tokens_are_injected() {
    let with = r#"{"method":"subscribe","params":{"token":"placeholder","channel":"executions"}}"#;
    let out = inject_token(with, "real\"token");
    let v: serde_json::Value = serde_json::from_str(&out).unwrap();
    assert_eq!(v["params"]["token"], "real\"token");
    assert_eq!(v["params"]["channel"], "executions");
    assert_eq!(v["method"], "subscribe");

    let without = r#"{"method":"ping","req_id":7}"#;
    assert_eq!(inject_token(without, "real"), without);
    assert_eq!(inject_token("not json", "real"), "not json");
    assert_eq!(inject_token(r#"{ "params" : [1] }"#, "real"), r#"{"params":[1]}"#);

    assert_eq!(rewritten_or("a", Some("b".into())), "b");
    assert_eq!(rewritten_or("a", None), "a");
}

#[test]
fn requests_are_numbered() {
    let mut c = RequestCounter::new();
    assert_eq!(c.next_req_id(), Some(1));
    assert!(matches!(c.refresh(60), Some(ProxyCommand::SetDms { req_id: 2, timeout_secs: 60 })));
    assert!(matches!(c.disable(), Some(ProxyCommand::SetDms { req_id: 3, timeout_secs: 0 })));
    let mut last = RequestCounter { last: u64::MAX };
    assert_eq!(last.next_req_id(), None);
    assert!(last.disable().is_none());
}

#[test]
fn orders_are_managed_by_numbered_commands() {
    let mut c = RequestCounter::new();
    let price = Decimal::parse("0.05").unwrap();
    let qty = Decimal::parse("12").unwrap();
    let mut request = OrderRequest {
        cl_ord_id: "mm-1".into(),
        pair: "CAMP/USD".into(),
        side: OrderSide::Sell,
        price,
        qty,
        post_only: true,
        urgent: true,
        market: false,
    };
    match c.place_order(&request) {
        Some(ProxyCommand::PlaceOrder {
            req_id, symbol, side, order_type, cl_ord_id, post_only, priority, market, ..
        }) => {
            assert_eq!(req_id, 1);
            assert_eq!(symbol, "CAMP/USD");
            assert_eq!(side, "sell");
            assert_eq!(order_type, "limit");
            assert_eq!(cl_ord_id, "mm-1");
            assert!(post_only && !market);
            assert!(matches!(priority, OrderPriority::Urgent));
        }
        other => panic!("{:?}", other),
    }
    request.market = true;
    match c.place_order(&request) {
        Some(ProxyCommand::PlaceOrder { req_id, order_type, post_only, market, .. }) => {
            assert_eq!(req_id, 2);
            assert_eq!(order_type, "market");
            assert!(!post_only && market);
        }
        other => panic!("{:?}", other),
    }
    match c.amend_order("mm-1", Some(price), None) {
        Some(ProxyCommand::AmendOrder { req_id, cl_ord_id, price: Some(p), qty: None }) => {
            assert_eq!((req_id, cl_ord_id.as_str()), (3, "mm-1"));
            assert!(p == price);
        }
        other => panic!("{:?}", other),
    }
    match c.cancel_orders(&vec!["mm-1".into(), "mm-2".into()]) {
        Some(ProxyCommand::CancelOrders { req_id, cl_ord_ids }) => {
            assert_eq!(req_id, 4);
            assert_eq!(cl_ord_ids, ["mm-1", "mm-2"]);
        }
        other => panic!("{:?}", other),
    }
    assert!(matches!(c.cancel_all(), Some(ProxyCommand::CancelAll { req_id: 5 })));
    let mut last = RequestCounter { last: u64::MAX };
    assert!(last.cancel_all().is_none());
    assert!(last.place_order(&request).is_none());
}

#[test]
fn trackers_subscribe_to_trades() {
    let m = SubscribeExecMsg::for_trades("tok".into());
    assert_eq!(m.method, "subscribe");
    assert_eq!(m.params.channel, "executions");
    assert!(m.params.snap_trades && !m.params.snap_orders && !m.params.ratecounter);
    assert_eq!(m.params.token, "tok");
}
