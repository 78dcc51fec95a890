use kraken_mm::api::{pair_action, pair_statuses, status_word, PairVerb};
use kraken_mm::collections::StrMap;
use kraken_mm::decimal::Decimal;
use kraken_mm::events::ApiAction;
use kraken_mm::history::{
    build_pair_mapping, historical_fill, history_body, next_page, position_report, reported_fill,
    ExecReport, HistoryTrade,
};
use kraken_mm::market::{
    balances, pair_infos, read_amount, ticker_param, tickers, AssetPairRecord, BalanceRecord,
    TickerRecord,
};
use kraken_mm::position::Position;
use kraken_mm::state::BotState;
use kraken_mm::text::{
    number_text, padded_text, parse_number, replace_all, signed_text, split, trim, trim_end, up_to,
};
use kraken_mm::time::Timestamp;
use kraken_mm::trade_log::{csv_row, row_at, trade_tail, CsvTradeLogger, JsonStateStore, TradeLogger};
use kraken_mm::types::{OrderSide, TradeRecord};

fn d(s: &str) -> Decimal {
    Decimal::parse(s).unwrap()
}

fn some(s: &str) -> Option<String> {
    Some(s.to_string())
}

fn noon() -> Timestamp {
    Timestamp::parse("2026-01-01T12:34:56.5Z").unwrap()
}

fn record(rest_key: &str, wsname: Option<&str>) -> AssetPairRecord {
    AssetPairRecord {
        rest_key: rest_key.into(),
        altname: None,
        wsname: wsname.map(String::from),
        base: some("OMG"),
        ordermin: some("10.5"),
        costmin: some("0.5"),
        pair_decimals: Some(5),
        lot_decimals: None,
        maker_fee_pct: d("0.0026"),
    }
}

#[test]
fn pair_data_is_found_by_name() {
    let mut second = record("OMGUSD2", Some("OMG/USD"));
    second.ordermin = some("x");
    second.costmin = None;
    second.base = None;
    second.pair_decimals = Some(4294967296 + 3);
    let records = vec![record("OMGUSD", Some("OMG/USD")), second, record("SUPUSD", Some("SUP/USD")), record("Z", None)];
    let infos = pair_infos(&records, &vec!["SUP/USD".into(), "NONE/USD".into(), "OMG/USD".into()]);
    assert_eq!(infos.keys(), vec!["SUP/USD", "OMG/USD"]);
    let sup = infos.get("SUP/USD").unwrap();
    assert_eq!(sup.rest_key, "SUPUSD");
    assert_eq!(sup.min_order_qty, d("10.5"));
    assert_eq!(sup.price_decimals, 5);
    assert_eq!(sup.qty_decimals, 8);
    assert_eq!(sup.exchange_base_asset, "OMG");
    let omg = infos.get("OMG/USD").unwrap();
    assert_eq!(omg.rest_key, "OMGUSD2");
    assert_eq!(omg.min_order_qty, d("0"));
    assert_eq!(omg.min_cost, d("0"));
    assert_eq!(omg.price_decimals, 3);
    assert_eq!(omg.exchange_base_asset, "");
    assert_eq!(ticker_param(&infos), "SUPUSD,OMGUSD2");
    assert_eq!(ticker_param(&StrMap::new()), "");
}

#[test]
fn tickers_of_known_pairs() {
    let records = vec![record("OMGUSD", Some("OMG/USD")), record("SUPUSD", Some("SUP/USD"))];
    let infos = pair_infos(&records, &vec!["SUP/USD".into(), "OMG/USD".into()]);
    let raw = |k: &str, o: Option<&str>, c: Option<&str>| TickerRecord {
        rest_key: k.into(),
        open: o.map(String::from),
        close: c.map(String::from),
        volume_24h: some("1000"),
    };
    let t = tickers(
        &vec![raw("OMGUSD", Some("0.50"), Some("0.55")), raw("OTHER", None, None), raw("SUPUSD", None, Some("1"))],
        &infos,
    )
    .unwrap();
    assert_eq!(t.keys(), vec!["OMG/USD", "SUP/USD"]);
    assert_eq!(t.get("OMG/USD").unwrap().change_pct, d("10"));
    assert_eq!(t.get("OMG/USD").unwrap().volume_24h, d("1000"));
    assert_eq!(t.get("SUP/USD").unwrap().change_pct, d("0"));
    let huge = "79228162514264337593543950335";
    assert!(tickers(&vec![raw("OMGUSD", Some("0.001"), Some(huge))], &infos).is_none());
}

#[test]
fn balances_pass_over_what_is_no_number() {
    let raw = |a: &str, b: Option<&str>| BalanceRecord { asset: a.into(), balance: b.map(String::from) };
    let b = balances(&vec![raw("ZUSD", Some("12.5")), raw("X", Some("?")), raw("Y", None), raw("ZUSD", Some("13"))]);
    assert_eq!(b.len(), 1);
    assert_eq!(b.get("ZUSD"), Some(&d("13")));
    assert_eq!(read_amount(&some("1.5")), d("1.5"));
    assert_eq!(read_amount(&None), d("0"));
}

#[test]
fn history_pages() {
    assert_eq!(history_body(0, None, None), "ofs=0");
    assert_eq!(history_body(50, Some(-5), Some(1700000000)), "ofs=50&start=-5&end=1700000000");
    assert_eq!(history_body(50, None, Some(7)), "ofs=50&end=7");
    assert_eq!(next_page(0, 50, 120), Some(50));
    assert_eq!(next_page(100, 20, 120), None);
    assert_eq!(next_page(0, 0, 120), None);
}

#[test]
fn history_names_pairs_in_two_ways() {
    let mut with_alt = record("XXBTZUSD", Some("XBT/USD"));
    with_alt.altname = some("XBTUSD");
    let mut same_alt = record("OMGUSD", Some("OMG/USD"));
    same_alt.altname = some("OMGUSD");
    let m = build_pair_mapping(&vec![with_alt, same_alt, record("N", None)]);
    assert_eq!(m.keys(), vec!["XXBTZUSD", "XBTUSD", "OMGUSD"]);
    assert_eq!(m.get("XBTUSD").unwrap(), "XBT/USD");

    let mut t = HistoryTrade {
        txid: "T1".into(),
        pair: some("XBTUSD"),
        side: some("sell"),
        price: some("50000.1"),
        vol: some("0.25"),
        fee: some("oops"),
        order_txid: None,
        order_type: some("limit"),
        timestamp: noon(),
    };
    let f = historical_fill(&t, &m).unwrap();
    assert_eq!(f.pair, "XBT/USD");
    assert_eq!(f.side, OrderSide::Sell);
    assert_eq!(f.price, d("50000.1"));
    assert_eq!(f.qty, d("0.25"));
    assert_eq!(f.fee, d("0"));
    assert_eq!(f.cl_ord_id, "T1");
    assert_eq!(f.order_id, "");
    assert!(f.is_maker && f.is_fully_filled);
    t.side = some("margin");
    assert!(historical_fill(&t, &m).is_none());
    t.side = some("buy");
    t.pair = some("ETHUSD");
    assert!(historical_fill(&t, &m).is_none());
}

#[test]
fn reports_on_trades_are_fills() {
    let mut e = ExecReport {
        exec_type: "trade".into(),
        order_id: "O".into(),
        cl_ord_id: "C".into(),
        symbol: "OMG/USD".into(),
        side: "buy".into(),
        last_qty: d("10"),
        last_price: d("0.5"),
        fee: d("0.01"),
        is_maker: true,
        order_status: "filled".into(),
        timestamp: noon(),
    };
    let f = reported_fill(&e).unwrap();
    assert_eq!((f.side, f.price, f.qty), (OrderSide::Buy, d("0.5"), d("10")));
    assert!(f.is_fully_filled);
    e.side = "sell".into();
    e.order_status = "partially_filled".into();
    let f = reported_fill(&e).unwrap();
    assert_eq!(f.side, OrderSide::Sell);
    assert!(!f.is_fully_filled);
    e.exec_type = "new".into();
    assert!(reported_fill(&e).is_none());
}

#[test]
fn positions_are_valued() {
    let p = Position { qty: d("10"), avg_cost: d("2") };
    let r = position_report(&p, Some(d("2.5"))).unwrap();
    assert_eq!(r.current_value, d("25"));
    assert_eq!(r.unrealized_pnl, d("5"));
    let r = position_report(&p, None).unwrap();
    assert_eq!(r.current_value, d("0"));
    assert_eq!(r.unrealized_pnl, d("-20"));
}

fn trade() -> TradeRecord {
    TradeRecord {
        timestamp: noon(),
        pair: "OMG/USD".into(),
        side: "buy".into(),
        price: d("0.50"),
        qty: d("10"),
        value_usd: d("5.00"),
        fee: d("0.0115"),
        pnl: d("-0.0115"),
        cumulative_pnl: d("1.5"),
    }
}

#[test]
fn trades_are_logged_as_rows() {
    let row = "2026-01-01 12:34:56,OMG/USD,buy,0.50,10,5.00,0.0115,-0.0115,1.5";
    assert_eq!(csv_row(&trade()).unwrap(), row);
    assert!(row_at("T", &trade()).starts_with("T,OMG/USD,buy,"));

    let mut log = CsvTradeLogger::new("trades.csv".into(), false);
    let lines = log.log_trade(&trade()).unwrap();
    assert_eq!(lines[0], "timestamp,symbol,side,price,qty,value_usd,fee,pnl,cumulative_pnl");
    assert_eq!(lines[1], row);
    assert_eq!(log.log_trade(&trade()).unwrap(), vec![row]);
    let mut there = CsvTradeLogger::new("trades.csv".into(), true);
    assert_eq!(there.log_trade(&trade()).unwrap().len(), 1);

    let mut late = trade();
    late.timestamp = Timestamp::new(9_000_000_000_000, 0).unwrap();
    let mut fresh = CsvTradeLogger::new("trades.csv".into(), false);
    assert!(fresh.log_trade(&late).is_none());
    assert!(!fresh.header_written);
    assert_eq!(JsonStateStore::new("state.json".into()).path, "state.json");
}

#[test]
fn trade_logs_are_read_from_the_end() {
    let lines: Vec<String> = ["h", "1", "2", "3"].iter().map(|s| s.to_string()).collect();
    let t = trade_tail(&lines, 2);
    assert_eq!((t.header.as_str(), t.total), ("h", 3));
    assert_eq!(t.trades, vec!["2", "3"]);
    assert_eq!(trade_tail(&lines, 50).trades.len(), 3);
    assert_eq!(trade_tail(&lines, 0).trades.len(), 0);
    let only = trade_tail(&vec!["h".to_string()], 5);
    assert_eq!((only.header.as_str(), only.total, only.trades.len()), ("h", 0, 0));
    assert_eq!(trade_tail(&vec![], 5).header, "");
}

#[test]
fn statuses_of_pairs() {
    let mut s = BotState::default();
    s.cooldown_until.insert("A/USD".into(), noon());
    s.disabled_pairs.insert("A/USD".into(), ());
    s.disabled_pairs.insert("B/USD".into(), ());
    s.disabled_pairs.insert("GONE/USD".into(), ());
    s.positions.insert("B/USD".into(), Position { qty: d("1"), avg_cost: d("2") });
    let pairs: Vec<String> = vec!["A/USD".into(), "B/USD".into(), "C/USD".into()];
    let all = pair_statuses(&s, &pairs).unwrap();
    assert_eq!(all.keys(), vec!["A/USD", "B/USD", "C/USD", "GONE/USD"]);
    let a = all.get("A/USD").unwrap();
    assert_eq!(a.status, "cooldown_until:12:34:56 UTC");
    assert!(a.disabled && a.cooldown_until.is_some() && a.position.is_none());
    assert_eq!(all.get("B/USD").unwrap().status, "disabled");
    assert!(all.get("B/USD").unwrap().position.is_some());
    assert_eq!(all.get("C/USD").unwrap().status, "active");
    assert_eq!(all.get("GONE/USD").unwrap().status, "disabled");
    s.paused = true;
    assert_eq!(status_word(&s, "C/USD").unwrap(), "sell_only");
    assert_eq!(status_word(&s, "B/USD").unwrap(), "disabled");
}

#[test]
fn requests_for_pairs() {
    assert!(matches!(pair_action(PairVerb::Liquidate, "CAMP_USD"), ApiAction::Liquidate { pair } if pair == "CAMP/USD"));
    assert!(matches!(pair_action(PairVerb::Disable, "A_B"), ApiAction::DisablePair { pair } if pair == "A/B"));
    assert!(matches!(pair_action(PairVerb::Enable, "A/B"), ApiAction::EnablePair { pair } if pair == "A/B"));
    assert!(matches!(pair_action(PairVerb::Add, "A_B"), ApiAction::AddPair { pair } if pair == "A/B"));
    assert!(matches!(pair_action(PairVerb::Remove, "A_B"), ApiAction::RemovePair { pair } if pair == "A/B"));
}

#[test]
fn texts() {
    assert_eq!(trim_end("a///", '/'), "a");
    assert_eq!(trim_end("///", '/'), "");
    assert_eq!(up_to("ab/cd/e", '/'), "ab");
    assert_eq!(up_to("abc", '/'), "abc");
    assert_eq!(replace_all("aaaa", "aa", "b"), "bb");
    assert_eq!(replace_all("aaa", "aa", "b"), "ba");
    assert_eq!(trim("\t x y\u{3000}\n"), "x y");
    assert_eq!(trim("  "), "");
    assert_eq!(split("a,,b,", ','), vec!["a", "", "b", ""]);
    assert_eq!(split("", ','), vec![""]);
    assert_eq!(parse_number("+18446744073709551615"), Some(u64::MAX));
    assert_eq!(parse_number("18446744073709551616"), None);
    assert_eq!(parse_number("007"), Some(7));
    assert_eq!(parse_number(""), None);
    assert_eq!(parse_number("+"), None);
    assert_eq!(parse_number("-1"), None);
    assert_eq!(parse_number("1 "), None);
    assert_eq!(number_text(u64::MAX), "18446744073709551615");
    assert_eq!(signed_text(i64::MIN), "-9223372036854775808");
    assert_eq!(padded_text(42, 6), "000042");
}

#[test]
fn times() {
    let t = noon();
    assert_eq!(t.parts(), (1_767_270_896, 500_000_000));
    assert_eq!(t.format("%Y-%m-%d %H:%M:%S").unwrap(), "2026-01-01 12:34:56");
    assert_eq!(t.format("%H:%M:%S UTC").unwrap(), "12:34:56 UTC");
    let before = Timestamp::parse("1969-12-31T23:59:59.25Z").unwrap();
    assert_eq!(before.parts(), (-1, 250_000_000));
    assert!(before.before(&t));
    assert_eq!(Timestamp::parse("2026-01-01T14:34:56.5+02:00").unwrap(), t);
    assert!(Timestamp::parse("yesterday").is_none());
    assert_eq!(t.plus_seconds(3600).unwrap().hours_since(&t), 1);
    assert_eq!(t.seconds_since(&t.plus_seconds(90).unwrap()), -90);
}

#[test]
fn leap_seconds_are_kept() {
    let leap = Timestamp::parse("2026-01-01T12:34:60.5Z").unwrap();
    let hour_on = Timestamp::parse("2026-01-01T13:35:00Z").unwrap();
    assert_eq!(leap.parts(), (1_767_270_899, 1_500_000_000));
    assert_eq!(hour_on.hours_since(&leap), 1);
    assert_eq!(hour_on.seconds_since(&leap), 3600);
    assert!(leap.before(&Timestamp::parse("2026-01-01T12:35:00Z").unwrap()));
    assert_eq!(leap.format("%H:%M:%S UTC").unwrap(), "12:34:60 UTC");
    assert!(Timestamp::new(1_767_270_899, 1_500_000_000).is_some());
    assert!(Timestamp::new(1_767_270_898, 1_500_000_000).is_none());
    assert!(Timestamp::new(-1, 1_999_999_999).is_some());
    assert!(Timestamp::new(-1, 2_000_000_000).is_none());
}

#[test]
fn times_are_counted_as_in_the_calendar() {
    let texts = [
        "2026-01-01T00:00:00Z",
        "2026-01-01T12:34:59.999999999Z",
        "2026-01-01T12:34:60Z",
        "2026-01-01T12:34:60.5Z",
        "2026-01-01T12:35:00Z",
        "2026-01-01T13:35:00.25Z",
        "2025-12-31T23:59:60.75Z",
        "2026-01-02T00:00:10Z",
        "2026-01-03T12:34:60.1Z",
        "1969-12-31T23:59:59.5Z",
        "1969-12-31T23:59:60.5Z",
    ];
    let read = |t: &str| t.parse::<chrono::DateTime<chrono::Utc>>().unwrap();
    let of = |t: chrono::DateTime<chrono::Utc>| {
        Timestamp::new(t.timestamp(), t.timestamp_subsec_nanos()).unwrap()
    };
    for a in texts {
        let (x, s) = (read(a), Timestamp::parse(a).unwrap());
        assert_eq!(of(x), s);
        for secs in [0, 1, 59, 3600, 86_400, 1_000_000] {
            let on = x + chrono::Duration::seconds(secs);
            assert_eq!(s.plus_seconds(secs as u64).unwrap(), of(on));
        }
        for b in texts {
            let (y, t) = (read(b), Timestamp::parse(b).unwrap());
            assert_eq!(t.seconds_since(&s), (y - x).num_seconds());
            assert_eq!(t.hours_since(&s), (y - x).num_hours());
            assert_eq!(s.before(&t), x < y);
            for hours in [-2, -1, 0, 1, 24, 48] {
                let cutoff = y - chrono::Duration::hours(hours);
                assert_eq!(s.is_hours_before(hours, &t), x < cutoff);
            }
        }
    }
}
