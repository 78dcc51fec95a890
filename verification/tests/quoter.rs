use kraken_mm::config::TradingConfig;
use kraken_mm::decimal::Decimal;
use kraken_mm::quoter::{QuoteState, Quoter};
use kraken_mm::time::Timestamp;
use kraken_mm::types::PairInfo;

fn d(s: &str) -> Decimal {
    Decimal::parse(s).unwrap()
}

fn now() -> Timestamp {
    Timestamp::new(1_767_225_600, 0).unwrap()
}

fn test_config() -> TradingConfig {
    TradingConfig {
        pairs: vec![],
        order_size_usd: d("100"),
        min_spread_bps: d("100"),
        spread_capture_pct: d("0.50"),
        requote_threshold_pct: d("0.005"),
        maker_fee_pct: d("0.0023"),
        min_profit_pct: d("0.01"),
        dry_run: false,
        downtrend_threshold_pct: d("-5.0"),
        min_quote_interval_secs: 5,
    }
}

fn test_pair_info() -> PairInfo {
    PairInfo {
        pair: "TEST/USD".into(),
        rest_key: "TESTUSD".into(),
        exchange_base_asset: "TEST".into(),
        price_decimals: 5,
        qty_decimals: 5,
        min_order_qty: d("10"),
        min_cost: d("0.50"),
        maker_fee_pct: d("0.0023"),
    }
}

fn make_quoter() -> Quoter {
    Quoter::new("TEST/USD".into())
}

#[test]
fn compute_quotes_basic() {
    // 500 bps spread around mid=1.0 → best_bid=0.975, best_ask=1.025
    let q = make_quoter();
    let cfg = test_config();
    let pi = test_pair_info();

    let mid = d("1.0");
    let best_bid = d("0.975");
    let best_ask = d("1.025");
    let skew = d("0");

    let (bid, ask) = q
        .compute_quotes(best_bid, best_ask, mid, skew, &cfg, &pi)
        .unwrap()
        .unwrap();

    // bid must be below mid, ask must be above mid
    assert!(bid < mid);
    assert!(ask > mid);
    // bid should be above best_bid (we're tightening inside the book)
    assert!(bid >= best_bid);
    // ask should be below best_ask
    assert!(ask <= best_ask);
}

#[test]
fn compute_quotes_narrow_spread_returns_none() {
    // Spread < 2x maker fee (0.0046) → None
    // maker_fee_pct = 0.0023 → 2x = 0.0046 → 46 bps
    // Use a 30 bps spread (0.003): best_bid=0.9985, best_ask=1.0015, mid=1.0
    let q = make_quoter();
    let cfg = test_config();
    let pi = test_pair_info();

    let mid = d("1.0");
    let best_bid = d("0.9985");
    let best_ask = d("1.0015");

    let result = q.compute_quotes(best_bid, best_ask, mid, d("0"), &cfg, &pi).unwrap();
    assert!(result.is_none());
}

#[test]
fn compute_quotes_below_min_spread_bps_returns_none() {
    // min_spread_bps = 100 → need at least 100 bps (1%)
    // Use 80 bps spread: best_bid=0.996, best_ask=1.004, mid=1.0 → spread_bps=80
    // But also need spread > 2x maker_fee (46 bps), so 80 bps passes that check
    // but fails the min_spread_bps=100 check.
    let q = make_quoter();
    let cfg = test_config();
    let pi = test_pair_info();

    let mid = d("1.0");
    let best_bid = d("0.996");
    let best_ask = d("1.004");

    let result = q.compute_quotes(best_bid, best_ask, mid, d("0"), &cfg, &pi).unwrap();
    assert!(result.is_none());
}

#[test]
fn compute_quotes_zero_mid_returns_none() {
    let q = make_quoter();
    let cfg = test_config();
    let pi = test_pair_info();

    let result = q.compute_quotes(d("0"), d("0"), d("0"), d("0"), &cfg, &pi).unwrap();
    assert!(result.is_none());
}

#[test]
fn compute_quotes_inventory_skew_adjusts_prices() {
    let q = make_quoter();
    let cfg = test_config();
    let pi = test_pair_info();

    let mid = d("1.0");
    let best_bid = d("0.975");
    let best_ask = d("1.025");

    let (bid_neutral, ask_neutral) = q
        .compute_quotes(best_bid, best_ask, mid, d("0"), &cfg, &pi)
        .unwrap()
        .unwrap();

    let (bid_skewed, ask_skewed) = q
        .compute_quotes(best_bid, best_ask, mid, d("1"), &cfg, &pi)
        .unwrap()
        .unwrap();

    // Positive skew: bid_offset shrinks → bid goes UP, ask_offset grows → ask goes UP
    assert!(
        bid_skewed > bid_neutral);
    assert!(
        ask_skewed > ask_neutral);
}

#[test]
fn compute_quotes_prices_dont_cross_book() {
    // Use a very wide spread so the capture-based offsets might push bid above best_ask.
    // The post-only guard should clamp: bid < best_ask, ask > best_bid.
    let q = make_quoter();
    let pi = test_pair_info();

    // Config with very high capture pct to force crossing
    let mut cfg = test_config();
    cfg.spread_capture_pct = d("0.99"); // capture nearly the entire spread

    let mid = d("1.0");
    let best_bid = d("0.975");
    let best_ask = d("1.025");

    let (bid, ask) = q
        .compute_quotes(best_bid, best_ask, mid, d("0"), &cfg, &pi)
        .unwrap()
        .unwrap();

    // Post-only guard: bid must be strictly less than best_ask
    let tick = Decimal::new(1, pi.price_decimals); // 0.00001
    assert!(
        bid <= best_ask.checked_sub(tick).unwrap());
    // ask must be strictly greater than best_bid
    assert!(
        ask >= best_bid.checked_add(tick).unwrap());
}


#[test]
fn compute_qty_basic() {
    // $100 / $0.50 = 200 units
    let q = make_quoter();
    let cfg = test_config();
    let pi = test_pair_info();

    let qty = q.compute_qty(d("0.50"), &cfg, &pi).unwrap();
    assert_eq!(qty, d("200"));
}

#[test]
fn compute_qty_respects_min_order_qty() {
    // $100 / $50 = 2 units, but min_order_qty = 10 → should return 10
    let q = make_quoter();
    let cfg = test_config();
    let pi = test_pair_info();

    let qty = q.compute_qty(d("50"), &cfg, &pi).unwrap();
    assert_eq!(qty, d("10"));
}

#[test]
fn compute_qty_respects_min_cost() {
    // min_cost = 200 is above order_size_usd = 100: at mid 1.0 the plain 100 units must be raised.
    let q = make_quoter();
    let cfg = test_config();
    let mut pi = test_pair_info();
    pi.min_cost = d("200");

    let qty = q.compute_qty(d("1.0"), &cfg, &pi).unwrap();
    // qty * mid must be >= 200, and qty >= min_order_qty(10)
    assert!(
        qty.checked_mul(d("1.0")).unwrap() >= d("200"));
}

#[test]
fn compute_qty_zero_mid_returns_zero() {
    let q = make_quoter();
    let cfg = test_config();
    let pi = test_pair_info();

    let qty = q.compute_qty(d("0"), &cfg, &pi).unwrap();
    assert_eq!(qty, Decimal::zero());
}


#[test]
fn should_requote_true_when_no_last_mid() {
    let q = make_quoter();
    let cfg = test_config();
    assert!(q.should_requote(d("1.0"), &cfg).unwrap());
}

#[test]
fn should_requote_true_when_mid_moved_beyond_threshold() {
    // requote_threshold_pct = 0.005 (0.5%)
    let mut q = make_quoter();
    q.last_mid = Some(d("1.0"));
    let cfg = test_config();

    // Move 1% — well above 0.5% threshold
    assert!(q.should_requote(d("1.01"), &cfg).unwrap());
    assert!(q.should_requote(d("0.99"), &cfg).unwrap());
}

#[test]
fn should_requote_false_when_mid_barely_moved() {
    // requote_threshold_pct = 0.005 (0.5%)
    let mut q = make_quoter();
    q.last_mid = Some(d("1.0"));
    let cfg = test_config();

    // Move 0.1% — below 0.5% threshold
    assert!(!q.should_requote(d("1.001"), &cfg).unwrap());
    assert!(!q.should_requote(d("0.999"), &cfg).unwrap());
}


#[test]
fn mark_pending_sets_pending_state() {
    let mut q = make_quoter();
    assert_eq!(q.state, QuoteState::Idle);

    let now = now();
    q.mark_pending(d("1.0"), "bid-1".into(), "ask-1".into(), now);

    assert_eq!(q.state, QuoteState::Pending);
    assert_eq!(q.bid_cl_ord_id.as_deref(), Some("bid-1"));
    assert_eq!(q.ask_cl_ord_id.as_deref(), Some("ask-1"));
    assert_eq!(q.last_mid, Some(d("1.0")));
    assert_eq!(q.last_quote_time, Some(now));
}

#[test]
fn mark_bid_filled_with_ask_outstanding() {
    let mut q = make_quoter();
    q.mark_pending(d("1.0"), "bid-1".into(), "ask-1".into(), now());
    q.try_transition_from_pending(true);

    q.mark_bid_filled();

    assert_eq!(q.state, QuoteState::BidFilled);
    assert!(q.bid_cl_ord_id.is_none());
    assert_eq!(q.ask_cl_ord_id.as_deref(), Some("ask-1"));
}

#[test]
fn mark_bid_filled_without_ask_goes_idle() {
    let mut q = make_quoter();
    q.mark_pending(d("1.0"), "bid-1".into(), "ask-1".into(), now());
    q.try_transition_from_pending(true);
    q.ask_cl_ord_id = None; // simulate ask already gone

    q.mark_bid_filled();

    assert_eq!(q.state, QuoteState::Idle);
    assert!(q.bid_cl_ord_id.is_none());
    assert!(q.ask_cl_ord_id.is_none());
}

#[test]
fn mark_ask_filled_with_bid_outstanding() {
    let mut q = make_quoter();
    q.mark_pending(d("1.0"), "bid-1".into(), "ask-1".into(), now());
    q.try_transition_from_pending(true);

    q.mark_ask_filled();

    assert_eq!(q.state, QuoteState::AskFilled);
    assert!(q.ask_cl_ord_id.is_none());
    assert_eq!(q.bid_cl_ord_id.as_deref(), Some("bid-1"));
}

#[test]
fn mark_ask_filled_without_bid_goes_idle() {
    let mut q = make_quoter();
    q.mark_pending(d("1.0"), "bid-1".into(), "ask-1".into(), now());
    q.try_transition_from_pending(true);
    q.bid_cl_ord_id = None; // simulate bid already gone

    q.mark_ask_filled();

    assert_eq!(q.state, QuoteState::Idle);
}

#[test]
fn mark_cancelled_bid_only() {
    let mut q = make_quoter();
    q.mark_pending(d("1.0"), "bid-1".into(), "ask-1".into(), now());
    q.try_transition_from_pending(true);

    q.mark_cancelled("bid-1");

    // bid is gone, ask remains → still not idle
    assert!(q.bid_cl_ord_id.is_none());
    assert_eq!(q.ask_cl_ord_id.as_deref(), Some("ask-1"));
    // state should remain Quoting (both ids not cleared)
    assert_eq!(q.state, QuoteState::Quoting);
}

#[test]
fn mark_cancelled_both_sides_goes_idle() {
    let mut q = make_quoter();
    q.mark_pending(d("1.0"), "bid-1".into(), "ask-1".into(), now());
    q.try_transition_from_pending(true);

    q.mark_cancelled("bid-1");
    q.mark_cancelled("ask-1");

    assert_eq!(q.state, QuoteState::Idle);
    assert!(q.bid_cl_ord_id.is_none());
    assert!(q.ask_cl_ord_id.is_none());
    assert!(q.last_mid.is_none());
}

#[test]
fn mark_cancelled_unknown_id_is_noop() {
    let mut q = make_quoter();
    q.mark_pending(d("1.0"), "bid-1".into(), "ask-1".into(), now());
    q.try_transition_from_pending(true);

    q.mark_cancelled("unknown-id");

    assert_eq!(q.state, QuoteState::Quoting);
    assert_eq!(q.bid_cl_ord_id.as_deref(), Some("bid-1"));
    assert_eq!(q.ask_cl_ord_id.as_deref(), Some("ask-1"));
}


#[test]
fn pending_transition_both_acked_becomes_quoting() {
    let mut q = make_quoter();
    q.mark_pending(d("1.0"), "bid-1".into(), "ask-1".into(), now());
    assert_eq!(q.state, QuoteState::Pending);

    q.try_transition_from_pending(true);
    assert_eq!(q.state, QuoteState::Quoting);
}

#[test]
fn pending_transition_not_acked_stays_pending() {
    let mut q = make_quoter();
    q.mark_pending(d("1.0"), "bid-1".into(), "ask-1".into(), now());

    q.try_transition_from_pending(false);
    assert_eq!(q.state, QuoteState::Pending);
}

#[test]
fn pending_bid_filled_stays_pending_if_ask_exists() {
    let mut q = make_quoter();
    q.mark_pending(d("1.0"), "bid-1".into(), "ask-1".into(), now());

    q.mark_bid_filled();

    assert_eq!(q.state, QuoteState::Pending);
    assert!(q.bid_cl_ord_id.is_none());
    assert_eq!(q.ask_cl_ord_id.as_deref(), Some("ask-1"));
}

#[test]
fn pending_bid_filled_goes_idle_if_no_ask() {
    let mut q = make_quoter();
    q.mark_pending(d("1.0"), "bid-1".into(), "ask-1".into(), now());
    q.ask_cl_ord_id = None; // simulate ask already gone

    q.mark_bid_filled();

    assert_eq!(q.state, QuoteState::Idle);
}

#[test]
fn pending_ask_filled_stays_pending_if_bid_exists() {
    let mut q = make_quoter();
    q.mark_pending(d("1.0"), "bid-1".into(), "ask-1".into(), now());

    q.mark_ask_filled();

    assert_eq!(q.state, QuoteState::Pending);
    assert!(q.ask_cl_ord_id.is_none());
    assert_eq!(q.bid_cl_ord_id.as_deref(), Some("bid-1"));
}

#[test]
fn pending_both_filled_goes_idle() {
    let mut q = make_quoter();
    q.mark_pending(d("1.0"), "bid-1".into(), "ask-1".into(), now());

    q.mark_bid_filled();
    q.mark_ask_filled();

    assert_eq!(q.state, QuoteState::Idle);
}

#[test]
fn pending_after_bid_filled_ack_transitions_to_bid_filled() {
    let mut q = make_quoter();
    q.mark_pending(d("1.0"), "bid-1".into(), "ask-1".into(), now());

    // Bid fills (ask still pending)
    q.mark_bid_filled();
    assert_eq!(q.state, QuoteState::Pending);

    // Ask gets acked — all remaining orders acked
    q.try_transition_from_pending(true);
    assert_eq!(q.state, QuoteState::BidFilled);
}

#[test]
fn pending_after_ask_filled_ack_transitions_to_ask_filled() {
    let mut q = make_quoter();
    q.mark_pending(d("1.0"), "bid-1".into(), "ask-1".into(), now());

    q.mark_ask_filled();
    assert_eq!(q.state, QuoteState::Pending);

    q.try_transition_from_pending(true);
    assert_eq!(q.state, QuoteState::AskFilled);
}

#[test]
fn pending_cancelled_one_side_stays_pending() {
    let mut q = make_quoter();
    q.mark_pending(d("1.0"), "bid-1".into(), "ask-1".into(), now());

    q.mark_cancelled("bid-1");
    // One side still exists, mark_cancelled doesn't go Idle
    assert!(q.bid_cl_ord_id.is_none());
    assert_eq!(q.ask_cl_ord_id.as_deref(), Some("ask-1"));
    // State is still Pending (mark_cancelled doesn't change from Pending
    // since ask_cl_ord_id is still Some)
    assert_eq!(q.state, QuoteState::Pending);
}

#[test]
fn pending_cancelled_both_sides_goes_idle() {
    let mut q = make_quoter();
    q.mark_pending(d("1.0"), "bid-1".into(), "ask-1".into(), now());

    q.mark_cancelled("bid-1");
    q.mark_cancelled("ask-1");

    assert_eq!(q.state, QuoteState::Idle);
}

#[test]
fn try_transition_noop_when_not_pending() {
    let mut q = make_quoter();
    q.mark_pending(d("1.0"), "bid-1".into(), "ask-1".into(), now());
    q.try_transition_from_pending(true);
    assert_eq!(q.state, QuoteState::Quoting);

    // Calling again when already Quoting should be a no-op
    q.try_transition_from_pending(true);
    assert_eq!(q.state, QuoteState::Quoting);
}

#[test]
fn larger_skews_raise_both_prices() {
    let (q, cfg, pi) = (make_quoter(), test_config(), test_pair_info());
    let at = |skew: &str| {
        q.compute_quotes(d("0.975"), d("1.025"), d("1.0"), d(skew), &cfg, &pi).unwrap().unwrap()
    };
    assert_eq!(at("0"), (d("0.9875"), d("1.0125")));
    assert_eq!(at("1"), (d("0.99125"), d("1.01625")));
    let skews = ["-1", "-0.5", "-0.001", "0", "0.25", "0.999", "1"];
    for pair in skews.windows(2) {
        let (low, high) = (at(pair[0]), at(pair[1]));
        assert!(low.0 <= high.0 && low.1 <= high.1);
    }
}

#[test]
fn raised_quantities_are_worth_the_minimum_cost() {
    let q = make_quoter();
    let mut cfg = test_config();
    let mut pi = test_pair_info();
    pi.min_order_qty = d("0.001");
    cfg.order_size_usd = d("0.01");
    for mid in ["3", "0.07", "0.0000123", "977.31", "0.5"] {
        for cost in ["0.5", "1", "7.77", "0.0001"] {
            pi.min_cost = d(cost);
            let qty = q.compute_qty(d(mid), &cfg, &pi).unwrap();
            assert!(qty >= pi.min_order_qty);
            assert!(qty.checked_mul(d(mid)).unwrap() >= pi.min_cost);
        }
    }
    // 0.5 / 3 is 0.166666..., rounded up at five decimals and raised by a tick.
    pi.min_cost = d("0.5");
    assert_eq!(q.compute_qty(d("3"), &cfg, &pi).unwrap(), d("0.16668"));
}
