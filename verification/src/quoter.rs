//! Quoting state and price formation for one pair.
use crate::collections::Dup;
use crate::config::TradingConfig;
use crate::decimal::{
    absolute, difference, larger, lemma_at_own_scale, lemma_of, lemma_pow10, less, magnitude,
    mantissa_at, minus, over, plus, pow10, product, quotient, rounded, smaller, sum, times, Decimal,
    MAX_SCALE,
};
use crate::decimal_laws::{
    exact_sum_adds_units, lemma_pow10_add, lemma_units_at, less_is_by_units, order_is_total,
    results_are_valid, rounding_does_not_reach_down, rounding_does_not_reach_up,
    rounding_moves_half_a_tick_at_most, tick_fits, units,
};
use crate::decimal_nearest::{closest_goes_by_the_fraction, closest_is_monotone};
use crate::decimal_order::{
    decimals_are_closest_to_themselves, differences_are_monotone, differences_keep_signs,
    products_are_closest, products_are_monotone, products_keep_signs, quotients_are_near,
    quotients_keep_signs, rounded_parts, rounding_is_monotone, sums_are_monotone,
};
use crate::text::{copy_opt, opt_is, opt_text};
use crate::time::Timestamp;
use crate::types::{PairInfo, PairInfoView};
use vstd::prelude::*;

verus! {

/// Where a pair stands in its quoting cycle.
#[derive(Clone, Copy, Debug, PartialEq, Eq, Structural)]
pub enum QuoteState {
    Idle,
    Pending,
    Quoting,
    BidFilled,
    AskFilled,
}

/// Per-pair quoting state and logic.
#[derive(Clone, Debug)]
pub struct Quoter {
    pub pair: String,
    pub state: QuoteState,
    pub bid_cl_ord_id: Option<String>,
    pub ask_cl_ord_id: Option<String>,
    pub last_mid: Option<Decimal>,
    pub last_quote_time: Option<Timestamp>,
}

/// Model of [`Quoter`].
#[verifier::ext_equal]
pub struct QuoterView {
    pub pair: Seq<char>,
    pub state: QuoteState,
    pub bid: Option<Seq<char>>,
    pub ask: Option<Seq<char>>,
    pub last_mid: Option<Decimal>,
    pub last_quote_time: Option<Timestamp>,
}

impl View for Quoter {
    type V = QuoterView;

    open spec fn view(&self) -> QuoterView {
        QuoterView {
            pair: self.pair@,
            state: self.state,
            bid: opt_text(self.bid_cl_ord_id),
            ask: opt_text(self.ask_cl_ord_id),
            last_mid: self.last_mid,
            last_quote_time: self.last_quote_time,
        }
    }
}

impl Dup for Quoter {
    fn dup(&self) -> (r: Quoter) {
        Quoter {
            pair: self.pair.clone(),
            state: self.state,
            bid_cl_ord_id: copy_opt(&self.bid_cl_ord_id),
            ask_cl_ord_id: copy_opt(&self.ask_cl_ord_id),
            last_mid: self.last_mid,
            last_quote_time: self.last_quote_time,
        }
    }
}

impl QuoterView {
    /// A pair that is not quoted.
    pub open spec fn idle(pair: Seq<char>) -> QuoterView {
        QuoterView {
            pair,
            state: QuoteState::Idle,
            bid: None,
            ask: None,
            last_mid: None,
            last_quote_time: None,
        }
    }

    /// After its orders are dropped: idle, with no order and no reference price.
    pub open spec fn reset(self) -> QuoterView {
        QuoterView { state: QuoteState::Idle, bid: None, ask: None, last_mid: None, ..self }
    }

    /// After a bid and an ask are sent.
    pub open spec fn pending(
        self,
        mid: Decimal,
        bid: Seq<char>,
        ask: Seq<char>,
        at: Timestamp,
    ) -> QuoterView {
        QuoterView {
            state: QuoteState::Pending,
            bid: Some(bid),
            ask: Some(ask),
            last_mid: Some(mid),
            last_quote_time: Some(at),
            ..self
        }
    }

    /// After the bid is filled.
    pub open spec fn bid_filled(self) -> QuoterView {
        QuoterView {
            bid: None,
            state: if self.ask is None {
                QuoteState::Idle
            } else if self.state == QuoteState::Pending {
                QuoteState::Pending
            } else {
                QuoteState::BidFilled
            },
            ..self
        }
    }

    /// After the ask is filled.
    pub open spec fn ask_filled(self) -> QuoterView {
        QuoterView {
            ask: None,
            state: if self.bid is None {
                QuoteState::Idle
            } else if self.state == QuoteState::Pending {
                QuoteState::Pending
            } else {
                QuoteState::AskFilled
            },
            ..self
        }
    }

    /// After the order `id` is cancelled: once neither side has an order the pair is idle.
    pub open spec fn cancelled(self, id: Seq<char>) -> QuoterView {
        let bid = if self.bid == Some(id) {
            None
        } else {
            self.bid
        };
        let ask = if self.ask == Some(id) {
            None
        } else {
            self.ask
        };
        if bid is None && ask is None {
            self.reset()
        } else {
            QuoterView { bid, ask, ..self }
        }
    }

    /// After it is learned whether all orders are acknowledged: a pending pair moves on to the
    /// state its remaining orders call for.
    pub open spec fn settled(self, all_acked: bool) -> QuoterView {
        if self.state != QuoteState::Pending || !all_acked {
            self
        } else {
            QuoterView {
                state: match (self.bid, self.ask) {
                    (Some(_), Some(_)) => QuoteState::Quoting,
                    (Some(_), None) => QuoteState::AskFilled,
                    (None, Some(_)) => QuoteState::BidFilled,
                    (None, None) => QuoteState::Idle,
                },
                ..self
            }
        }
    }
}

/// The spread as a fraction of the mid price; `None` on overflow or if mid is zero.
pub open spec fn spread_fraction(best_bid: Decimal, best_ask: Decimal, mid: Decimal) -> Option<
    Decimal,
> {
    over(minus(Some(best_ask), Some(best_bid)), Some(mid))
}

/// One tick at the given number of decimal places; `None` above 28.
pub open spec fn tick(dp: u32) -> Option<Decimal> {
    if dp <= MAX_SCALE {
        Some(Decimal::of(1, dp as nat))
    } else {
        None
    }
}

/// The quotes inside a spread: half of the captured spread on either side of mid, shifted by the
/// inventory skew, held back one tick from crossing the book, and rounded to the pair's precision.
/// `None` on overflow.
pub open spec fn inside_quotes(
    best_bid: Decimal,
    best_ask: Decimal,
    mid: Decimal,
    skew: Decimal,
    spread: Decimal,
    capture: Decimal,
    price_decimals: u32,
) -> Option<(Decimal, Decimal)> {
    let half = over(times(Some(spread), Some(capture)), Some(Decimal::of(2, 0)));
    let shift = times(times(Some(skew), half), Some(Decimal::of(3, 1)));
    let one = Some(Decimal::of(1, 0));
    let bid = times(Some(mid), minus(one, minus(half, shift)));
    let ask = times(Some(mid), plus(one, plus(half, shift)));
    let bid_cap = minus(Some(best_ask), tick(price_decimals));
    let ask_floor = plus(Some(best_bid), tick(price_decimals));
    match (bid, ask, bid_cap, ask_floor) {
        (Some(b), Some(a), Some(bc), Some(af)) => Some(
            (
                rounded(smaller(b, bc), price_decimals as nat),
                rounded(larger(a, af), price_decimals as nat),
            ),
        ),
        _ => None,
    }
}

/// Bid and ask for the given top of book. The outer `None` stands for an overflow; the inner one
/// for a spread that is too narrow: below twice the maker fee or below the configured minimum.
pub open spec fn quotes(
    best_bid: Decimal,
    best_ask: Decimal,
    mid: Decimal,
    skew: Decimal,
    config: TradingConfig,
    info: PairInfoView,
) -> Option<Option<(Decimal, Decimal)>> {
    let spread = spread_fraction(best_bid, best_ask, mid);
    let bps = times(spread, Some(Decimal::of(10000, 0)));
    let profitable = product(config.maker_fee_pct, Decimal::of(2, 0));
    if mid.m() == 0 {
        Some(None)
    } else {
        match (spread, bps, profitable) {
            (Some(sp), Some(sb), Some(mp)) => if less(sp, mp) || less(sb, config.min_spread_bps) {
                Some(None)
            } else {
                match inside_quotes(
                    best_bid,
                    best_ask,
                    mid,
                    skew,
                    sp,
                    config.spread_capture_pct,
                    info.price_decimals,
                ) {
                    Some(q) => Some(Some(q)),
                    None => None,
                }
            },
            _ => None,
        }
    }
}

/// The order size in the base asset before the minimum cost is considered: the configured value
/// at mid, rounded to the pair's precision, at least the minimum quantity. `None` on overflow.
pub open spec fn plain_qty(mid: Decimal, order_size: Decimal, info: PairInfoView) -> Option<
    Decimal,
> {
    match quotient(order_size, mid) {
        Some(q) => Some(
            if less(rounded(q, info.qty_decimals as nat), info.min_order_qty) {
                info.min_order_qty
            } else {
                rounded(q, info.qty_decimals as nat)
            },
        ),
        None => None,
    }
}

/// The order size in the base asset: zero if mid is zero; raised to what the minimum cost asks
/// for, plus a tick, if the plain size is worth less than that. `None` on overflow.
pub open spec fn order_qty(mid: Decimal, order_size: Decimal, info: PairInfoView) -> Option<
    Decimal,
> {
    if mid.m() == 0 {
        Some(Decimal::of(0, 0))
    } else {
        match plain_qty(mid, order_size, info) {
            Some(q) => match product(q, mid) {
                Some(value) => if less(value, info.min_cost) {
                    match quotient(info.min_cost, mid) {
                        Some(need) => plus(
                            Some(rounded(need, info.qty_decimals as nat)),
                            tick(info.qty_decimals),
                        ),
                        None => None,
                    }
                } else {
                    Some(q)
                },
                None => None,
            },
            None => None,
        }
    }
}

/// Whether the move from `last` to `now`, as a fraction of `last`, is above the threshold; any
/// move from zero is. `None` on overflow.
pub open spec fn moved_beyond(last: Decimal, now: Decimal, threshold: Decimal) -> Option<bool> {
    if last.m() == 0 {
        Some(true)
    } else {
        match over(minus(Some(now), Some(last)), Some(last)) {
            Some(c) => Some(less(threshold, absolute(c))),
            None => None,
        }
    }
}

/// Whether the move between two prices, as a fraction of the first, is above a threshold.
pub fn has_moved(last: Decimal, now: Decimal, threshold: Decimal) -> (r: Option<bool>)
    ensures
        r == moved_beyond(last, now, threshold),
{
    if last.is_zero() {
        return Some(true);
    }
    let change = over(minus(Some(now), Some(last)), Some(last))?;
    Some(change.abs() > threshold)
}

impl Quoter {
    /// A quoter for a pair that is not quoted yet.
    pub fn new(pair: String) -> (r: Quoter)
        ensures
            r@ == QuoterView::idle(pair@),
    {
        Quoter {
            pair,
            state: QuoteState::Idle,
            bid_cl_ord_id: None,
            ask_cl_ord_id: None,
            last_mid: None,
            last_quote_time: None,
        }
    }

    /// Computes bid and ask prices for the current book and inventory skew. `Some(None)` if the
    /// spread is too narrow to quote profitably; `None` on overflow. The quotes never cross the
    /// book: the bid stays below the best ask and the ask above the best bid, as long as a tick
    /// can be added to and taken from those without loss.
    pub fn compute_quotes(
        &self,
        best_bid: Decimal,
        best_ask: Decimal,
        mid: Decimal,
        skew: Decimal,
        config: &TradingConfig,
        pair_info: &PairInfo,
    ) -> (r: Option<Option<(Decimal, Decimal)>>)
        ensures
            r == quotes(best_bid, best_ask, mid, skew, *config, pair_info@),
            r matches Some(Some(q)) ==> {
                &&& tick_fits(best_ask, pair_info.price_decimals as nat) ==> less(q.0, best_ask)
                &&& tick_fits(best_bid, pair_info.price_decimals as nat) ==> less(best_bid, q.1)
            },
    {
        if mid.is_zero() {
            return Some(None);
        }
        let spread = over(minus(Some(best_ask), Some(best_bid)), Some(mid));
        let bps = times(spread, Some(Decimal::new(10000, 0)));
        let profitable = config.maker_fee_pct.checked_mul(Decimal::new(2, 0));
        let sp = spread?;
        let sb = bps?;
        let mp = profitable?;
        if sp < mp {
            return Some(None);
        }
        if sb < config.min_spread_bps {
            return Some(None);
        }
        let half = over(times(Some(sp), Some(config.spread_capture_pct)), Some(Decimal::new(2, 0)));
        let shift = times(times(Some(skew), half), Some(Decimal::new(3, 1)));
        let one = Some(Decimal::one());
        let bid = times(Some(mid), minus(one, minus(half, shift)));
        let ask = times(Some(mid), plus(one, plus(half, shift)));
        let tick = Decimal::try_new(1, pair_info.price_decimals);
        let bid_cap = minus(Some(best_ask), tick);
        let ask_floor = plus(Some(best_bid), tick);
        let cap = bid_cap?;
        let floor = ask_floor?;
        let b = bid?.min(cap);
        let a = ask?.max(floor);
        proof {
            let dp = pair_info.price_decimals as nat;
            use_type_invariant(&best_bid);
            use_type_invariant(&best_ask);
            use_type_invariant(&cap);
            use_type_invariant(&floor);
            use_type_invariant(&b);
            use_type_invariant(&a);
            order_is_total(b, cap, cap);
            order_is_total(a, floor, floor);
            if tick_fits(best_ask, dp) {
                rounding_does_not_reach_up(b, best_ask, cap, dp);
            }
            if tick_fits(best_bid, dp) {
                rounding_does_not_reach_down(a, best_bid, floor, dp);
            }
        }
        Some(
            Some(
                (b.round_dp(pair_info.price_decimals), a.round_dp(pair_info.price_decimals)),
            ),
        )
    }

    /// Computes the order quantity in the base asset for a mid price. `None` on overflow. The
    /// quantity meets the pair's minimums, wherever they can be met.
    pub fn compute_qty(
        &self,
        mid: Decimal,
        config: &TradingConfig,
        pair_info: &PairInfo,
    ) -> (r: Option<Decimal>)
        ensures
            r == order_qty(mid, config.order_size_usd, pair_info@),
            r is Some && minimums_can_be_met(mid, pair_info@) ==> !less(
                r.unwrap(),
                pair_info.min_order_qty,
            ) && worth_at_least(r.unwrap(), mid, pair_info.min_cost),
    {
        proof {
            use_type_invariant(&mid);
            use_type_invariant(&config.order_size_usd);
            use_type_invariant(&pair_info.min_order_qty);
            use_type_invariant(&pair_info.min_cost);
            if minimums_can_be_met(mid, pair_info@) {
                quantities_meet_the_minimums(mid, config.order_size_usd, pair_info@);
            }
        }
        if mid.is_zero() {
            return Some(Decimal::zero());
        }
        let mut qty = config.order_size_usd.checked_div(mid)?.round_dp(pair_info.qty_decimals);
        if qty < pair_info.min_order_qty {
            qty = pair_info.min_order_qty;
        }
        let value = qty.checked_mul(mid)?;
        if value < pair_info.min_cost {
            let need = pair_info.min_cost.checked_div(mid)?;
            return plus(
                Some(need.round_dp(pair_info.qty_decimals)),
                Decimal::try_new(1, pair_info.qty_decimals),
            );
        }
        Some(qty)
    }

    /// Whether the mid has moved enough to warrant requoting. `None` on overflow.
    pub fn should_requote(&self, mid: Decimal, config: &TradingConfig) -> (r: Option<bool>)
        ensures
            r == (match self@.last_mid {
                None => Some(true),
                Some(last) => moved_beyond(last, mid, config.requote_threshold_pct),
            }),
    {
        match self.last_mid {
            None => Some(true),
            Some(last) => has_moved(last, mid, config.requote_threshold_pct),
        }
    }

    /// Records that a bid and an ask have been sent.
    pub fn mark_pending(&mut self, mid: Decimal, bid_id: String, ask_id: String, timestamp: Timestamp)
        ensures
            final(self)@ == old(self)@.pending(mid, bid_id@, ask_id@, timestamp),
    {
        self.bid_cl_ord_id = Some(bid_id);
        self.ask_cl_ord_id = Some(ask_id);
        self.last_mid = Some(mid);
        self.last_quote_time = Some(timestamp);
        self.state = QuoteState::Pending;
    }

    /// Records that the bid is filled.
    pub fn mark_bid_filled(&mut self)
        ensures
            final(self)@ == old(self)@.bid_filled(),
    {
        self.bid_cl_ord_id = None;
        if self.ask_cl_ord_id.is_none() {
            self.state = QuoteState::Idle;
        } else if self.state != QuoteState::Pending {
            self.state = QuoteState::BidFilled;
        }
    }

    /// Records that the ask is filled.
    pub fn mark_ask_filled(&mut self)
        ensures
            final(self)@ == old(self)@.ask_filled(),
    {
        self.ask_cl_ord_id = None;
        if self.bid_cl_ord_id.is_none() {
            self.state = QuoteState::Idle;
        } else if self.state != QuoteState::Pending {
            self.state = QuoteState::AskFilled;
        }
    }

    /// Records that an order is cancelled.
    pub fn mark_cancelled(&mut self, cl_ord_id: &str)
        ensures
            final(self)@ == old(self)@.cancelled(cl_ord_id@),
    {
        if opt_is(&self.bid_cl_ord_id, cl_ord_id) {
            self.bid_cl_ord_id = None;
        }
        if opt_is(&self.ask_cl_ord_id, cl_ord_id) {
            self.ask_cl_ord_id = None;
        }
        if self.bid_cl_ord_id.is_none() && self.ask_cl_ord_id.is_none() {
            self.state = QuoteState::Idle;
            self.last_mid = None;
        }
    }

    /// Transition from pending to the correct active state once all orders are acknowledged.
    pub fn try_transition_from_pending(&mut self, all_acked: bool)
        ensures
            final(self)@ == old(self)@.settled(all_acked),
    {
        if self.state != QuoteState::Pending || !all_acked {
            return;
        }
        self.state = match (self.bid_cl_ord_id.is_some(), self.ask_cl_ord_id.is_some()) {
            (true, true) => QuoteState::Quoting,
            (true, false) => QuoteState::AskFilled,
            (false, true) => QuoteState::BidFilled,
            (false, false) => QuoteState::Idle,
        };
    }

    /// Drops both orders and the reference price.
    pub fn reset(&mut self)
        ensures
            final(self)@ == old(self)@.reset(),
    {
        self.bid_cl_ord_id = None;
        self.ask_cl_ord_id = None;
        self.state = QuoteState::Idle;
        self.last_mid = None;
    }
}

impl QuoterView {
    /// Whether the pair is idle exactly when it has no order on either side.
    pub open spec fn coherent(self) -> bool {
        (self.state == QuoteState::Idle) == (self.bid is None && self.ask is None)
    }
}

/// A pair is idle exactly when it has no orders, whatever happens to them.
pub proof fn idle_means_no_orders(
    q: QuoterView,
    mid: Decimal,
    bid: Seq<char>,
    ask: Seq<char>,
    at: Timestamp,
    id: Seq<char>,
    all_acked: bool,
)
    requires
        q.coherent(),
    ensures
        QuoterView::idle(q.pair).coherent(),
        q.reset().coherent(),
        q.pending(mid, bid, ask, at).coherent(),
        q.bid_filled().coherent(),
        q.ask_filled().coherent(),
        q.cancelled(id).coherent(),
        q.settled(all_acked).coherent(),
{
}

/// Once all orders are acknowledged a pair is no longer pending, and learning it again changes
/// nothing.
pub proof fn acknowledged_pairs_are_settled(q: QuoterView)
    ensures
        q.settled(true).state != QuoteState::Pending,
        q.settled(true).settled(true) == q.settled(true),
        q.settled(true).bid == q.bid,
        q.settled(true).ask == q.ask,
{
}

proof fn lemma_lifted_valid(a: Option<Decimal>, b: Option<Decimal>)
    requires
        a matches Some(x) ==> x.valid(),
        b matches Some(y) ==> y.valid(),
    ensures
        plus(a, b) matches Some(r) ==> r.valid(),
        minus(a, b) matches Some(r) ==> r.valid(),
        times(a, b) matches Some(r) ==> r.valid(),
        over(a, b) matches Some(r) ==> r.valid(),
{
    if let (Some(x), Some(y)) = (a, b) {
        results_are_valid(x, y);
    }
}

/// Quotes never cross the book: the bid stays below the best ask and the ask above the best bid,
/// as long as a tick can be added to and taken from those without loss.
pub proof fn quotes_do_not_cross(
    best_bid: Decimal,
    best_ask: Decimal,
    mid: Decimal,
    skew: Decimal,
    config: TradingConfig,
    info: PairInfoView,
)
    requires
        best_bid.valid(),
        best_ask.valid(),
        mid.valid(),
        skew.valid(),
        config.spread_capture_pct.valid(),
    ensures
        quotes(best_bid, best_ask, mid, skew, config, info) matches Some(Some(q)) ==> {
            &&& q.0.valid() && q.1.valid()
            &&& tick_fits(best_ask, info.price_decimals as nat) ==> less(q.0, best_ask)
            &&& tick_fits(best_bid, info.price_decimals as nat) ==> less(best_bid, q.1)
        },
{
    if let Some(Some(q)) = quotes(best_bid, best_ask, mid, skew, config, info) {
        let dp = info.price_decimals;
        let spread = spread_fraction(best_bid, best_ask, mid);
        lemma_of(2, 0);
        lemma_of(3, 1);
        lemma_of(1, 0);
        lemma_lifted_valid(Some(best_ask), Some(best_bid));
        lemma_lifted_valid(minus(Some(best_ask), Some(best_bid)), Some(mid));
        let caught = times(spread, Some(config.spread_capture_pct));
        lemma_lifted_valid(spread, Some(config.spread_capture_pct));
        let two = Some(Decimal::of(2, 0));
        lemma_lifted_valid(caught, two);
        let half = over(caught, two);
        lemma_lifted_valid(Some(skew), half);
        lemma_lifted_valid(times(Some(skew), half), Some(Decimal::of(3, 1)));
        let shift = times(times(Some(skew), half), Some(Decimal::of(3, 1)));
        lemma_lifted_valid(half, shift);
        let one = Some(Decimal::of(1, 0));
        lemma_lifted_valid(one, minus(half, shift));
        lemma_lifted_valid(one, plus(half, shift));
        lemma_lifted_valid(Some(mid), minus(one, minus(half, shift)));
        lemma_lifted_valid(Some(mid), plus(one, plus(half, shift)));
        let b = times(Some(mid), minus(one, minus(half, shift))).unwrap();
        let a = times(Some(mid), plus(one, plus(half, shift))).unwrap();
        lemma_of(1, dp as nat);
        lemma_lifted_valid(Some(best_ask), tick(dp));
        lemma_lifted_valid(Some(best_bid), tick(dp));
        let cap = minus(Some(best_ask), tick(dp)).unwrap();
        let floor = plus(Some(best_bid), tick(dp)).unwrap();
        order_is_total(b, cap, cap);
        order_is_total(a, floor, floor);
        rounding_moves_half_a_tick_at_most(smaller(b, cap), dp as nat);
        rounding_moves_half_a_tick_at_most(larger(a, floor), dp as nat);
        if tick_fits(best_ask, dp as nat) {
            rounding_does_not_reach_up(smaller(b, cap), best_ask, cap, dp as nat);
        }
        if tick_fits(best_bid, dp as nat) {
            rounding_does_not_reach_down(larger(a, floor), best_bid, floor, dp as nat);
        }
    }
}

/// Half of the spread that is captured, as a fraction of the mid price. `None` on overflow.
pub open spec fn half_capture(
    best_bid: Decimal,
    best_ask: Decimal,
    mid: Decimal,
    capture: Decimal,
) -> Option<Decimal> {
    over(
        times(spread_fraction(best_bid, best_ask, mid), Some(capture)),
        Some(Decimal::of(2, 0)),
    )
}

proof fn lemma_half_is_not_negative(
    best_bid: Decimal,
    best_ask: Decimal,
    mid: Decimal,
    capture: Decimal,
)
    requires
        best_bid.valid(),
        best_ask.valid(),
        mid.valid(),
        capture.valid(),
        mid.m() > 0,
        !less(best_ask, best_bid),
        capture.m() >= 0,
    ensures
        half_capture(best_bid, best_ask, mid, capture) matches Some(half) ==> half.valid()
            && half.m() >= 0,
{
    let two = Decimal::of(2, 0);
    lemma_of(2, 0);
    less_is_by_units(best_ask, best_bid);
    if let Some(gap) = difference(best_ask, best_bid) {
        results_are_valid(best_ask, best_bid);
        differences_keep_signs(best_ask, best_bid);
        if let Some(spread) = quotient(gap, mid) {
            results_are_valid(gap, mid);
            quotients_keep_signs(gap, mid);
            if let Some(captured) = product(spread, capture) {
                results_are_valid(spread, capture);
                products_keep_signs(spread, capture);
                results_are_valid(captured, two);
                quotients_keep_signs(captured, two);
            }
        }
    }
}

/// The shift of the quotes by the skew. `None` on overflow.
pub open spec fn skew_shift(skew: Decimal, half: Decimal) -> Option<Decimal> {
    times(times(Some(skew), Some(half)), Some(Decimal::of(3, 1)))
}

proof fn lemma_shift_grows(s1: Decimal, s2: Decimal, half: Decimal)
    requires
        s1.valid(),
        s2.valid(),
        half.valid(),
        half.m() >= 0,
        units(s1) <= units(s2),
    ensures
        skew_shift(s1, half) matches Some(x) ==> x.valid(),
        skew_shift(s2, half) matches Some(y) ==> y.valid(),
        skew_shift(s1, half) matches Some(x) ==> (skew_shift(s2, half) matches Some(y) ==> units(x)
            <= units(y)),
{
    let three = Decimal::of(3, 1);
    lemma_of(3, 1);
    results_are_valid(s1, half);
    results_are_valid(s2, half);
    products_are_monotone(half, s1, s2);
    if let Some(x) = product(s1, half) {
        results_are_valid(x, three);
        if let Some(y) = product(s2, half) {
            products_are_monotone(three, x, y);
        }
    }
    if let Some(y) = product(s2, half) {
        results_are_valid(y, three);
    }
}

/// The bid around mid with a given shift, before the book is looked at. `None` on overflow.
pub open spec fn shifted_bid(mid: Decimal, half: Decimal, shift: Decimal) -> Option<Decimal> {
    times(Some(mid), minus(Some(Decimal::of(1, 0)), minus(Some(half), Some(shift))))
}

/// The ask around mid with a given shift, before the book is looked at. `None` on overflow.
pub open spec fn shifted_ask(mid: Decimal, half: Decimal, shift: Decimal) -> Option<Decimal> {
    times(Some(mid), plus(Some(Decimal::of(1, 0)), plus(Some(half), Some(shift))))
}

proof fn lemma_bid_grows(mid: Decimal, half: Decimal, x: Decimal, y: Decimal)
    requires
        mid.valid(),
        half.valid(),
        x.valid(),
        y.valid(),
        mid.m() > 0,
        units(x) <= units(y),
    ensures
        shifted_bid(mid, half, x) matches Some(b) ==> b.valid(),
        shifted_bid(mid, half, y) matches Some(b) ==> b.valid(),
        shifted_bid(mid, half, x) matches Some(b) ==> (shifted_bid(mid, half, y) matches Some(c)
            ==> units(b) <= units(c)),
{
    let one = Decimal::of(1, 0);
    lemma_of(1, 0);
    results_are_valid(half, x);
    results_are_valid(half, y);
    if let Some(d) = difference(half, x) {
        results_are_valid(one, d);
        if let Some(f) = difference(one, d) {
            results_are_valid(mid, f);
        }
    }
    if let Some(e) = difference(half, y) {
        results_are_valid(one, e);
        if let Some(g) = difference(one, e) {
            results_are_valid(mid, g);
        }
    }
    if shifted_bid(mid, half, x) is Some && shifted_bid(mid, half, y) is Some {
        let d = difference(half, x).unwrap();
        let e = difference(half, y).unwrap();
        differences_are_monotone(half, x, y);
        let f = difference(one, d).unwrap();
        let g = difference(one, e).unwrap();
        differences_are_monotone(one, e, d);
        products_are_monotone(mid, f, g);
    }
}

proof fn lemma_ask_grows(mid: Decimal, half: Decimal, x: Decimal, y: Decimal)
    requires
        mid.valid(),
        half.valid(),
        x.valid(),
        y.valid(),
        mid.m() > 0,
        units(x) <= units(y),
    ensures
        shifted_ask(mid, half, x) matches Some(b) ==> b.valid(),
        shifted_ask(mid, half, y) matches Some(b) ==> b.valid(),
        shifted_ask(mid, half, x) matches Some(b) ==> (shifted_ask(mid, half, y) matches Some(c)
            ==> units(b) <= units(c)),
{
    let one = Decimal::of(1, 0);
    lemma_of(1, 0);
    results_are_valid(half, x);
    results_are_valid(half, y);
    if let Some(d) = sum(half, x) {
        results_are_valid(one, d);
        if let Some(f) = sum(one, d) {
            results_are_valid(mid, f);
        }
    }
    if let Some(e) = sum(half, y) {
        results_are_valid(one, e);
        if let Some(g) = sum(one, e) {
            results_are_valid(mid, g);
        }
    }
    if shifted_ask(mid, half, x) is Some && shifted_ask(mid, half, y) is Some {
        let d = sum(half, x).unwrap();
        let e = sum(half, y).unwrap();
        sums_are_monotone(half, x, y);
        let f = sum(one, d).unwrap();
        let g = sum(one, e).unwrap();
        sums_are_monotone(one, d, e);
        products_are_monotone(mid, f, g);
    }
}

/// Holding prices back from the book and rounding them keeps their order.
proof fn lemma_bounded(x: Decimal, y: Decimal, bound: Decimal, dp: nat)
    requires
        x.valid(),
        y.valid(),
        bound.valid(),
        units(x) <= units(y),
    ensures
        !less(rounded(smaller(y, bound), dp), rounded(smaller(x, bound), dp)),
        !less(rounded(larger(y, bound), dp), rounded(larger(x, bound), dp)),
{
    less_is_by_units(bound, x);
    less_is_by_units(bound, y);
    less_is_by_units(x, bound);
    less_is_by_units(y, bound);
    less_is_by_units(smaller(y, bound), smaller(x, bound));
    less_is_by_units(larger(y, bound), larger(x, bound));
    rounding_is_monotone(smaller(x, bound), smaller(y, bound), dp);
    rounding_is_monotone(larger(x, bound), larger(y, bound), dp);
}

/// What quotes are made of, where there are some.
pub proof fn lemma_quotes_from(
    best_bid: Decimal,
    best_ask: Decimal,
    mid: Decimal,
    skew: Decimal,
    config: TradingConfig,
    info: PairInfoView,
)
    requires
        quotes(best_bid, best_ask, mid, skew, config, info) matches Some(Some(_)),
    ensures
        ({
            let p = quotes(best_bid, best_ask, mid, skew, config, info).unwrap().unwrap();
            let half = half_capture(best_bid, best_ask, mid, config.spread_capture_pct);
            let dp = info.price_decimals as nat;
            let t = Decimal::of(1, dp);
            &&& half is Some
            &&& skew_shift(skew, half.unwrap()) matches Some(x)
            &&& shifted_bid(mid, half.unwrap(), x) matches Some(b)
            &&& shifted_ask(mid, half.unwrap(), x) matches Some(a)
            &&& dp <= MAX_SCALE
            &&& difference(best_ask, t) matches Some(cap)
            &&& sum(best_bid, t) matches Some(floor)
            &&& p == (rounded(smaller(b, cap), dp), rounded(larger(a, floor), dp))
        }),
{
}

/// A larger skew raises both prices, or leaves them: with more wish to buy the bid comes closer to
/// mid and the ask goes further away.
pub proof fn larger_skews_raise_both_prices(
    best_bid: Decimal,
    best_ask: Decimal,
    mid: Decimal,
    s1: Decimal,
    s2: Decimal,
    config: TradingConfig,
    info: PairInfoView,
)
    requires
        best_bid.valid(),
        best_ask.valid(),
        mid.valid(),
        s1.valid(),
        s2.valid(),
        config.spread_capture_pct.valid(),
        mid.m() > 0,
        !less(best_ask, best_bid),
        config.spread_capture_pct.m() >= 0,
        !less(s2, s1),
    ensures
        quotes(best_bid, best_ask, mid, s1, config, info) matches Some(Some(p)) ==> (quotes(
            best_bid,
            best_ask,
            mid,
            s2,
            config,
            info,
        ) matches Some(Some(q)) ==> !less(q.0, p.0) && !less(q.1, p.1)),
{
    if quotes(best_bid, best_ask, mid, s1, config, info) matches Some(Some(_)) && quotes(
        best_bid,
        best_ask,
        mid,
        s2,
        config,
        info,
    ) matches Some(Some(_)) {
        lemma_quotes_from(best_bid, best_ask, mid, s1, config, info);
        lemma_quotes_from(best_bid, best_ask, mid, s2, config, info);
        less_is_by_units(s2, s1);
        let capture = config.spread_capture_pct;
        let half = half_capture(best_bid, best_ask, mid, capture).unwrap();
        lemma_half_is_not_negative(best_bid, best_ask, mid, capture);
        let x = skew_shift(s1, half).unwrap();
        let y = skew_shift(s2, half).unwrap();
        lemma_shift_grows(s1, s2, half);
        lemma_bid_grows(mid, half, x, y);
        lemma_ask_grows(mid, half, x, y);
        let dp = info.price_decimals as nat;
        let t = Decimal::of(1, dp);
        lemma_of(1, dp);
        results_are_valid(best_ask, t);
        results_are_valid(best_bid, t);
        lemma_bounded(
            shifted_bid(mid, half, x).unwrap(),
            shifted_bid(mid, half, y).unwrap(),
            difference(best_ask, t).unwrap(),
            dp,
        );
        lemma_bounded(
            shifted_ask(mid, half, x).unwrap(),
            shifted_ask(mid, half, y).unwrap(),
            sum(best_bid, t).unwrap(),
            dp,
        );
    }
}

/// Whether a quantity is worth at least some cost at a mid price, as far as its value can be told.
pub open spec fn worth_at_least(q: Decimal, mid: Decimal, cost: Decimal) -> bool {
    product(q, mid) matches Some(value) ==> !less(value, cost)
}

/// Whether the minimum cost of a pair takes a quantity that leaves room for its decimal places: at
/// most `10^25` of the smallest quantity.
pub open spec fn modest_cost(mid: Decimal, info: PairInfoView) -> bool {
    &&& info.qty_decimals <= 25
    &&& (info.min_cost.m() * pow10(mid.s())) * pow10(info.qty_decimals as nat) <= pow10(25) * (
    mid.m() * pow10(info.min_cost.s()))
}

/// Whether the minimums of a pair can be met: the price is positive, and the minimum cost is not
/// negative and takes a quantity that leaves room for the decimal places.
pub open spec fn minimums_can_be_met(mid: Decimal, info: PairInfoView) -> bool {
    mid.m() > 0 && info.min_cost.m() >= 0 && modest_cost(mid, info)
}

/// A cost divided by the price, rounded and raised by a tick, is worth the cost.
proof fn lemma_raised_is_worth(mid: Decimal, info: PairInfoView, need: Decimal)
    requires
        mid.valid(),
        mid.m() > 0,
        info.min_cost.valid(),
        info.min_cost.m() >= 0,
        modest_cost(mid, info),
        quotient(info.min_cost, mid) == Some(need),
    ensures
        plus(
            Some(rounded(need, info.qty_decimals as nat)),
            tick(info.qty_decimals),
        ) matches Some(q) && q.valid() && units(q) * (mid.m() * pow10(info.min_cost.s())) > (
        info.min_cost.m() * pow10(mid.s())) * pow10(28),
{
    let dp = info.qty_decimals as nat;
    let t = pow10((28 - dp) as nat);
    let z = pow10(28);
    let d = mid.m() * pow10(info.min_cost.s());
    let n = info.min_cost.m() * pow10(mid.s());
    lemma_pow10(0, info.min_cost.s());
    lemma_pow10(0, mid.s());
    lemma_pow10(0, dp);
    lemma_pow10_add(dp, (28 - dp) as nat);
    assert(dp + (28 - dp) as nat == 28);
    lemma_pow10(3, (28 - dp) as nat);
    lemma_pow10(25, 25);
    assert(pow10(3) == 1000 && pow10(25) == 10_000_000_000_000_000_000_000_000 && pow10(28) == 1000
        * pow10(25)) by {
        reveal_with_fuel(pow10, 30);
    }
    assert(d > 0) by (nonlinear_arith)
        requires
            d == mid.m() * pow10(info.min_cost.s()),
            mid.m() > 0,
            pow10(info.min_cost.s()) > 0,
    ;
    assert(n >= 0) by (nonlinear_arith)
        requires
            n == info.min_cost.m() * pow10(mid.s()),
            info.min_cost.m() >= 0,
            pow10(mid.s()) > 0,
    ;
    results_are_valid(info.min_cost, mid);
    quotients_are_near(info.min_cost, mid);
    let u = units(need);
    let nz = n * z;
    let c = pow10(25);
    // The cost takes at most `10^25` ticks.
    assert(nz <= c * t * d) by (nonlinear_arith)
        requires
            nz == n * z,
            n * pow10(dp) <= c * d,
            z == pow10(dp) * t,
            t > 0,
    ;
    let off = magnitude(u * d - nz);
    assert(off * z <= d * (z + 10 * u));
    // So the quotient is at most about that, and off by no more than a quarter of a tick.
    assert(u * d <= nz + off);
    assert(u <= 2 * (c * t) + 2) by (nonlinear_arith)
        requires
            off * z <= d * (z + 10 * u),
            u * d <= nz + off,
            nz <= c * t * d,
            z >= 1000,
            d > 0,
            u >= 0,
    ;
    assert(4 * off <= d * t) by (nonlinear_arith)
        requires
            off * z <= d * (z + 10 * u),
            u <= 2 * (c * t) + 2,
            z == 1000 * c,
            c >= 1000,
            t >= 1000,
            d > 0,
    ;
    rounding_moves_half_a_tick_at_most(need, dp);
    let r = rounded(need, dp);
    let one = Decimal::of(1, dp);
    lemma_of(1, dp);
    assert(r.s() <= dp) by {
        lemma_rounded_scale(need, dp);
    }
    lemma_units_at(r, dp);
    lemma_at_own_scale(one);
    let m = mantissa_at(r, dp);
    assert(-2 * c - 10 <= m <= 2 * c + 10) by (nonlinear_arith)
        requires
            m * t == units(r),
            -t <= 2 * (units(r) - u) <= t,
            0 <= u <= 2 * (c * t) + 2,
            t >= 1000,
            c >= 1000,
    ;
    exact_sum_adds_units(r, one);
    let q = sum(r, one).unwrap();
    assert(units(one) == t) by {
        assert(1 * t == t);
    }
    let uq = units(q);
    assert(2 * uq >= 2 * u + t);
    assert(uq * d > nz) by (nonlinear_arith)
        requires
            2 * uq >= 2 * u + t,
            u * d >= nz - off,
            4 * off <= d * t,
            d > 0,
            t > 0,
    ;
}

/// A quantity that is worth a cost as a number has a value of at least that.
proof fn lemma_worth_shows(q: Decimal, mid: Decimal, value: Decimal, cost: Decimal)
    requires
        q.valid(),
        mid.valid(),
        cost.valid(),
        product(q, mid) == Some(value),
    ensures
        units(q) * (mid.m() * pow10(cost.s())) >= (cost.m() * pow10(mid.s())) * pow10(28) ==> !less(
            value,
            cost,
        ),
{
    let z = pow10(28);
    let wm = pow10((28 - mid.s()) as nat);
    let wc = pow10((28 - cost.s()) as nat);
    let pm = pow10(mid.s());
    let pc = pow10(cost.s());
    lemma_pow10(0, 28);
    lemma_pow10(0, 56);
    lemma_pow10(0, (28 - mid.s()) as nat);
    lemma_pow10(0, (28 - cost.s()) as nat);
    lemma_pow10_add(mid.s(), (28 - mid.s()) as nat);
    lemma_pow10_add(cost.s(), (28 - cost.s()) as nat);
    lemma_pow10_add(28, 28);
    assert(mid.s() + (28 - mid.s()) as nat == 28);
    assert(cost.s() + (28 - cost.s()) as nat == 28);
    products_are_closest(q, mid);
    less_is_by_units(value, cost);
    let x = units(q);
    let m = mid.m();
    let c = cost.m();
    let v = x * units(mid);
    let w = units(cost) * z;
    if x * (m * pc) >= (c * pm) * z {
        let k = wm * wc;
        assert(k > 0) by (nonlinear_arith)
            requires
                k == wm * wc,
                wm > 0,
                wc > 0,
        ;
        assert((x * (m * pc)) * k == v * z) by (nonlinear_arith)
            requires
                v == x * (m * wm),
                z == pc * wc,
                k == wm * wc,
        ;
        assert(((c * pm) * z) * k == w * z) by (nonlinear_arith)
            requires
                w == (c * wc) * z,
                z == pm * wm,
                k == wm * wc,
        ;
        assert(v >= w) by (nonlinear_arith)
            requires
                (x * (m * pc)) * k == v * z,
                ((c * pm) * z) * k == w * z,
                x * (m * pc) >= (c * pm) * z,
                k > 0,
                z > 0,
        ;
        decimals_are_closest_to_themselves(cost);
        closest_goes_by_the_fraction(units(cost), z, z);
        closest_is_monotone(w, v, pow10(56));
    }
}

proof fn lemma_rounded_scale(a: Decimal, dp: nat)
    requires
        a.valid(),
        dp <= MAX_SCALE,
    ensures
        rounded(a, dp).s() <= dp,
{
    if a.s() > dp {
        rounded_parts(a, dp);
    }
}

/// Order quantities meet the pair's minimums, wherever they can be met: they are never below the
/// minimum quantity, and worth the minimum cost.
pub proof fn quantities_meet_the_minimums(mid: Decimal, order_size: Decimal, info: PairInfoView)
    requires
        mid.valid(),
        order_size.valid(),
        info.min_order_qty.valid(),
        info.min_cost.valid(),
        minimums_can_be_met(mid, info),
    ensures
        order_qty(mid, order_size, info) matches Some(q) ==> q.valid() && !less(
            q,
            info.min_order_qty,
        ) && worth_at_least(q, mid, info.min_cost),
{
    if let Some(q) = order_qty(mid, order_size, info) {
        let dp = info.qty_decimals as nat;
        let raw = quotient(order_size, mid).unwrap();
        results_are_valid(order_size, mid);
        rounding_moves_half_a_tick_at_most(raw, dp);
        let plain = plain_qty(mid, order_size, info).unwrap();
        order_is_total(info.min_order_qty, info.min_order_qty, info.min_order_qty);
        results_are_valid(plain, mid);
        let value = product(plain, mid).unwrap();
        lemma_worth_shows(plain, mid, value, info.min_cost);
        if less(value, info.min_cost) {
            let need = quotient(info.min_cost, mid).unwrap();
            lemma_raised_is_worth(mid, info, need);
            if let Some(v) = product(q, mid) {
                lemma_worth_shows(q, mid, v, info.min_cost);
            }
            let d = mid.m() * pow10(info.min_cost.s());
            lemma_pow10(0, info.min_cost.s());
            assert(d > 0) by (nonlinear_arith)
                requires
                    d == mid.m() * pow10(info.min_cost.s()),
                    mid.m() > 0,
                    pow10(info.min_cost.s()) > 0,
            ;
            let x = units(plain);
            let y = units(q);
            assert(x < y) by (nonlinear_arith)
                requires
                    x * d < y * d,
                    d > 0,
            ;
            less_is_by_units(q, info.min_order_qty);
            less_is_by_units(plain, info.min_order_qty);
        }
    }
}

} // verus!
