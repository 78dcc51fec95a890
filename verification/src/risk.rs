//! Limits: the kill switch, the exposure limits and the exchange's rate limit.
use crate::collections::{Dup, Entries, StrMap};
use crate::config::RiskConfig;
use crate::decimal::{lemma_of, lemma_pow10, less, plus, pow10, product, Decimal};
use crate::decimal_laws::order_is_total;
use crate::state::{exposure, position_of, BotState, BotStateView, TrackedOrderView};
use crate::text::{decimal_text, str_eq};
use crate::types::OrderSide;
use vstd::prelude::*;

verus! {

/// Tracks whether the kill switch has been triggered.
#[derive(Clone, Debug)]
pub struct KillSwitch {
    pub triggered: bool,
    pub reason: String,
}

/// Model of [`KillSwitch`].
#[verifier::ext_equal]
pub struct KillSwitchView {
    pub triggered: bool,
    pub reason: Seq<char>,
}

impl View for KillSwitch {
    type V = KillSwitchView;

    open spec fn view(&self) -> KillSwitchView {
        KillSwitchView { triggered: self.triggered, reason: self.reason@ }
    }
}

/// Why the kill switch fired.
pub open spec fn loss_reason(pnl: Decimal, threshold: Decimal) -> Seq<char> {
    "Realized P&L "@ + decimal_text(pnl.m(), pnl.s()) + " < threshold "@ + decimal_text(
        threshold.m(),
        threshold.s(),
    )
}

impl KillSwitchView {
    /// The switch after the realized profit is checked: it fires below the threshold and stays
    /// fired.
    pub open spec fn checked(self, realized_pnl: Decimal, threshold: Decimal) -> KillSwitchView {
        if !self.triggered && less(realized_pnl, threshold) {
            KillSwitchView { triggered: true, reason: loss_reason(realized_pnl, threshold) }
        } else {
            self
        }
    }
}

impl KillSwitch {
    /// Checks the realized profit and returns whether the switch is triggered.
    pub fn check(&mut self, realized_pnl: Decimal, config: &RiskConfig) -> (r: bool)
        ensures
            final(self)@ == old(self)@.checked(realized_pnl, config.kill_switch_loss_usd),
            r == final(self)@.triggered,
    {
        if self.triggered {
            return true;
        }
        if realized_pnl < config.kill_switch_loss_usd {
            self.triggered = true;
            self.reason = String::from_str("Realized P&L ").concat(realized_pnl.to_text().as_str())
                .concat(" < threshold ").concat(config.kill_switch_loss_usd.to_text().as_str());
            return true;
        }
        false
    }
}

impl Dup for KillSwitch {
    fn dup(&self) -> (r: KillSwitch) {
        KillSwitch { triggered: self.triggered, reason: self.reason.clone() }
    }
}

impl Default for KillSwitch {
    fn default() -> (r: KillSwitch)
        ensures
            r@ == (KillSwitchView { triggered: false, reason: Seq::empty() }),
    {
        KillSwitch { triggered: false, reason: String::new() }
    }
}

/// Once triggered, the kill switch stays triggered for the same reason, whatever the profit.
pub proof fn kill_switch_stays_triggered(k: KillSwitchView, pnl: Decimal, threshold: Decimal)
    requires
        k.triggered,
    ensures
        k.checked(pnl, threshold) == k,
{
}

/// Whether an order commits funds to a pair: a tracked buy of it.
pub open spec fn is_buy_of(o: TrackedOrderView, pair: Seq<char>) -> bool {
    o.pair == pair && o.side == OrderSide::Buy
}

/// The value of the tracked buys, of one pair or of all; `None` on overflow.
pub open spec fn committed(orders: Entries<TrackedOrderView>, pair: Option<Seq<char>>) -> Option<
    Decimal,
>
    decreases orders.len(),
{
    if orders.len() == 0 {
        Some(Decimal::of(0, 0))
    } else {
        let before = committed(orders.drop_last(), pair);
        let o = orders.last().1;
        let counts = match pair {
            Some(p) => is_buy_of(o, p),
            None => o.side == OrderSide::Buy,
        };
        if counts {
            plus(before, product(o.price, o.qty))
        } else {
            before
        }
    }
}

/// Whether `limit` is exceeded by what is held, what is committed and what is to be added;
/// `None` on overflow.
pub open spec fn exceeds(
    held: Option<Decimal>,
    pending: Option<Decimal>,
    size: Decimal,
    limit: Decimal,
) -> Option<bool> {
    match plus(plus(held, pending), Some(size)) {
        Some(total) => Some(less(limit, total)),
        None => None,
    }
}

/// Whether a buy of `size` is within both limits: that of the pair and that of the whole book.
/// Buys that are tracked but not filled count as held. `None` on overflow.
pub open spec fn buy_allowed(
    state: BotStateView,
    pair: Seq<char>,
    size: Decimal,
    price: Decimal,
    prices: Entries<Decimal>,
    max_pair: Decimal,
    max_total: Decimal,
) -> Option<bool> {
    let held = product(position_of(state.positions, pair).qty, price);
    match exceeds(held, committed(state.open_orders, Some(pair)), size, max_pair) {
        None => None,
        Some(true) => Some(false),
        Some(false) => {
            match exceeds(
                exposure(state.positions, prices),
                committed(state.open_orders, None),
                size,
                max_total,
            ) {
                None => None,
                Some(over) => Some(!over),
            }
        },
    }
}

fn committed_buys(state: &BotState, pair: Option<&str>) -> (r: Option<Decimal>)
    ensures
        r == committed(
            state@.open_orders,
            match pair {
                Some(p) => Some(p@),
                None => None,
            },
        ),
{
    let ghost which: Option<Seq<char>> = match pair {
        Some(p) => Some(p@),
        None => None,
    };
    let n: usize = state.open_orders.len();
    let mut total: Option<Decimal> = Some(Decimal::zero());
    let mut i: usize = 0;
    let ghost all = state.open_orders@;
    assert(all.take(0).len() == 0);
    while i < n
        invariant
            i <= n == all.len(),
            all == state.open_orders@,
            which == (match pair {
                Some(p) => Some(p@),
                None => None,
            }),
            total == committed(all.take(i as int), which),
        decreases n - i,
    {
        proof {
            assert(all.take(i + 1).drop_last() =~= all.take(i as int));
            assert(all.take(i + 1).last() == all[i as int]);
        }
        let o = state.open_orders.value_at(i);
        let of_pair = match pair {
            Some(p) => str_eq(o.pair.as_str(), p),
            None => true,
        };
        if of_pair && o.side == OrderSide::Buy {
            total = plus(total, o.price.checked_mul(o.qty));
        }
        i = i + 1;
    }
    assert(all.take(n as int) =~= all);
    total
}

/// Whether opening a new buy is allowed by the risk limits. Buy orders in flight count as
/// exposure, which prevents over-buying before their fills arrive. `None` on overflow.
pub fn can_open_buy(
    state: &BotState,
    pair: &str,
    size_usd: Decimal,
    current_price: Decimal,
    prices: &StrMap<Decimal>,
    config: &RiskConfig,
) -> (r: Option<bool>)
    ensures
        r == buy_allowed(
            state@,
            pair@,
            size_usd,
            current_price,
            prices@,
            config.max_inventory_usd,
            config.max_total_exposure_usd,
        ),
{
    let pending = committed_buys(state, Some(pair));
    let held = state.pair_exposure_usd(pair, current_price);
    let total = plus(plus(held, pending), Some(size_usd))?;
    if total > config.max_inventory_usd {
        return Some(false);
    }
    let pending_all = committed_buys(state, None);
    let held_all = state.total_exposure_usd(prices);
    let total_all = plus(plus(held_all, pending_all), Some(size_usd))?;
    Some(!(total_all > config.max_total_exposure_usd))
}

/// How close the exchange's rate limit is.
#[derive(Clone, Copy, Debug, PartialEq, Eq, Structural)]
pub enum RateStatus {
    Okay,
    Warn,
    Block,
}

/// Tracks the exchange's rate limit counter.
#[derive(Clone, Copy, Debug)]
pub struct RateLimiter {
    pub counter: Decimal,
    pub max: u32,
}

/// Whether `counter` is at `percent` percent of `max` or above; with no maximum, whether it is
/// above zero.
pub open spec fn at_percent(counter: Decimal, max: u32, percent: int) -> bool {
    if max == 0 {
        counter.m() > 0
    } else {
        !less(counter, Decimal::of(percent * max, 2))
    }
}

/// The status of a counter: block from 95 percent on, warn from 75 percent on.
pub open spec fn rate_status(counter: Decimal, max: u32) -> RateStatus {
    if at_percent(counter, max, 95) {
        RateStatus::Block
    } else if at_percent(counter, max, 75) {
        RateStatus::Warn
    } else {
        RateStatus::Okay
    }
}

impl RateLimiter {
    /// A limiter with the counter at zero.
    pub fn new(config: &RiskConfig) -> (r: RateLimiter)
        ensures
            r.counter == Decimal::of(0, 0),
            r.max == config.rate_limit_max_counter,
    {
        RateLimiter { counter: Decimal::zero(), max: config.rate_limit_max_counter }
    }

    /// Records the counter the exchange reports.
    pub fn update(&mut self, counter: Decimal)
        ensures
            final(self).counter == counter,
            final(self).max == old(self).max,
    {
        self.counter = counter;
    }

    fn at_least(&self, percent: i64) -> (r: bool)
        requires
            0 <= percent <= 100,
        ensures
            r == at_percent(self.counter, self.max, percent as int),
    {
        if self.max == 0 {
            self.counter.mantissa() > 0
        } else {
            assert(0 <= percent * self.max <= 100 * 0xffff_ffff) by (nonlinear_arith)
                requires
                    0 <= percent <= 100,
                    0 <= self.max <= 0xffff_ffff,
            ;
            self.counter >= Decimal::new(percent * (self.max as i64), 2)
        }
    }

    /// How close the counter is to its maximum.
    pub fn status(&self) -> (r: RateStatus)
        ensures
            r == rate_status(self.counter, self.max),
    {
        if self.at_least(95) {
            RateStatus::Block
        } else if self.at_least(75) {
            RateStatus::Warn
        } else {
            RateStatus::Okay
        }
    }
}

/// A counter at zero is never a reason to warn or block.
pub proof fn fresh_limiter_is_ok(max: u32)
    ensures
        rate_status(Decimal::of(0, 0), max) == RateStatus::Okay,
{
    lemma_of(0, 0);
    if max > 0 {
        lemma_of(95 * max, 2);
        lemma_of(75 * max, 2);
        assert(pow10(0) == 1);
    }
}

/// How serious a status is.
pub open spec fn severity(s: RateStatus) -> int {
    match s {
        RateStatus::Okay => 0,
        RateStatus::Warn => 1,
        RateStatus::Block => 2,
    }
}

/// A higher counter never gives a less serious status.
pub proof fn status_rises_with_the_counter(low: Decimal, high: Decimal, max: u32)
    requires
        low.valid(),
        high.valid(),
        !less(high, low),
    ensures
        severity(rate_status(low, max)) <= severity(rate_status(high, max)),
{
    if max > 0 {
        let a = Decimal::of(95 * max, 2);
        let b = Decimal::of(75 * max, 2);
        lemma_of(95 * max, 2);
        lemma_of(75 * max, 2);
        order_is_total(high, low, a);
        order_is_total(high, low, b);
        order_is_total(high, a, low);
        order_is_total(high, b, low);
        order_is_total(low, high, a);
        order_is_total(low, high, b);
    } else if low.m() > 0 {
        lemma_pow10(0, low.s());
        lemma_pow10(0, high.s());
        let x = pow10(low.s());
        let y = pow10(high.s());
        assert(low.m() * y > 0) by (nonlinear_arith)
            requires
                low.m() > 0,
                y > 0,
        ;
        assert(high.m() > 0) by (nonlinear_arith)
            requires
                high.m() * x > 0,
                x > 0,
        ;
    }
}

} // verus!
