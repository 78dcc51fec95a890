//! What the engine does, as functions on a mathematical model of its state.
//!
//! A step takes the state before and gives the state after together with the commands that are
//! issued; `None` stands for an arithmetic overflow, in which case nothing is done.
use crate::book::BookView;
use crate::collections::{keyed, keys_of, lookup, stored, without, Entries};
use crate::config::Config;
use crate::decimal::{
    larger, less, minus, negated, over, plus, product, raised, smaller, sum, times, truncated,
    Decimal,
};
use crate::events::{ApiAction, CommandView, EngineEvent, StateStoreAction};
use crate::inventory::skew_of;
use crate::order_tracking::ProxyPosition;
use crate::position::{bought, positive, sale_pnl, sold, Position};
use crate::quoter::{moved_beyond, order_qty, quotes, QuoteState, QuoterView};
use crate::risk::{buy_allowed, rate_status, KillSwitchView, RateLimiter, RateStatus};
use crate::state::{position_of, BotStateView, TrackedOrderView};
use crate::text::{as_signed, begins_with, digits, occurs_in};
use crate::time::{later_by, seconds_between, Timestamp};
use crate::types::{
    side_text, FillView, LevelUpdate, OrderRequestView, OrderSide, PairInfoView, TradeRecordView,
};
use vstd::prelude::*;

verus! {

/// Model of the engine's state.
#[verifier::ext_equal]
pub struct EngineView {
    pub config: Config,
    pub books: Entries<BookView>,
    pub quoters: Entries<QuoterView>,
    pub pair_info: Entries<PairInfoView>,
    pub state: BotStateView,
    pub kill_switch: KillSwitchView,
    pub rate_limiter: RateLimiter,
    pub prices: Entries<Decimal>,
    pub disabled: Entries<()>,
    pub sell_only: Entries<()>,
    pub liquidating: Entries<()>,
    pub liq_retries: Entries<u32>,
    pub counter: u64,
    pub last_dms: Option<Timestamp>,
}

/// The outcome of a step: the state after it and the commands issued, or `None` on overflow.
pub type Step = Option<(EngineView, Seq<CommandView>)>;

/// The client order id with a prefix and a number.
pub open spec fn order_id(prefix: Seq<char>, n: nat) -> Seq<char> {
    prefix + "-"@ + digits(n)
}

/// Which tracked orders are meant.
pub enum OrderFilter {
    /// All of a pair.
    OfPair(String),
    /// Those of a pair that are not liquidation sells.
    PlainOfPair(String),
    /// Those of a pair that are liquidation sells.
    LiquidationOfPair(String),
    /// Those placed more than some seconds before a point in time.
    OlderThan { now: Timestamp, secs: u64 },
}

/// Whether an order is a liquidation sell, going by its id.
pub open spec fn is_liquidation(o: TrackedOrderView) -> bool {
    begins_with(o.cl_ord_id, "liq"@)
}

/// The ids of the orders that satisfy a predicate, in order.
pub open spec fn ids_where(
    orders: Entries<TrackedOrderView>,
    f: spec_fn(TrackedOrderView) -> bool,
) -> Seq<Seq<char>>
    decreases orders.len(),
{
    if orders.len() == 0 {
        Seq::empty()
    } else {
        let before = ids_where(orders.drop_last(), f);
        if f(orders.last().1) {
            before.push(orders.last().0)
        } else {
            before
        }
    }
}

/// The predicate for the orders of a pair.
pub open spec fn of_pair(pair: Seq<char>) -> spec_fn(TrackedOrderView) -> bool {
    |o: TrackedOrderView| o.pair == pair
}

/// The predicate for the orders of a pair that are not liquidation sells.
pub open spec fn plain_of_pair(pair: Seq<char>) -> spec_fn(TrackedOrderView) -> bool {
    |o: TrackedOrderView| o.pair == pair && !is_liquidation(o)
}

/// The predicate for the liquidation sells of a pair.
pub open spec fn liquidation_of_pair(pair: Seq<char>) -> spec_fn(TrackedOrderView) -> bool {
    |o: TrackedOrderView| o.pair == pair && is_liquidation(o)
}

/// The predicate for orders older than a number of seconds.
pub open spec fn older_than(now: Timestamp, secs: u64) -> spec_fn(TrackedOrderView) -> bool {
    |o: TrackedOrderView| seconds_between(o.placed_at, now) > as_signed(secs)
}

/// The predicate a filter stands for.
pub open spec fn filter_of(f: OrderFilter) -> spec_fn(TrackedOrderView) -> bool {
    match f {
        OrderFilter::OfPair(pair) => of_pair(pair@),
        OrderFilter::PlainOfPair(pair) => plain_of_pair(pair@),
        OrderFilter::LiquidationOfPair(pair) => liquidation_of_pair(pair@),
        OrderFilter::OlderThan { now, secs } => older_than(now, secs),
    }
}

/// Entries without any of the given keys.
pub open spec fn without_all<T>(s: Entries<T>, ks: Seq<Seq<char>>) -> Entries<T>
    decreases ks.len(),
{
    if ks.len() == 0 {
        s
    } else {
        without(without_all(s, ks.drop_last()), ks.last())
    }
}

/// Entries with each of the given keys in it.
pub open spec fn stored_all(s: Entries<()>, ks: Seq<Seq<char>>) -> Entries<()>
    decreases ks.len(),
{
    if ks.len() == 0 {
        s
    } else {
        stored(stored_all(s, ks.drop_last()), ks.last(), ())
    }
}

/// The command that places an order: a post-only one, or an urgent market order.
pub open spec fn place(
    id: Seq<char>,
    pair: Seq<char>,
    side: OrderSide,
    price: Decimal,
    qty: Decimal,
    market: bool,
) -> CommandView {
    CommandView::PlaceOrder(
        OrderRequestView {
            cl_ord_id: id,
            pair,
            side,
            price,
            qty,
            post_only: !market,
            market,
            urgent: market,
        },
    )
}

/// The command that changes the price of an order.
pub open spec fn amend(id: Seq<char>, price: Decimal) -> CommandView {
    CommandView::AmendOrder { cl_ord_id: id, new_price: Some(price), new_qty: None }
}

/// The command that cancels orders; none if there are none.
pub open spec fn cancel(ids: Seq<Seq<char>>) -> Seq<CommandView> {
    if ids.len() == 0 {
        Seq::empty()
    } else {
        seq![CommandView::CancelOrders(ids)]
    }
}

impl EngineView {
    /// The holding in a pair.
    pub open spec fn position(self, pair: Seq<char>) -> Position {
        position_of(self.state.positions, pair)
    }

    /// The smallest order quantity of a pair; 1 if nothing is known of it.
    pub open spec fn min_qty(self, pair: Seq<char>) -> Decimal {
        match lookup(self.pair_info, pair) {
            Some(i) => i.min_order_qty,
            None => Decimal::of(1, 0),
        }
    }

    /// The smallest order value of a pair; 0.5 if nothing is known of it.
    pub open spec fn min_cost(self, pair: Seq<char>) -> Decimal {
        match lookup(self.pair_info, pair) {
            Some(i) => i.min_cost,
            None => Decimal::of(5, 1),
        }
    }

    /// Decimal places of quantities; 8 if nothing is known of the pair.
    pub open spec fn qty_decimals(self, pair: Seq<char>) -> u32 {
        match lookup(self.pair_info, pair) {
            Some(i) => i.qty_decimals,
            None => 8,
        }
    }

    /// Decimal places of prices; 8 if nothing is known of the pair.
    pub open spec fn price_decimals(self, pair: Seq<char>) -> u32 {
        match lookup(self.pair_info, pair) {
            Some(i) => i.price_decimals,
            None => 8,
        }
    }

    /// The lowest price at the pair's precision at which a sell still makes the minimum profit.
    pub open spec fn cost_floor(self, pair: Seq<char>) -> Option<Decimal> {
        match times(
            Some(self.position(pair).avg_cost),
            plus(Some(Decimal::of(1, 0)), Some(self.config.trading.min_profit_pct)),
        ) {
            Some(c) => Some(raised(c, self.price_decimals(pair) as nat)),
            None => None,
        }
    }

    /// A sell price raised to the cost floor, if the holding has a cost.
    pub open spec fn anchored(self, pair: Seq<char>, price: Decimal) -> Option<Decimal> {
        if self.position(pair).avg_cost.m() == 0 {
            Some(price)
        } else {
            match self.cost_floor(pair) {
                Some(floor) => Some(larger(price, floor)),
                None => None,
            }
        }
    }

    /// How much of a holding can be sold with an order of `qty`: nothing if the holding is below
    /// the exchange's minimums, otherwise the lesser of the two, truncated to the pair's precision.
    pub open spec fn sellable(self, pair: Seq<char>, qty: Decimal, mid: Decimal) -> Option<
        Option<Decimal>,
    > {
        let held = self.position(pair).qty;
        if less(held, self.min_qty(pair)) {
            Some(None)
        } else {
            match product(held, mid) {
                Some(value) => if less(value, self.min_cost(pair)) {
                    Some(None)
                } else {
                    match truncated(smaller(qty, held), self.qty_decimals(pair)) {
                        Some(q) => Some(Some(q)),
                        None => None,
                    }
                },
                None => None,
            }
        }
    }

    /// Whether the risk limits allow a buy worth `size`.
    pub open spec fn may_buy(self, pair: Seq<char>, size: Decimal, mid: Decimal) -> Option<bool> {
        buy_allowed(
            self.state,
            pair,
            size,
            mid,
            self.prices,
            self.config.risk.max_inventory_usd,
            self.config.risk.max_total_exposure_usd,
        )
    }

    /// The same engine with other tracked orders.
    pub open spec fn with_orders(self, open_orders: Entries<TrackedOrderView>) -> EngineView {
        EngineView { state: BotStateView { open_orders, ..self.state }, ..self }
    }

    /// The same engine with another quoter for a pair.
    pub open spec fn with_quoter(self, pair: Seq<char>, q: QuoterView) -> EngineView {
        EngineView { quoters: stored(self.quoters, pair, q), ..self }
    }

    /// A new order is numbered and tracked. `None` if the numbers are used up.
    pub open spec fn tracking(
        self,
        prefix: Seq<char>,
        pair: Seq<char>,
        side: OrderSide,
        price: Decimal,
        qty: Decimal,
        at: Timestamp,
    ) -> Option<(EngineView, Seq<char>)> {
        if self.counter == u64::MAX {
            None
        } else {
            let n = (self.counter + 1) as u64;
            let id = order_id(prefix, n as nat);
            let o = TrackedOrderView {
                cl_ord_id: id,
                pair,
                side,
                price,
                qty,
                placed_at: at,
                acked: false,
            };
            let next = EngineView { counter: n, ..self };
            Some((next.with_orders(stored(self.state.open_orders, id, o)), id))
        }
    }

    /// Whether every order a quoter refers to is acknowledged.
    pub open spec fn acked(self, id: Option<Seq<char>>) -> bool {
        match id {
            Some(i) => match lookup(self.state.open_orders, i) {
                Some(o) => o.acked,
                None => false,
            },
            None => true,
        }
    }

    /// A pending pair moves on if its orders are acknowledged.
    #[verifier::opaque]
    pub open spec fn settle(self, pair: Seq<char>) -> EngineView {
        match lookup(self.quoters, pair) {
            Some(q) => self.with_quoter(pair, q.settled(self.acked(q.bid) && self.acked(q.ask))),
            None => self,
        }
    }

    /// Both quotes of a pair are withdrawn.
    pub open spec fn withdraw(self, pair: Seq<char>) -> (EngineView, Seq<CommandView>) {
        match lookup(self.quoters, pair) {
            Some(q) => {
                let bid = match q.bid {
                    Some(id) => seq![id],
                    None => Seq::empty(),
                };
                let ask = match q.ask {
                    Some(id) => seq![id],
                    None => Seq::empty(),
                };
                let ids = bid + ask;
                (
                    self.with_orders(without_all(self.state.open_orders, ids)).with_quoter(
                        pair,
                        q.reset(),
                    ),
                    cancel(ids),
                )
            },
            None => (self, Seq::empty()),
        }
    }

    /// Every tracked order of a pair is cancelled and its quoter reset.
    pub open spec fn cancel_pair(self, pair: Seq<char>) -> (EngineView, Seq<CommandView>) {
        let quoted = match lookup(self.quoters, pair) {
            Some(q) => self.with_quoter(pair, q.reset()),
            None => self,
        };
        let ids = ids_where(self.state.open_orders, of_pair(pair));
        (quoted.with_orders(without_all(self.state.open_orders, ids)), cancel(ids))
    }

    /// An order is gone: it is no longer tracked and its pair's quoter knows.
    #[verifier::opaque]
    pub open spec fn order_gone(self, id: Seq<char>, pair: Seq<char>) -> EngineView {
        let e = self.with_orders(without(self.state.open_orders, id));
        match lookup(e.quoters, pair) {
            Some(q) => e.with_quoter(pair, q.cancelled(id)),
            None => e,
        }.settle(pair)
    }

    /// A buy, if the limits allow it, as part of fresh quotes.
    pub open spec fn fresh_bid(
        self,
        can_buy: bool,
        pair: Seq<char>,
        price: Decimal,
        qty: Decimal,
        at: Timestamp,
    ) -> Option<(EngineView, Option<Seq<char>>)> {
        if can_buy {
            match self.tracking("bid"@, pair, OrderSide::Buy, price, qty, at) {
                Some((e, id)) => Some((e, Some(id))),
                None => None,
            }
        } else {
            Some((self, None))
        }
    }

    /// A sell, if there is something to sell, as part of fresh quotes.
    pub open spec fn fresh_ask(
        self,
        qty: Option<Decimal>,
        pair: Seq<char>,
        price: Decimal,
        at: Timestamp,
    ) -> Option<(EngineView, Option<Seq<char>>)> {
        match qty {
            Some(q) => match self.tracking("ask"@, pair, OrderSide::Sell, price, q, at) {
                Some((e, id)) => Some((e, Some(id))),
                None => None,
            },
            None => Some((self, None)),
        }
    }

    /// The quoter of a pair after fresh quotes: quoting, unless neither side was placed.
    pub open spec fn quoting(
        self,
        pair: Seq<char>,
        bid: Option<Seq<char>>,
        ask: Option<Seq<char>>,
        mid: Decimal,
        at: Timestamp,
    ) -> EngineView {
        if bid is None && ask is None {
            self
        } else {
            match lookup(self.quoters, pair) {
                Some(q) => self.with_quoter(
                    pair,
                    QuoterView {
                        state: QuoteState::Quoting,
                        last_mid: Some(mid),
                        last_quote_time: Some(at),
                        bid: if bid is Some {
                            bid
                        } else {
                            q.bid
                        },
                        ask: if ask is Some {
                            ask
                        } else {
                            q.ask
                        },
                        ..q
                    },
                ),
                None => self,
            }
        }
    }

    /// Fresh quotes are placed: a bid if the pair may be bought and the limits allow it, an ask if
    /// enough is held, priced at the cost floor or above.
    #[verifier::opaque]
    pub open spec fn fresh_quotes(
        self,
        pair: Seq<char>,
        bid_price: Decimal,
        ask_price: Decimal,
        qty: Decimal,
        mid: Decimal,
        at: Timestamp,
    ) -> Step {
        let value = product(qty, mid);
        let can_buy = match value {
            Some(v) => if keyed(self.sell_only, pair) {
                Some(false)
            } else {
                self.may_buy(pair, v, mid)
            },
            None => None,
        };
        let sell = self.sellable(pair, qty, mid);
        let ask = match sell {
            Some(Some(_)) => self.anchored(pair, ask_price),
            _ => Some(ask_price),
        };
        match (can_buy, sell, ask) {
            (Some(buy), Some(sell_qty), Some(sell_price)) => {
                match self.fresh_bid(buy, pair, bid_price, qty, at) {
                    Some((e1, bid_id)) => match e1.fresh_ask(sell_qty, pair, sell_price, at) {
                        Some((e2, ask_id)) => {
                            let buys = match bid_id {
                                Some(id) => seq![
                                    place(id, pair, OrderSide::Buy, bid_price, qty, false),
                                ],
                                None => Seq::empty(),
                            };
                            let sells = match (ask_id, sell_qty) {
                                (Some(id), Some(q)) => seq![
                                    place(id, pair, OrderSide::Sell, sell_price, q, false),
                                ],
                                _ => Seq::empty(),
                            };
                            Some((e2.quoting(pair, bid_id, ask_id, mid, at), buys + sells))
                        },
                        None => None,
                    },
                    None => None,
                }
            },
            _ => None,
        }
    }

    /// The price of an acknowledged order is changed; any other order is left alone.
    pub open spec fn amended(self, id: Option<Seq<char>>, price: Decimal) -> (
        EngineView,
        Seq<CommandView>,
    ) {
        match id {
            Some(i) => match lookup(self.state.open_orders, i) {
                Some(o) => if o.acked {
                    (
                        self.with_orders(
                            stored(
                                self.state.open_orders,
                                i,
                                TrackedOrderView { price, ..o },
                            ),
                        ),
                        seq![amend(i, price)],
                    )
                } else {
                    (self, Seq::empty())
                },
                None => (self, Seq::empty()),
            },
            None => (self, Seq::empty()),
        }
    }

    /// Both quotes of a pair are moved to new prices, the ask to the cost floor or above.
    #[verifier::opaque]
    pub open spec fn requoted(
        self,
        pair: Seq<char>,
        bid_price: Decimal,
        ask_price: Decimal,
        mid: Decimal,
    ) -> Step {
        match self.anchored(pair, ask_price) {
            Some(ask) => match lookup(self.quoters, pair) {
                Some(q) => {
                    let (e1, c1) = self.amended(q.bid, bid_price);
                    let (e2, c2) = e1.amended(q.ask, ask);
                    Some((e2.with_quoter(pair, QuoterView { last_mid: Some(mid), ..q }), c1 + c2))
                },
                None => Some((self, Seq::empty())),
            },
            None => None,
        }
    }

    /// An order for the open side of a pair whose other side was filled.
    pub open spec fn opened_side(
        self,
        pair: Seq<char>,
        q: QuoterView,
        side: OrderSide,
        price: Decimal,
        qty: Decimal,
        at: Timestamp,
    ) -> Step {
        let prefix = match side {
            OrderSide::Buy => "bid"@,
            OrderSide::Sell => "ask"@,
        };
        match self.tracking(prefix, pair, side, price, qty, at) {
            Some((e, id)) => {
                let q2 = match side {
                    OrderSide::Buy => QuoterView { bid: Some(id), ..q },
                    OrderSide::Sell => QuoterView { ask: Some(id), ..q },
                };
                Some((e.with_quoter(pair, q2), seq![place(id, pair, side, price, qty, false)]))
            },
            None => None,
        }
    }

    /// One side is managed after the other was filled: an order that is there is amended once it
    /// is acknowledged and its price has moved enough; if there is none, one is placed, within the
    /// limits for a buy and out of what is held for a sell.
    #[verifier::opaque]
    pub open spec fn one_side(
        self,
        pair: Seq<char>,
        side: OrderSide,
        raw_price: Decimal,
        qty: Decimal,
        mid: Decimal,
        at: Timestamp,
    ) -> Step {
        let anchored = match side {
            OrderSide::Sell => self.anchored(pair, raw_price),
            OrderSide::Buy => Some(raw_price),
        };
        match (anchored, lookup(self.quoters, pair)) {
            (None, _) => None,
            (Some(_), None) => Some((self, Seq::empty())),
            (Some(price), Some(q)) => {
                let existing = match side {
                    OrderSide::Buy => q.bid,
                    OrderSide::Sell => q.ask,
                };
                match existing {
                    Some(id) => self.nudged(id, price),
                    None => match side {
                        OrderSide::Sell => match self.sellable(pair, qty, mid) {
                            Some(Some(sell_qty)) => self.opened_side(
                                pair,
                                q,
                                side,
                                price,
                                sell_qty,
                                at,
                            ),
                            Some(None) => Some((self, Seq::empty())),
                            None => None,
                        },
                        OrderSide::Buy => if keyed(self.sell_only, pair) {
                            Some((self, Seq::empty()))
                        } else {
                            match product(qty, mid) {
                                Some(value) => match self.may_buy(pair, value, mid) {
                                    Some(true) => self.opened_side(pair, q, side, price, qty, at),
                                    Some(false) => Some((self, Seq::empty())),
                                    None => None,
                                },
                                None => None,
                            }
                        },
                    },
                }
            },
        }
    }

    /// An order is amended if it is acknowledged and its price has moved beyond the threshold.
    pub open spec fn nudged(self, id: Seq<char>, price: Decimal) -> Step {
        match lookup(self.state.open_orders, id) {
            Some(o) => if !o.acked {
                Some((self, Seq::empty()))
            } else {
                match moved_beyond(o.price, price, self.config.trading.requote_threshold_pct) {
                    Some(true) => Some(self.amended(Some(id), price)),
                    Some(false) => Some((self, Seq::empty())),
                    None => None,
                }
            },
            None => Some((self, Seq::empty())),
        }
    }

    /// Whether a pair must not be quoted now, whatever its book looks like.
    pub open spec fn held_back(self, pair: Seq<char>) -> bool {
        ||| keyed(self.disabled, pair)
        ||| keyed(self.state.disabled_pairs, pair)
        ||| keyed(self.state.cooldown_until, pair)
        ||| (keyed(self.sell_only, pair) && !positive(self.position(pair).qty))
        ||| self.kill_switch.triggered
        ||| rate_status(self.rate_limiter.counter, self.rate_limiter.max) == RateStatus::Block
    }

    /// A pair is quoted with given prices, according to where it stands in its cycle.
    #[verifier::opaque]
    pub open spec fn quoted_at(
        self,
        pair: Seq<char>,
        q: QuoterView,
        bid_price: Decimal,
        ask_price: Decimal,
        qty: Decimal,
        mid: Decimal,
        at: Timestamp,
    ) -> Step {
        match q.state {
            QuoteState::Idle => self.fresh_quotes(pair, bid_price, ask_price, qty, mid, at),
            QuoteState::Pending => Some((self, Seq::empty())),
            QuoteState::Quoting => {
                let moved = match q.last_mid {
                    None => Some(true),
                    Some(last) => moved_beyond(
                        last,
                        mid,
                        self.config.trading.requote_threshold_pct,
                    ),
                };
                match moved {
                    Some(true) => self.requoted(pair, bid_price, ask_price, mid),
                    Some(false) => Some((self, Seq::empty())),
                    None => None,
                }
            },
            QuoteState::BidFilled => self.one_side(pair, OrderSide::Sell, ask_price, qty, mid, at),
            QuoteState::AskFilled => self.one_side(pair, OrderSide::Buy, bid_price, qty, mid, at),
        }
    }

    /// A pair is quoted on its book: nothing without both sides of the book, pair data and a
    /// quoter; its quotes are withdrawn if the spread is too narrow.
    #[verifier::opaque]
    pub open spec fn quoted(self, pair: Seq<char>, at: Timestamp) -> Step {
        if self.held_back(pair) {
            Some((self, Seq::empty()))
        } else {
            match lookup(self.books, pair) {
                Some(b) => match (b.best_bid(), b.best_ask(), b.mid()) {
                    (_, _, None) => None,
                    (Some(bb), Some(ba), Some(Some(mid))) => self.quoted_on(
                        pair,
                        bb.price,
                        ba.price,
                        mid,
                        at,
                    ),
                    _ => Some((self, Seq::empty())),
                },
                None => Some((self, Seq::empty())),
            }
        }
    }

    /// A pair is quoted on a given top of book.
    #[verifier::opaque]
    pub open spec fn quoted_on(
        self,
        pair: Seq<char>,
        best_bid: Decimal,
        best_ask: Decimal,
        mid: Decimal,
        at: Timestamp,
    ) -> Step {
        match lookup(self.pair_info, pair) {
            None => Some((self, Seq::empty())),
            Some(info) => {
                match skew_of(
                    product(self.position(pair).qty, mid),
                    self.config.risk.max_inventory_usd,
                ) {
                    None => None,
                    Some(skew) => match lookup(self.quoters, pair) {
                        None => Some((self, Seq::empty())),
                        Some(q) => {
                            match (
                                quotes(best_bid, best_ask, mid, skew, self.config.trading, info),
                                order_qty(mid, self.config.trading.order_size_usd, info),
                            ) {
                                (Some(Some((bid, ask))), Some(qty)) => self.quoted_at(
                                    pair,
                                    q,
                                    bid,
                                    ask,
                                    qty,
                                    mid,
                                    at,
                                ),
                                (Some(None), Some(_)) => Some(self.withdraw(pair)),
                                _ => None,
                            }
                        },
                    },
                }
            },
        }
    }

    /// The mid price of a pair's book is noted, if there is one.
    pub open spec fn priced(self, pair: Seq<char>) -> Option<EngineView> {
        match lookup(self.books, pair) {
            Some(b) => match b.mid() {
                Some(Some(m)) => Some(EngineView { prices: stored(self.prices, pair, m), ..self }),
                Some(None) => Some(self),
                None => None,
            },
            None => Some(self),
        }
    }

    /// A book snapshot arrives.
    #[verifier::opaque]
    pub open spec fn on_book_snapshot(
        self,
        pair: Seq<char>,
        bids: Seq<LevelUpdate>,
        asks: Seq<LevelUpdate>,
        at: Timestamp,
    ) -> Step {
        let e = EngineView {
            books: stored(self.books, pair, BookView::snapshot(bids, asks)),
            ..self
        };
        match e.priced(pair) {
            Some(p) => p.quoted(pair, at),
            None => None,
        }
    }

    /// Book updates arrive; they are dropped if no snapshot came before.
    #[verifier::opaque]
    pub open spec fn on_book_update(
        self,
        pair: Seq<char>,
        bids: Seq<LevelUpdate>,
        asks: Seq<LevelUpdate>,
        at: Timestamp,
    ) -> Step {
        let e = match lookup(self.books, pair) {
            Some(b) => EngineView { books: stored(self.books, pair, b.updated(bids, asks)), ..self },
            None => self,
        };
        match e.priced(pair) {
            Some(p) => p.quoted(pair, at),
            None => None,
        }
    }

    /// When the cooldown of a pair liquidated at `at` ends; `None` if that is out of range.
    pub open spec fn cooldown_end(self, at: Timestamp) -> Option<Timestamp> {
        later_by(at, self.config.risk.cooldown_after_liquidation_secs)
    }

    /// A pair whose holding was sold off is no longer being liquidated; it cools down before it is
    /// quoted again.
    pub open spec fn liquidated(self, pair: Seq<char>, at: Timestamp) -> Option<EngineView> {
        if keyed(self.liquidating, pair) {
            match self.cooldown_end(at) {
                Some(end) => Some(
                    EngineView {
                        liquidating: without(self.liquidating, pair),
                        disabled: without(self.disabled, pair),
                        liq_retries: without(self.liq_retries, pair),
                        state: BotStateView {
                            cooldown_until: stored(self.state.cooldown_until, pair, end),
                            ..self.state
                        },
                        ..self
                    },
                ),
                None => None,
            }
        } else {
            Some(self)
        }
    }

    /// The books of the bot after a fill: holding, realized profit, fees and trade count. Gives
    /// the profit of this fill too, which is zero for a buy.
    #[verifier::opaque]
    pub open spec fn booked(self, fill: FillView) -> Option<(EngineView, Decimal)> {
        let held = self.position(fill.pair);
        let fees = sum(self.state.total_fees, fill.fee);
        if self.state.trade_count == u64::MAX {
            None
        } else {
            let count = (self.state.trade_count + 1) as u64;
            match fill.side {
                OrderSide::Buy => match (bought(held, fill.qty, fill.price), fees) {
                    (Some(p), Some(total_fees)) => Some(
                        (
                            EngineView {
                                state: BotStateView {
                                    positions: stored(self.state.positions, fill.pair, p),
                                    total_fees,
                                    trade_count: count,
                                    ..self.state
                                },
                                ..self
                            },
                            Decimal::of(0, 0),
                        ),
                    ),
                    _ => None,
                },
                OrderSide::Sell => {
                    let pnl = minus(sale_pnl(held, fill.qty, fill.price), Some(fill.fee));
                    let realized = plus(Some(self.state.realized_pnl), pnl);
                    match (sold(held, fill.qty), pnl, realized, fees) {
                        (Some(p), Some(gain), Some(realized_pnl), Some(total_fees)) => {
                            let e = EngineView {
                                state: BotStateView {
                                    positions: if positive(p.qty) {
                                        stored(self.state.positions, fill.pair, p)
                                    } else {
                                        without(self.state.positions, fill.pair)
                                    },
                                    realized_pnl,
                                    total_fees,
                                    trade_count: count,
                                    ..self.state
                                },
                                ..self
                            };
                            if positive(p.qty) {
                                Some((e, gain))
                            } else {
                                match e.liquidated(fill.pair, fill.timestamp) {
                                    Some(done) => Some((done, gain)),
                                    None => None,
                                }
                            }
                        },
                        _ => None,
                    }
                },
            }
        }
    }

    /// The order of a complete fill is no longer tracked and its side of the quoter is filled.
    #[verifier::opaque]
    pub open spec fn closed_by(self, fill: FillView) -> EngineView {
        if fill.is_fully_filled {
            let e = self.with_orders(without(self.state.open_orders, fill.cl_ord_id));
            match lookup(e.quoters, fill.pair) {
                Some(q) => e.with_quoter(
                    fill.pair,
                    match fill.side {
                        OrderSide::Buy => q.bid_filled(),
                        OrderSide::Sell => q.ask_filled(),
                    },
                ),
                None => e,
            }.settle(fill.pair)
        } else {
            self
        }
    }

    /// A fill arrives: it is booked, logged and saved; the kill switch is checked; the pair is
    /// quoted again at once.
    #[verifier::opaque]
    pub open spec fn on_fill(self, fill: FillView) -> Step {
        match (self.booked(fill), product(fill.price, fill.qty)) {
            (Some((e1, pnl)), Some(value_usd)) => {
                let log = CommandView::LogTrade(
                    TradeRecordView {
                        timestamp: fill.timestamp,
                        pair: fill.pair,
                        side: side_text(fill.side),
                        price: fill.price,
                        qty: fill.qty,
                        value_usd,
                        fee: fill.fee,
                        pnl,
                        cumulative_pnl: e1.state.realized_pnl,
                    },
                );
                let e2 = e1.closed_by(fill);
                let e3 = EngineView {
                    kill_switch: e2.kill_switch.checked(
                        e2.state.realized_pnl,
                        self.config.risk.kill_switch_loss_usd,
                    ),
                    ..e2
                };
                let first = seq![log, CommandView::PersistState(e2.state)];
                let stop = if e3.kill_switch.triggered {
                    seq![
                        CommandView::CancelAll,
                        CommandView::Shutdown { reason: e3.kill_switch.reason },
                    ]
                } else {
                    Seq::empty()
                };
                match e3.quoted(fill.pair, fill.timestamp) {
                    Some((e4, c)) => Some((e4, first + stop + c)),
                    None => None,
                }
            },
            _ => None,
        }
    }

    /// An order is acknowledged.
    pub open spec fn on_ack(self, id: Seq<char>) -> EngineView {
        match lookup(self.state.open_orders, id) {
            Some(o) => self.with_orders(
                stored(self.state.open_orders, id, TrackedOrderView { acked: true, ..o }),
            ).settle(o.pair),
            None => self,
        }
    }

    /// The pair a rejection is about: the one it names, or that of the tracked order.
    pub open spec fn rejected_pair(self, id: Seq<char>, pair: Seq<char>) -> Seq<char> {
        if pair.len() > 0 {
            pair
        } else {
            match lookup(self.state.open_orders, id) {
                Some(o) => o.pair,
                None => Seq::empty(),
            }
        }
    }

    /// Whether a rejection says that the pair may not be traded.
    pub open spec fn restricted(reason: Seq<char>) -> bool {
        occurs_in("restricted"@, reason) || occurs_in("Invalid permissions"@, reason)
    }

    /// The rejection of a liquidation sell is counted. `None` if the count overflows.
    pub open spec fn retry_counted(self, pair: Seq<char>) -> Option<EngineView> {
        let n = match lookup(self.liq_retries, pair) {
            Some(n) => n,
            None => 0,
        };
        if n == u32::MAX {
            None
        } else {
            Some(
                EngineView {
                    liq_retries: stored(self.liq_retries, pair, (n + 1) as u32),
                    ..self
                },
            )
        }
    }

    /// An order is rejected: a pair that may not be traded is disabled and its quotes withdrawn;
    /// the rejection of a liquidation sell is counted; the order is gone.
    #[verifier::opaque]
    pub open spec fn on_reject(self, id: Seq<char>, named: Seq<char>, reason: Seq<char>) -> Step {
        let pair = self.rejected_pair(id, named);
        if EngineView::restricted(reason) {
            let off = EngineView { disabled: stored(self.disabled, pair, ()), ..self };
            let (e, c) = off.withdraw(pair);
            Some((e.order_gone(id, pair), c))
        } else if begins_with(id, "liq"@) {
            match self.retry_counted(pair) {
                Some(e) => Some((e.order_gone(id, pair), Seq::empty())),
                None => None,
            }
        } else {
            Some((self.order_gone(id, pair), Seq::empty()))
        }
    }

    /// Liquidation of a pair begins: its orders are cancelled and it is no longer quoted. Nothing
    /// happens if it is being liquidated already or nothing is held.
    pub open spec fn liquidate(self, pair: Seq<char>) -> (EngineView, Seq<CommandView>) {
        if keyed(self.liquidating, pair) || !positive(self.position(pair).qty) {
            (self, Seq::empty())
        } else {
            let (e, c) = self.cancel_pair(pair);
            (
                EngineView {
                    liquidating: stored(self.liquidating, pair, ()),
                    disabled: stored(self.disabled, pair, ()),
                    liq_retries: stored(self.liq_retries, pair, 0u32),
                    ..e
                },
                c,
            )
        }
    }

    /// Liquidation of a pair is called off and the pair may be quoted again.
    pub open spec fn released(self, pair: Seq<char>) -> EngineView {
        EngineView {
            liquidating: without(self.liquidating, pair),
            disabled: without(self.disabled, pair),
            liq_retries: without(self.liq_retries, pair),
            ..self
        }
    }

    /// The price to judge a liquidation by: the best bid, else the last known price, else zero.
    pub open spec fn reference_price(self, pair: Seq<char>) -> Decimal {
        let top = match lookup(self.books, pair) {
            Some(b) => b.best_bid(),
            None => None,
        };
        match top {
            Some(l) => l.price,
            None => match lookup(self.prices, pair) {
                Some(p) => p,
                None => Decimal::of(0, 0),
            },
        }
    }

    /// The market sell that ends a liquidation. After three rejections it is given up and the pair
    /// stays disabled; a holding that is gone or below the exchange's minimums ends it too.
    #[verifier::opaque]
    pub open spec fn liquidation_sell(self, pair: Seq<char>, at: Timestamp) -> Step {
        let tries = match lookup(self.liq_retries, pair) {
            Some(n) => n,
            None => 0,
        };
        let held = self.position(pair).qty;
        let price = self.reference_price(pair);
        if tries >= 3 {
            Some(
                (
                    EngineView { liquidating: without(self.liquidating, pair), ..self },
                    Seq::empty(),
                ),
            )
        } else if !positive(held) {
            Some((self.released(pair), Seq::empty()))
        } else if price.m() == 0 {
            Some((self, Seq::empty()))
        } else if less(held, self.min_qty(pair)) {
            Some((self.released(pair), Seq::empty()))
        } else {
            match product(held, price) {
                Some(value) => if less(value, self.min_cost(pair)) {
                    Some((self.released(pair), Seq::empty()))
                } else {
                    match truncated(held, self.qty_decimals(pair)) {
                        Some(qty) => match self.tracking(
                            "liq"@,
                            pair,
                            OrderSide::Sell,
                            price,
                            qty,
                            at,
                        ) {
                            Some((e, id)) => Some(
                                (e, seq![place(id, pair, OrderSide::Sell, price, qty, true)]),
                            ),
                            None => None,
                        },
                        None => None,
                    }
                },
                None => None,
            }
        }
    }

    /// What a tick does for a pair that is being liquidated: wait while a liquidation sell is out,
    /// cancel what other orders are left, and once there are none send the sell.
    #[verifier::opaque]
    pub open spec fn liquidation_step(self, pair: Seq<char>, at: Timestamp) -> Step {
        let orders = self.state.open_orders;
        if ids_where(orders, liquidation_of_pair(pair)).len() > 0 {
            Some((self, Seq::empty()))
        } else {
            let left = ids_where(orders, plain_of_pair(pair));
            if left.len() > 0 {
                Some((self.with_orders(without_all(orders, left)), cancel(left)))
            } else {
                self.liquidation_sell(pair, at)
            }
        }
    }

    /// The liquidation steps of a list of pairs, one after the other.
    pub open spec fn liquidation_steps(self, pairs: Seq<Seq<char>>, at: Timestamp) -> Step
        decreases pairs.len(),
    {
        if pairs.len() == 0 {
            Some((self, Seq::empty()))
        } else {
            match self.liquidation_steps(pairs.drop_last(), at) {
                Some((e, c)) => match e.liquidation_step(pairs.last(), at) {
                    Some((e2, c2)) => Some((e2, c + c2)),
                    None => None,
                },
                None => None,
            }
        }
    }

    /// Whether a holding has lost or gained so much that it is to be liquidated: a change since the
    /// average cost below minus the stop-loss or above the take-profit. Holdings without a cost or
    /// a price, and those being liquidated, are left alone. `None` on overflow.
    pub open spec fn extreme(self, pair: Seq<char>, p: Position) -> Option<bool> {
        if !positive(p.qty) || p.avg_cost.m() == 0 || keyed(self.liquidating, pair) {
            Some(false)
        } else {
            match lookup(self.prices, pair) {
                None => Some(false),
                Some(mid) => match over(minus(Some(mid), Some(p.avg_cost)), Some(p.avg_cost)) {
                    Some(change) => Some(
                        less(change, negated(self.config.risk.stop_loss_pct)) || less(
                            self.config.risk.take_profit_pct,
                            change,
                        ),
                    ),
                    None => None,
                },
            }
        }
    }

    /// The pairs among `positions` whose holdings are to be liquidated.
    pub open spec fn extremes(self, positions: Entries<Position>) -> Option<Seq<Seq<char>>>
        decreases positions.len(),
    {
        if positions.len() == 0 {
            Some(Seq::empty())
        } else {
            match (
                self.extremes(positions.drop_last()),
                self.extreme(positions.last().0, positions.last().1),
            ) {
                (Some(before), Some(yes)) => Some(
                    if yes {
                        before.push(positions.last().0)
                    } else {
                        before
                    },
                ),
                _ => None,
            }
        }
    }

    /// Liquidation of a list of pairs begins.
    pub open spec fn liquidate_all(self, pairs: Seq<Seq<char>>) -> (EngineView, Seq<CommandView>)
        decreases pairs.len(),
    {
        if pairs.len() == 0 {
            (self, Seq::empty())
        } else {
            let (e, c) = self.liquidate_all(pairs.drop_last());
            let (e2, c2) = e.liquidate(pairs.last());
            (e2, c + c2)
        }
    }

    /// A stale order is dropped and its quoter knows.
    pub open spec fn dropped(self, id: Seq<char>) -> EngineView {
        match lookup(self.state.open_orders, id) {
            Some(o) => {
                let e = self.with_orders(without(self.state.open_orders, id));
                match lookup(e.quoters, o.pair) {
                    Some(q) => e.with_quoter(o.pair, q.cancelled(id)),
                    None => e,
                }
            },
            None => self,
        }
    }

    /// Stale orders are dropped one after the other.
    pub open spec fn dropped_all(self, ids: Seq<Seq<char>>) -> EngineView
        decreases ids.len(),
    {
        if ids.len() == 0 {
            self
        } else {
            self.dropped_all(ids.drop_last()).dropped(ids.last())
        }
    }

    /// Whether the dead man's switch is due.
    pub open spec fn dms_due(self, at: Timestamp) -> bool {
        match self.last_dms {
            None => true,
            Some(last) => seconds_between(last, at) >= as_signed(self.config.risk.dms_refresh_secs),
        }
    }

    /// The pairs whose cooldown is over.
    pub open spec fn cooled(cooldowns: Entries<Timestamp>, at: Timestamp) -> Seq<Seq<char>>
        decreases cooldowns.len(),
    {
        if cooldowns.len() == 0 {
            Seq::empty()
        } else {
            let before = EngineView::cooled(cooldowns.drop_last(), at);
            if cooldowns.last().1.order() <= at.order() {
                before.push(cooldowns.last().0)
            } else {
                before
            }
        }
    }

    /// Pairs whose cooldown is over may be quoted again.
    pub open spec fn thawed(self, at: Timestamp) -> EngineView {
        let pairs = EngineView::cooled(self.state.cooldown_until, at);
        EngineView {
            state: BotStateView {
                cooldown_until: without_all(self.state.cooldown_until, pairs),
                ..self.state
            },
            ..self
        }
    }

    /// The part of a tick that follows the liquidations: orders that are too old are cancelled and
    /// the dead man's switch is refreshed if it is due.
    #[verifier::opaque]
    pub open spec fn upkeep(self, at: Timestamp) -> (EngineView, Seq<CommandView>) {
        let old = ids_where(
            self.state.open_orders,
            older_than(at, self.config.risk.stale_order_secs),
        );
        let e = self.dropped_all(old);
        if e.dms_due(at) {
            (
                EngineView { last_dms: Some(at), ..e },
                cancel(old).push(CommandView::RefreshDms),
            )
        } else {
            (e, cancel(old))
        }
    }

    /// A tick: cooldowns end, running liquidations go on, extreme holdings begin to be liquidated,
    /// stale orders are cancelled and the dead man's switch is refreshed.
    #[verifier::opaque]
    pub open spec fn on_tick(self, at: Timestamp) -> Step {
        let e0 = self.thawed(at);
        match e0.liquidation_steps(keys_of(e0.liquidating), at) {
            Some((e1, c1)) => match e1.extremes(e1.state.positions) {
                Some(pairs) => {
                    let (e2, c2) = e1.liquidate_all(pairs);
                    let (e3, c3) = e2.upkeep(at);
                    Some((e3, c1 + c2 + c3))
                },
                None => None,
            },
            None => None,
        }
    }

    /// Every quoter is reset.
    pub open spec fn all_reset(self) -> EngineView {
        EngineView {
            quoters: Seq::new(
                self.quoters.len(),
                |i: int| (self.quoters[i].0, self.quoters[i].1.reset()),
            ),
            ..self
        }
    }

    /// Every quoter is idle and without orders, but remembers its reference price.
    pub open spec fn all_idle(self) -> EngineView {
        EngineView {
            quoters: Seq::new(
                self.quoters.len(),
                |i: int|
                    (
                        self.quoters[i].0,
                        QuoterView {
                            last_mid: self.quoters[i].1.last_mid,
                            ..self.quoters[i].1.reset()
                        },
                    ),
            ),
            ..self
        }
    }

    /// A pair is taken out of quoting for good and its orders are cancelled.
    pub open spec fn disable(self, pair: Seq<char>) -> (EngineView, Seq<CommandView>) {
        let (e, c) = self.cancel_pair(pair);
        (e.shut_out(pair), c)
    }

    /// A pair is barred from quoting, across restarts too.
    pub open spec fn shut_out(self, pair: Seq<char>) -> EngineView {
        EngineView {
            disabled: stored(self.disabled, pair, ()),
            state: BotStateView {
                disabled_pairs: stored(self.state.disabled_pairs, pair, ()),
                ..self.state
            },
            ..self
        }
    }

    /// A pair is taken out of quoting for good: what is held of it is liquidated; if nothing is, its
    /// orders are cancelled.
    pub open spec fn remove(self, pair: Seq<char>) -> (EngineView, Seq<CommandView>) {
        if positive(self.position(pair).qty) {
            let (e, c) = self.liquidate(pair);
            (e.shut_out(pair), c)
        } else {
            self.disable(pair)
        }
    }

    /// The holdings after those of some pairs are set to the balances of their base assets. A
    /// holding keeps its average cost; one that was not known has none.
    pub open spec fn reconciled(
        positions: Entries<Position>,
        infos: Entries<PairInfoView>,
        balances: Entries<Decimal>,
    ) -> Entries<Position>
        decreases infos.len(),
    {
        if infos.len() == 0 {
            positions
        } else {
            let before = EngineView::reconciled(positions, infos.drop_last(), balances);
            let (pair, info) = infos.last();
            match lookup(balances, info.exchange_base_asset) {
                Some(qty) => if positive(qty) {
                    stored(
                        before,
                        pair,
                        Position { qty, avg_cost: position_of(before, pair).avg_cost },
                    )
                } else {
                    without(before, pair)
                },
                None => before,
            }
        }
    }

    /// The holdings with those restored that the proxy has kept track of, at the cost it has for
    /// them. Positions of nothing restore nothing.
    pub open spec fn restored(
        positions: Entries<Position>,
        kept: Entries<ProxyPosition>,
    ) -> Entries<Position>
        decreases kept.len(),
    {
        if kept.len() == 0 {
            positions
        } else {
            let before = EngineView::restored(positions, kept.drop_last());
            let (pair, p) = kept.last();
            if positive(p.qty) {
                stored(before, pair, Position { qty: p.qty, avg_cost: p.avg_cost })
            } else {
                before
            }
        }
    }

    /// The balances of the exchange correct the holdings of the known pairs.
    pub open spec fn on_balances(self, balances: Entries<Decimal>) -> EngineView {
        EngineView {
            state: BotStateView {
                positions: EngineView::reconciled(
                    self.state.positions,
                    self.pair_info,
                    balances,
                ),
                ..self.state
            },
            ..self
        }
    }

    /// A pair may be quoted again, cooldown or not.
    pub open spec fn enable(self, pair: Seq<char>) -> EngineView {
        EngineView {
            disabled: without(self.disabled, pair),
            state: BotStateView {
                disabled_pairs: without(self.state.disabled_pairs, pair),
                cooldown_until: without(self.state.cooldown_until, pair),
                ..self.state
            },
            ..self
        }
    }

    /// A pair has a quoter.
    pub open spec fn with_idle_quoter(self, pair: Seq<char>) -> EngineView {
        if keyed(self.quoters, pair) {
            self
        } else {
            self.with_quoter(pair, QuoterView::idle(pair))
        }
    }

    /// Pair data becomes known.
    pub open spec fn informed(self, info: Entries<PairInfoView>) -> EngineView
        decreases info.len(),
    {
        if info.len() == 0 {
            self
        } else {
            let e = self.informed(info.drop_last());
            EngineView {
                pair_info: stored(e.pair_info, info.last().0, info.last().1),
                ..e
            }.with_idle_quoter(info.last().0)
        }
    }

    /// A command of the control API is carried out.
    pub open spec fn on_api(self, action: ApiAction) -> (EngineView, Seq<CommandView>) {
        match action {
            ApiAction::CancelAll => (
                self.all_reset().with_orders(Seq::empty()),
                seq![CommandView::CancelAll],
            ),
            ApiAction::CancelOrder { cl_ord_id } => (
                self.dropped(cl_ord_id@),
                seq![CommandView::CancelOrders(seq![cl_ord_id@])],
            ),
            ApiAction::Pause => {
                let e = EngineView {
                    sell_only: stored_all(self.sell_only, keys_of(self.pair_info)),
                    state: BotStateView { paused: true, ..self.state },
                    ..self
                };
                (e, seq![CommandView::PersistState(e.state)])
            },
            ApiAction::Resume => {
                let e = EngineView {
                    sell_only: Seq::empty(),
                    state: BotStateView { paused: false, ..self.state },
                    ..self
                };
                (e, seq![CommandView::PersistState(e.state)])
            },
            ApiAction::Shutdown => {
                let e = self.all_idle().with_orders(Seq::empty());
                (
                    e,
                    seq![
                        CommandView::CancelAll,
                        CommandView::PersistState(e.state),
                        CommandView::Shutdown { reason: "API shutdown request"@ },
                    ],
                )
            },
            ApiAction::Liquidate { pair } => self.liquidate(pair@),
            ApiAction::DisablePair { pair } => self.disable(pair@),
            ApiAction::EnablePair { pair } => (self.enable(pair@), Seq::empty()),
            ApiAction::AddPair { pair } => (self.with_idle_quoter(pair@), Seq::empty()),
            ApiAction::RemovePair { pair } => self.remove(pair@),
        }
    }

    /// The state store speaks: a removed pair is disabled; nothing else concerns the engine.
    pub open spec fn on_state_store(self, action: StateStoreAction) -> (
        EngineView,
        Seq<CommandView>,
    ) {
        match action {
            StateStoreAction::PairRemoved { pair } => self.disable(pair@),
            _ => (self, Seq::empty()),
        }
    }

    /// An event is handled.
    pub open spec fn on_event(self, event: EngineEvent) -> Step {
        match event {
            EngineEvent::BookSnapshot { pair, bids, asks, timestamp } => self.on_book_snapshot(
                pair@,
                bids@,
                asks@,
                timestamp,
            ),
            EngineEvent::BookUpdate { pair, bid_updates, ask_updates, timestamp } =>
                self.on_book_update(pair@, bid_updates@, ask_updates@, timestamp),
            EngineEvent::Fill(fill) => self.on_fill(fill@),
            EngineEvent::OrderAcknowledged { cl_ord_id, order_id } => Some(
                (self.on_ack(cl_ord_id@), Seq::empty()),
            ),
            EngineEvent::OrderCancelled { cl_ord_id, pair, reason } => Some(
                (self.order_gone(cl_ord_id@, pair@), Seq::empty()),
            ),
            EngineEvent::OrderRejected { cl_ord_id, pair, reason } => self.on_reject(
                cl_ord_id@,
                pair@,
                reason@,
            ),
            EngineEvent::Tick { timestamp } => self.on_tick(timestamp),
            EngineEvent::ApiCommand(action) => Some(self.on_api(action)),
            EngineEvent::StateStoreCommand(action) => Some(self.on_state_store(action)),
            EngineEvent::PairInfoFetched { info } => Some((self.informed(info@), Seq::empty())),
            EngineEvent::BalanceUpdate { balances } => Some(
                (self.on_balances(balances@), Seq::empty()),
            ),
        }
    }

    /// The engine at the start: nothing known but configuration, pairs and saved state.
    pub open spec fn start(
        config: Config,
        pair_info: Entries<PairInfoView>,
        state: BotStateView,
    ) -> EngineView {
        EngineView {
            config,
            books: Seq::empty(),
            quoters: Seq::new(
                pair_info.len(),
                |i: int| (pair_info[i].0, QuoterView::idle(pair_info[i].0)),
            ),
            pair_info,
            state,
            kill_switch: KillSwitchView { triggered: false, reason: Seq::empty() },
            rate_limiter: RateLimiter {
                counter: Decimal::of(0, 0),
                max: config.risk.rate_limit_max_counter,
            },
            prices: Seq::empty(),
            disabled: Seq::empty(),
            sell_only: Seq::empty(),
            liquidating: Seq::empty(),
            liq_retries: Seq::empty(),
            counter: 0,
            last_dms: None,
        }
    }
}

} // verus!
