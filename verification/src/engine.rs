//! The core engine: takes events, emits commands, does no I/O.
use crate::book::OrderBook;
use crate::collections::{keys_of, texts, Dup, Entries, StrMap, StrSet};
use crate::config::Config;
use crate::decimal::{minus, over, plus, times, truncate_decimal, Decimal};
use crate::engine_model::{
    filter_of, ids_where, stored_all, without_all, EngineView, OrderFilter, Step,
};
use crate::events::{
    append_commands, commands, no_commands, one_command, push_command, push_text, ApiAction,
    CommandView, EngineCommand, EngineEvent, StateStoreAction,
};
use crate::inventory::inventory_skew;
use crate::order_tracking::ProxyPosition;
use crate::position::Position;
use crate::quoter::{has_moved, QuoteState, Quoter};
use crate::risk::{can_open_buy, KillSwitch, RateLimiter, RateStatus};
use crate::state::{BotState, BotStateView, TrackedOrder};
use crate::text::{contains, copy_opt, number_text, opt_text, signed, starts_with, str_eq};
use crate::time::Timestamp;
use crate::types::{Fill, LevelUpdate, OrderRequest, OrderSide, PairInfo, TradeRecord};
use vstd::prelude::*;

verus! {

/// The core engine: processes events, emits commands. It contains no I/O and is deterministic.
pub struct Engine {
    pub config: Config,
    pub books: StrMap<OrderBook>,
    pub quoters: StrMap<Quoter>,
    pub pair_info: StrMap<PairInfo>,
    pub state: BotState,
    pub kill_switch: KillSwitch,
    pub rate_limiter: RateLimiter,
    pub prices: StrMap<Decimal>,
    pub disabled_pairs: StrSet,
    pub sell_only_pairs: StrSet,
    pub pending_liquidation: StrSet,
    pub liq_retry_count: StrMap<u32>,
    pub cl_ord_counter: u64,
    pub last_dms_refresh: Option<Timestamp>,
}

impl View for Engine {
    type V = EngineView;

    open spec fn view(&self) -> EngineView {
        EngineView {
            config: self.config,
            books: self.books@,
            quoters: self.quoters@,
            pair_info: self.pair_info@,
            state: self.state@,
            kill_switch: self.kill_switch@,
            rate_limiter: self.rate_limiter,
            prices: self.prices@,
            disabled: self.disabled_pairs@,
            sell_only: self.sell_only_pairs@,
            liquidating: self.pending_liquidation@,
            liq_retries: self.liq_retry_count@,
            counter: self.cl_ord_counter,
            last_dms: self.last_dms_refresh,
        }
    }
}

/// Whether a call did what the model says: the commands and the state of the step, or `None` if
/// the step overflows. The configuration is never touched.
pub open spec fn did(
    r: Option<Vec<EngineCommand>>,
    step: Step,
    before: EngineView,
    after: EngineView,
) -> bool {
    &&& after.config == before.config
    &&& match step {
        Some((e, c)) => r matches Some(v) && after == e && commands(v@) == c,
        None => r is None,
    }
}

fn picked(f: &OrderFilter, o: &TrackedOrder) -> (r: bool)
    ensures
        r == filter_of(*f)(o@),
{
    match f {
        OrderFilter::OfPair(pair) => str_eq(o.pair.as_str(), pair.as_str()),
        OrderFilter::PlainOfPair(pair) => str_eq(o.pair.as_str(), pair.as_str()) && !starts_with(
            o.cl_ord_id.as_str(),
            "liq",
        ),
        OrderFilter::LiquidationOfPair(pair) => str_eq(o.pair.as_str(), pair.as_str())
            && starts_with(o.cl_ord_id.as_str(), "liq"),
        OrderFilter::OlderThan { now, secs } => {
            now.seconds_since(&o.placed_at) as i128 > signed(*secs)
        },
    }
}

/// The ids of the orders a filter picks, in order.
fn select_ids(orders: &StrMap<TrackedOrder>, f: &OrderFilter) -> (r: Vec<String>)
    ensures
        texts(r@) == ids_where(orders@, filter_of(*f)),
{
    let n: usize = orders.len();
    let mut r: Vec<String> = Vec::new();
    let mut i: usize = 0;
    let ghost all = orders@;
    let ghost p = filter_of(*f);
    proof {
        assert(all.take(0).len() == 0);
        assert(texts(r@) =~= ids_where(all.take(0), p));
    }
    while i < n
        invariant
            i <= n == all.len(),
            all == orders@,
            p == filter_of(*f),
            texts(r@) == ids_where(all.take(i as int), p),
        decreases n - i,
    {
        proof {
            assert(all.take(i + 1).drop_last() =~= all.take(i as int));
            assert(all.take(i + 1).last() == all[i as int]);
        }
        if picked(f, orders.value_at(i)) {
            push_text(&mut r, orders.key_at(i).clone());
        }
        i = i + 1;
    }
    assert(all.take(n as int) =~= all);
    r
}

/// Removes a list of keys.
fn remove_ids<V: View>(map: &mut StrMap<V>, ids: &Vec<String>)
    ensures
        final(map)@ == without_all(old(map)@, texts(ids@)),
{
    let mut i: usize = 0;
    let ghost all = texts(ids@);
    assert(all.take(0).len() == 0);
    while i < ids.len()
        invariant
            i <= ids.len(),
            all == texts(ids@),
            map@ == without_all(old(map)@, all.take(i as int)),
        decreases ids.len() - i,
    {
        proof {
            assert(all.take(i + 1).drop_last() =~= all.take(i as int));
            assert(all.take(i + 1).last() == all[i as int]);
        }
        map.remove(ids[i].as_str());
        i = i + 1;
    }
    assert(all.take(ids.len() as int) =~= all);
}

/// The command that cancels orders; none if there are none.
fn cancel_command(ids: Vec<String>) -> (r: Vec<EngineCommand>)
    ensures
        commands(r@) == crate::engine_model::cancel(texts(ids@)),
{
    if ids.len() == 0 {
        no_commands()
    } else {
        one_command(EngineCommand::CancelOrders(ids))
    }
}

impl Engine {
    /// An engine for the given pairs, starting from a saved state.
    pub fn new(config: Config, pair_info: StrMap<PairInfo>, state: BotState) -> (r: Engine)
        ensures
            r@ == EngineView::start(config, pair_info@, state@),
    {
        let mut quoters: StrMap<Quoter> = StrMap::new();
        let n: usize = pair_info.len();
        let mut i: usize = 0;
        let ghost all = pair_info@;
        let ghost want = EngineView::start(config, all, state@).quoters;
        while i < n
            invariant
                i <= n == all.len(),
                all == pair_info@,
                crate::collections::distinct_keys(all),
                want == EngineView::start(config, all, state@).quoters,
                quoters@ == want.take(i as int),
            decreases n - i,
        {
            let pair = pair_info.key_at(i);
            proof {
                assert forall|j: int| 0 <= j < i implies #[trigger] quoters@[j].0 != pair@ by {
                    assert(all[j].0 != all[i as int].0);
                }
                crate::collections::lemma_slot_is(quoters@, pair@, i as int);
            }
            quoters.insert(pair.clone(), Quoter::new(pair.clone()));
            i = i + 1;
            assert(quoters@ =~= want.take(i as int));
        }
        assert(quoters@ =~= want);
        let rate_limiter = RateLimiter::new(&config.risk);
        Engine {
            config,
            books: StrMap::new(),
            quoters,
            pair_info,
            state,
            kill_switch: KillSwitch::default(),
            rate_limiter,
            prices: StrMap::new(),
            disabled_pairs: StrMap::new(),
            sell_only_pairs: StrMap::new(),
            pending_liquidation: StrMap::new(),
            liq_retry_count: StrMap::new(),
            cl_ord_counter: 0,
            last_dms_refresh: None,
        }
    }

    /// Marks pairs as sell-only (downtrend filter): no new buys will be placed.
    pub fn set_sell_only(&mut self, pairs: StrSet)
        ensures
            final(self)@ == (EngineView { sell_only: pairs@, ..old(self)@ }),
    {
        self.sell_only_pairs = pairs;
    }

    /// Restores holdings that the proxy has kept track of, with what they cost.
    pub fn restore_positions_from_proxy(&mut self, kept: &StrMap<ProxyPosition>)
        ensures
            final(self)@ == (EngineView {
                state: BotStateView {
                    positions: EngineView::restored(old(self)@.state.positions, kept@),
                    ..old(self)@.state
                },
                ..old(self)@
            }),
    {
        let ghost before = self@;
        let n: usize = kept.len();
        let mut i: usize = 0;
        assert(kept@.take(0) =~= Seq::empty());
        while i < n
            invariant
                i <= n == kept@.len(),
                self@ == (EngineView {
                    state: BotStateView {
                        positions: EngineView::restored(
                            before.state.positions,
                            kept@.take(i as int),
                        ),
                        ..before.state
                    },
                    ..before
                }),
            decreases n - i,
        {
            proof {
                assert(kept@.take(i + 1).drop_last() =~= kept@.take(i as int));
                assert(kept@.take(i + 1).last() == kept@[i as int]);
            }
            let p = kept.value_at(i);
            if p.qty.mantissa() > 0 {
                let holding = Position { qty: p.qty, avg_cost: p.avg_cost };
                self.state.positions.insert(kept.key_at(i).clone(), holding);
            }
            i = i + 1;
        }
        assert(kept@.take(i as int) =~= kept@);
    }

    /// Restores holdings from the balances of the exchange, which do not tell what they cost.
    pub fn restore_balances(&mut self, balances: &StrMap<Decimal>)
        ensures
            final(self)@ == old(self)@.on_balances(balances@),
    {
        self.reconcile(balances);
    }

    /// The order books.
    pub fn books(&self) -> (r: &StrMap<OrderBook>)
        ensures
            r@ == self@.books,
    {
        &self.books
    }

    fn min_qty(&self, pair: &str) -> (r: Decimal)
        ensures
            r == self@.min_qty(pair@),
    {
        match self.pair_info.get(pair) {
            Some(i) => i.min_order_qty,
            None => Decimal::one(),
        }
    }

    fn min_cost(&self, pair: &str) -> (r: Decimal)
        ensures
            r == self@.min_cost(pair@),
    {
        match self.pair_info.get(pair) {
            Some(i) => i.min_cost,
            None => Decimal::new(5, 1),
        }
    }

    fn qty_decimals(&self, pair: &str) -> (r: u32)
        ensures
            r == self@.qty_decimals(pair@),
    {
        match self.pair_info.get(pair) {
            Some(i) => i.qty_decimals,
            None => 8,
        }
    }

    fn price_decimals(&self, pair: &str) -> (r: u32)
        ensures
            r == self@.price_decimals(pair@),
    {
        match self.pair_info.get(pair) {
            Some(i) => i.price_decimals,
            None => 8,
        }
    }

    fn anchor(&self, pair: &str, price: Decimal) -> (r: Option<Decimal>)
        ensures
            r == self@.anchored(pair@, price),
    {
        let position = self.state.position(pair);
        if position.avg_cost.is_zero() {
            return Some(price);
        }
        let cost = times(
            Some(position.avg_cost),
            plus(Some(Decimal::one()), Some(self.config.trading.min_profit_pct)),
        )?;
        Some(price.max(cost.round_up(self.price_decimals(pair))))
    }

    fn sell_size(&self, pair: &str, qty: Decimal, mid: Decimal) -> (r: Option<Option<Decimal>>)
        ensures
            r == self@.sellable(pair@, qty, mid),
    {
        let held = self.state.position(pair).qty;
        if held < self.min_qty(pair) {
            return Some(None);
        }
        let value = held.checked_mul(mid)?;
        if value < self.min_cost(pair) {
            return Some(None);
        }
        let size = truncate_decimal(qty.min(held), self.qty_decimals(pair))?;
        Some(Some(size))
    }

    fn may_buy(&self, pair: &str, size: Decimal, mid: Decimal) -> (r: Option<bool>)
        ensures
            r == self@.may_buy(pair@, size, mid),
    {
        can_open_buy(&self.state, pair, size, mid, &self.prices, &self.config.risk)
    }

    fn next_cl_ord_id(&mut self, prefix: &str) -> (r: Option<String>)
        ensures
            final(self)@.config == old(self)@.config,
            match r {
                Some(id) => old(self)@.counter < u64::MAX && id@ == crate::engine_model::order_id(
                    prefix@,
                    (old(self)@.counter + 1) as nat,
                ) && final(self)@ == (EngineView {
                    counter: (old(self)@.counter + 1) as u64,
                    ..old(self)@
                }),
                None => old(self)@.counter == u64::MAX && final(self)@ == old(self)@,
            },
    {
        if self.cl_ord_counter == u64::MAX {
            return None;
        }
        self.cl_ord_counter = self.cl_ord_counter + 1;
        let id = String::from_str(prefix).concat("-").concat(
            number_text(self.cl_ord_counter).as_str(),
        );
        Some(id)
    }

    fn track(
        &mut self,
        prefix: &str,
        pair: &str,
        side: OrderSide,
        price: Decimal,
        qty: Decimal,
        at: Timestamp,
    ) -> (r: Option<String>)
        ensures
            final(self)@.config == old(self)@.config,
            match old(self)@.tracking(prefix@, pair@, side, price, qty, at) {
                Some((e, id)) => r matches Some(s) && s@ == id && final(self)@ == e,
                None => r is None,
            },
    {
        let id = self.next_cl_ord_id(prefix)?;
        self.state.open_orders.insert(
            id.clone(),
            TrackedOrder {
                cl_ord_id: id.clone(),
                pair: pair.to_owned(),
                side,
                price,
                qty,
                placed_at: at,
                acked: false,
            },
        );
        Some(id)
    }

    fn is_acked(&self, id: &Option<String>) -> (r: bool)
        ensures
            r == self@.acked(opt_text(*id)),
    {
        match id {
            Some(i) => match self.state.open_orders.get(i.as_str()) {
                Some(o) => o.acked,
                None => false,
            },
            None => true,
        }
    }

    fn put_quoter(&mut self, pair: &str, q: Quoter)
        ensures
            final(self)@.config == old(self)@.config,
            final(self)@ == old(self)@.with_quoter(pair@, q@),
    {
        self.quoters.insert(pair.to_owned(), q);
    }

    fn settle(&mut self, pair: &str)
        ensures
            final(self)@.config == old(self)@.config,
            final(self)@ == old(self)@.settle(pair@),
    {
        proof {
            reveal(EngineView::settle);
        }
        let mut q = match self.quoters.get(pair) {
            Some(q) => q.dup(),
            None => {
                return;
            },
        };
        let all_acked = self.is_acked(&q.bid_cl_ord_id) && self.is_acked(&q.ask_cl_ord_id);
        q.try_transition_from_pending(all_acked);
        self.put_quoter(pair, q);
    }

    /// Withdraws both quotes of a pair.
    fn cancel_pair_quotes(&mut self, pair: &str) -> (r: Vec<EngineCommand>)
        ensures
            final(self)@.config == old(self)@.config,
            (final(self)@, commands(r@)) == old(self)@.withdraw(pair@),
    {
        let mut q = match self.quoters.get(pair) {
            Some(q) => q.dup(),
            None => {
                return no_commands();
            },
        };
        let ghost bid = match q@.bid {
            Some(id) => seq![id],
            None => Seq::empty(),
        };
        let ghost ask = match q@.ask {
            Some(id) => seq![id],
            None => Seq::empty(),
        };
        let mut ids: Vec<String> = Vec::new();
        assert(texts(ids@) =~= Seq::empty());
        if let Some(id) = copy_opt(&q.bid_cl_ord_id) {
            push_text(&mut ids, id);
        }
        assert(texts(ids@) =~= bid);
        if let Some(id) = copy_opt(&q.ask_cl_ord_id) {
            push_text(&mut ids, id);
        }
        assert(texts(ids@) =~= bid + ask);
        remove_ids(&mut self.state.open_orders, &ids);
        q.reset();
        self.put_quoter(pair, q);
        cancel_command(ids)
    }

    /// Cancels every tracked order of a pair, not just those its quoter knows.
    fn cancel_all_pair_orders(&mut self, pair: &str) -> (r: Vec<EngineCommand>)
        ensures
            final(self)@.config == old(self)@.config,
            (final(self)@, commands(r@)) == old(self)@.cancel_pair(pair@),
    {
        if let Some(q) = self.quoters.get(pair) {
            let mut q = q.dup();
            q.reset();
            self.put_quoter(pair, q);
        }
        let ids = select_ids(&self.state.open_orders, &OrderFilter::OfPair(pair.to_owned()));
        remove_ids(&mut self.state.open_orders, &ids);
        cancel_command(ids)
    }

    fn on_order_cancelled(&mut self, cl_ord_id: &str, pair: &str)
        ensures
            final(self)@.config == old(self)@.config,
            final(self)@ == old(self)@.order_gone(cl_ord_id@, pair@),
    {
        proof {
            reveal(EngineView::order_gone);
        }
        self.state.open_orders.remove(cl_ord_id);
        if let Some(q) = self.quoters.get(pair) {
            let mut q = q.dup();
            q.mark_cancelled(cl_ord_id);
            self.put_quoter(pair, q);
        }
        self.settle(pair);
    }

    fn mark_quoting(
        &mut self,
        pair: &str,
        bid_id: &Option<String>,
        ask_id: &Option<String>,
        mid: Decimal,
        at: Timestamp,
    )
        ensures
            final(self)@.config == old(self)@.config,
            final(self)@ == old(self)@.quoting(
                pair@,
                opt_text(*bid_id),
                opt_text(*ask_id),
                mid,
                at,
            ),
    {
        if bid_id.is_none() && ask_id.is_none() {
            return;
        }
        let mut q = match self.quoters.get(pair) {
            Some(q) => q.dup(),
            None => {
                return;
            },
        };
        q.state = QuoteState::Quoting;
        q.last_mid = Some(mid);
        q.last_quote_time = Some(at);
        if bid_id.is_some() {
            q.bid_cl_ord_id = copy_opt(bid_id);
        }
        if ask_id.is_some() {
            q.ask_cl_ord_id = copy_opt(ask_id);
        }
        self.put_quoter(pair, q);
    }

    fn place_fresh_quotes(
        &mut self,
        pair: &str,
        bid_price: Decimal,
        ask_price: Decimal,
        qty: Decimal,
        mid: Decimal,
        at: Timestamp,
    ) -> (r: Option<Vec<EngineCommand>>)
        ensures
            did(
                r,
                old(self)@.fresh_quotes(pair@, bid_price, ask_price, qty, mid, at),
                old(self)@,
                final(self)@,
            ),
    {
        proof {
            reveal(EngineView::fresh_quotes);
        }
        let mut cmds = no_commands();
        let order_value = qty.checked_mul(mid)?;
        let can_buy = if self.sell_only_pairs.contains_key(pair) {
            false
        } else {
            self.may_buy(pair, order_value, mid)?
        };
        let sell_qty = self.sell_size(pair, qty, mid)?;
        let sell_price = if sell_qty.is_some() {
            self.anchor(pair, ask_price)?
        } else {
            ask_price
        };
        let mut bid_id: Option<String> = None;
        let mut ask_id: Option<String> = None;
        let ghost mut buys: Seq<CommandView> = Seq::empty();
        let ghost mut sells: Seq<CommandView> = Seq::empty();
        if can_buy {
            let id = self.track("bid", pair, OrderSide::Buy, bid_price, qty, at)?;
            let req = OrderRequest {
                cl_ord_id: id.clone(),
                pair: pair.to_owned(),
                side: OrderSide::Buy,
                price: bid_price,
                qty,
                post_only: true,
                market: false,
                urgent: false,
            };
            proof {
                buys = seq![EngineCommand::PlaceOrder(req)@];
            }
            push_command(&mut cmds, EngineCommand::PlaceOrder(req));
            bid_id = Some(id);
        }
        assert(commands(cmds@) =~= buys);
        if let Some(q) = sell_qty {
            let id = self.track("ask", pair, OrderSide::Sell, sell_price, q, at)?;
            let req = OrderRequest {
                cl_ord_id: id.clone(),
                pair: pair.to_owned(),
                side: OrderSide::Sell,
                price: sell_price,
                qty: q,
                post_only: true,
                market: false,
                urgent: false,
            };
            proof {
                sells = seq![EngineCommand::PlaceOrder(req)@];
            }
            push_command(&mut cmds, EngineCommand::PlaceOrder(req));
            ask_id = Some(id);
        }
        assert(commands(cmds@) =~= buys + sells);
        self.mark_quoting(pair, &bid_id, &ask_id, mid, at);
        Some(cmds)
    }

    fn amend(&mut self, id: &Option<String>, price: Decimal) -> (r: Vec<EngineCommand>)
        ensures
            final(self)@.config == old(self)@.config,
            (final(self)@, commands(r@)) == old(self)@.amended(opt_text(*id), price),
    {
        if let Some(i) = id {
            if let Some(o) = self.state.open_orders.get(i.as_str()) {
                if o.acked {
                    let mut o = o.dup();
                    o.price = price;
                    self.state.open_orders.insert(i.clone(), o);
                    return one_command(
                        EngineCommand::AmendOrder {
                            cl_ord_id: i.clone(),
                            new_price: Some(price),
                            new_qty: None,
                        },
                    );
                }
            }
        }
        no_commands()
    }

    fn requote(
        &mut self,
        pair: &str,
        bid_price: Decimal,
        ask_price: Decimal,
        mid: Decimal,
    ) -> (r: Option<Vec<EngineCommand>>)
        ensures
            did(r, old(self)@.requoted(pair@, bid_price, ask_price, mid), old(self)@, final(self)@),
    {
        proof {
            reveal(EngineView::requoted);
        }
        let ask_price = self.anchor(pair, ask_price)?;
        let mut q = match self.quoters.get(pair) {
            Some(q) => q.dup(),
            None => {
                return Some(no_commands());
            },
        };
        let mut cmds = self.amend(&q.bid_cl_ord_id, bid_price);
        let more = self.amend(&q.ask_cl_ord_id, ask_price);
        append_commands(&mut cmds, more);
        q.last_mid = Some(mid);
        self.put_quoter(pair, q);
        Some(cmds)
    }

    fn nudge(&mut self, id: &String, price: Decimal) -> (r: Option<Vec<EngineCommand>>)
        ensures
            did(r, old(self)@.nudged(id@, price), old(self)@, final(self)@),
    {
        let (acked, last) = match self.state.open_orders.get(id.as_str()) {
            Some(o) => (o.acked, o.price),
            None => {
                return Some(no_commands());
            },
        };
        if !acked {
            return Some(no_commands());
        }
        let moved = has_moved(last, price, self.config.trading.requote_threshold_pct)?;
        if !moved {
            return Some(no_commands());
        }
        Some(self.amend(&Some(id.clone()), price))
    }

    fn open_side(
        &mut self,
        pair: &str,
        q: Quoter,
        side: OrderSide,
        price: Decimal,
        qty: Decimal,
        at: Timestamp,
    ) -> (r: Option<Vec<EngineCommand>>)
        ensures
            did(r, old(self)@.opened_side(pair@, q@, side, price, qty, at), old(self)@, final(self)@),
    {
        let mut q = q;
        let prefix = match side {
            OrderSide::Buy => "bid",
            OrderSide::Sell => "ask",
        };
        let id = self.track(prefix, pair, side, price, qty, at)?;
        match side {
            OrderSide::Buy => {
                q.bid_cl_ord_id = Some(id.clone());
            },
            OrderSide::Sell => {
                q.ask_cl_ord_id = Some(id.clone());
            },
        }
        self.put_quoter(pair, q);
        Some(
            one_command(
                EngineCommand::PlaceOrder(
                    OrderRequest {
                        cl_ord_id: id,
                        pair: pair.to_owned(),
                        side,
                        price,
                        qty,
                        post_only: true,
                        market: false,
                        urgent: false,
                    },
                ),
            ),
        )
    }

    fn manage_one_side(
        &mut self,
        pair: &str,
        side: OrderSide,
        price: Decimal,
        qty: Decimal,
        mid: Decimal,
        at: Timestamp,
    ) -> (r: Option<Vec<EngineCommand>>)
        ensures
            did(r, old(self)@.one_side(pair@, side, price, qty, mid, at), old(self)@, final(self)@),
    {
        proof {
            reveal(EngineView::one_side);
        }
        let price = match side {
            OrderSide::Sell => self.anchor(pair, price)?,
            OrderSide::Buy => price,
        };
        let q = match self.quoters.get(pair) {
            Some(q) => q.dup(),
            None => {
                return Some(no_commands());
            },
        };
        let existing = match side {
            OrderSide::Buy => copy_opt(&q.bid_cl_ord_id),
            OrderSide::Sell => copy_opt(&q.ask_cl_ord_id),
        };
        if let Some(id) = existing {
            return self.nudge(&id, price);
        }
        match side {
            OrderSide::Sell => {
                let size = self.sell_size(pair, qty, mid)?;
                match size {
                    Some(sell_qty) => self.open_side(pair, q, side, price, sell_qty, at),
                    None => Some(no_commands()),
                }
            },
            OrderSide::Buy => {
                if self.sell_only_pairs.contains_key(pair) {
                    return Some(no_commands());
                }
                let value = qty.checked_mul(mid)?;
                let allowed = self.may_buy(pair, value, mid)?;
                if allowed {
                    self.open_side(pair, q, side, price, qty, at)
                } else {
                    Some(no_commands())
                }
            },
        }
    }

    fn held_back(&self, pair: &str) -> (r: bool)
        ensures
            r == self@.held_back(pair@),
    {
        if self.disabled_pairs.contains_key(pair) || self.state.disabled_pairs.contains_key(pair)
            || self.state.cooldown_until.contains_key(pair) {
            return true;
        }
        if self.sell_only_pairs.contains_key(pair) && self.state.position(pair).is_empty() {
            return true;
        }
        self.kill_switch.triggered || self.rate_limiter.status() == RateStatus::Block
    }

    fn quote_at(
        &mut self,
        pair: &str,
        q: Quoter,
        prices: (Decimal, Decimal),
        qty: Decimal,
        mid: Decimal,
        at: Timestamp,
    ) -> (r: Option<Vec<EngineCommand>>)
        ensures
            did(r, old(self)@.quoted_at(pair@, q@, prices.0, prices.1, qty, mid, at), old(self)@, final(self)@),
    {
        proof {
            reveal(EngineView::quoted_at);
        }
        match q.state {
            QuoteState::Idle => self.place_fresh_quotes(pair, prices.0, prices.1, qty, mid, at),
            QuoteState::Pending => Some(no_commands()),
            QuoteState::Quoting => {
                let moved = q.should_requote(mid, &self.config.trading)?;
                if moved {
                    self.requote(pair, prices.0, prices.1, mid)
                } else {
                    Some(no_commands())
                }
            },
            QuoteState::BidFilled => self.manage_one_side(
                pair,
                OrderSide::Sell,
                prices.1,
                qty,
                mid,
                at,
            ),
            QuoteState::AskFilled => self.manage_one_side(
                pair,
                OrderSide::Buy,
                prices.0,
                qty,
                mid,
                at,
            ),
        }
    }

    fn quote_on(
        &mut self,
        pair: &str,
        best_bid: Decimal,
        best_ask: Decimal,
        mid: Decimal,
        at: Timestamp,
    ) -> (r: Option<Vec<EngineCommand>>)
        ensures
            did(r, old(self)@.quoted_on(pair@, best_bid, best_ask, mid, at), old(self)@, final(self)@),
    {
        proof {
            reveal(EngineView::quoted_on);
        }
        let info = match self.pair_info.get(pair) {
            Some(i) => i.dup(),
            None => {
                return Some(no_commands());
            },
        };
        let skew = inventory_skew(&self.state, pair, mid, self.config.risk.max_inventory_usd)?;
        let q = match self.quoters.get(pair) {
            Some(q) => q.dup(),
            None => {
                return Some(no_commands());
            },
        };
        let prices = q.compute_quotes(best_bid, best_ask, mid, skew, &self.config.trading, &info)?;
        let qty = q.compute_qty(mid, &self.config.trading, &info)?;
        match prices {
            None => Some(self.cancel_pair_quotes(pair)),
            Some(p) => self.quote_at(pair, q, p, qty, mid, at),
        }
    }

    fn maybe_quote(&mut self, pair: &str, at: Timestamp) -> (r: Option<Vec<EngineCommand>>)
        ensures
            did(r, old(self)@.quoted(pair@, at), old(self)@, final(self)@),
    {
        proof {
            reveal(EngineView::quoted);
        }
        if self.held_back(pair) {
            return Some(no_commands());
        }
        let (bid, ask, mid) = match self.books.get(pair) {
            Some(b) => (b.best_bid(), b.best_ask(), b.mid_price()?),
            None => {
                return Some(no_commands());
            },
        };
        match (bid, ask, mid) {
            (Some(b), Some(a), Some(m)) => self.quote_on(pair, b.price, a.price, m, at),
            _ => Some(no_commands()),
        }
    }

    fn note_price(&mut self, pair: &str) -> (r: Option<()>)
        ensures
            final(self)@.config == old(self)@.config,
            match old(self)@.priced(pair@) {
                Some(e) => r is Some && final(self)@ == e,
                None => r is None,
            },
    {
        let mid = match self.books.get(pair) {
            Some(b) => b.mid_price()?,
            None => None,
        };
        if let Some(m) = mid {
            self.prices.insert(pair.to_owned(), m);
        }
        Some(())
    }

    fn on_book_snapshot(
        &mut self,
        pair: String,
        bids: Vec<LevelUpdate>,
        asks: Vec<LevelUpdate>,
        at: Timestamp,
    ) -> (r: Option<Vec<EngineCommand>>)
        ensures
            did(r, old(self)@.on_book_snapshot(pair@, bids@, asks@, at), old(self)@, final(self)@),
    {
        proof {
            reveal(EngineView::on_book_snapshot);
        }
        let mut book = OrderBook::new();
        book.apply_snapshot(&bids, &asks);
        self.books.insert(pair.clone(), book);
        self.note_price(pair.as_str())?;
        self.maybe_quote(pair.as_str(), at)
    }

    fn on_book_update(
        &mut self,
        pair: String,
        bids: Vec<LevelUpdate>,
        asks: Vec<LevelUpdate>,
        at: Timestamp,
    ) -> (r: Option<Vec<EngineCommand>>)
        ensures
            did(r, old(self)@.on_book_update(pair@, bids@, asks@, at), old(self)@, final(self)@),
    {
        proof {
            reveal(EngineView::on_book_update);
        }
        if let Some(b) = self.books.get(pair.as_str()) {
            let mut book = b.dup();
            book.apply_update(&bids, &asks);
            self.books.insert(pair.clone(), book);
        }
        self.note_price(pair.as_str())?;
        self.maybe_quote(pair.as_str(), at)
    }
}

/// If the steps for a prefix of the pairs overflow, so do those for all of them.
proof fn lemma_steps_prefix(e: EngineView, pairs: Seq<Seq<char>>, at: Timestamp, i: int)
    requires
        0 <= i <= pairs.len(),
        e.liquidation_steps(pairs.take(i), at) is None,
    ensures
        e.liquidation_steps(pairs, at) is None,
    decreases pairs.len() - i,
{
    if i < pairs.len() {
        assert(pairs.take(i + 1).drop_last() =~= pairs.take(i));
        lemma_steps_prefix(e, pairs, at, i + 1);
    } else {
        assert(pairs.take(i) =~= pairs);
    }
}

/// If the search for extreme holdings overflows on a prefix, it does on all of them.
proof fn lemma_extremes_prefix(e: EngineView, positions: Entries<Position>, i: int)
    requires
        0 <= i <= positions.len(),
        e.extremes(positions.take(i)) is None,
    ensures
        e.extremes(positions) is None,
    decreases positions.len() - i,
{
    if i < positions.len() {
        assert(positions.take(i + 1).drop_last() =~= positions.take(i));
        lemma_extremes_prefix(e, positions, i + 1);
    } else {
        assert(positions.take(i) =~= positions);
    }
}

impl Engine {
    fn finish_liquidation(&mut self, pair: &str, at: Timestamp) -> (r: Option<()>)
        ensures
            final(self)@.config == old(self)@.config,
            match old(self)@.liquidated(pair@, at) {
                Some(e) => r is Some && final(self)@ == e,
                None => r is None,
            },
    {
        if self.pending_liquidation.contains_key(pair) {
            let end = at.plus_seconds(self.config.risk.cooldown_after_liquidation_secs)?;
            self.pending_liquidation.remove(pair);
            self.disabled_pairs.remove(pair);
            self.liq_retry_count.remove(pair);
            self.state.cooldown_until.insert(pair.to_owned(), end);
        }
        Some(())
    }

    fn book_fill(&mut self, fill: &Fill) -> (r: Option<Decimal>)
        ensures
            final(self)@.config == old(self)@.config,
            match old(self)@.booked(fill@) {
                Some((e, pnl)) => r == Some(pnl) && final(self)@ == e,
                None => r is None,
            },
    {
        proof {
            reveal(EngineView::booked);
        }
        if self.state.trade_count == u64::MAX {
            return None;
        }
        let total_fees = self.state.total_fees.checked_add(fill.fee)?;
        let mut held = self.state.position(fill.pair.as_str());
        match fill.side {
            OrderSide::Buy => {
                held.apply_buy(fill.qty, fill.price)?;
                self.state.positions.insert(fill.pair.clone(), held);
                self.state.total_fees = total_fees;
                self.state.trade_count = self.state.trade_count + 1;
                Some(Decimal::zero())
            },
            OrderSide::Sell => {
                let gain = held.apply_sell(fill.qty, fill.price)?;
                let pnl = gain.checked_sub(fill.fee)?;
                self.state.realized_pnl = self.state.realized_pnl.checked_add(pnl)?;
                self.state.total_fees = total_fees;
                self.state.trade_count = self.state.trade_count + 1;
                if held.is_empty() {
                    self.state.positions.remove(fill.pair.as_str());
                    self.finish_liquidation(fill.pair.as_str(), fill.timestamp)?;
                } else {
                    self.state.positions.insert(fill.pair.clone(), held);
                }
                Some(pnl)
            },
        }
    }

    fn close_filled(&mut self, fill: &Fill)
        ensures
            final(self)@.config == old(self)@.config,
            final(self)@ == old(self)@.closed_by(fill@),
    {
        proof {
            reveal(EngineView::closed_by);
        }
        if !fill.is_fully_filled {
            return;
        }
        self.state.open_orders.remove(fill.cl_ord_id.as_str());
        if let Some(q) = self.quoters.get(fill.pair.as_str()) {
            let mut q = q.dup();
            match fill.side {
                OrderSide::Buy => q.mark_bid_filled(),
                OrderSide::Sell => q.mark_ask_filled(),
            }
            self.put_quoter(fill.pair.as_str(), q);
        }
        self.settle(fill.pair.as_str());
    }

    fn on_fill(&mut self, fill: Fill) -> (r: Option<Vec<EngineCommand>>)
        ensures
            did(r, old(self)@.on_fill(fill@), old(self)@, final(self)@),
    {
        proof {
            reveal(EngineView::on_fill);
        }
        let pnl = self.book_fill(&fill)?;
        let value_usd = fill.price.checked_mul(fill.qty)?;
        let log = EngineCommand::LogTrade(
            TradeRecord {
                timestamp: fill.timestamp,
                pair: fill.pair.clone(),
                side: fill.side.as_str().to_owned(),
                price: fill.price,
                qty: fill.qty,
                value_usd,
                fee: fill.fee,
                pnl,
                cumulative_pnl: self.state.realized_pnl,
            },
        );
        self.close_filled(&fill);
        let save = EngineCommand::PersistState(self.state.dup());
        let ghost first = seq![log@, save@];
        let mut cmds = one_command(log);
        push_command(&mut cmds, save);
        assert(commands(cmds@) =~= first);
        let fired = self.kill_switch.check(self.state.realized_pnl, &self.config.risk);
        let ghost mut stop: Seq<CommandView> = Seq::empty();
        if fired {
            let reason = self.kill_switch.reason.clone();
            proof {
                stop = seq![CommandView::CancelAll, CommandView::Shutdown { reason: reason@ }];
            }
            push_command(&mut cmds, EngineCommand::CancelAll);
            push_command(&mut cmds, EngineCommand::Shutdown { reason });
        }
        assert(commands(cmds@) =~= first + stop);
        let more = self.maybe_quote(fill.pair.as_str(), fill.timestamp)?;
        append_commands(&mut cmds, more);
        Some(cmds)
    }

    fn on_ack(&mut self, cl_ord_id: &str)
        ensures
            final(self)@.config == old(self)@.config,
            final(self)@ == old(self)@.on_ack(cl_ord_id@),
    {
        let mut o = match self.state.open_orders.get(cl_ord_id) {
            Some(o) => o.dup(),
            None => {
                return;
            },
        };
        o.acked = true;
        let pair = o.pair.clone();
        self.state.open_orders.insert(cl_ord_id.to_owned(), o);
        self.settle(pair.as_str());
    }

    fn on_reject(&mut self, cl_ord_id: &str, named: String, reason: &str) -> (r: Option<
        Vec<EngineCommand>,
    >)
        ensures
            did(r, old(self)@.on_reject(cl_ord_id@, named@, reason@), old(self)@, final(self)@),
    {
        proof {
            reveal(EngineView::on_reject);
        }
        let pair = if named.as_str().is_empty() {
            match self.state.open_orders.get(cl_ord_id) {
                Some(o) => o.pair.clone(),
                None => String::new(),
            }
        } else {
            named
        };
        if contains(reason, "restricted") || contains(reason, "Invalid permissions") {
            self.disabled_pairs.insert(pair.clone(), ());
            let cmds = self.cancel_pair_quotes(pair.as_str());
            self.on_order_cancelled(cl_ord_id, pair.as_str());
            return Some(cmds);
        }
        if starts_with(cl_ord_id, "liq") {
            let tries: u32 = match self.liq_retry_count.get(pair.as_str()) {
                Some(n) => *n,
                None => 0,
            };
            if tries == u32::MAX {
                return None;
            }
            self.liq_retry_count.insert(pair.clone(), tries + 1);
        }
        self.on_order_cancelled(cl_ord_id, pair.as_str());
        Some(no_commands())
    }

    /// Begins the liquidation of a pair: cancels its orders (and only its) and stops quoting it.
    /// The sell itself is sent by a later tick, once the cancels have cleared.
    pub fn on_liquidate(&mut self, pair: &str) -> (r: Vec<EngineCommand>)
        ensures
            final(self)@.config == old(self)@.config,
            (final(self)@, commands(r@)) == old(self)@.liquidate(pair@),
    {
        if self.pending_liquidation.contains_key(pair) {
            return no_commands();
        }
        if self.state.position(pair).is_empty() {
            return no_commands();
        }
        let cmds = self.cancel_all_pair_orders(pair);
        self.pending_liquidation.insert(pair.to_owned(), ());
        self.disabled_pairs.insert(pair.to_owned(), ());
        self.liq_retry_count.insert(pair.to_owned(), 0u32);
        cmds
    }

    fn release(&mut self, pair: &str)
        ensures
            final(self)@.config == old(self)@.config,
            final(self)@ == old(self)@.released(pair@),
    {
        self.pending_liquidation.remove(pair);
        self.disabled_pairs.remove(pair);
        self.liq_retry_count.remove(pair);
    }

    fn reference_price(&self, pair: &str) -> (r: Decimal)
        ensures
            r == self@.reference_price(pair@),
    {
        let top = match self.books.get(pair) {
            Some(b) => b.best_bid(),
            None => None,
        };
        match top {
            Some(l) => l.price,
            None => match self.prices.get(pair) {
                Some(p) => *p,
                None => Decimal::zero(),
            },
        }
    }

    /// The second phase of a liquidation: the market sell.
    fn send_liquidation_sell(&mut self, pair: &str, at: Timestamp) -> (r: Option<
        Vec<EngineCommand>,
    >)
        ensures
            did(r, old(self)@.liquidation_sell(pair@, at), old(self)@, final(self)@),
    {
        proof {
            reveal(EngineView::liquidation_sell);
        }
        let tries: u32 = match self.liq_retry_count.get(pair) {
            Some(n) => *n,
            None => 0,
        };
        if tries >= 3 {
            self.pending_liquidation.remove(pair);
            return Some(no_commands());
        }
        let position = self.state.position(pair);
        if position.is_empty() {
            self.release(pair);
            return Some(no_commands());
        }
        let price = self.reference_price(pair);
        if price.is_zero() {
            return Some(no_commands());
        }
        let held = position.qty;
        if held < self.min_qty(pair) {
            self.release(pair);
            return Some(no_commands());
        }
        let value = held.checked_mul(price)?;
        if value < self.min_cost(pair) {
            self.release(pair);
            return Some(no_commands());
        }
        let qty = truncate_decimal(held, self.qty_decimals(pair))?;
        let id = self.track("liq", pair, OrderSide::Sell, price, qty, at)?;
        Some(
            one_command(
                EngineCommand::PlaceOrder(
                    OrderRequest {
                        cl_ord_id: id,
                        pair: pair.to_owned(),
                        side: OrderSide::Sell,
                        price,
                        qty,
                        post_only: false,
                        market: true,
                        urgent: true,
                    },
                ),
            ),
        )
    }

    fn liquidation_step(&mut self, pair: &str, at: Timestamp) -> (r: Option<Vec<EngineCommand>>)
        ensures
            did(r, old(self)@.liquidation_step(pair@, at), old(self)@, final(self)@),
    {
        proof {
            reveal(EngineView::liquidation_step);
        }
        let selling = select_ids(
            &self.state.open_orders,
            &OrderFilter::LiquidationOfPair(pair.to_owned()),
        );
        if selling.len() > 0 {
            return Some(no_commands());
        }
        let left = select_ids(
            &self.state.open_orders,
            &OrderFilter::PlainOfPair(pair.to_owned()),
        );
        if left.len() > 0 {
            remove_ids(&mut self.state.open_orders, &left);
            return Some(cancel_command(left));
        }
        self.send_liquidation_sell(pair, at)
    }

    fn liquidation_steps(&mut self, pairs: &Vec<String>, at: Timestamp) -> (r: Option<
        Vec<EngineCommand>,
    >)
        ensures
            did(r, old(self)@.liquidation_steps(texts(pairs@), at), old(self)@, final(self)@),
    {
        let mut cmds = no_commands();
        let mut i: usize = 0;
        let ghost all = texts(pairs@);
        let ghost e0 = old(self)@;
        assert(all.take(0).len() == 0);
        while i < pairs.len()
            invariant
                self@.config == old(self)@.config,
                i <= pairs.len(),
                all == texts(pairs@),
                e0 == old(self)@,
                e0.liquidation_steps(all.take(i as int), at) == Some((self@, commands(cmds@))),
            decreases pairs.len() - i,
        {
            proof {
                assert(all.take(i + 1).drop_last() =~= all.take(i as int));
                assert(all.take(i + 1).last() == all[i as int]);
            }
            match self.liquidation_step(pairs[i].as_str(), at) {
                Some(more) => append_commands(&mut cmds, more),
                None => {
                    proof {
                        lemma_steps_prefix(e0, all, at, i + 1);
                    }
                    return None;
                },
            }
            i = i + 1;
        }
        assert(all.take(pairs.len() as int) =~= all);
        Some(cmds)
    }

    fn is_extreme(&self, pair: &str, p: &Position) -> (r: Option<bool>)
        ensures
            r == self@.extreme(pair@, *p),
    {
        if p.is_empty() || p.avg_cost.is_zero() || self.pending_liquidation.contains_key(pair) {
            return Some(false);
        }
        match self.prices.get(pair) {
            None => Some(false),
            Some(mid) => {
                let change = over(minus(Some(*mid), Some(p.avg_cost)), Some(p.avg_cost))?;
                Some(
                    change < self.config.risk.stop_loss_pct.negate() || change
                        > self.config.risk.take_profit_pct,
                )
            },
        }
    }

    fn find_extremes(&self) -> (r: Option<Vec<String>>)
        ensures
            match self@.extremes(self@.state.positions) {
                Some(pairs) => r matches Some(v) && texts(v@) == pairs,
                None => r is None,
            },
    {
        let n: usize = self.state.positions.len();
        let mut r: Vec<String> = Vec::new();
        let mut i: usize = 0;
        let ghost all = self.state.positions@;
        proof {
            assert(all.take(0).len() == 0);
            assert(texts(r@) =~= Seq::empty());
        }
        while i < n
            invariant
                i <= n == all.len(),
                all == self.state.positions@,
                self@.extremes(all.take(i as int)) == Some(texts(r@)),
            decreases n - i,
        {
            proof {
                assert(all.take(i + 1).drop_last() =~= all.take(i as int));
                assert(all.take(i + 1).last() == all[i as int]);
            }
            let pair = self.state.positions.key_at(i);
            match self.is_extreme(pair.as_str(), self.state.positions.value_at(i)) {
                Some(yes) => {
                    if yes {
                        push_text(&mut r, pair.clone());
                    }
                },
                None => {
                    proof {
                        lemma_extremes_prefix(self@, all, i + 1);
                    }
                    return None;
                },
            }
            i = i + 1;
        }
        assert(all.take(n as int) =~= all);
        Some(r)
    }

    fn liquidate_all(&mut self, pairs: &Vec<String>) -> (r: Vec<EngineCommand>)
        ensures
            final(self)@.config == old(self)@.config,
            (final(self)@, commands(r@)) == old(self)@.liquidate_all(texts(pairs@)),
    {
        let mut cmds = no_commands();
        let mut i: usize = 0;
        let ghost all = texts(pairs@);
        assert(all.take(0).len() == 0);
        while i < pairs.len()
            invariant
                self@.config == old(self)@.config,
                i <= pairs.len(),
                all == texts(pairs@),
                old(self)@.liquidate_all(all.take(i as int)) == (self@, commands(cmds@)),
            decreases pairs.len() - i,
        {
            proof {
                assert(all.take(i + 1).drop_last() =~= all.take(i as int));
                assert(all.take(i + 1).last() == all[i as int]);
            }
            let more = self.on_liquidate(pairs[i].as_str());
            append_commands(&mut cmds, more);
            i = i + 1;
        }
        assert(all.take(pairs.len() as int) =~= all);
        cmds
    }

    fn drop_order(&mut self, id: &str)
        ensures
            final(self)@.config == old(self)@.config,
            final(self)@ == old(self)@.dropped(id@),
    {
        let order = self.state.open_orders.remove(id);
        if let Some(o) = order {
            if let Some(q) = self.quoters.get(o.pair.as_str()) {
                let mut q = q.dup();
                q.mark_cancelled(id);
                self.put_quoter(o.pair.as_str(), q);
            }
        } else {
            proof {
                crate::collections::lemma_slot(old(self)@.state.open_orders, id@);
            }
        }
    }

    fn drop_orders(&mut self, ids: &Vec<String>)
        ensures
            final(self)@.config == old(self)@.config,
            final(self)@ == old(self)@.dropped_all(texts(ids@)),
    {
        let mut i: usize = 0;
        let ghost all = texts(ids@);
        assert(all.take(0).len() == 0);
        while i < ids.len()
            invariant
                self@.config == old(self)@.config,
                i <= ids.len(),
                all == texts(ids@),
                self@ == old(self)@.dropped_all(all.take(i as int)),
            decreases ids.len() - i,
        {
            proof {
                assert(all.take(i + 1).drop_last() =~= all.take(i as int));
                assert(all.take(i + 1).last() == all[i as int]);
            }
            self.drop_order(ids[i].as_str());
            i = i + 1;
        }
        assert(all.take(ids.len() as int) =~= all);
    }

    fn thaw(&mut self, at: Timestamp)
        ensures
            final(self)@.config == old(self)@.config,
            final(self)@ == old(self)@.thawed(at),
    {
        let n: usize = self.state.cooldown_until.len();
        let mut r: Vec<String> = Vec::new();
        let mut i: usize = 0;
        let ghost all = self.state.cooldown_until@;
        proof {
            assert(all.take(0).len() == 0);
            assert(texts(r@) =~= Seq::empty());
        }
        while i < n
            invariant
                self@.config == old(self)@.config,
                i <= n == all.len(),
                all == self.state.cooldown_until@,
                self@ == old(self)@,
                EngineView::cooled(all.take(i as int), at) == texts(r@),
            decreases n - i,
        {
            proof {
                assert(all.take(i + 1).drop_last() =~= all.take(i as int));
                assert(all.take(i + 1).last() == all[i as int]);
            }
            if !at.before(self.state.cooldown_until.value_at(i)) {
                push_text(&mut r, self.state.cooldown_until.key_at(i).clone());
            }
            i = i + 1;
        }
        assert(all.take(n as int) =~= all);
        remove_ids(&mut self.state.cooldown_until, &r);
    }

    fn upkeep(&mut self, at: Timestamp) -> (r: Vec<EngineCommand>)
        ensures
            final(self)@.config == old(self)@.config,
            (final(self)@, commands(r@)) == old(self)@.upkeep(at),
    {
        proof {
            reveal(EngineView::upkeep);
        }
        let stale = select_ids(
            &self.state.open_orders,
            &OrderFilter::OlderThan { now: at, secs: self.config.risk.stale_order_secs },
        );
        self.drop_orders(&stale);
        let mut cmds = cancel_command(stale);
        let due = match self.last_dms_refresh {
            None => true,
            Some(last) => {
                at.seconds_since(&last) as i128 >= signed(self.config.risk.dms_refresh_secs)
            },
        };
        if due {
            self.last_dms_refresh = Some(at);
            push_command(&mut cmds, EngineCommand::RefreshDms);
        }
        cmds
    }

    fn on_tick(&mut self, at: Timestamp) -> (r: Option<Vec<EngineCommand>>)
        ensures
            did(r, old(self)@.on_tick(at), old(self)@, final(self)@),
    {
        proof {
            reveal(EngineView::on_tick);
        }
        self.thaw(at);
        let pending = self.pending_liquidation.keys();
        let mut cmds = self.liquidation_steps(&pending, at)?;
        let pairs = self.find_extremes()?;
        let more = self.liquidate_all(&pairs);
        append_commands(&mut cmds, more);
        let last = self.upkeep(at);
        append_commands(&mut cmds, last);
        Some(cmds)
    }

    fn reset_quoters(&mut self, keep_mid: bool)
        ensures
            final(self)@.config == old(self)@.config,
            final(self)@ == (if keep_mid {
                old(self)@.all_idle()
            } else {
                old(self)@.all_reset()
            }),
    {
        let n: usize = self.quoters.len();
        let mut i: usize = 0;
        let ghost want = if keep_mid {
            old(self)@.all_idle()
        } else {
            old(self)@.all_reset()
        };
        while i < n
            invariant
                self@.config == old(self)@.config,
                i <= n == self.quoters@.len(),
                n == old(self)@.quoters.len(),
                want == (if keep_mid {
                    old(self)@.all_idle()
                } else {
                    old(self)@.all_reset()
                }),
                self@ == (EngineView { quoters: self.quoters@, ..old(self)@ }),
                forall|j: int| 0 <= j < i ==> #[trigger] self.quoters@[j] == want.quoters[j],
                forall|j: int|
                    i <= j < n ==> #[trigger] self.quoters@[j] == old(self)@.quoters[j],
            decreases n - i,
        {
            let mut q = self.quoters.value_at(i).dup();
            let mid = q.last_mid;
            q.reset();
            if keep_mid {
                q.last_mid = mid;
            }
            self.quoters.set_value_at(i, q);
            i = i + 1;
        }
        assert(self.quoters@ =~= want.quoters);
    }

    fn restrict_all(&mut self)
        ensures
            final(self)@.config == old(self)@.config,
            final(self)@ == (EngineView {
                sell_only: stored_all(old(self)@.sell_only, keys_of(old(self)@.pair_info)),
                ..old(self)@
            }),
    {
        let pairs = self.pair_info.keys();
        let mut i: usize = 0;
        let ghost all = texts(pairs@);
        assert(all.take(0).len() == 0);
        while i < pairs.len()
            invariant
                self@.config == old(self)@.config,
                i <= pairs.len(),
                all == texts(pairs@),
                self@ == (EngineView {
                    sell_only: stored_all(old(self)@.sell_only, all.take(i as int)),
                    ..old(self)@
                }),
            decreases pairs.len() - i,
        {
            proof {
                assert(all.take(i + 1).drop_last() =~= all.take(i as int));
                assert(all.take(i + 1).last() == all[i as int]);
            }
            self.sell_only_pairs.insert(pairs[i].clone(), ());
            i = i + 1;
        }
        assert(all.take(pairs.len() as int) =~= all);
    }

    fn shut_out(&mut self, pair: &str)
        ensures
            final(self)@.config == old(self)@.config,
            final(self)@ == old(self)@.shut_out(pair@),
    {
        self.disabled_pairs.insert(pair.to_owned(), ());
        self.state.disabled_pairs.insert(pair.to_owned(), ());
    }

    fn disable_pair(&mut self, pair: &str) -> (r: Vec<EngineCommand>)
        ensures
            final(self)@.config == old(self)@.config,
            (final(self)@, commands(r@)) == old(self)@.disable(pair@),
    {
        let cmds = self.cancel_all_pair_orders(pair);
        self.shut_out(pair);
        cmds
    }

    fn add_quoter(&mut self, pair: &str)
        ensures
            final(self)@.config == old(self)@.config,
            final(self)@ == old(self)@.with_idle_quoter(pair@),
    {
        if !self.quoters.contains_key(pair) {
            self.put_quoter(pair, Quoter::new(pair.to_owned()));
        }
    }

    fn learn_pairs(&mut self, info: &StrMap<PairInfo>)
        ensures
            final(self)@.config == old(self)@.config,
            final(self)@ == old(self)@.informed(info@),
    {
        let n: usize = info.len();
        let mut i: usize = 0;
        let ghost all = info@;
        assert(all.take(0).len() == 0);
        while i < n
            invariant
                self@.config == old(self)@.config,
                i <= n == all.len(),
                all == info@,
                self@ == old(self)@.informed(all.take(i as int)),
            decreases n - i,
        {
            proof {
                assert(all.take(i + 1).drop_last() =~= all.take(i as int));
                assert(all.take(i + 1).last() == all[i as int]);
            }
            self.pair_info.insert(info.key_at(i).clone(), info.value_at(i).dup());
            self.add_quoter(info.key_at(i).as_str());
            i = i + 1;
        }
        assert(all.take(n as int) =~= all);
    }

    fn on_api_command(&mut self, action: ApiAction) -> (r: Vec<EngineCommand>)
        ensures
            final(self)@.config == old(self)@.config,
            (final(self)@, commands(r@)) == old(self)@.on_api(action),
    {
        match action {
            ApiAction::CancelAll => {
                self.reset_quoters(false);
                self.state.open_orders.clear();
                one_command(EngineCommand::CancelAll)
            },
            ApiAction::CancelOrder { cl_ord_id } => {
                self.drop_order(cl_ord_id.as_str());
                let ghost id = cl_ord_id@;
                let mut ids: Vec<String> = Vec::new();
                assert(texts(ids@) =~= Seq::empty());
                push_text(&mut ids, cl_ord_id);
                assert(texts(ids@) =~= seq![id]);
                one_command(EngineCommand::CancelOrders(ids))
            },
            ApiAction::Pause => {
                self.state.paused = true;
                self.restrict_all();
                one_command(EngineCommand::PersistState(self.state.dup()))
            },
            ApiAction::Resume => {
                self.state.paused = false;
                self.sell_only_pairs.clear();
                one_command(EngineCommand::PersistState(self.state.dup()))
            },
            ApiAction::Shutdown => {
                self.reset_quoters(true);
                self.state.open_orders.clear();
                let save = EngineCommand::PersistState(self.state.dup());
                let ghost want = seq![
                    CommandView::CancelAll,
                    save@,
                    CommandView::Shutdown { reason: "API shutdown request"@ },
                ];
                let mut cmds = one_command(EngineCommand::CancelAll);
                push_command(&mut cmds, save);
                push_command(
                    &mut cmds,
                    EngineCommand::Shutdown { reason: "API shutdown request".to_owned() },
                );
                assert(commands(cmds@) =~= want);
                cmds
            },
            ApiAction::Liquidate { pair } => self.on_liquidate(pair.as_str()),
            ApiAction::DisablePair { pair } => self.disable_pair(pair.as_str()),
            ApiAction::EnablePair { pair } => {
                self.disabled_pairs.remove(pair.as_str());
                self.state.disabled_pairs.remove(pair.as_str());
                self.state.cooldown_until.remove(pair.as_str());
                no_commands()
            },
            ApiAction::AddPair { pair } => {
                self.add_quoter(pair.as_str());
                no_commands()
            },
            ApiAction::RemovePair { pair } => {
                self.remove_pair(pair.as_str())
            },
        }
    }

    fn remove_pair(&mut self, pair: &str) -> (r: Vec<EngineCommand>)
        ensures
            final(self)@.config == old(self)@.config,
            (final(self)@, commands(r@)) == old(self)@.remove(pair@),
    {
        if !self.state.position(pair).is_empty() {
            let cmds = self.on_liquidate(pair);
            self.shut_out(pair);
            cmds
        } else {
            self.disable_pair(pair)
        }
    }

    fn reconcile(&mut self, balances: &StrMap<Decimal>)
        ensures
            final(self)@.config == old(self)@.config,
            final(self)@ == old(self)@.on_balances(balances@),
    {
        let ghost before = self@;
        let ghost infos = self.pair_info@;
        let n: usize = self.pair_info.len();
        let mut i: usize = 0;
        while i < n
            invariant
                i <= n == infos.len(),
                infos == self.pair_info@,
                self@ == (EngineView {
                    state: BotStateView {
                        positions: EngineView::reconciled(
                            before.state.positions,
                            infos.take(i as int),
                            balances@,
                        ),
                        ..before.state
                    },
                    ..before
                }),
            decreases n - i,
        {
            proof {
                assert(infos.take(i + 1).drop_last() =~= infos.take(i as int));
                assert(infos.take(i + 1).last() == infos[i as int]);
            }
            let pair = self.pair_info.key_at(i).clone();
            let asset = self.pair_info.value_at(i).exchange_base_asset.clone();
            if let Some(b) = balances.get(asset.as_str()) {
                let qty = *b;
                if qty.mantissa() > 0 {
                    let avg_cost = self.state.position(pair.as_str()).avg_cost;
                    self.state.positions.insert(pair, Position { qty, avg_cost });
                } else {
                    let _ = self.state.positions.remove(pair.as_str());
                }
            }
            i = i + 1;
        }
        assert(infos.take(i as int) =~= infos);
    }

    fn on_state_store(&mut self, action: StateStoreAction) -> (r: Vec<EngineCommand>)
        ensures
            final(self)@.config == old(self)@.config,
            (final(self)@, commands(r@)) == old(self)@.on_state_store(action),
    {
        match action {
            StateStoreAction::PairRemoved { pair } => self.disable_pair(pair.as_str()),
            _ => no_commands(),
        }
    }

    fn step(&mut self, event: EngineEvent) -> (r: Option<Vec<EngineCommand>>)
        ensures
            did(r, old(self)@.on_event(event), old(self)@, final(self)@),
    {
        match event {
            EngineEvent::BookSnapshot { pair, bids, asks, timestamp } => self.on_book_snapshot(
                pair,
                bids,
                asks,
                timestamp,
            ),
            EngineEvent::BookUpdate { pair, bid_updates, ask_updates, timestamp } =>
                self.on_book_update(pair, bid_updates, ask_updates, timestamp),
            EngineEvent::Fill(fill) => self.on_fill(fill),
            EngineEvent::OrderAcknowledged { cl_ord_id, order_id } => {
                self.on_ack(cl_ord_id.as_str());
                Some(no_commands())
            },
            EngineEvent::OrderCancelled { cl_ord_id, pair, reason } => {
                self.on_order_cancelled(cl_ord_id.as_str(), pair.as_str());
                Some(no_commands())
            },
            EngineEvent::OrderRejected { cl_ord_id, pair, reason } => self.on_reject(
                cl_ord_id.as_str(),
                pair,
                reason.as_str(),
            ),
            EngineEvent::Tick { timestamp } => self.on_tick(timestamp),
            EngineEvent::ApiCommand(action) => Some(self.on_api_command(action)),
            EngineEvent::StateStoreCommand(action) => Some(self.on_state_store(action)),
            EngineEvent::PairInfoFetched { info } => {
                self.learn_pairs(&info);
                Some(no_commands())
            },
            EngineEvent::BalanceUpdate { balances } => {
                self.reconcile(&balances);
                Some(no_commands())
            },
        }
    }

    /// Processes a single event and returns the resulting commands. `None`, with the engine as it
    /// was, if an amount overflows.
    pub fn handle_event(&mut self, event: EngineEvent) -> (r: Option<Vec<EngineCommand>>)
        ensures
            match old(self)@.on_event(event) {
                Some((e, c)) => r matches Some(v) && final(self)@ == e && commands(v@) == c,
                None => r is None && final(self)@ == old(self)@,
            },
            final(self)@.config == old(self)@.config,
    {
        let books = self.books.dup();
        let quoters = self.quoters.dup();
        let pair_info = self.pair_info.dup();
        let state = self.state.dup();
        let kill_switch = self.kill_switch.dup();
        let rate_limiter = self.rate_limiter;
        let prices = self.prices.dup();
        let disabled_pairs = self.disabled_pairs.dup();
        let sell_only_pairs = self.sell_only_pairs.dup();
        let pending_liquidation = self.pending_liquidation.dup();
        let liq_retry_count = self.liq_retry_count.dup();
        let cl_ord_counter: u64 = self.cl_ord_counter;
        let last_dms_refresh = self.last_dms_refresh;
        let r = self.step(event);
        if r.is_none() {
            self.books = books;
            self.quoters = quoters;
            self.pair_info = pair_info;
            self.state = state;
            self.kill_switch = kill_switch;
            self.rate_limiter = rate_limiter;
            self.prices = prices;
            self.disabled_pairs = disabled_pairs;
            self.sell_only_pairs = sell_only_pairs;
            self.pending_liquidation = pending_liquidation;
            self.liq_retry_count = liq_retry_count;
            self.cl_ord_counter = cl_ord_counter;
            self.last_dms_refresh = last_dms_refresh;
        }
        r
    }
}

/// The commands to carry out of a list: all of them, or those up to the first shutdown.
pub open spec fn until_shutdown(c: Seq<CommandView>) -> Seq<CommandView>
    decreases c.len(),
{
    if c.len() == 0 {
        c
    } else if c[0] is Shutdown {
        seq![c[0]]
    } else {
        seq![c[0]] + until_shutdown(c.drop_first())
    }
}

/// Whether a list of commands shuts the engine down.
pub open spec fn shuts_down(c: Seq<CommandView>) -> bool {
    exists|i: int| 0 <= i < c.len() && #[trigger] c[i] is Shutdown
}

proof fn lemma_until_shutdown(c: Seq<CommandView>, n: int)
    requires
        0 <= n <= c.len(),
        forall|j: int| 0 <= j < n ==> !(#[trigger] c[j] is Shutdown),
        n < c.len() ==> c[n] is Shutdown,
    ensures
        until_shutdown(c) == (if n < c.len() {
            c.take(n + 1)
        } else {
            c
        }),
    decreases n,
{
    if n == 0 {
        if c.len() > 0 {
            assert(c.take(1) =~= seq![c[0]]);
        }
    } else {
        let t = c.drop_first();
        assert forall|j: int| 0 <= j < n - 1 implies !(#[trigger] t[j] is Shutdown) by {
            assert(!(c[j + 1] is Shutdown));
        }
        lemma_until_shutdown(t, n - 1);
        if n < c.len() {
            assert(c.take(n + 1) =~= seq![c[0]] + t.take(n));
        } else {
            assert(c =~= seq![c[0]] + t);
        }
    }
}

/// What is carried out of a list of commands: everything up to the first shutdown, and whether
/// there was one.
#[verifier::loop_isolation(false)]
pub fn take_until_shutdown(list: Vec<EngineCommand>) -> (r: (Vec<EngineCommand>, bool))
    ensures
        commands(r.0@) == until_shutdown(commands(list@)),
        r.1 == shuts_down(commands(list@)),
{
    let ghost all = commands(list@);
    let mut cmds = list;
    let mut i: usize = 0;
    while i < cmds.len()
        invariant
            i <= cmds.len(),
            all == commands(cmds@),
            forall|j: int| 0 <= j < i ==> !(#[trigger] all[j] is Shutdown),
        decreases cmds.len() - i,
    {
        let stop = match &cmds[i] {
            EngineCommand::Shutdown { reason } => true,
            _ => false,
        };
        assert(all[i as int] == cmds@[i as int]@);
        if stop {
            proof {
                lemma_until_shutdown(all, i as int);
                assert(all[i as int] is Shutdown);
            }
            cmds.truncate(i + 1);
            assert(commands(cmds@) =~= all.take(i + 1));
            return (cmds, true);
        }
        i = i + 1;
    }
    proof {
        lemma_until_shutdown(all, i as int);
    }
    (cmds, false)
}

} // verus!
