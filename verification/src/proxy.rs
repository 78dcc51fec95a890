//! The protocol between the bot and the exchange proxy: commands one way, events the other.
use crate::collections::{texts, views, Dup};
use crate::decimal::Decimal;
use crate::events::{CommandView, EngineCommand, EngineEvent};
use crate::text::opt_text;
use crate::time::{time_of, Timestamp};
use crate::types::{side_of, side_text, Fill, FillView, LevelUpdate, OrderRequest, OrderRequestView, OrderSide};
use vstd::prelude::*;

verus! {

/// Priority of an order. Urgent ones bypass rate limiting; liquidations are urgent.
#[derive(Clone, Copy, Debug, PartialEq, Eq, Structural)]
pub enum OrderPriority {
    Normal,
    Urgent,
}

impl Default for OrderPriority {
    fn default() -> (r: OrderPriority)
        ensures
            r == OrderPriority::Normal,
    {
        OrderPriority::Normal
    }
}

/// What an exchange proxy can do.
#[derive(Clone, Copy, Debug, PartialEq, Eq, Structural)]
pub struct ExchangeCapabilities {
    /// Whether there is a dead man's switch.
    pub dead_man_switch: bool,
    /// Whether orders can be amended in place.
    pub amend_orders: bool,
    /// Whether there are post-only orders.
    pub post_only: bool,
}

impl Default for ExchangeCapabilities {
    fn default() -> (r: ExchangeCapabilities)
        ensures
            !r.dead_man_switch,
            !r.amend_orders,
            !r.post_only,
    {
        ExchangeCapabilities { dead_man_switch: false, amend_orders: false, post_only: false }
    }
}

/// Commands sent from the bot to the proxy.
#[derive(Clone, Debug)]
#[allow(inconsistent_fields)]
pub enum ProxyCommand {
    PlaceOrder {
        req_id: u64,
        symbol: String,
        side: String,
        order_type: String,
        price: Decimal,
        qty: Decimal,
        cl_ord_id: String,
        post_only: bool,
        priority: OrderPriority,
        /// Market orders skip price validation.
        market: bool,
    },
    AmendOrder { req_id: u64, cl_ord_id: String, price: Option<Decimal>, qty: Option<Decimal> },
    CancelOrders { req_id: u64, cl_ord_ids: Vec<String> },
    CancelAll { req_id: u64 },
    SetDms { req_id: u64, timeout_secs: u64 },
    Subscribe { channel: String, symbols: Vec<String>, depth: Option<u32> },
    Ping { req_id: u64 },
}

/// Model of [`ProxyCommand`].
#[allow(inconsistent_fields)]
pub enum ProxyCommandView {
    PlaceOrder {
        req_id: u64,
        symbol: Seq<char>,
        side: Seq<char>,
        order_type: Seq<char>,
        price: Decimal,
        qty: Decimal,
        cl_ord_id: Seq<char>,
        post_only: bool,
        priority: OrderPriority,
        market: bool,
    },
    AmendOrder { req_id: u64, cl_ord_id: Seq<char>, price: Option<Decimal>, qty: Option<Decimal> },
    CancelOrders { req_id: u64, cl_ord_ids: Seq<Seq<char>> },
    CancelAll { req_id: u64 },
    SetDms { req_id: u64, timeout_secs: u64 },
    Subscribe { channel: Seq<char>, symbols: Seq<Seq<char>>, depth: Option<u32> },
    Ping { req_id: u64 },
}

impl View for ProxyCommand {
    type V = ProxyCommandView;

    open spec fn view(&self) -> ProxyCommandView {
        match *self {
            ProxyCommand::PlaceOrder {
                req_id,
                symbol,
                side,
                order_type,
                price,
                qty,
                cl_ord_id,
                post_only,
                priority,
                market,
            } => ProxyCommandView::PlaceOrder {
                req_id,
                symbol: symbol@,
                side: side@,
                order_type: order_type@,
                price,
                qty,
                cl_ord_id: cl_ord_id@,
                post_only,
                priority,
                market,
            },
            ProxyCommand::AmendOrder { req_id, cl_ord_id, price, qty } =>
                ProxyCommandView::AmendOrder { req_id, cl_ord_id: cl_ord_id@, price, qty },
            ProxyCommand::CancelOrders { req_id, cl_ord_ids } => ProxyCommandView::CancelOrders {
                req_id,
                cl_ord_ids: texts(cl_ord_ids@),
            },
            ProxyCommand::CancelAll { req_id } => ProxyCommandView::CancelAll { req_id },
            ProxyCommand::SetDms { req_id, timeout_secs } => ProxyCommandView::SetDms {
                req_id,
                timeout_secs,
            },
            ProxyCommand::Subscribe { channel, symbols, depth } => ProxyCommandView::Subscribe {
                channel: channel@,
                symbols: texts(symbols@),
                depth,
            },
            ProxyCommand::Ping { req_id } => ProxyCommandView::Ping { req_id },
        }
    }
}

impl ProxyCommandView {
    /// The name of a command's method.
    pub open spec fn method(self) -> Seq<char> {
        match self {
            ProxyCommandView::PlaceOrder { .. } => "place_order"@,
            ProxyCommandView::AmendOrder { .. } => "amend_order"@,
            ProxyCommandView::CancelOrders { .. } => "cancel_orders"@,
            ProxyCommandView::CancelAll { .. } => "cancel_all"@,
            ProxyCommandView::SetDms { .. } => "set_dms"@,
            ProxyCommandView::Subscribe { .. } => "subscribe"@,
            ProxyCommandView::Ping { .. } => "ping"@,
        }
    }
}

impl ProxyCommand {
    /// The method name, for rate limiting.
    pub fn method(&self) -> (r: &'static str)
        ensures
            r@ == self@.method(),
    {
        match self {
            ProxyCommand::PlaceOrder { .. } => "place_order",
            ProxyCommand::AmendOrder { .. } => "amend_order",
            ProxyCommand::CancelOrders { .. } => "cancel_orders",
            ProxyCommand::CancelAll { .. } => "cancel_all",
            ProxyCommand::SetDms { .. } => "set_dms",
            ProxyCommand::Subscribe { .. } => "subscribe",
            ProxyCommand::Ping { .. } => "ping",
        }
    }

    /// Whether this command is exempt from rate limiting.
    pub fn is_rate_limit_exempt(&self) -> (r: bool)
        ensures
            r == (self is CancelAll || self is SetDms || self is Subscribe || self is Ping),
    {
        match self {
            ProxyCommand::CancelAll { .. } => true,
            ProxyCommand::SetDms { .. } => true,
            ProxyCommand::Subscribe { .. } => true,
            ProxyCommand::Ping { .. } => true,
            _ => false,
        }
    }

    /// The priority of an order command; normal for any other.
    pub fn priority(&self) -> (r: OrderPriority)
        ensures
            r == (match self@ {
                ProxyCommandView::PlaceOrder { priority, .. } => priority,
                _ => OrderPriority::Normal,
            }),
    {
        match self {
            ProxyCommand::PlaceOrder { priority, .. } => *priority,
            _ => OrderPriority::Normal,
        }
    }

    /// The request id, if the command has one.
    pub fn req_id(&self) -> (r: Option<u64>)
        ensures
            r == (match self@ {
                ProxyCommandView::PlaceOrder { req_id, .. } => Some(req_id),
                ProxyCommandView::AmendOrder { req_id, .. } => Some(req_id),
                ProxyCommandView::CancelOrders { req_id, .. } => Some(req_id),
                ProxyCommandView::CancelAll { req_id } => Some(req_id),
                ProxyCommandView::SetDms { req_id, .. } => Some(req_id),
                ProxyCommandView::Ping { req_id } => Some(req_id),
                ProxyCommandView::Subscribe { .. } => None,
            }),
    {
        match self {
            ProxyCommand::PlaceOrder { req_id, .. } => Some(*req_id),
            ProxyCommand::AmendOrder { req_id, .. } => Some(*req_id),
            ProxyCommand::CancelOrders { req_id, .. } => Some(*req_id),
            ProxyCommand::CancelAll { req_id } => Some(*req_id),
            ProxyCommand::SetDms { req_id, .. } => Some(*req_id),
            ProxyCommand::Ping { req_id } => Some(*req_id),
            ProxyCommand::Subscribe { .. } => None,
        }
    }

    /// The subscription to books of the given pairs.
    pub fn subscribe_books(symbols: Vec<String>, depth: u32) -> (r: ProxyCommand)
        ensures
            r@ == (ProxyCommandView::Subscribe {
                channel: "book"@,
                symbols: texts(symbols@),
                depth: Some(depth),
            }),
    {
        ProxyCommand::Subscribe { channel: "book".to_owned(), symbols, depth: Some(depth) }
    }

    /// The subscription to executions.
    pub fn subscribe_executions() -> (r: ProxyCommand)
        ensures
            r@ == (ProxyCommandView::Subscribe {
                channel: "executions"@,
                symbols: Seq::empty(),
                depth: None,
            }),
    {
        let symbols: Vec<String> = Vec::new();
        assert(texts(symbols@) =~= Seq::empty());
        ProxyCommand::Subscribe { channel: "executions".to_owned(), symbols, depth: None }
    }
}

/// The command that places an order with the proxy. A market order is never post-only.
pub open spec fn order_command(o: OrderRequestView, req_id: u64) -> ProxyCommandView {
    ProxyCommandView::PlaceOrder {
        req_id,
        symbol: o.pair,
        side: side_text(o.side),
        order_type: if o.market {
            "market"@
        } else {
            "limit"@
        },
        price: o.price,
        qty: o.qty,
        cl_ord_id: o.cl_ord_id,
        post_only: !o.market && o.post_only,
        priority: if o.urgent {
            OrderPriority::Urgent
        } else {
            OrderPriority::Normal
        },
        market: o.market,
    }
}

/// What is sent to the proxy for an engine command, numbered from `req_id` on: nothing for what
/// concerns storage and logs; on shutdown everything is cancelled and the dead man's switch is
/// turned off.
pub open spec fn outgoing(c: CommandView, req_id: u64, dms_timeout: u64) -> Seq<ProxyCommandView> {
    match c {
        CommandView::PlaceOrder(o) => seq![order_command(o, req_id)],
        CommandView::AmendOrder { cl_ord_id, new_price, new_qty } => seq![
            ProxyCommandView::AmendOrder { req_id, cl_ord_id, price: new_price, qty: new_qty },
        ],
        CommandView::CancelOrders(ids) => seq![
            ProxyCommandView::CancelOrders { req_id, cl_ord_ids: ids },
        ],
        CommandView::CancelAll => seq![ProxyCommandView::CancelAll { req_id }],
        CommandView::RefreshDms => seq![
            ProxyCommandView::SetDms { req_id, timeout_secs: dms_timeout },
        ],
        CommandView::PersistState(_) => Seq::empty(),
        CommandView::LogTrade(_) => Seq::empty(),
        CommandView::Shutdown { .. } => seq![
            ProxyCommandView::CancelAll { req_id },
            ProxyCommandView::SetDms { req_id: (req_id + 1) as u64, timeout_secs: 0 },
        ],
    }
}

/// A copy of a list of strings.
pub fn copy_texts(v: &Vec<String>) -> (r: Vec<String>)
    ensures
        texts(r@) == texts(v@),
{
    let mut r: Vec<String> = Vec::new();
    let mut i: usize = 0;
    while i < v.len()
        invariant
            i <= v.len(),
            r.len() == i,
            forall|j: int| 0 <= j < i ==> (#[trigger] r@[j])@ == v@[j]@,
        decreases v.len() - i,
    {
        r.push(v[i].clone());
        i = i + 1;
    }
    assert(texts(r@) =~= texts(v@));
    r
}

/// The command that places an order.
pub fn place_command(o: &OrderRequest, req_id: u64) -> (r: ProxyCommand)
    ensures
        r@ == order_command(o@, req_id),
{
    let order_type = if o.market {
        "market"
    } else {
        "limit"
    };
    ProxyCommand::PlaceOrder {
        req_id,
        symbol: o.pair.clone(),
        side: o.side.as_str().to_owned(),
        order_type: order_type.to_owned(),
        price: o.price,
        qty: o.qty,
        cl_ord_id: o.cl_ord_id.clone(),
        post_only: !o.market && o.post_only,
        priority: if o.urgent {
            OrderPriority::Urgent
        } else {
            OrderPriority::Normal
        },
        market: o.market,
    }
}

/// What is sent to the proxy for an engine command. The requests are numbered from `req_id` on;
/// at most two numbers are used.
pub fn to_proxy(command: &EngineCommand, req_id: u64, dms_timeout: u64) -> (r: Vec<ProxyCommand>)
    requires
        req_id < u64::MAX,
    ensures
        views(r@) == outgoing(command@, req_id, dms_timeout),
{
    let mut r: Vec<ProxyCommand> = Vec::new();
    match command {
        EngineCommand::PlaceOrder(o) => {
            r.push(place_command(o, req_id));
        },
        EngineCommand::AmendOrder { cl_ord_id, new_price, new_qty } => {
            r.push(
                ProxyCommand::AmendOrder {
                    req_id,
                    cl_ord_id: cl_ord_id.clone(),
                    price: *new_price,
                    qty: *new_qty,
                },
            );
        },
        EngineCommand::CancelOrders(ids) => {
            r.push(ProxyCommand::CancelOrders { req_id, cl_ord_ids: copy_texts(ids) });
        },
        EngineCommand::CancelAll => {
            r.push(ProxyCommand::CancelAll { req_id });
        },
        EngineCommand::RefreshDms => {
            r.push(ProxyCommand::SetDms { req_id, timeout_secs: dms_timeout });
        },
        EngineCommand::PersistState(_) => {},
        EngineCommand::LogTrade(_) => {},
        EngineCommand::Shutdown { .. } => {
            r.push(ProxyCommand::CancelAll { req_id });
            r.push(ProxyCommand::SetDms { req_id: req_id + 1, timeout_secs: 0 });
        },
    }
    assert(views(r@) =~= outgoing(command@, req_id, dms_timeout));
    r
}

/// A price level of a book message.
#[derive(Clone, Copy, Debug)]
pub struct BookLevel {
    pub price: Decimal,
    pub qty: Decimal,
}

/// Events sent from the proxy to the bot.
#[derive(Clone, Debug)]
#[allow(inconsistent_fields)]
pub enum ProxyEvent {
    BookSnapshot { symbol: String, bids: Vec<BookLevel>, asks: Vec<BookLevel> },
    BookUpdate { symbol: String, bids: Vec<BookLevel>, asks: Vec<BookLevel> },
    Fill {
        order_id: String,
        cl_ord_id: String,
        symbol: String,
        side: String,
        qty: Decimal,
        price: Decimal,
        fee: Decimal,
        is_maker: bool,
        timestamp: String,
        /// Whether this fill completes the order.
        is_fully_filled: bool,
    },
    OrderAccepted { req_id: u64, cl_ord_id: String, order_id: String },
    OrderCancelled {
        cl_ord_id: String,
        reason: Option<String>,
        /// The pair of the order, for routing.
        symbol: Option<String>,
    },
    OrderRejected {
        req_id: u64,
        cl_ord_id: String,
        error: String,
        /// The pair of the order, for routing.
        symbol: Option<String>,
    },
    CommandAck { req_id: u64, cmd: String },
    Subscribed { channel: String },
    Heartbeat,
    Pong { req_id: u64 },
}

/// Model of [`ProxyEvent`].
#[allow(inconsistent_fields)]
pub enum ProxyEventView {
    BookSnapshot { symbol: Seq<char>, bids: Seq<BookLevel>, asks: Seq<BookLevel> },
    BookUpdate { symbol: Seq<char>, bids: Seq<BookLevel>, asks: Seq<BookLevel> },
    Fill {
        order_id: Seq<char>,
        cl_ord_id: Seq<char>,
        symbol: Seq<char>,
        side: Seq<char>,
        qty: Decimal,
        price: Decimal,
        fee: Decimal,
        is_maker: bool,
        timestamp: Seq<char>,
        is_fully_filled: bool,
    },
    OrderAccepted { req_id: u64, cl_ord_id: Seq<char>, order_id: Seq<char> },
    OrderCancelled {
        cl_ord_id: Seq<char>,
        reason: Option<Seq<char>>,
        symbol: Option<Seq<char>>,
    },
    OrderRejected {
        req_id: u64,
        cl_ord_id: Seq<char>,
        error: Seq<char>,
        symbol: Option<Seq<char>>,
    },
    CommandAck { req_id: u64, cmd: Seq<char> },
    Subscribed { channel: Seq<char> },
    Heartbeat,
    Pong { req_id: u64 },
}

impl View for ProxyEvent {
    type V = ProxyEventView;

    open spec fn view(&self) -> ProxyEventView {
        match *self {
            ProxyEvent::BookSnapshot { symbol, bids, asks } => ProxyEventView::BookSnapshot {
                symbol: symbol@,
                bids: bids@,
                asks: asks@,
            },
            ProxyEvent::BookUpdate { symbol, bids, asks } => ProxyEventView::BookUpdate {
                symbol: symbol@,
                bids: bids@,
                asks: asks@,
            },
            ProxyEvent::Fill {
                order_id,
                cl_ord_id,
                symbol,
                side,
                qty,
                price,
                fee,
                is_maker,
                timestamp,
                is_fully_filled,
            } => ProxyEventView::Fill {
                order_id: order_id@,
                cl_ord_id: cl_ord_id@,
                symbol: symbol@,
                side: side@,
                qty,
                price,
                fee,
                is_maker,
                timestamp: timestamp@,
                is_fully_filled,
            },
            ProxyEvent::OrderAccepted { req_id, cl_ord_id, order_id } =>
                ProxyEventView::OrderAccepted {
                req_id,
                cl_ord_id: cl_ord_id@,
                order_id: order_id@,
            },
            ProxyEvent::OrderCancelled { cl_ord_id, reason, symbol } =>
                ProxyEventView::OrderCancelled {
                cl_ord_id: cl_ord_id@,
                reason: opt_text(reason),
                symbol: opt_text(symbol),
            },
            ProxyEvent::OrderRejected { req_id, cl_ord_id, error, symbol } =>
                ProxyEventView::OrderRejected {
                req_id,
                cl_ord_id: cl_ord_id@,
                error: error@,
                symbol: opt_text(symbol),
            },
            ProxyEvent::CommandAck { req_id, cmd } => ProxyEventView::CommandAck {
                req_id,
                cmd: cmd@,
            },
            ProxyEvent::Subscribed { channel } => ProxyEventView::Subscribed { channel: channel@ },
            ProxyEvent::Heartbeat => ProxyEventView::Heartbeat,
            ProxyEvent::Pong { req_id } => ProxyEventView::Pong { req_id },
        }
    }
}

fn owned(o: Option<&str>) -> (r: Option<String>)
    ensures
        opt_text(r) == (match o {
            Some(s) => Some(s@),
            None => None,
        }),
{
    match o {
        Some(s) => Some(s.to_owned()),
        None => None,
    }
}

impl ProxyEvent {
    /// A book snapshot.
    pub fn book_snapshot(symbol: &str, bids: Vec<BookLevel>, asks: Vec<BookLevel>) -> (r: ProxyEvent)
        ensures
            r@ == (ProxyEventView::BookSnapshot { symbol: symbol@, bids: bids@, asks: asks@ }),
    {
        ProxyEvent::BookSnapshot { symbol: symbol.to_owned(), bids, asks }
    }

    /// A book update.
    pub fn book_update(symbol: &str, bids: Vec<BookLevel>, asks: Vec<BookLevel>) -> (r: ProxyEvent)
        ensures
            r@ == (ProxyEventView::BookUpdate { symbol: symbol@, bids: bids@, asks: asks@ }),
    {
        ProxyEvent::BookUpdate { symbol: symbol.to_owned(), bids, asks }
    }

    /// A fill.
    pub fn fill(
        order_id: &str,
        cl_ord_id: &str,
        symbol: &str,
        side: &str,
        qty: Decimal,
        price: Decimal,
        fee: Decimal,
        is_maker: bool,
        timestamp: &str,
        is_fully_filled: bool,
    ) -> (r: ProxyEvent)
        ensures
            r@ == (ProxyEventView::Fill {
                order_id: order_id@,
                cl_ord_id: cl_ord_id@,
                symbol: symbol@,
                side: side@,
                qty,
                price,
                fee,
                is_maker,
                timestamp: timestamp@,
                is_fully_filled,
            }),
    {
        ProxyEvent::Fill {
            order_id: order_id.to_owned(),
            cl_ord_id: cl_ord_id.to_owned(),
            symbol: symbol.to_owned(),
            side: side.to_owned(),
            qty,
            price,
            fee,
            is_maker,
            timestamp: timestamp.to_owned(),
            is_fully_filled,
        }
    }

    /// An accepted order.
    pub fn order_accepted(req_id: u64, cl_ord_id: &str, order_id: &str) -> (r: ProxyEvent)
        ensures
            r@ == (ProxyEventView::OrderAccepted {
                req_id,
                cl_ord_id: cl_ord_id@,
                order_id: order_id@,
            }),
    {
        ProxyEvent::OrderAccepted {
            req_id,
            cl_ord_id: cl_ord_id.to_owned(),
            order_id: order_id.to_owned(),
        }
    }

    /// A cancelled order.
    pub fn order_cancelled(cl_ord_id: &str, reason: Option<&str>, symbol: Option<&str>) -> (r:
        ProxyEvent)
        ensures
            r@ == (ProxyEventView::OrderCancelled {
                cl_ord_id: cl_ord_id@,
                reason: match reason {
                    Some(s) => Some(s@),
                    None => None,
                },
                symbol: match symbol {
                    Some(s) => Some(s@),
                    None => None,
                },
            }),
    {
        ProxyEvent::OrderCancelled {
            cl_ord_id: cl_ord_id.to_owned(),
            reason: owned(reason),
            symbol: owned(symbol),
        }
    }

    /// A rejected order.
    pub fn order_rejected(req_id: u64, cl_ord_id: &str, error: &str, symbol: Option<&str>) -> (r:
        ProxyEvent)
        ensures
            r@ == (ProxyEventView::OrderRejected {
                req_id,
                cl_ord_id: cl_ord_id@,
                error: error@,
                symbol: match symbol {
                    Some(s) => Some(s@),
                    None => None,
                },
            }),
    {
        ProxyEvent::OrderRejected {
            req_id,
            cl_ord_id: cl_ord_id.to_owned(),
            error: error.to_owned(),
            symbol: owned(symbol),
        }
    }

    /// An acknowledged command.
    pub fn command_ack(req_id: u64, cmd: &str) -> (r: ProxyEvent)
        ensures
            r@ == (ProxyEventView::CommandAck { req_id, cmd: cmd@ }),
    {
        ProxyEvent::CommandAck { req_id, cmd: cmd.to_owned() }
    }

    /// A confirmed subscription.
    pub fn subscribed(channel: &str) -> (r: ProxyEvent)
        ensures
            r@ == (ProxyEventView::Subscribed { channel: channel@ }),
    {
        ProxyEvent::Subscribed { channel: channel.to_owned() }
    }

    /// A heartbeat.
    pub fn heartbeat() -> (r: ProxyEvent)
        ensures
            r@ == ProxyEventView::Heartbeat,
    {
        ProxyEvent::Heartbeat
    }

    /// The answer to a ping.
    pub fn pong(req_id: u64) -> (r: ProxyEvent)
        ensures
            r@ == (ProxyEventView::Pong { req_id }),
    {
        ProxyEvent::Pong { req_id }
    }
}

/// The levels of a book message as level updates.
pub open spec fn level_updates(s: Seq<BookLevel>) -> Seq<LevelUpdate> {
    Seq::new(s.len(), |i: int| LevelUpdate { price: s[i].price, qty: s[i].qty })
}

fn to_updates(levels: &Vec<BookLevel>) -> (r: Vec<LevelUpdate>)
    ensures
        r@ == level_updates(levels@),
{
    let mut r: Vec<LevelUpdate> = Vec::new();
    let mut i: usize = 0;
    while i < levels.len()
        invariant
            i <= levels.len(),
            r@ == level_updates(levels@).take(i as int),
        decreases levels.len() - i,
    {
        r.push(LevelUpdate { price: levels[i].price, qty: levels[i].qty });
        i = i + 1;
        assert(r@ =~= level_updates(levels@).take(i as int));
    }
    assert(r@ =~= level_updates(levels@));
    r
}

/// The pair that stands for an order of which none is named.
pub open spec fn pair_or_unknown(symbol: Option<Seq<char>>) -> Seq<char> {
    match symbol {
        Some(s) => s,
        None => "UNKNOWN/UNKNOWN"@,
    }
}

fn known_pair(symbol: Option<String>) -> (r: String)
    ensures
        r@ == pair_or_unknown(opt_text(symbol)),
{
    match symbol {
        Some(s) => s,
        None => "UNKNOWN/UNKNOWN".to_owned(),
    }
}

/// Whether an engine event is what a proxy event says about books, as of `at`.
pub open spec fn tells_book(v: ProxyEventView, at: Timestamp, r: Option<EngineEvent>) -> bool {
    match v {
        ProxyEventView::BookSnapshot { symbol, bids, asks } => r matches Some(
            EngineEvent::BookSnapshot { pair, bids: b, asks: a, timestamp },
        ) && pair@ == symbol && b@ == level_updates(bids) && a@ == level_updates(asks) && timestamp
            == at,
        ProxyEventView::BookUpdate { symbol, bids, asks } => r matches Some(
            EngineEvent::BookUpdate { pair, bid_updates, ask_updates, timestamp },
        ) && pair@ == symbol && bid_updates@ == level_updates(bids) && ask_updates@
            == level_updates(asks) && timestamp == at,
        _ => r is None,
    }
}

/// Whether an engine event is what a proxy event says about orders. A fill without a readable
/// time gets the time `at`.
pub open spec fn tells_order(v: ProxyEventView, at: Timestamp, r: Option<EngineEvent>) -> bool {
    match v {
        ProxyEventView::Fill {
            order_id,
            cl_ord_id,
            symbol,
            side,
            qty,
            price,
            fee,
            is_maker,
            timestamp,
            is_fully_filled,
        } => r matches Some(EngineEvent::Fill(fill)) && fill@ == (FillView {
            order_id,
            cl_ord_id,
            pair: symbol,
            side: side_of(side),
            price,
            qty,
            fee,
            is_maker,
            is_fully_filled,
            timestamp: match time_of(timestamp) {
                Some(t) => t,
                None => at,
            },
        }),
        ProxyEventView::OrderAccepted { req_id, cl_ord_id, order_id } => r matches Some(
            EngineEvent::OrderAcknowledged { cl_ord_id: c, order_id: o },
        ) && c@ == cl_ord_id && o@ == order_id,
        ProxyEventView::OrderCancelled { cl_ord_id, reason, symbol } => r matches Some(
            EngineEvent::OrderCancelled { cl_ord_id: c, pair, reason: w },
        ) && c@ == cl_ord_id && pair@ == pair_or_unknown(symbol) && opt_text(w) == reason,
        ProxyEventView::OrderRejected { req_id, cl_ord_id, error, symbol } => r matches Some(
            EngineEvent::OrderRejected { cl_ord_id: c, pair, reason },
        ) && c@ == cl_ord_id && pair@ == pair_or_unknown(symbol) && reason@ == error,
        _ => r is None,
    }
}

/// What an event of the public feed means to the engine: book data, received at `at`.
pub fn book_event(event: ProxyEvent, at: Timestamp) -> (r: Option<EngineEvent>)
    ensures
        tells_book(event@, at, r),
{
    match event {
        ProxyEvent::BookSnapshot { symbol, bids, asks } => Some(
            EngineEvent::BookSnapshot {
                pair: symbol,
                bids: to_updates(&bids),
                asks: to_updates(&asks),
                timestamp: at,
            },
        ),
        ProxyEvent::BookUpdate { symbol, bids, asks } => Some(
            EngineEvent::BookUpdate {
                pair: symbol,
                bid_updates: to_updates(&bids),
                ask_updates: to_updates(&asks),
                timestamp: at,
            },
        ),
        _ => None,
    }
}

/// What an event of the private feed means to the engine: fills and the fate of orders.
pub fn private_event(event: ProxyEvent, at: Timestamp) -> (r: Option<EngineEvent>)
    ensures
        tells_order(event@, at, r),
{
    match event {
        ProxyEvent::Fill {
            order_id,
            cl_ord_id,
            symbol,
            side,
            qty,
            price,
            fee,
            is_maker,
            timestamp,
            is_fully_filled,
        } => {
            let time = match Timestamp::parse(timestamp.as_str()) {
                Some(t) => t,
                None => at,
            };
            Some(
                EngineEvent::Fill(
                    Fill {
                        order_id,
                        cl_ord_id,
                        pair: symbol,
                        side: OrderSide::from_word(side.as_str()),
                        price,
                        qty,
                        fee,
                        is_maker,
                        is_fully_filled,
                        timestamp: time,
                    },
                ),
            )
        },
        ProxyEvent::OrderAccepted { req_id, cl_ord_id, order_id } => Some(
            EngineEvent::OrderAcknowledged { cl_ord_id, order_id },
        ),
        ProxyEvent::OrderCancelled { cl_ord_id, reason, symbol } => Some(
            EngineEvent::OrderCancelled { cl_ord_id, pair: known_pair(symbol), reason },
        ),
        ProxyEvent::OrderRejected { req_id, cl_ord_id, error, symbol } => Some(
            EngineEvent::OrderRejected { cl_ord_id, pair: known_pair(symbol), reason: error },
        ),
        _ => None,
    }
}

/// What a recorded event means to the engine, replayed as of the time `at` it was recorded.
pub fn replayed_event(event: ProxyEvent, at: Timestamp) -> (r: Option<EngineEvent>)
    ensures
        if event@ is BookSnapshot || event@ is BookUpdate {
            tells_book(event@, at, r)
        } else {
            tells_order(event@, at, r)
        },
{
    match event {
        ProxyEvent::BookSnapshot { .. } => book_event(event, at),
        ProxyEvent::BookUpdate { .. } => book_event(event, at),
        _ => private_event(event, at),
    }
}

} // verus!
