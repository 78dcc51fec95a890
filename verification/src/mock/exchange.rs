//! The state of the simulated exchange and how it answers commands.
use crate::collections::{
    keyed, lemma_slot, lookup, push_value, stored, stored_then_lookup, views, Dup, Entries, StrMap,
    StrSet,
};
use crate::decimal::pow10;
use crate::mock::orders::{
    all_canceled, in_status, is_open, open_orders, order_views, Order, OrderStatus,
    OrderStore, OrderType, OrderView, Side,
};
use crate::proxy::{ProxyEvent, ProxyEventView};
use crate::text::{
    before_char, digits, digits_are_injective, number_text, padded_digits,
    padded_digits_are_injective, padded_digits_have_their_width, padded_text, replace, replaced,
    str_eq, up_to,
};
use vstd::prelude::*;

verus! {

/// The base asset of a pair in the style of the REST interface.
pub open spec fn kraken_asset(wsname: Seq<char>) -> Seq<char> {
    let base = before_char(wsname, '/');
    if base == "BTC"@ || base == "XBT"@ {
        "XXBT"@
    } else if base == "ETH"@ {
        "XETH"@
    } else {
        base
    }
}

/// Converts the name of a pair to its base asset in the style of the REST interface: bitcoin and
/// ether have names of their own, other assets keep their ticker.
pub fn symbol_to_kraken_asset(wsname: &str) -> (r: String)
    ensures
        r@ == kraken_asset(wsname@),
{
    let base = up_to(wsname, '/');
    if str_eq(base, "BTC") || str_eq(base, "XBT") {
        "XXBT".to_owned()
    } else if str_eq(base, "ETH") {
        "XETH".to_owned()
    } else {
        base.to_owned()
    }
}

/// Converts the name of a pair to its key in the REST interface, without slashes.
pub fn symbol_to_rest_key(wsname: &str) -> (r: String)
    ensures
        r@ == replaced(wsname@, '/', ""@),
{
    replace(wsname, '/', "")
}

/// The exchange's id of the `n`-th order.
pub open spec fn order_id(n: nat) -> Seq<char> {
    "MOCK-ORD-"@ + (if n < 1000000 {
        padded_digits(n, 6)
    } else {
        digits(n)
    })
}

/// The best prices of a book, as they are and rounded to the precision of book messages. Zero
/// stands for none.
#[derive(Clone, Copy, Debug)]
pub struct Quotes {
    pub best_bid: i64,
    pub best_ask: i64,
    pub rounded_bid: i64,
    pub rounded_ask: i64,
}

/// An order as a client asks for it. Prices and quantities are keys.
#[derive(Debug)]
pub struct NewOrder {
    pub symbol: String,
    pub side: Side,
    pub order_type: OrderType,
    pub price: i64,
    pub qty: i64,
    pub cl_ord_id: String,
    pub post_only: bool,
}

/// Model of [`NewOrder`].
pub struct NewOrderView {
    pub symbol: Seq<char>,
    pub side: Side,
    pub order_type: OrderType,
    pub price: i64,
    pub qty: i64,
    pub cl_ord_id: Seq<char>,
    pub post_only: bool,
}

impl View for NewOrder {
    type V = NewOrderView;

    open spec fn view(&self) -> NewOrderView {
        NewOrderView {
            symbol: self.symbol@,
            side: self.side,
            order_type: self.order_type,
            price: self.price,
            qty: self.qty,
            cl_ord_id: self.cl_ord_id@,
            post_only: self.post_only,
        }
    }
}

/// Whether an order trades with the book at once.
pub open spec fn crosses(o: NewOrderView, q: Quotes) -> bool {
    match (o.order_type, o.side) {
        (OrderType::Market, _) => true,
        (OrderType::Limit, Side::Buy) => q.rounded_ask > 0 && o.price >= q.rounded_ask,
        (OrderType::Limit, Side::Sell) => q.rounded_bid > 0 && o.price <= q.rounded_bid,
    }
}

/// The price at which an order that crosses the book trades.
pub open spec fn taker_price(o: NewOrderView, q: Quotes) -> i64 {
    match (o.order_type, o.side) {
        (OrderType::Market, Side::Buy) => q.best_ask,
        (OrderType::Market, Side::Sell) => q.best_bid,
        (OrderType::Limit, Side::Buy) => q.rounded_ask,
        (OrderType::Limit, Side::Sell) => q.rounded_bid,
    }
}

/// What became of a new order.
#[derive(Clone, Copy, Debug, PartialEq, Eq, Structural)]
pub enum Placed {
    /// Symbol, client order id or quantity is missing.
    Invalid,
    /// There is no book for the symbol.
    UnknownSymbol,
    /// The order may only add to the book and would trade with it.
    Crossing,
    /// The order traded at once, at the price of this key.
    Filled(i64),
    /// The order rests.
    Resting,
}

/// What becomes of a new order.
pub open spec fn placement(o: NewOrderView, known: bool, q: Quotes) -> Placed {
    if o.symbol.len() == 0 || o.cl_ord_id.len() == 0 || o.qty <= 0 {
        Placed::Invalid
    } else if !known {
        Placed::UnknownSymbol
    } else if !crosses(o, q) {
        Placed::Resting
    } else if o.post_only {
        Placed::Crossing
    } else {
        Placed::Filled(taker_price(o, q))
    }
}

/// The order that is stored for a new one.
pub open spec fn recorded(o: NewOrderView, id: Seq<char>, filled: bool) -> OrderView {
    OrderView {
        order_id: id,
        cl_ord_id: o.cl_ord_id,
        symbol: o.symbol,
        side: o.side,
        order_type: o.order_type,
        price: o.price,
        qty: o.qty,
        filled_qty: if filled {
            o.qty
        } else {
            0
        },
        status: if filled {
            OrderStatus::Filled
        } else {
            OrderStatus::New
        },
        post_only: o.post_only,
    }
}

/// What a client is told of a new order.
pub open spec fn placement_reply(
    o: NewOrderView,
    req_id: u64,
    id: Seq<char>,
    placed: Placed,
) -> ProxyEventView {
    match placed {
        Placed::Invalid => ProxyEventView::OrderRejected {
            req_id,
            cl_ord_id: o.cl_ord_id,
            error: "Invalid order parameters"@,
            symbol: None,
        },
        Placed::UnknownSymbol => ProxyEventView::OrderRejected {
            req_id,
            cl_ord_id: o.cl_ord_id,
            error: "Unknown symbol: "@ + o.symbol,
            symbol: None,
        },
        Placed::Crossing => ProxyEventView::OrderCancelled {
            cl_ord_id: o.cl_ord_id,
            reason: Some("post_only_crossing"@),
            symbol: Some(o.symbol),
        },
        _ => ProxyEventView::OrderAccepted { req_id, cl_ord_id: o.cl_ord_id, order_id: id },
    }
}

/// The state of the simulated exchange.
pub struct ExchangeState {
    /// The pairs that have a book.
    pub symbols: StrSet,
    /// Orders placed by clients.
    pub orders: OrderStore,
    /// The number of the next order.
    pub next_order_id: u64,
}

/// Model of [`ExchangeState`].
#[verifier::ext_equal]
pub struct StateView {
    pub symbols: Entries<()>,
    pub orders: Entries<OrderView>,
    pub next_order_id: nat,
}

impl View for ExchangeState {
    type V = StateView;

    open spec fn view(&self) -> StateView {
        StateView {
            symbols: self.symbols@,
            orders: self.orders@,
            next_order_id: self.next_order_id as nat,
        }
    }
}

impl StateView {
    /// What becomes of a new order here.
    pub open spec fn placement(self, o: NewOrderView, q: Quotes) -> Placed {
        placement(o, keyed(self.symbols, o.symbol), q)
    }

    /// The state after a new order.
    pub open spec fn placed(self, o: NewOrderView, q: Quotes) -> StateView {
        let numbered = StateView { next_order_id: self.next_order_id + 1, ..self };
        let id = order_id(self.next_order_id);
        match self.placement(o, q) {
            Placed::Invalid | Placed::UnknownSymbol => self,
            Placed::Crossing => numbered,
            Placed::Filled(_) => StateView {
                orders: stored(self.orders, o.cl_ord_id, recorded(o, id, true)),
                ..numbered
            },
            Placed::Resting => StateView {
                orders: stored(self.orders, o.cl_ord_id, recorded(o, id, false)),
                ..numbered
            },
        }
    }
}

/// An order with another price or quantity, where one is given.
pub open spec fn amended(o: OrderView, price: Option<i64>, qty: Option<i64>) -> OrderView {
    OrderView {
        price: match price {
            Some(p) => p,
            None => o.price,
        },
        qty: match qty {
            Some(q) => q,
            None => o.qty,
        },
        ..o
    }
}

/// The orders after those with some ids are cancelled, whatever their status.
pub open spec fn canceled(s: Entries<OrderView>, ids: Seq<Seq<char>>) -> Entries<OrderView>
    decreases ids.len(),
{
    if ids.len() == 0 {
        s
    } else {
        let t = canceled(s, ids.drop_last());
        match lookup(t, ids.last()) {
            Some(o) => stored(t, ids.last(), in_status(o, OrderStatus::Canceled)),
            None => t,
        }
    }
}

/// What a client is told of a cancelled order.
pub open spec fn cancel_event(id: Seq<char>, reason: Seq<char>, symbol: Seq<char>) -> ProxyEventView {
    ProxyEventView::OrderCancelled { cl_ord_id: id, reason: Some(reason), symbol: Some(symbol) }
}

/// What a client is told of the orders that it cancels: one event for each that is there.
pub open spec fn cancel_events(s: Entries<OrderView>, ids: Seq<Seq<char>>) -> Seq<ProxyEventView>
    decreases ids.len(),
{
    if ids.len() == 0 {
        Seq::empty()
    } else {
        let before = cancel_events(s, ids.drop_last());
        match lookup(canceled(s, ids.drop_last()), ids.last()) {
            Some(o) => before.push(cancel_event(ids.last(), "user_requested"@, o.symbol)),
            None => before,
        }
    }
}

/// What a client is told when all open orders are cancelled.
pub open spec fn cancel_all_events(open: Seq<OrderView>) -> Seq<ProxyEventView> {
    open.map_values(|o: OrderView| cancel_event(o.cl_ord_id, "cancel_all"@, o.symbol))
}

/// An acknowledgement.
pub open spec fn ack(req_id: u64, cmd: Seq<char>) -> ProxyEventView {
    ProxyEventView::CommandAck { req_id, cmd }
}

/// Whether an order can still be filled while it rests.
pub open spec fn waiting(o: OrderView, symbol: Seq<char>) -> bool {
    o.symbol == symbol && o.status == OrderStatus::New && o.filled_qty == 0
}

/// Whether the book has come to a resting order's price.
pub open spec fn reached(o: OrderView, best_bid: i64, best_ask: i64) -> bool {
    match o.side {
        Side::Buy => best_ask > 0 && best_ask <= o.price,
        Side::Sell => best_bid > 0 && best_bid >= o.price,
    }
}

/// Whether a resting order is near the spread: a buy not below `low_ask`, a sell not above
/// `high_bid`.
pub open spec fn near(
    o: OrderView,
    best_bid: i64,
    best_ask: i64,
    low_ask: i64,
    high_bid: i64,
) -> bool {
    match o.side {
        Side::Buy => best_ask > 0 && o.price >= low_ask,
        Side::Sell => best_bid > 0 && o.price <= high_bid,
    }
}

/// The client ids of the waiting orders that the book has come to.
pub open spec fn reached_orders(
    s: Entries<OrderView>,
    symbol: Seq<char>,
    best_bid: i64,
    best_ask: i64,
) -> Seq<Seq<char>>
    decreases s.len(),
{
    if s.len() == 0 {
        Seq::empty()
    } else {
        let rest = reached_orders(s.drop_last(), symbol, best_bid, best_ask);
        let o = s.last().1;
        if waiting(o, symbol) && reached(o, best_bid, best_ask) {
            rest.push(o.cl_ord_id)
        } else {
            rest
        }
    }
}

/// The client ids of the waiting orders near the spread that the book has not come to.
pub open spec fn near_orders(
    s: Entries<OrderView>,
    symbol: Seq<char>,
    best_bid: i64,
    best_ask: i64,
    low_ask: i64,
    high_bid: i64,
) -> Seq<Seq<char>>
    decreases s.len(),
{
    if s.len() == 0 {
        Seq::empty()
    } else {
        let rest = near_orders(s.drop_last(), symbol, best_bid, best_ask, low_ask, high_bid);
        let o = s.last().1;
        if waiting(o, symbol) && !reached(o, best_bid, best_ask) && near(
            o,
            best_bid,
            best_ask,
            low_ask,
            high_bid,
        ) {
            rest.push(o.cl_ord_id)
        } else {
            rest
        }
    }
}

/// The price at which a resting order is filled: its own or a better one.
pub open spec fn maker_price(o: OrderView, best_bid: i64, best_ask: i64) -> i64 {
    match o.side {
        Side::Buy => if best_ask <= o.price {
            best_ask
        } else {
            o.price
        },
        Side::Sell => if best_bid >= o.price {
            best_bid
        } else {
            o.price
        },
    }
}

/// An order after it is filled.
pub open spec fn completed(o: OrderView) -> OrderView {
    OrderView { filled_qty: o.qty, status: OrderStatus::Filled, ..o }
}

/// The ids that were drawn.
pub open spec fn drawn(ids: Seq<Seq<char>>, draws: Seq<bool>) -> Seq<Seq<char>>
    decreases ids.len(),
{
    if ids.len() == 0 {
        Seq::empty()
    } else {
        let rest = drawn(ids.drop_last(), draws);
        if ids.len() <= draws.len() && draws[ids.len() - 1] {
            rest.push(ids.last())
        } else {
            rest
        }
    }
}

fn crosses_book(o: &NewOrder, q: Quotes) -> (r: bool)
    ensures
        r == crosses(o@, q),
{
    match (o.order_type, o.side) {
        (OrderType::Market, _) => true,
        (OrderType::Limit, Side::Buy) => q.rounded_ask > 0 && o.price >= q.rounded_ask,
        (OrderType::Limit, Side::Sell) => q.rounded_bid > 0 && o.price <= q.rounded_bid,
    }
}

fn crossing_price(o: &NewOrder, q: Quotes) -> (r: i64)
    ensures
        r == taker_price(o@, q),
{
    match (o.order_type, o.side) {
        (OrderType::Market, Side::Buy) => q.best_ask,
        (OrderType::Market, Side::Sell) => q.best_bid,
        (OrderType::Limit, Side::Buy) => q.rounded_ask,
        (OrderType::Limit, Side::Sell) => q.rounded_bid,
    }
}

fn record(o: NewOrder, id: String, filled: bool) -> (r: Order)
    ensures
        r@ == recorded(o@, id@, filled),
{
    Order {
        order_id: id,
        cl_ord_id: o.cl_ord_id,
        symbol: o.symbol,
        side: o.side,
        order_type: o.order_type,
        price: o.price,
        qty: o.qty,
        filled_qty: if filled {
            o.qty
        } else {
            0
        },
        status: if filled {
            OrderStatus::Filled
        } else {
            OrderStatus::New
        },
        post_only: o.post_only,
    }
}

/// Whether a resting order can be filled at these prices.
fn order_reached(o: &Order, symbol: &str, best_bid: i64, best_ask: i64) -> (r: (bool, bool))
    ensures
        r.0 == waiting(o@, symbol@),
        r.1 == reached(o@, best_bid, best_ask),
{
    (
        str_eq(o.symbol.as_str(), symbol) && o.status == OrderStatus::New && o.filled_qty == 0,
        match o.side {
            Side::Buy => best_ask > 0 && best_ask <= o.price,
            Side::Sell => best_bid > 0 && best_bid >= o.price,
        },
    )
}

/// A fill of a resting order.
#[derive(Debug)]
pub struct MakerFill {
    /// The order after the fill.
    pub order: Order,
    /// Key of the price.
    pub price: i64,
    /// Key of what was filled before.
    pub before: i64,
}

/// Model of [`MakerFill`].
#[verifier::ext_equal]
pub struct MakerFillView {
    pub order: OrderView,
    pub price: i64,
    pub before: i64,
}

impl View for MakerFill {
    type V = MakerFillView;

    open spec fn view(&self) -> MakerFillView {
        MakerFillView { order: self.order@, price: self.price, before: self.before }
    }
}

/// The fill of a resting order on a top of book.
pub open spec fn maker_fill(o: OrderView, best_bid: i64, best_ask: i64) -> MakerFillView {
    MakerFillView {
        order: completed(o),
        price: maker_price(o, best_bid, best_ask),
        before: o.filled_qty,
    }
}

/// The exchange and the fills after some resting orders are filled, one after the other; ids that
/// are not known are passed over.
pub open spec fn all_filled(
    s: StateView,
    ids: Seq<Seq<char>>,
    best_bid: i64,
    best_ask: i64,
) -> (StateView, Seq<MakerFillView>)
    decreases ids.len(),
{
    if ids.len() == 0 {
        (s, Seq::empty())
    } else {
        let (t, fills) = all_filled(s, ids.drop_last(), best_bid, best_ask);
        match lookup(t.orders, ids.last()) {
            Some(o) => (
                StateView { orders: stored(t.orders, ids.last(), completed(o)), ..t },
                fills.push(maker_fill(o, best_bid, best_ask)),
            ),
            None => (t, fills),
        }
    }
}

impl ExchangeState {
    /// An exchange with books for some pairs and no orders.
    pub fn new(symbols: &Vec<String>) -> (r: ExchangeState)
        ensures
            r@.orders == Seq::<(Seq<char>, OrderView)>::empty(),
            r@.next_order_id == 1,
            forall|s: Seq<char>| keyed(r@.symbols, s) == views(symbols@).contains(s),
    {
        let mut set: StrSet = StrMap::new();
        let mut i: usize = 0;
        while i < symbols.len()
            invariant
                i <= symbols.len(),
                forall|s: Seq<char>|
                    keyed(set@, s) == views(symbols@).take(i as int).contains(s),
            decreases symbols.len() - i,
        {
            let ghost before = set@;
            set.insert(symbols[i].clone(), ());
            proof {
                let k = symbols@[i as int]@;
                let seen = views(symbols@).take(i as int);
                let now = views(symbols@).take(i + 1);
                assert(now =~= seen.push(k));
                assert forall|s: Seq<char>| keyed(set@, s) == now.contains(s) by {
                    stored_then_lookup(before, k, (), s);
                    assert(keyed(set@, s) == (lookup(set@, s) is Some));
                    assert(keyed(before, s) == (lookup(before, s) is Some));
                    if seen.contains(s) {
                        let j = choose|j: int| 0 <= j < seen.len() && seen[j] == s;
                        assert(now[j] == s);
                    }
                    if now.contains(s) && s != k {
                        let j = choose|j: int| 0 <= j < now.len() && now[j] == s;
                        assert(seen[j] == s);
                    }
                    if s == k {
                        assert(now[i as int] == s);
                    }
                }
            }
            i = i + 1;
        }
        assert(views(symbols@).take(i as int) =~= views(symbols@));
        ExchangeState { symbols: set, orders: OrderStore::new(), next_order_id: 1 }
    }

    /// Allocates the id of a new order.
    pub fn alloc_order_id(&mut self) -> (r: String)
        requires
            old(self).next_order_id < u64::MAX,
        ensures
            r@ == order_id(old(self)@.next_order_id),
            final(self)@ == (StateView {
                next_order_id: old(self)@.next_order_id + 1,
                ..old(self)@
            }),
    {
        let n: u64 = self.next_order_id;
        let number = if n < 1000000 {
            padded_text(n, 6)
        } else {
            number_text(n)
        };
        self.next_order_id = n + 1;
        String::from_str("MOCK-ORD-").concat(number.as_str())
    }

    /// Takes a new order: refuses it, fills it against the book, or lets it rest. Returns what
    /// became of it and the reply to the client.
    pub fn handle_add_order(&mut self, order: NewOrder, req_id: u64, quotes: Quotes) -> (r: (
        Placed,
        ProxyEvent,
    ))
        requires
            old(self).next_order_id < u64::MAX,
        ensures
            r.0 == old(self)@.placement(order@, quotes),
            r.1@ == placement_reply(order@, req_id, order_id(old(self)@.next_order_id), r.0),
            final(self)@ == old(self)@.placed(order@, quotes),
    {
        if order.symbol.as_str().is_empty() || order.cl_ord_id.as_str().is_empty() || order.qty
            <= 0 {
            let reply = ProxyEvent::order_rejected(
                req_id,
                order.cl_ord_id.as_str(),
                "Invalid order parameters",
                None,
            );
            return (Placed::Invalid, reply);
        }
        if !self.symbols.contains_key(order.symbol.as_str()) {
            let error = String::from_str("Unknown symbol: ").concat(order.symbol.as_str());
            let reply = ProxyEvent::order_rejected(
                req_id,
                order.cl_ord_id.as_str(),
                error.as_str(),
                None,
            );
            return (Placed::UnknownSymbol, reply);
        }
        let id = self.alloc_order_id();
        if !crosses_book(&order, quotes) {
            let reply = ProxyEvent::order_accepted(req_id, order.cl_ord_id.as_str(), id.as_str());
            self.orders.insert(record(order, id, false));
            (Placed::Resting, reply)
        } else if order.post_only {
            let reply = ProxyEvent::order_cancelled(
                order.cl_ord_id.as_str(),
                Some("post_only_crossing"),
                Some(order.symbol.as_str()),
            );
            (Placed::Crossing, reply)
        } else {
            let price: i64 = crossing_price(&order, quotes);
            let reply = ProxyEvent::order_accepted(req_id, order.cl_ord_id.as_str(), id.as_str());
            self.orders.insert(record(order, id, true));
            (Placed::Filled(price), reply)
        }
    }

    /// Changes price and quantity of an order, where they are given.
    pub fn handle_amend_order(
        &mut self,
        req_id: u64,
        cl_ord_id: &str,
        price: Option<i64>,
        qty: Option<i64>,
    ) -> (r: ProxyEvent)
        ensures
            match lookup(old(self)@.orders, cl_ord_id@) {
                Some(o) => r@ == ack(req_id, "amend_order"@) && final(self)@ == (StateView {
                    orders: stored(old(self)@.orders, cl_ord_id@, amended(o, price, qty)),
                    ..old(self)@
                }),
                None => r@ == (ProxyEventView::OrderRejected {
                    req_id,
                    cl_ord_id: cl_ord_id@,
                    error: "Order not found"@,
                    symbol: None,
                }) && final(self)@ == old(self)@,
            },
    {
        let found = match self.orders.get(cl_ord_id) {
            Some(o) => Some(o.dup()),
            None => None,
        };
        match found {
            Some(mut o) => {
                if let Some(p) = price {
                    o.price = p;
                }
                if let Some(q) = qty {
                    o.qty = q;
                }
                let _ = self.orders.replace(cl_ord_id, o);
                ProxyEvent::command_ack(req_id, "amend_order")
            },
            None => ProxyEvent::order_rejected(req_id, cl_ord_id, "Order not found", None),
        }
    }

    /// Cancels the orders with some client order ids, passing over those that are not there.
    pub fn handle_cancel_order(&mut self, req_id: u64, cl_ord_ids: &Vec<String>) -> (r: Vec<
        ProxyEvent,
    >)
        ensures
            views(r@) == cancel_events(old(self)@.orders, views(cl_ord_ids@)).push(
                ack(req_id, "cancel_orders"@),
            ),
            final(self)@ == (StateView {
                orders: canceled(old(self)@.orders, views(cl_ord_ids@)),
                ..old(self)@
            }),
    {
        let ghost before = self@;
        let ghost ids = views(cl_ord_ids@);
        let mut r: Vec<ProxyEvent> = Vec::new();
        let mut i: usize = 0;
        assert(ids.take(0) =~= Seq::empty());
        assert(views(r@) =~= cancel_events(before.orders, ids.take(0)));
        while i < cl_ord_ids.len()
            invariant
                i <= cl_ord_ids.len(),
                ids == views(cl_ord_ids@),
                views(r@) == cancel_events(before.orders, ids.take(i as int)),
                self@ == (StateView {
                    orders: canceled(before.orders, ids.take(i as int)),
                    ..before
                }),
            decreases cl_ord_ids.len() - i,
        {
            proof {
                assert(ids.take(i + 1).drop_last() =~= ids.take(i as int));
                assert(ids.take(i + 1).last() == ids[i as int]);
            }
            let id = cl_ord_ids[i].as_str();
            let found = match self.orders.get(id) {
                Some(o) => Some(o.dup()),
                None => None,
            };
            if let Some(mut o) = found {
                push_value(
                    &mut r,
                    ProxyEvent::order_cancelled(id, Some("user_requested"), Some(o.symbol.as_str())),
                );
                o.status = OrderStatus::Canceled;
                let _ = self.orders.replace(id, o);
            }
            i = i + 1;
        }
        assert(ids.take(i as int) =~= ids);
        push_value(&mut r, ProxyEvent::command_ack(req_id, "cancel_orders"));
        r
    }

    /// Cancels all open orders.
    pub fn handle_cancel_all(&mut self, req_id: u64) -> (r: Vec<ProxyEvent>)
        ensures
            views(r@) == cancel_all_events(open_orders(old(self)@.orders, None)).push(
                ack(req_id, "cancel_all"@),
            ),
            final(self)@ == (StateView {
                orders: all_canceled(old(self)@.orders),
                ..old(self)@
            }),
    {
        let ghost open = open_orders(self@.orders, None::<Seq<char>>);
        let mut r: Vec<ProxyEvent> = Vec::new();
        {
            let found = self.orders.all_open_orders();
            let mut i: usize = 0;
            assert(views(r@) =~= cancel_all_events(open.take(0)));
            while i < found.len()
                invariant
                    i <= found.len(),
                    order_views(found@) == open,
                    views(r@) == cancel_all_events(open.take(i as int)),
                decreases found.len() - i,
            {
                let o = found[i];
                let ghost before = views(r@);
                push_value(
                    &mut r,
                    ProxyEvent::order_cancelled(
                        o.cl_ord_id.as_str(),
                        Some("cancel_all"),
                        Some(o.symbol.as_str()),
                    ),
                );
                proof {
                    assert(o@ == order_views(found@)[i as int]);
                    assert(views(r@) =~= cancel_all_events(open.take(i + 1)));
                }
                i = i + 1;
            }
            assert(found@.len() == order_views(found@).len());
            assert(open.take(i as int) =~= open);
        }
        let _ = self.orders.cancel_all();
        push_value(&mut r, ProxyEvent::command_ack(req_id, "cancel_all"));
        r
    }

    /// The waiting orders of a pair that the book has come to, by client order id.
    pub fn fillable(&self, symbol: &str, best_bid: i64, best_ask: i64) -> (r: Vec<String>)
        ensures
            views(r@) == reached_orders(self@.orders, symbol@, best_bid, best_ask),
    {
        let ghost all = self@.orders;
        let mut r: Vec<String> = Vec::new();
        let mut i: usize = 0;
        let n: usize = self.orders.orders.len();
        assert(views(r@) =~= reached_orders(all.take(0), symbol@, best_bid, best_ask));
        while i < n
            invariant
                i <= n == all.len(),
                all == self@.orders,
                views(r@) == reached_orders(all.take(i as int), symbol@, best_bid, best_ask),
            decreases n - i,
        {
            proof {
                assert(all.take(i + 1).drop_last() =~= all.take(i as int));
                assert(all.take(i + 1).last() == all[i as int]);
            }
            let o = self.orders.orders.value_at(i);
            let (ready, there) = order_reached(o, symbol, best_bid, best_ask);
            if ready && there {
                push_value(&mut r, o.cl_ord_id.clone());
            }
            i = i + 1;
        }
        assert(all.take(i as int) =~= all);
        r
    }

    /// The waiting orders of a pair near the spread that the book has not come to, by client order
    /// id. These are filled by chance.
    pub fn candidates(
        &self,
        symbol: &str,
        best_bid: i64,
        best_ask: i64,
        low_ask: i64,
        high_bid: i64,
    ) -> (r: Vec<String>)
        ensures
            views(r@) == near_orders(
                self@.orders,
                symbol@,
                best_bid,
                best_ask,
                low_ask,
                high_bid,
            ),
    {
        let ghost all = self@.orders;
        let mut r: Vec<String> = Vec::new();
        let mut i: usize = 0;
        let n: usize = self.orders.orders.len();
        assert(views(r@) =~= near_orders(
            all.take(0),
            symbol@,
            best_bid,
            best_ask,
            low_ask,
            high_bid,
        ));
        while i < n
            invariant
                i <= n == all.len(),
                all == self@.orders,
                views(r@) == near_orders(
                    all.take(i as int),
                    symbol@,
                    best_bid,
                    best_ask,
                    low_ask,
                    high_bid,
                ),
            decreases n - i,
        {
            proof {
                assert(all.take(i + 1).drop_last() =~= all.take(i as int));
                assert(all.take(i + 1).last() == all[i as int]);
            }
            let o = self.orders.orders.value_at(i);
            let (ready, there) = order_reached(o, symbol, best_bid, best_ask);
            let close = match o.side {
                Side::Buy => best_ask > 0 && o.price >= low_ask,
                Side::Sell => best_bid > 0 && o.price <= high_bid,
            };
            if ready && !there && close {
                push_value(&mut r, o.cl_ord_id.clone());
            }
            i = i + 1;
        }
        assert(all.take(i as int) =~= all);
        r
    }

    /// Fills a resting order in full. Returns the order and the price of the fill.
    pub fn fill_resting(&mut self, cl_ord_id: &str, best_bid: i64, best_ask: i64) -> (r: Option<
        MakerFill,
    >)
        ensures
            match lookup(old(self)@.orders, cl_ord_id@) {
                Some(o) => r is Some && r.unwrap()@ == maker_fill(o, best_bid, best_ask)
                    && final(self)@ == (StateView {
                    orders: stored(old(self)@.orders, cl_ord_id@, completed(o)),
                    ..old(self)@
                }),
                None => r is None && final(self)@ == old(self)@,
            },
    {
        let found = match self.orders.get(cl_ord_id) {
            Some(o) => Some(o.dup()),
            None => None,
        };
        match found {
            Some(mut o) => {
                let price: i64 = match o.side {
                    Side::Buy => if best_ask <= o.price {
                        best_ask
                    } else {
                        o.price
                    },
                    Side::Sell => if best_bid >= o.price {
                        best_bid
                    } else {
                        o.price
                    },
                };
                let before: i64 = o.filled_qty;
                o.filled_qty = o.qty;
                o.status = OrderStatus::Filled;
                let kept = o.dup();
                let _ = self.orders.replace(cl_ord_id, o);
                Some(MakerFill { order: kept, price, before })
            },
            None => None,
        }
    }

    /// Fills some resting orders in full, one after the other. Returns the fills.
    pub fn fill_all(&mut self, ids: &Vec<String>, best_bid: i64, best_ask: i64) -> (r: Vec<
        MakerFill,
    >)
        ensures
            (final(self)@, views(r@)) == all_filled(old(self)@, views(ids@), best_bid, best_ask),
    {
        let ghost all = views(ids@);
        let ghost start = self@;
        let mut r: Vec<MakerFill> = Vec::new();
        let mut i: usize = 0;
        assert(views(r@) =~= Seq::empty());
        assert(all.take(0) =~= Seq::empty());
        while i < ids.len()
            invariant
                i <= ids.len(),
                all == views(ids@),
                (self@, views(r@)) == all_filled(start, all.take(i as int), best_bid, best_ask),
            decreases ids.len() - i,
        {
            proof {
                assert(all.take(i + 1).drop_last() =~= all.take(i as int));
                assert(all.take(i + 1).last() == all[i as int]);
            }
            if let Some(fill) = self.fill_resting(ids[i].as_str(), best_bid, best_ask) {
                push_value(&mut r, fill);
            }
            i = i + 1;
        }
        assert(all.take(i as int) =~= all);
        r
    }
}

/// Adds to the orders that the book has come to those candidates that were drawn.
pub fn with_drawn(reached_ids: Vec<String>, candidates: &Vec<String>, draws: &Vec<bool>) -> (r: Vec<
    String,
>)
    ensures
        views(r@) == views(reached_ids@) + drawn(views(candidates@), draws@),
{
    let ghost known = views(reached_ids@);
    let ghost ids = views(candidates@);
    let mut r = reached_ids;
    let mut i: usize = 0;
    assert(views(r@) =~= known + drawn(ids.take(0), draws@));
    while i < candidates.len()
        invariant
            i <= candidates.len(),
            ids == views(candidates@),
            views(r@) == known + drawn(ids.take(i as int), draws@),
        decreases candidates.len() - i,
    {
        proof {
            assert(ids.take(i + 1).drop_last() =~= ids.take(i as int));
            assert(ids.take(i + 1).last() == ids[i as int]);
        }
        if i < draws.len() && draws[i] {
            push_value(&mut r, candidates[i].clone());
            assert(views(r@) =~= known + drawn(ids.take(i + 1), draws@));
        }
        i = i + 1;
    }
    assert(ids.take(i as int) =~= ids);
    r
}

/// The reply to a request to subscribe on the private connection: only executions and books are
/// confirmed.
pub fn handle_subscribe(channel: &str) -> (r: Option<ProxyEvent>)
    ensures
        match r {
            Some(e) => (channel@ == "executions"@ || channel@ == "book"@) && e@ == (
            ProxyEventView::Subscribed { channel: channel@ }),
            None => channel@ != "executions"@ && channel@ != "book"@,
        },
{
    if str_eq(channel, "executions") || str_eq(channel, "book") {
        Some(ProxyEvent::subscribed(channel))
    } else {
        None
    }
}

/// The reply to a request to set the dead man's switch: it is acknowledged and nothing else
/// happens.
pub fn handle_dms(req_id: u64) -> (r: ProxyEvent)
    ensures
        r@ == ack(req_id, "set_dms"@),
{
    ProxyEvent::command_ack(req_id, "set_dms")
}

/// The reply to a ping.
pub fn handle_ping(req_id: u64) -> (r: ProxyEvent)
    ensures
        r@ == (ProxyEventView::Pong { req_id }),
{
    ProxyEvent::pong(req_id)
}

/// Whether each order is stored under its client order id.
pub open spec fn by_client_id(s: Entries<OrderView>) -> bool {
    forall|i: int| 0 <= i < s.len() ==> #[trigger] s[i].0 == s[i].1.cl_ord_id
}

/// Orders stay stored under their client order ids, whatever command comes.
pub proof fn orders_stay_under_their_ids(
    v: StateView,
    o: NewOrderView,
    q: Quotes,
    id: Seq<char>,
    price: Option<i64>,
    qty: Option<i64>,
    ids: Seq<Seq<char>>,
)
    requires
        by_client_id(v.orders),
    ensures
        by_client_id(v.placed(o, q).orders),
        lookup(v.orders, id) matches Some(x) ==> by_client_id(
            stored(v.orders, id, amended(x, price, qty)),
        ) && by_client_id(stored(v.orders, id, completed(x))),
        by_client_id(canceled(v.orders, ids)),
        by_client_id(all_canceled(v.orders)),
    decreases ids.len(),
{
    lemma_slot(v.orders, id);
    lemma_slot(v.orders, o.cl_ord_id);
    if ids.len() > 0 {
        orders_stay_under_their_ids(v, o, q, id, price, qty, ids.drop_last());
        lemma_slot(canceled(v.orders, ids.drop_last()), ids.last());
    }
}

/// Different numbers give different order ids.
pub proof fn order_ids_differ(a: nat, b: nat)
    requires
        a != b,
    ensures
        order_id(a) != order_id(b),
{
    if order_id(a) == order_id(b) {
        let head = "MOCK-ORD-"@;
        let x = if a < 1000000 { padded_digits(a, 6) } else { digits(a) };
        let y = if b < 1000000 { padded_digits(b, 6) } else { digits(b) };
        assert(x =~= (head + x).skip(head.len() as int));
        assert(y =~= (head + y).skip(head.len() as int));
        if a < 1000000 && b < 1000000 {
            reveal_with_fuel(pow10, 8);
            padded_digits_are_injective(a, b, 6);
        } else if a >= 1000000 && b >= 1000000 {
            digits_are_injective(a, b);
        } else {
            padded_digits_have_their_width(a, 6);
            padded_digits_have_their_width(b, 6);
            reveal_with_fuel(digits, 8);
        }
    }
}

/// An order that may only add to the book never trades when it is placed.
pub proof fn post_only_orders_do_not_take(v: StateView, o: NewOrderView, q: Quotes)
    requires
        o.post_only,
    ensures
        !(v.placement(o, q) is Filled),
{
}

/// A limit order never trades at a price worse than its own, neither at once nor after resting.
pub proof fn limit_prices_are_kept(
    v: StateView,
    o: NewOrderView,
    q: Quotes,
    rests: OrderView,
    best_bid: i64,
    best_ask: i64,
)
    ensures
        o.order_type == OrderType::Limit ==> (v.placement(o, q) matches Placed::Filled(p) ==> (
        match o.side {
            Side::Buy => p <= o.price,
            Side::Sell => p >= o.price,
        })),
        match rests.side {
            Side::Buy => maker_price(rests, best_bid, best_ask) <= rests.price,
            Side::Sell => maker_price(rests, best_bid, best_ask) >= rests.price,
        },
{
}

/// An order that is filled or cancelled is not filled again.
pub proof fn closed_orders_are_not_filled(
    o: OrderView,
    symbol: Seq<char>,
)
    ensures
        !waiting(completed(o), symbol),
        !waiting(in_status(o, OrderStatus::Canceled), symbol),
        !is_open(completed(o)),
        !is_open(in_status(o, OrderStatus::Canceled)),
{
}

} // verus!
