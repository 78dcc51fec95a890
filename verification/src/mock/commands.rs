//! Commands that clients send to the simulated exchange.
use crate::collections::views;
use crate::json::{
    as_count, as_number, as_text, count_of_leaf, first_leaf, first_of, is_true, json_leaf, leaf_at,
    leaf_view, number_of_leaf, read_strings, string_list, text_of_leaf, text_or, Leaf, LeafView,
};
use crate::mock::orders::{OrderType, Side};
use crate::text::{opt_text, str_eq};
use vstd::prelude::*;

verus! {

/// What a message holds in the fields that commands are made of.
#[derive(Debug)]
pub struct CommandFields {
    pub action: Option<Leaf>,
    pub channel: Option<Leaf>,
    pub req_id: Option<Leaf>,
    pub symbol: Option<Leaf>,
    pub side: Option<Leaf>,
    pub order_type: Option<Leaf>,
    pub market: Option<Leaf>,
    pub price: Option<Leaf>,
    pub qty: Option<Leaf>,
    pub cl_ord_id: Option<Leaf>,
    pub post_only: Option<Leaf>,
    pub cl_ord_ids: Vec<String>,
}

/// Model of [`CommandFields`].
#[verifier::ext_equal]
pub struct FieldsView {
    pub action: Option<LeafView>,
    pub channel: Option<LeafView>,
    pub req_id: Option<LeafView>,
    pub symbol: Option<LeafView>,
    pub side: Option<LeafView>,
    pub order_type: Option<LeafView>,
    pub market: Option<LeafView>,
    pub price: Option<LeafView>,
    pub qty: Option<LeafView>,
    pub cl_ord_id: Option<LeafView>,
    pub post_only: Option<LeafView>,
    pub cl_ord_ids: Seq<Seq<char>>,
}

impl View for CommandFields {
    type V = FieldsView;

    open spec fn view(&self) -> FieldsView {
        FieldsView {
            action: leaf_view(self.action),
            channel: leaf_view(self.channel),
            req_id: leaf_view(self.req_id),
            symbol: leaf_view(self.symbol),
            side: leaf_view(self.side),
            order_type: leaf_view(self.order_type),
            market: leaf_view(self.market),
            price: leaf_view(self.price),
            qty: leaf_view(self.qty),
            cl_ord_id: leaf_view(self.cl_ord_id),
            post_only: leaf_view(self.post_only),
            cl_ord_ids: views(self.cl_ord_ids@),
        }
    }
}

/// A field that stands in `params` or, failing that, at the top of a message.
pub open spec fn field(raw: Seq<char>, name: Seq<char>) -> Option<LeafView> {
    first_of(json_leaf(raw, "/params/"@ + name), json_leaf(raw, "/"@ + name))
}

/// Whether a message has `params`.
pub open spec fn has_params(raw: Seq<char>) -> bool {
    json_leaf(raw, "/params"@) is Some
}

/// A number that goes by two names. In `params` either may stand; at the top the newer one may
/// stand beside `params`, and either without `params`.
pub open spec fn either_name(raw: Seq<char>, new: Seq<char>, old_name: Seq<char>) -> Option<LeafView> {
    if has_params(raw) {
        first_of(
            first_of(json_leaf(raw, "/params/"@ + new), json_leaf(raw, "/params/"@ + old_name)),
            json_leaf(raw, "/"@ + new),
        )
    } else {
        first_of(json_leaf(raw, "/"@ + new), json_leaf(raw, "/"@ + old_name))
    }
}

/// Where the list of client order ids stands in a message.
pub open spec fn ids_pointer(raw: Seq<char>) -> Seq<char> {
    if json_leaf(raw, "/params/cl_ord_ids"@) is Some {
        "/params/cl_ord_ids"@
    } else if json_leaf(raw, "/cl_ord_ids"@) is Some {
        "/cl_ord_ids"@
    } else if has_params(raw) {
        "/params/cl_ord_id"@
    } else {
        "/cl_ord_id"@
    }
}

/// The fields of a message.
pub open spec fn fields_of(raw: Seq<char>) -> FieldsView {
    FieldsView {
        action: first_of(json_leaf(raw, "/cmd"@), json_leaf(raw, "/method"@)),
        channel: first_of(json_leaf(raw, "/channel"@), json_leaf(raw, "/params/channel"@)),
        req_id: json_leaf(raw, "/req_id"@),
        symbol: field(raw, "symbol"@),
        side: field(raw, "side"@),
        order_type: field(raw, "order_type"@),
        market: json_leaf(raw, "/market"@),
        price: either_name(raw, "price"@, "limit_price"@),
        qty: either_name(raw, "qty"@, "order_qty"@),
        cl_ord_id: field(raw, "cl_ord_id"@),
        post_only: field(raw, "post_only"@),
        cl_ord_ids: match string_list(raw, ids_pointer(raw)) {
            Some(ids) => ids,
            None => Seq::empty(),
        },
    }
}

fn at(raw: &str, base: &str, name: &str) -> (r: Option<Leaf>)
    ensures
        leaf_view(r) == json_leaf(raw@, base@ + name@),
{
    let pointer = base.to_owned().concat(name);
    leaf_at(raw, pointer.as_str())
}

fn read_field(raw: &str, name: &str) -> (r: Option<Leaf>)
    ensures
        leaf_view(r) == field(raw@, name@),
{
    first_leaf(at(raw, "/params/", name), at(raw, "/", name))
}

fn read_either(raw: &str, new: &str, old_name: &str) -> (r: Option<Leaf>)
    ensures
        leaf_view(r) == either_name(raw@, new@, old_name@),
{
    if leaf_at(raw, "/params").is_some() {
        first_leaf(
            first_leaf(at(raw, "/params/", new), at(raw, "/params/", old_name)),
            at(raw, "/", new),
        )
    } else {
        first_leaf(at(raw, "/", new), at(raw, "/", old_name))
    }
}

fn read_ids(raw: &str) -> (r: Vec<String>)
    ensures
        views(r@) == fields_of(raw@).cl_ord_ids,
{
    let pointer = if leaf_at(raw, "/params/cl_ord_ids").is_some() {
        "/params/cl_ord_ids"
    } else if leaf_at(raw, "/cl_ord_ids").is_some() {
        "/cl_ord_ids"
    } else if leaf_at(raw, "/params").is_some() {
        "/params/cl_ord_id"
    } else {
        "/cl_ord_id"
    };
    match read_strings(raw, pointer) {
        Some(ids) => ids,
        None => {
            let r: Vec<String> = Vec::new();
            assert(views(r@) =~= Seq::empty());
            r
        },
    }
}

/// Reads the fields of a message.
pub fn read_fields(raw: &str) -> (r: CommandFields)
    ensures
        r@ == fields_of(raw@),
{
    CommandFields {
        action: first_leaf(leaf_at(raw, "/cmd"), leaf_at(raw, "/method")),
        channel: first_leaf(leaf_at(raw, "/channel"), leaf_at(raw, "/params/channel")),
        req_id: leaf_at(raw, "/req_id"),
        symbol: read_field(raw, "symbol"),
        side: read_field(raw, "side"),
        order_type: read_field(raw, "order_type"),
        market: leaf_at(raw, "/market"),
        price: read_either(raw, "price", "limit_price"),
        qty: read_either(raw, "qty", "order_qty"),
        cl_ord_id: read_field(raw, "cl_ord_id"),
        post_only: read_field(raw, "post_only"),
        cl_ord_ids: read_ids(raw),
    }
}

/// A command to the simulated exchange. Prices and quantities are the texts of numbers.
#[derive(Debug)]
#[allow(inconsistent_fields)]
pub enum Command {
    Subscribe { channel: String },
    Place {
        req_id: u64,
        symbol: String,
        side: Side,
        order_type: OrderType,
        /// Nothing stands for zero.
        price: Option<String>,
        /// Nothing stands for zero.
        qty: Option<String>,
        cl_ord_id: String,
        post_only: bool,
    },
    Amend { req_id: u64, cl_ord_id: String, price: Option<String>, qty: Option<String> },
    Cancel { req_id: u64, cl_ord_ids: Vec<String> },
    CancelAll { req_id: u64 },
    SetDms { req_id: u64 },
    Ping { req_id: u64 },
}

/// Model of [`Command`].
#[allow(inconsistent_fields)]
pub enum CommandView {
    Subscribe { channel: Seq<char> },
    Place {
        req_id: u64,
        symbol: Seq<char>,
        side: Side,
        order_type: OrderType,
        price: Option<Seq<char>>,
        qty: Option<Seq<char>>,
        cl_ord_id: Seq<char>,
        post_only: bool,
    },
    Amend {
        req_id: u64,
        cl_ord_id: Seq<char>,
        price: Option<Seq<char>>,
        qty: Option<Seq<char>>,
    },
    Cancel { req_id: u64, cl_ord_ids: Seq<Seq<char>> },
    CancelAll { req_id: u64 },
    SetDms { req_id: u64 },
    Ping { req_id: u64 },
}

impl View for Command {
    type V = CommandView;

    open spec fn view(&self) -> CommandView {
        match *self {
            Command::Subscribe { channel } => CommandView::Subscribe { channel: channel@ },
            Command::Place {
                req_id,
                symbol,
                side,
                order_type,
                price,
                qty,
                cl_ord_id,
                post_only,
            } => CommandView::Place {
                req_id,
                symbol: symbol@,
                side,
                order_type,
                price: opt_text(price),
                qty: opt_text(qty),
                cl_ord_id: cl_ord_id@,
                post_only,
            },
            Command::Amend { req_id, cl_ord_id, price, qty } => CommandView::Amend {
                req_id,
                cl_ord_id: cl_ord_id@,
                price: opt_text(price),
                qty: opt_text(qty),
            },
            Command::Cancel { req_id, cl_ord_ids } => CommandView::Cancel {
                req_id,
                cl_ord_ids: views(cl_ord_ids@),
            },
            Command::CancelAll { req_id } => CommandView::CancelAll { req_id },
            Command::SetDms { req_id } => CommandView::SetDms { req_id },
            Command::Ping { req_id } => CommandView::Ping { req_id },
        }
    }
}

/// The text of a string field, or a default.
pub open spec fn text_default(l: Option<LeafView>, default: Seq<char>) -> Seq<char> {
    match as_text(l) {
        Some(s) => s,
        None => default,
    }
}

/// The command that fields make up: each action goes by a newer and some by an older name.
pub open spec fn command_in(f: FieldsView) -> Option<CommandView> {
    let req_id = as_count(f.req_id);
    match as_text(f.action) {
        None => None,
        Some(a) => if a == "subscribe"@ {
            Some(CommandView::Subscribe { channel: text_default(f.channel, ""@) })
        } else if a == "place_order"@ || a == "add_order"@ {
            Some(
                CommandView::Place {
                    req_id,
                    symbol: text_default(f.symbol, ""@),
                    side: if text_default(f.side, "buy"@) == "sell"@ {
                        Side::Sell
                    } else {
                        Side::Buy
                    },
                    order_type: if text_default(f.order_type, "limit"@) == "market"@ || f.market
                        == Some(LeafView::Flag(true)) {
                        OrderType::Market
                    } else {
                        OrderType::Limit
                    },
                    price: as_number(f.price),
                    qty: as_number(f.qty),
                    cl_ord_id: text_default(f.cl_ord_id, ""@),
                    post_only: f.post_only == Some(LeafView::Flag(true)),
                },
            )
        } else if a == "amend_order"@ {
            Some(
                CommandView::Amend {
                    req_id,
                    cl_ord_id: text_default(f.cl_ord_id, ""@),
                    price: as_number(f.price),
                    qty: as_number(f.qty),
                },
            )
        } else if a == "cancel_orders"@ || a == "cancel_order"@ {
            Some(CommandView::Cancel { req_id, cl_ord_ids: f.cl_ord_ids })
        } else if a == "cancel_all"@ {
            Some(CommandView::CancelAll { req_id })
        } else if a == "set_dms"@ || a == "cancel_all_orders_after"@ {
            Some(CommandView::SetDms { req_id })
        } else if a == "ping"@ {
            Some(CommandView::Ping { req_id })
        } else {
            None
        },
    }
}

/// The model of an optional command.
pub open spec fn opt_command(c: Option<Command>) -> Option<CommandView> {
    match c {
        Some(x) => Some(x@),
        None => None,
    }
}

/// The command that the fields of a message make up; `None` if they make up none.
pub fn command_of(f: CommandFields) -> (r: Option<Command>)
    ensures
        opt_command(r) == command_in(f@),
{
    let market = is_true(&f.market);
    let post_only = is_true(&f.post_only);
    let req_id: u64 = count_of_leaf(f.req_id);
    let action = match text_of_leaf(f.action) {
        Some(a) => a,
        None => return None,
    };
    let a = action.as_str();
    if str_eq(a, "subscribe") {
        Some(Command::Subscribe { channel: text_or(f.channel, "") })
    } else if str_eq(a, "place_order") || str_eq(a, "add_order") {
        let side_word = text_or(f.side, "buy");
        let type_word = text_or(f.order_type, "limit");
        Some(
            Command::Place {
                req_id,
                symbol: text_or(f.symbol, ""),
                side: if str_eq(side_word.as_str(), "sell") {
                    Side::Sell
                } else {
                    Side::Buy
                },
                order_type: if str_eq(type_word.as_str(), "market") || market {
                    OrderType::Market
                } else {
                    OrderType::Limit
                },
                price: number_of_leaf(f.price),
                qty: number_of_leaf(f.qty),
                cl_ord_id: text_or(f.cl_ord_id, ""),
                post_only,
            },
        )
    } else if str_eq(a, "amend_order") {
        Some(
            Command::Amend {
                req_id,
                cl_ord_id: text_or(f.cl_ord_id, ""),
                price: number_of_leaf(f.price),
                qty: number_of_leaf(f.qty),
            },
        )
    } else if str_eq(a, "cancel_orders") || str_eq(a, "cancel_order") {
        Some(Command::Cancel { req_id, cl_ord_ids: f.cl_ord_ids })
    } else if str_eq(a, "cancel_all") {
        Some(Command::CancelAll { req_id })
    } else if str_eq(a, "set_dms") || str_eq(a, "cancel_all_orders_after") {
        Some(Command::SetDms { req_id })
    } else if str_eq(a, "ping") {
        Some(Command::Ping { req_id })
    } else {
        None
    }
}

/// Reads a message on the private connection. Both the newer format, with a `cmd` and its fields
/// at the top, and the older one, with a `method` and its fields in `params`, are understood.
pub fn read_command(raw: &str) -> (r: Option<Command>)
    ensures
        opt_command(r) == command_in(fields_of(raw@)),
{
    command_of(read_fields(raw))
}

/// The symbols of a request on the public connection to subscribe to books; `None` if the message
/// is no such request.
pub fn book_symbols(method: Option<Leaf>, channel: Option<Leaf>, symbols: Option<Vec<String>>) -> (r:
    Option<Vec<String>>)
    ensures
        match r {
            Some(v) => as_text(leaf_view(method)) == Some("subscribe"@) && as_text(
                leaf_view(channel),
            ) == Some("book"@) && views(v@) == (match symbols {
                Some(s) => views(s@),
                None => Seq::empty(),
            }),
            None => !(as_text(leaf_view(method)) == Some("subscribe"@) && as_text(
                leaf_view(channel),
            ) == Some("book"@)),
        },
{
    let subscribes = match &method {
        Some(Leaf::Text(m)) => str_eq(m.as_str(), "subscribe"),
        _ => false,
    };
    let to_book = match &channel {
        Some(Leaf::Text(c)) => str_eq(c.as_str(), "book"),
        _ => false,
    };
    if subscribes && to_book {
        match symbols {
            Some(s) => Some(s),
            None => {
                let none: Vec<String> = Vec::new();
                assert(views(none@) =~= Seq::empty());
                Some(none)
            },
        }
    } else {
        None
    }
}

/// Reads a request on the public connection to subscribe to books.
pub fn read_book_subscription(raw: &str) -> (r: Option<Vec<String>>)
    ensures
        match r {
            Some(v) => as_text(json_leaf(raw@, "/method"@)) == Some("subscribe"@) && as_text(
                json_leaf(raw@, "/params/channel"@),
            ) == Some("book"@) && views(v@) == (match string_list(raw@, "/params/symbol"@) {
                Some(s) => s,
                None => Seq::empty(),
            }),
            None => !(as_text(json_leaf(raw@, "/method"@)) == Some("subscribe"@) && as_text(
                json_leaf(raw@, "/params/channel"@),
            ) == Some("book"@)),
        },
{
    book_symbols(
        leaf_at(raw, "/method"),
        leaf_at(raw, "/params/channel"),
        read_strings(raw, "/params/symbol"),
    )
}

/// What a message on a book feed holds in the fields that decide who gets it.
#[derive(Debug)]
pub struct FeedFields {
    pub event: Option<Leaf>,
    pub channel: Option<Leaf>,
    pub symbol: Option<Leaf>,
    pub data: Option<Leaf>,
    /// The symbol of the first item of `data`.
    pub first_symbol: Option<Leaf>,
}

/// Model of [`FeedFields`].
#[verifier::ext_equal]
pub struct FeedView {
    pub event: Option<LeafView>,
    pub channel: Option<LeafView>,
    pub symbol: Option<LeafView>,
    pub data: Option<LeafView>,
    pub first_symbol: Option<LeafView>,
}

impl View for FeedFields {
    type V = FeedView;

    open spec fn view(&self) -> FeedView {
        FeedView {
            event: leaf_view(self.event),
            channel: leaf_view(self.channel),
            symbol: leaf_view(self.symbol),
            data: leaf_view(self.data),
            first_symbol: leaf_view(self.first_symbol),
        }
    }
}

/// The symbol of a message on a book feed: that of the first item of a list `data` if there is one,
/// else the one at the top; the empty one if there is neither.
pub open spec fn feed_symbol(f: FeedView) -> Seq<char> {
    let first = if f.data matches Some(LeafView::List(_)) {
        as_text(f.first_symbol)
    } else {
        None
    };
    match (first, as_text(f.symbol)) {
        (Some(s), _) => s,
        (None, Some(s)) => s,
        (None, None) => ""@,
    }
}

/// Whether a message on a book feed goes to a client with these subscriptions: heartbeats go to
/// all, told by `event` or by `channel`; books to those who subscribed to their symbol.
pub open spec fn goes_to(f: FeedView, subscribed: Seq<Seq<char>>) -> bool {
    ||| as_text(f.event) == Some("heartbeat"@)
    ||| as_text(f.channel) == Some("heartbeat"@)
    ||| subscribed.contains(feed_symbol(f))
}

fn is_listed(symbol: &str, subscribed: &Vec<String>) -> (r: bool)
    ensures
        r == views(subscribed@).contains(symbol@),
{
    let mut i: usize = 0;
    while i < subscribed.len()
        invariant
            i <= subscribed.len(),
            forall|j: int| 0 <= j < i ==> views(subscribed@)[j] != symbol@,
        decreases subscribed.len() - i,
    {
        if str_eq(subscribed[i].as_str(), symbol) {
            assert(views(subscribed@)[i as int] == symbol@);
            return true;
        }
        i = i + 1;
    }
    false
}

fn is_heartbeat(l: Option<Leaf>) -> (r: bool)
    ensures
        r == (as_text(leaf_view(l)) == Some("heartbeat"@)),
{
    match text_of_leaf(l) {
        Some(s) => str_eq(s.as_str(), "heartbeat"),
        None => false,
    }
}

/// Whether a message on a book feed goes to a client with these subscriptions.
pub fn should_send(fields: FeedFields, subscribed: &Vec<String>) -> (r: bool)
    ensures
        r == goes_to(fields@, views(subscribed@)),
{
    if is_heartbeat(fields.event) || is_heartbeat(fields.channel) {
        return true;
    }
    let first = match fields.data {
        Some(Leaf::List(_)) => text_of_leaf(fields.first_symbol),
        _ => None,
    };
    let symbol = match first {
        Some(s) => s,
        None => text_or(fields.symbol, ""),
    };
    is_listed(symbol.as_str(), subscribed)
}

/// What a feed message holds.
pub open spec fn feed_fields(message: Seq<char>) -> FeedView {
    FeedView {
        event: json_leaf(message, "/event"@),
        channel: json_leaf(message, "/channel"@),
        symbol: json_leaf(message, "/symbol"@),
        data: json_leaf(message, "/data"@),
        first_symbol: json_leaf(message, "/data/0/symbol"@),
    }
}

/// Whether a feed message goes to a client with these subscriptions. What is not JSON goes to
/// nobody.
pub fn relays(message: &str, subscribed: &Vec<String>) -> (r: bool)
    ensures
        r == (json_leaf(message@, ""@) is Some && goes_to(
            feed_fields(message@),
            views(subscribed@),
        )),
{
    if leaf_at(message, "").is_none() {
        return false;
    }
    should_send(
        FeedFields {
            event: leaf_at(message, "/event"),
            channel: leaf_at(message, "/channel"),
            symbol: leaf_at(message, "/symbol"),
            data: leaf_at(message, "/data"),
            first_symbol: leaf_at(message, "/data/0/symbol"),
        },
        subscribed,
    )
}

} // verus!
