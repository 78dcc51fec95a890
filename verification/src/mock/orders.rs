//! Orders placed with the simulated exchange.
use crate::collections::{
    keyed, lookup, push_value, stored, views, without, Dup, Entries, StrMap,
};
use crate::text::str_eq;
use vstd::prelude::*;

verus! {

/// Side of an order.
#[derive(Clone, Copy, Debug, PartialEq, Eq, Structural)]
pub enum Side {
    Buy,
    Sell,
}

impl Side {
    /// The word for the side.
    pub fn as_str(&self) -> (r: &'static str)
        ensures
            r@ == (match *self {
                Side::Buy => "buy"@,
                Side::Sell => "sell"@,
            }),
    {
        match self {
            Side::Buy => "buy",
            Side::Sell => "sell",
        }
    }
}

/// Order type.
#[derive(Clone, Copy, Debug, PartialEq, Eq, Structural)]
pub enum OrderType {
    Limit,
    Market,
}

/// Status of an order.
#[derive(Clone, Copy, Debug, PartialEq, Eq, Structural)]
pub enum OrderStatus {
    New,
    PartiallyFilled,
    Filled,
    Canceled,
}

/// A resting or pending order.
#[derive(Clone, Debug)]
pub struct Order {
    pub order_id: String,
    pub cl_ord_id: String,
    pub symbol: String,
    pub side: Side,
    pub order_type: OrderType,
    /// Key of the price.
    pub price: i64,
    /// Key of the quantity.
    pub qty: i64,
    /// Key of the quantity filled so far.
    pub filled_qty: i64,
    pub status: OrderStatus,
    pub post_only: bool,
}

/// Model of [`Order`].
#[verifier::ext_equal]
pub struct OrderView {
    pub order_id: Seq<char>,
    pub cl_ord_id: Seq<char>,
    pub symbol: Seq<char>,
    pub side: Side,
    pub order_type: OrderType,
    pub price: i64,
    pub qty: i64,
    pub filled_qty: i64,
    pub status: OrderStatus,
    pub post_only: bool,
}

impl View for Order {
    type V = OrderView;

    open spec fn view(&self) -> OrderView {
        OrderView {
            order_id: self.order_id@,
            cl_ord_id: self.cl_ord_id@,
            symbol: self.symbol@,
            side: self.side,
            order_type: self.order_type,
            price: self.price,
            qty: self.qty,
            filled_qty: self.filled_qty,
            status: self.status,
            post_only: self.post_only,
        }
    }
}

impl Dup for Order {
    fn dup(&self) -> (r: Order) {
        Order {
            order_id: self.order_id.clone(),
            cl_ord_id: self.cl_ord_id.clone(),
            symbol: self.symbol.clone(),
            side: self.side,
            order_type: self.order_type,
            price: self.price,
            qty: self.qty,
            filled_qty: self.filled_qty,
            status: self.status,
            post_only: self.post_only,
        }
    }
}

/// Whether an order is neither filled nor cancelled.
pub open spec fn is_open(o: OrderView) -> bool {
    o.status != OrderStatus::Filled && o.status != OrderStatus::Canceled
}

fn open_order(o: &Order) -> (r: bool)
    ensures
        r == is_open(o@),
{
    o.status != OrderStatus::Filled && o.status != OrderStatus::Canceled
}

/// The same order in another status.
pub open spec fn in_status(o: OrderView, status: OrderStatus) -> OrderView {
    OrderView { status, ..o }
}

/// The open orders among some entries, for one symbol or for all.
pub open spec fn open_orders(s: Entries<OrderView>, symbol: Option<Seq<char>>) -> Seq<OrderView>
    decreases s.len(),
{
    if s.len() == 0 {
        Seq::empty()
    } else {
        let rest = open_orders(s.drop_last(), symbol);
        let o = s.last().1;
        if is_open(o) && (symbol is Some ==> symbol == Some(o.symbol)) {
            rest.push(o)
        } else {
            rest
        }
    }
}

/// The entries with every open order cancelled.
pub open spec fn all_canceled(s: Entries<OrderView>) -> Entries<OrderView> {
    s.map_values(
        |e: (Seq<char>, OrderView)|
            if is_open(e.1) {
                (e.0, in_status(e.1, OrderStatus::Canceled))
            } else {
                e
            },
    )
}

/// The client ids of some orders.
pub open spec fn client_ids(s: Seq<OrderView>) -> Seq<Seq<char>> {
    s.map_values(|o: OrderView| o.cl_ord_id)
}

/// The models of references to orders.
pub open spec fn order_views(s: Seq<&Order>) -> Seq<OrderView> {
    Seq::new(s.len(), |i: int| s[i]@)
}

/// Store for all orders, keyed by client order id.
pub struct OrderStore {
    pub orders: StrMap<Order>,
}

impl View for OrderStore {
    type V = Entries<OrderView>;

    open spec fn view(&self) -> Entries<OrderView> {
        self.orders@
    }
}

impl OrderStore {
    /// An empty store.
    pub fn new() -> (r: OrderStore)
        ensures
            r@ == Seq::<(Seq<char>, OrderView)>::empty(),
    {
        OrderStore { orders: StrMap::new() }
    }

    /// Stores an order under its client order id.
    pub fn insert(&mut self, order: Order)
        ensures
            final(self)@ == stored(old(self)@, order@.cl_ord_id, order@),
    {
        let id = order.cl_ord_id.clone();
        self.orders.insert(id, order);
    }

    /// The order with a client order id.
    pub fn get(&self, cl_ord_id: &str) -> (r: Option<&Order>)
        ensures
            match r {
                Some(o) => lookup(self@, cl_ord_id@) == Some(o@),
                None => lookup(self@, cl_ord_id@) is None,
            },
    {
        self.orders.get(cl_ord_id)
    }

    /// Removes the order with a client order id.
    pub fn remove(&mut self, cl_ord_id: &str) -> (r: Option<Order>)
        ensures
            final(self)@ == without(old(self)@, cl_ord_id@),
            match r {
                Some(o) => lookup(old(self)@, cl_ord_id@) == Some(o@),
                None => lookup(old(self)@, cl_ord_id@) is None,
            },
    {
        self.orders.remove(cl_ord_id)
    }

    /// Puts another order in the place of the one with a client order id, if there is one.
    pub fn replace(&mut self, cl_ord_id: &str, order: Order) -> (r: bool)
        ensures
            r == keyed(old(self)@, cl_ord_id@),
            final(self)@ == (if r {
                stored(old(self)@, cl_ord_id@, order@)
            } else {
                old(self)@
            }),
    {
        if self.orders.contains_key(cl_ord_id) {
            self.orders.insert(cl_ord_id.to_owned(), order);
            true
        } else {
            false
        }
    }

    fn collect(&self, symbol: Option<&str>) -> (r: Vec<&Order>)
        ensures
            order_views(r@) == open_orders(
                self@,
                match symbol {
                    Some(s) => Some(s@),
                    None => None,
                },
            ),
    {
        let ghost wanted = match symbol {
            Some(s) => Some(s@),
            None => None,
        };
        let mut r: Vec<&Order> = Vec::new();
        let mut i: usize = 0;
        let n: usize = self.orders.len();
        assert(order_views(r@) =~= open_orders(self@.take(0), wanted));
        while i < n
            invariant
                i <= n == self@.len(),
                order_views(r@) == open_orders(self@.take(i as int), wanted),
                wanted == (match symbol {
                    Some(s) => Some(s@),
                    None => None,
                }),
            decreases n - i,
        {
            let o = self.orders.value_at(i);
            let fits = match symbol {
                Some(s) => str_eq(o.symbol.as_str(), s),
                None => true,
            };
            let ghost before = order_views(r@);
            proof {
                assert(self@.take(i + 1).drop_last() =~= self@.take(i as int));
                assert(self@.take(i + 1).last() == self@[i as int]);
            }
            if open_order(o) && fits {
                r.push(o);
                assert(order_views(r@) =~= before.push(o@));
            }
            i = i + 1;
        }
        assert(self@.take(i as int) =~= self@);
        r
    }

    /// All open orders for a symbol.
    pub fn open_orders_for_symbol(&self, symbol: &str) -> (r: Vec<&Order>)
        ensures
            order_views(r@) == open_orders(self@, Some(symbol@)),
    {
        self.collect(Some(symbol))
    }

    /// All open orders.
    pub fn all_open_orders(&self) -> (r: Vec<&Order>)
        ensures
            order_views(r@) == open_orders(self@, None),
    {
        self.collect(None)
    }

    /// Cancels all open orders. Returns the client order ids of the cancelled orders.
    pub fn cancel_all(&mut self) -> (r: Vec<String>)
        ensures
            views(r@) == client_ids(open_orders(old(self)@, None)),
            final(self)@ == all_canceled(old(self)@),
    {
        let ghost before = self@;
        let mut r: Vec<String> = Vec::new();
        let mut i: usize = 0;
        let n: usize = self.orders.len();
        assert(views(r@) =~= client_ids(open_orders(before.take(0), None)));
        assert(self@ =~= all_canceled(before.take(0)) + before.skip(0));
        while i < n
            invariant
                i <= n == before.len(),
                self@ == all_canceled(before.take(i as int)) + before.skip(i as int),
                views(r@) == client_ids(open_orders(before.take(i as int), None)),
            decreases n - i,
        {
            proof {
                assert(before.take(i + 1).drop_last() =~= before.take(i as int));
                assert(before.take(i + 1).last() == before[i as int]);
                assert(self@[i as int] == before[i as int]);
            }
            let mut o = self.orders.value_at(i).dup();
            let ghost was = before[i as int];
            if open_order(&o) {
                push_value(&mut r, o.cl_ord_id.clone());
                o.status = OrderStatus::Canceled;
                self.orders.set_value_at(i, o);
                proof {
                    let known = open_orders(before.take(i as int), None::<Seq<char>>);
                    assert(client_ids(known.push(was.1)) =~= client_ids(known).push(
                        was.1.cl_ord_id,
                    ));
                }
            }
            proof {
                assert(self@ =~= all_canceled(before.take(i + 1)) + before.skip(i + 1));
            }
            i = i + 1;
        }
        proof {
            assert(before.take(i as int) =~= before);
            assert(all_canceled(before) + before.skip(i as int) =~= all_canceled(before));
        }
        r
    }
}

/// After everything is cancelled no order is open.
pub proof fn cancelling_all_leaves_nothing_open(s: Entries<OrderView>, symbol: Option<Seq<char>>)
    ensures
        open_orders(all_canceled(s), symbol) == Seq::<OrderView>::empty(),
    decreases s.len(),
{
    if s.len() > 0 {
        cancelling_all_leaves_nothing_open(s.drop_last(), symbol);
        assert(all_canceled(s).drop_last() =~= all_canceled(s.drop_last()));
    }
}

} // verus!
