//! What a proxy remembers of orders, fills and positions.
use crate::collections::{
    distinct_keys, keyed, lookup, map_keys_are_distinct, push_value, stored, stored_then_lookup,
    views, without, without_then_lookup, Dup, Entries, StrMap, StrSet,
};
use crate::decimal::{difference, less, over, plus, product, smaller, sum, times, Decimal};
use crate::position::positive;
use crate::text::str_eq;
use vstd::prelude::*;

verus! {

/// Status of an order through its life.
#[derive(Clone, Copy, Debug, PartialEq, Eq, Structural)]
pub enum OrderStatus {
    Pending,
    Open,
    PartiallyFilled,
    Filled,
    Cancelled,
    Rejected,
}

/// Whether an order in this status is done with.
pub open spec fn terminal(status: OrderStatus) -> bool {
    status == OrderStatus::Filled || status == OrderStatus::Cancelled || status
        == OrderStatus::Rejected
}

/// A tracked order.
#[derive(Clone, Debug)]
pub struct TrackedOrder {
    pub cl_ord_id: String,
    pub exchange_id: String,
    pub pair: String,
    pub side: String,
    pub price: Decimal,
    pub original_qty: Decimal,
    pub filled_qty: Decimal,
    pub status: OrderStatus,
}

/// Model of [`TrackedOrder`].
#[verifier::ext_equal]
pub struct TrackedOrderView {
    pub cl_ord_id: Seq<char>,
    pub exchange_id: Seq<char>,
    pub pair: Seq<char>,
    pub side: Seq<char>,
    pub price: Decimal,
    pub original_qty: Decimal,
    pub filled_qty: Decimal,
    pub status: OrderStatus,
}

impl View for TrackedOrder {
    type V = TrackedOrderView;

    open spec fn view(&self) -> TrackedOrderView {
        TrackedOrderView {
            cl_ord_id: self.cl_ord_id@,
            exchange_id: self.exchange_id@,
            pair: self.pair@,
            side: self.side@,
            price: self.price,
            original_qty: self.original_qty,
            filled_qty: self.filled_qty,
            status: self.status,
        }
    }
}

impl Dup for TrackedOrder {
    fn dup(&self) -> (r: TrackedOrder) {
        TrackedOrder {
            cl_ord_id: self.cl_ord_id.clone(),
            exchange_id: self.exchange_id.clone(),
            pair: self.pair.clone(),
            side: self.side.clone(),
            price: self.price,
            original_qty: self.original_qty,
            filled_qty: self.filled_qty,
            status: self.status,
        }
    }
}

/// Where a fill was learned of.
#[derive(Clone, Copy, Debug, PartialEq, Eq, Structural)]
pub enum FillSource {
    WebSocket,
    Reconciliation,
}

/// A fill as it was reported.
#[derive(Clone, Debug)]
pub struct FillRecord {
    pub fill_id: String,
    pub cl_ord_id: String,
    pub pair: String,
    pub side: String,
    pub price: Decimal,
    pub qty: Decimal,
    pub fee: Decimal,
    pub timestamp: String,
    pub source: FillSource,
}

/// Model of [`FillRecord`].
#[verifier::ext_equal]
pub struct FillRecordView {
    pub fill_id: Seq<char>,
    pub cl_ord_id: Seq<char>,
    pub pair: Seq<char>,
    pub side: Seq<char>,
    pub price: Decimal,
    pub qty: Decimal,
    pub fee: Decimal,
    pub timestamp: Seq<char>,
    pub source: FillSource,
}

impl View for FillRecord {
    type V = FillRecordView;

    open spec fn view(&self) -> FillRecordView {
        FillRecordView {
            fill_id: self.fill_id@,
            cl_ord_id: self.cl_ord_id@,
            pair: self.pair@,
            side: self.side@,
            price: self.price,
            qty: self.qty,
            fee: self.fee,
            timestamp: self.timestamp@,
            source: self.source,
        }
    }
}

/// A position derived from fills.
#[derive(Clone, Copy, Debug)]
pub struct ProxyPosition {
    pub qty: Decimal,
    pub avg_cost: Decimal,
    pub realized_pnl: Decimal,
}

impl View for ProxyPosition {
    type V = ProxyPosition;

    open spec fn view(&self) -> ProxyPosition {
        *self
    }
}

/// The position of someone who holds nothing.
pub open spec fn flat() -> ProxyPosition {
    ProxyPosition {
        qty: Decimal::of(0, 0),
        avg_cost: Decimal::of(0, 0),
        realized_pnl: Decimal::of(0, 0),
    }
}

impl Default for ProxyPosition {
    fn default() -> (r: ProxyPosition)
        ensures
            r == flat(),
    {
        ProxyPosition {
            qty: Decimal::zero(),
            avg_cost: Decimal::zero(),
            realized_pnl: Decimal::zero(),
        }
    }
}

/// Orders by client order id, with a way back from the exchange's id.
pub struct OrderRegistry {
    orders: StrMap<TrackedOrder>,
    exchange_to_cl: StrMap<String>,
}

/// Model of [`OrderRegistry`].
#[verifier::ext_equal]
pub struct RegistryView {
    pub orders: Entries<TrackedOrderView>,
    pub by_exchange: Entries<Seq<char>>,
}

impl View for OrderRegistry {
    type V = RegistryView;

    closed spec fn view(&self) -> RegistryView {
        RegistryView { orders: self.orders@, by_exchange: self.exchange_to_cl@ }
    }
}

/// By how much a filled quantity may fall short of the order's and still complete it: `10^-12`.
pub open spec fn tolerance() -> Decimal {
    Decimal::of(1, 12)
}

impl RegistryView {
    /// A registry without orders.
    pub open spec fn empty() -> RegistryView {
        RegistryView { orders: Seq::empty(), by_exchange: Seq::empty() }
    }

    /// With an order added; one without an exchange id cannot be found by it.
    pub open spec fn with(self, o: TrackedOrderView) -> RegistryView {
        RegistryView {
            orders: stored(self.orders, o.cl_ord_id, o),
            by_exchange: if o.exchange_id.len() > 0 {
                stored(self.by_exchange, o.exchange_id, o.cl_ord_id)
            } else {
                self.by_exchange
            },
        }
    }

    /// With the order under `id` replaced; if it is done with, it is no longer found by its
    /// exchange id.
    pub open spec fn replaced(self, id: Seq<char>, o: TrackedOrderView, done: bool) -> RegistryView {
        RegistryView {
            orders: stored(self.orders, id, o),
            by_exchange: if done {
                without(self.by_exchange, o.exchange_id)
            } else {
                self.by_exchange
            },
        }
    }

    /// With another order under an id, if there is one. Lookups by exchange ids stay as they are.
    pub open spec fn put(self, id: Seq<char>, o: TrackedOrderView) -> RegistryView {
        if keyed(self.orders, id) {
            self.replaced(id, o, false)
        } else {
            self
        }
    }

    /// With a new status for an order, if it is known.
    pub open spec fn with_status(self, id: Seq<char>, status: OrderStatus) -> RegistryView {
        match lookup(self.orders, id) {
            Some(o) => self.replaced(id, TrackedOrderView { status, ..o }, terminal(status)),
            None => self,
        }
    }

    /// With a new price or quantity for an order, if it is known.
    pub open spec fn amended(self, id: Seq<char>, price: Option<Decimal>, qty: Option<Decimal>) -> RegistryView {
        match lookup(self.orders, id) {
            Some(o) => self.replaced(
                id,
                TrackedOrderView {
                    price: price.unwrap_or(o.price),
                    original_qty: qty.unwrap_or(o.original_qty),
                    ..o
                },
                false,
            ),
            None => self,
        }
    }

    /// With a quantity filled: an order is complete once it lacks no more than the tolerance.
    /// `None` on overflow.
    pub open spec fn filled(self, id: Seq<char>, qty: Decimal) -> Option<RegistryView> {
        match lookup(self.orders, id) {
            Some(o) => match (sum(o.filled_qty, qty), difference(o.original_qty, tolerance())) {
                (Some(filled_qty), Some(enough)) => {
                    let complete = !less(filled_qty, enough);
                    let status = if complete {
                        OrderStatus::Filled
                    } else {
                        OrderStatus::PartiallyFilled
                    };
                    Some(
                        self.replaced(
                            id,
                            TrackedOrderView { filled_qty, status, ..o },
                            complete,
                        ),
                    )
                },
                _ => None,
            },
            None => Some(self),
        }
    }

    /// Whether no client order id and no exchange id occurs twice.
    pub open spec fn well_formed(self) -> bool {
        distinct_keys(self.orders) && distinct_keys(self.by_exchange)
    }
}

impl OrderRegistry {
    /// A registry without orders.
    pub fn new() -> (r: OrderRegistry)
        ensures
            r@ == RegistryView::empty(),
            r@.well_formed(),
    {
        OrderRegistry { orders: StrMap::new(), exchange_to_cl: StrMap::new() }
    }

    /// Registers an order.
    pub fn insert(&mut self, order: TrackedOrder)
        ensures
            final(self)@ == old(self)@.with(order@),
            final(self)@.well_formed(),
    {
        if !order.exchange_id.as_str().is_empty() {
            self.exchange_to_cl.insert(order.exchange_id.clone(), order.cl_ord_id.clone());
        }
        self.orders.insert(order.cl_ord_id.clone(), order);
        proof {
            use_type_invariant(&self.orders);
            use_type_invariant(&self.exchange_to_cl);
            map_keys_are_distinct(self.orders);
            map_keys_are_distinct(self.exchange_to_cl);
        }
    }

    /// The order with a client order id.
    pub fn get(&self, cl_ord_id: &str) -> (r: Option<&TrackedOrder>)
        ensures
            match r {
                Some(o) => lookup(self@.orders, cl_ord_id@) == Some(o@),
                None => lookup(self@.orders, cl_ord_id@) is None,
            },
    {
        self.orders.get(cl_ord_id)
    }

    /// Puts another order in the place of the one under a client order id, and returns that one;
    /// `None`, with nothing changed, if there is none. Lookups by exchange ids stay as they are.
    pub fn replace(&mut self, cl_ord_id: &str, order: TrackedOrder) -> (r: Option<TrackedOrder>)
        ensures
            final(self)@ == old(self)@.put(cl_ord_id@, order@),
            match r {
                Some(o) => lookup(old(self)@.orders, cl_ord_id@) == Some(o@),
                None => lookup(old(self)@.orders, cl_ord_id@) is None,
            },
            final(self)@.well_formed(),
    {
        proof {
            use_type_invariant(&self.orders);
            use_type_invariant(&self.exchange_to_cl);
            map_keys_are_distinct(self.orders);
            map_keys_are_distinct(self.exchange_to_cl);
        }
        let held = match self.orders.get(cl_ord_id) {
            Some(o) => o.dup(),
            None => {
                return None;
            },
        };
        self.orders.insert(cl_ord_id.to_owned(), order);
        proof {
            use_type_invariant(&self.orders);
            map_keys_are_distinct(self.orders);
        }
        Some(held)
    }

    /// The client order id for an exchange id.
    pub fn cl_ord_id_for_exchange_id(&self, exchange_id: &str) -> (r: Option<&str>)
        ensures
            match r {
                Some(s) => lookup(self@.by_exchange, exchange_id@) == Some(s@),
                None => lookup(self@.by_exchange, exchange_id@) is None,
            },
            self@.well_formed(),
    {
        proof {
            use_type_invariant(&self.orders);
            use_type_invariant(&self.exchange_to_cl);
            map_keys_are_distinct(self.orders);
            map_keys_are_distinct(self.exchange_to_cl);
        }
        match self.exchange_to_cl.get(exchange_id) {
            Some(s) => Some(s.as_str()),
            None => None,
        }
    }

    /// Sets the status of an order. One that is done with is no longer found by its exchange id.
    pub fn update_status(&mut self, cl_ord_id: &str, status: OrderStatus)
        ensures
            final(self)@ == old(self)@.with_status(cl_ord_id@, status),
            final(self)@.well_formed(),
    {
        if let Some(o) = self.orders.get(cl_ord_id) {
            let mut order = o.dup();
            order.status = status;
            let done = status == OrderStatus::Filled || status == OrderStatus::Cancelled || status
                == OrderStatus::Rejected;
            if done {
                self.exchange_to_cl.remove(order.exchange_id.as_str());
            }
            self.orders.insert(cl_ord_id.to_owned(), order);
        }
        proof {
            use_type_invariant(&self.orders);
            use_type_invariant(&self.exchange_to_cl);
            map_keys_are_distinct(self.orders);
            map_keys_are_distinct(self.exchange_to_cl);
        }
    }

    /// Sets price and quantity of an amended order, where they are given.
    pub fn update_price_qty(&mut self, cl_ord_id: &str, price: Option<Decimal>, qty: Option<Decimal>)
        ensures
            final(self)@ == old(self)@.amended(cl_ord_id@, price, qty),
            final(self)@.well_formed(),
    {
        if let Some(o) = self.orders.get(cl_ord_id) {
            let mut order = o.dup();
            order.price = price.unwrap_or(order.price);
            order.original_qty = qty.unwrap_or(order.original_qty);
            self.orders.insert(cl_ord_id.to_owned(), order);
        }
        proof {
            use_type_invariant(&self.orders);
            use_type_invariant(&self.exchange_to_cl);
            map_keys_are_distinct(self.orders);
            map_keys_are_distinct(self.exchange_to_cl);
        }
    }

    /// Adds to the filled quantity of an order. `None`, with nothing changed, on overflow.
    pub fn add_fill(&mut self, cl_ord_id: &str, fill_qty: Decimal) -> (r: Option<()>)
        ensures
            match old(self)@.filled(cl_ord_id@, fill_qty) {
                Some(v) => r is Some && final(self)@ == v,
                None => r is None && final(self)@ == old(self)@,
            },
            final(self)@.well_formed(),
    {
        proof {
            use_type_invariant(&self.orders);
            use_type_invariant(&self.exchange_to_cl);
            map_keys_are_distinct(self.orders);
            map_keys_are_distinct(self.exchange_to_cl);
        }
        if let Some(o) = self.orders.get(cl_ord_id) {
            let mut order = o.dup();
            order.filled_qty = order.filled_qty.checked_add(fill_qty)?;
            let enough = order.original_qty.checked_sub(Decimal::new(1, 12))?;
            if order.filled_qty >= enough {
                order.status = OrderStatus::Filled;
                self.exchange_to_cl.remove(order.exchange_id.as_str());
            } else {
                order.status = OrderStatus::PartiallyFilled;
            }
            self.orders.insert(cl_ord_id.to_owned(), order);
        }
        proof {
            use_type_invariant(&self.orders);
            use_type_invariant(&self.exchange_to_cl);
            map_keys_are_distinct(self.orders);
            map_keys_are_distinct(self.exchange_to_cl);
        }
        Some(())
    }

    /// Cancels every order and clears the registry.
    pub fn cancel_all(&mut self)
        ensures
            final(self)@ == RegistryView::empty(),
    {
        self.orders.clear();
        self.exchange_to_cl.clear();
    }

    /// All orders, in the order they came.
    pub fn all_orders(&self) -> (r: Vec<TrackedOrder>)
        ensures
            views(r@) == self@.orders.map_values(|e: (Seq<char>, TrackedOrderView)| e.1),
    {
        let n: usize = self.orders.len();
        let mut r: Vec<TrackedOrder> = Vec::new();
        let mut i: usize = 0;
        while i < n
            invariant
                i <= n == self.orders@.len(),
                r.len() == i,
                forall|j: int| 0 <= j < i ==> (#[trigger] r@[j])@ == self.orders@[j].1,
            decreases n - i,
        {
            r.push(self.orders.value_at(i).dup());
            i = i + 1;
        }
        assert(views(r@) =~= self@.orders.map_values(|e: (Seq<char>, TrackedOrderView)| e.1));
        r
    }

    /// Number of orders.
    pub fn len(&self) -> (r: usize)
        ensures
            r == self@.orders.len(),
    {
        self.orders.len()
    }

    /// Whether there are no orders.
    pub fn is_empty(&self) -> (r: bool)
        ensures
            r == (self@.orders.len() == 0),
    {
        self.orders.is_empty()
    }
}

/// An order that is registered under an exchange id is found by it until it is done with.
pub proof fn exchange_ids_lead_to_live_orders(
    r: RegistryView,
    o: TrackedOrderView,
    status: OrderStatus,
)
    requires
        o.exchange_id.len() > 0,
        r.well_formed(),
    ensures
        lookup(r.with(o).by_exchange, o.exchange_id) == Some(o.cl_ord_id),
        lookup(r.with(o).orders, o.cl_ord_id) == Some(o),
        ({
            let s = r.with(o).with_status(o.cl_ord_id, status);
            lookup(s.by_exchange, o.exchange_id) == (if terminal(status) {
                None
            } else {
                Some(o.cl_ord_id)
            })
        }),
{
    let v = r.with(o);
    stored_then_lookup(r.by_exchange, o.exchange_id, o.cl_ord_id, o.exchange_id);
    stored_then_lookup(r.orders, o.cl_ord_id, o, o.cl_ord_id);
    without_then_lookup(v.by_exchange, o.exchange_id, o.exchange_id);
}

/// An append-only log of fills in which none occurs twice.
pub struct FillLedger {
    fills: Vec<FillRecord>,
    seen_ids: StrSet,
}

/// Model of [`FillLedger`].
#[verifier::ext_equal]
pub struct LedgerView {
    pub fills: Seq<FillRecordView>,
    pub seen: Entries<()>,
}

impl View for FillLedger {
    type V = LedgerView;

    closed spec fn view(&self) -> LedgerView {
        LedgerView { fills: views(self.fills@), seen: self.seen_ids@ }
    }
}

impl LedgerView {
    /// A ledger without fills.
    pub open spec fn empty() -> LedgerView {
        LedgerView { fills: Seq::empty(), seen: Seq::empty() }
    }

    /// With a fill recorded, unless its id was seen before.
    pub open spec fn with(self, f: FillRecordView) -> LedgerView {
        if keyed(self.seen, f.fill_id) {
            self
        } else {
            LedgerView { fills: self.fills.push(f), seen: stored(self.seen, f.fill_id, ()) }
        }
    }

    /// Whether a fill with this id is kept.
    pub open spec fn keeps(self, id: Seq<char>) -> bool {
        exists|i: int| 0 <= i < self.fills.len() && (#[trigger] self.fills[i]).fill_id == id
    }

    /// Whether the ids of the fills are distinct and exactly those that were seen.
    pub open spec fn consistent(self) -> bool {
        &&& forall|i: int, j: int|
            0 <= i < j < self.fills.len() ==> self.fills[i].fill_id != self.fills[j].fill_id
        &&& forall|id: Seq<char>| #[trigger] keyed(self.seen, id) <==> self.keeps(id)
    }

    /// The fills, newest first.
    pub open spec fn newest_first(self) -> Seq<FillRecordView> {
        self.fills.reverse()
    }
}

impl FillLedger {
    /// Whether the ids seen are those of the fills; true of every ledger a program holds.
    #[verifier::type_invariant]
    pub closed spec fn valid(self) -> bool {
        self@.consistent()
    }

    /// A ledger without fills.
    pub fn new() -> (r: FillLedger)
        ensures
            r@ == LedgerView::empty(),
            r@.consistent(),
    {
        let fills: Vec<FillRecord> = Vec::new();
        let seen_ids: StrSet = StrMap::new();
        assert(views(fills@) =~= Seq::empty());
        FillLedger { fills, seen_ids }
    }

    /// Records a fill at the end. False, with nothing changed, if one with its id is kept already.
    pub fn record(&mut self, fill: FillRecord) -> (r: bool)
        ensures
            final(self)@ == old(self)@.with(fill@),
            r == !old(self)@.keeps(fill@.fill_id),
            r ==> final(self)@.fills == old(self)@.fills.push(fill@),
            r ==> final(self)@.newest_first() == seq![fill@] + old(self)@.newest_first(),
            !r ==> final(self)@ == old(self)@,
            old(self)@.consistent(),
            final(self)@.consistent(),
    {
        proof {
            use_type_invariant(&*self);
            ledger_counts_no_fill_twice(self@, fill@, fill@);
        }
        if self.seen_ids.contains_key(fill.fill_id.as_str()) {
            return false;
        }
        let ghost before = self@;
        let mut ledger = FillLedger::new();
        std::mem::swap(self, &mut ledger);
        let FillLedger { mut fills, mut seen_ids } = ledger;
        seen_ids.insert(fill.fill_id.clone(), ());
        push_value(&mut fills, fill);
        *self = FillLedger { fills, seen_ids };
        assert(self@.newest_first() =~= seq![fill@] + before.newest_first());
        true
    }

    /// The latest fills, newest first, at most `limit` of them.
    pub fn recent(&self, limit: usize) -> (r: Vec<&FillRecord>)
        ensures
            views(r@) == self@.newest_first().take(
                if limit < self@.fills.len() {
                    limit as int
                } else {
                    self@.fills.len() as int
                },
            ),
            self@.consistent(),
    {
        proof {
            use_type_invariant(self);
        }
        let mut r: Vec<&FillRecord> = Vec::new();
        let mut i: usize = self.fills.len();
        while i > 0 && r.len() < limit
            invariant
                i <= self.fills.len(),
                r.len() == self.fills.len() - i,
                r.len() <= limit,
                forall|j: int|
                    0 <= j < r.len() ==> (#[trigger] r@[j])@ == self.fills@[self.fills.len() - 1
                        - j]@,
            decreases i,
        {
            i = i - 1;
            r.push(&self.fills[i]);
        }
        assert(views(r@) =~= self@.newest_first().take(r@.len() as int));
        r
    }
}

/// No fill is counted twice: recording keeps the ids distinct and seen, a fill that was recorded is
/// refused ever after, and one that is refused is there.
pub proof fn ledger_counts_no_fill_twice(l: LedgerView, f: FillRecordView, g: FillRecordView)
    requires
        l.consistent(),
    ensures
        l.with(f).consistent(),
        l.with(f).keeps(f.fill_id),
        g.fill_id == f.fill_id ==> l.with(f).with(g) == l.with(f),
        l.with(f) == l <==> l.keeps(f.fill_id),
{
    let m = l.with(f);
    stored_then_lookup(l.seen, f.fill_id, (), f.fill_id);
    if !keyed(l.seen, f.fill_id) {
        let n = l.fills.len() as int;
        assert(m.fills[n] == f);
        assert(m.keeps(f.fill_id));
        assert forall|id: Seq<char>| #[trigger] keyed(m.seen, id) <==> m.keeps(id) by {
            stored_then_lookup(l.seen, f.fill_id, (), id);
            if l.keeps(id) {
                let i = choose|i: int|
                    0 <= i < l.fills.len() && (#[trigger] l.fills[i]).fill_id == id;
                assert(m.fills[i] == l.fills[i]);
            }
            if m.keeps(id) && id != f.fill_id {
                let i = choose|i: int|
                    0 <= i < m.fills.len() && (#[trigger] m.fills[i]).fill_id == id;
                assert(m.fills[i] == l.fills[i]);
            }
        }
        assert forall|i: int, j: int| 0 <= i < j < m.fills.len() implies m.fills[i].fill_id
            != m.fills[j].fill_id by {
            assert(m.fills[i] == l.fills[i]);
            if j < l.fills.len() {
                assert(m.fills[j] == l.fills[j]);
            } else {
                assert(l.keeps(l.fills[i].fill_id));
            }
        }
    }
}

/// A position after a buy: the cost is averaged over the new quantity. `None` on overflow.
pub open spec fn after_buy(p: ProxyPosition, qty: Decimal, price: Decimal) -> Option<ProxyPosition> {
    match (plus(product(p.avg_cost, p.qty), product(price, qty)), sum(p.qty, qty)) {
        (Some(cost), Some(total)) => if positive(total) {
            match over(Some(cost), Some(total)) {
                Some(avg_cost) => Some(ProxyPosition { qty: total, avg_cost, ..p }),
                None => None,
            }
        } else {
            Some(ProxyPosition { qty: total, ..p })
        },
        _ => None,
    }
}

/// A position after a sell: no more than is held is sold; what is left below the tolerance is
/// taken for nothing. `None` on overflow.
pub open spec fn after_sell(p: ProxyPosition, qty: Decimal, price: Decimal) -> Option<
    ProxyPosition,
> {
    if !positive(p.qty) {
        Some(p)
    } else {
        let part = smaller(qty, p.qty);
        match (
            plus(Some(p.realized_pnl), times(Some(part), difference(price, p.avg_cost))),
            difference(p.qty, part),
        ) {
            (Some(realized_pnl), Some(rest)) => if less(rest, tolerance()) {
                Some(
                    ProxyPosition {
                        qty: Decimal::of(0, 0),
                        avg_cost: Decimal::of(0, 0),
                        realized_pnl,
                    },
                )
            } else {
                Some(ProxyPosition { qty: rest, avg_cost: p.avg_cost, realized_pnl })
            },
            _ => None,
        }
    }
}

/// Tracks positions derived from fills.
pub struct PositionTracker {
    positions: StrMap<ProxyPosition>,
}

impl View for PositionTracker {
    type V = Entries<ProxyPosition>;

    closed spec fn view(&self) -> Entries<ProxyPosition> {
        self.positions@
    }
}

/// The position in a pair: flat if none is recorded.
pub open spec fn position_in(s: Entries<ProxyPosition>, pair: Seq<char>) -> ProxyPosition {
    match lookup(s, pair) {
        Some(p) => p,
        None => flat(),
    }
}

/// The positions after a fill. `None` on overflow.
pub open spec fn positions_after(
    s: Entries<ProxyPosition>,
    pair: Seq<char>,
    side: Seq<char>,
    qty: Decimal,
    price: Decimal,
) -> Option<Entries<ProxyPosition>> {
    let p = position_in(s, pair);
    let after = if side == "buy"@ {
        after_buy(p, qty, price)
    } else {
        after_sell(p, qty, price)
    };
    match after {
        Some(q) => Some(stored(s, pair, q)),
        None => None,
    }
}

impl PositionTracker {
    /// A tracker without positions.
    pub fn new() -> (r: PositionTracker)
        ensures
            r@ == Seq::<(Seq<char>, ProxyPosition)>::empty(),
    {
        PositionTracker { positions: StrMap::new() }
    }

    fn current(&self, pair: &str) -> (r: ProxyPosition)
        ensures
            r == position_in(self@, pair@),
    {
        match self.positions.get(pair) {
            Some(p) => *p,
            None => ProxyPosition::default(),
        }
    }

    /// Applies a fill to the position in a pair. `None`, with nothing changed, on overflow.
    pub fn apply_fill(&mut self, pair: &str, side: &str, qty: Decimal, price: Decimal) -> (r: Option<
        (),
    >)
        ensures
            match positions_after(old(self)@, pair@, side@, qty, price) {
                Some(s) => r is Some && final(self)@ == s,
                None => r is None && final(self)@ == old(self)@,
            },
    {
        let mut pos = self.current(pair);
        if str_eq(side, "buy") {
            let cost = plus(pos.avg_cost.checked_mul(pos.qty), price.checked_mul(qty))?;
            pos.qty = pos.qty.checked_add(qty)?;
            if pos.qty.mantissa() > 0 {
                pos.avg_cost = cost.checked_div(pos.qty)?;
            }
        } else if pos.qty.mantissa() > 0 {
            let part = qty.min(pos.qty);
            pos.realized_pnl = plus(
                Some(pos.realized_pnl),
                times(Some(part), price.checked_sub(pos.avg_cost)),
            )?;
            pos.qty = pos.qty.checked_sub(part)?;
            if pos.qty < Decimal::new(1, 12) {
                pos.qty = Decimal::zero();
                pos.avg_cost = Decimal::zero();
            }
        }
        self.positions.insert(pair.to_owned(), pos);
        Some(())
    }

    /// Takes over a balance as a position without a cost, if it is positive and nothing is held.
    pub fn seed_from_balance(&mut self, pair: &str, qty: Decimal)
        ensures
            final(self)@ == (if positive(qty) {
                let p = position_in(old(self)@, pair@);
                stored(
                    old(self)@,
                    pair@,
                    if p.qty.m() == 0 {
                        ProxyPosition { qty, ..p }
                    } else {
                        p
                    },
                )
            } else {
                old(self)@
            }),
    {
        if qty.mantissa() > 0 {
            let mut pos = self.current(pair);
            if pos.qty.is_zero() {
                pos.qty = qty;
            }
            self.positions.insert(pair.to_owned(), pos);
        }
    }

    /// All positions.
    pub fn all_positions(&self) -> (r: &StrMap<ProxyPosition>)
        ensures
            r@ == self@,
    {
        &self.positions
    }

    /// The position in a pair.
    pub fn get(&self, pair: &str) -> (r: Option<&ProxyPosition>)
        ensures
            match r {
                Some(p) => lookup(self@, pair@) == Some(*p),
                None => lookup(self@, pair@) is None,
            },
    {
        self.positions.get(pair)
    }
}

/// A sell never leaves a negative position: what is left is nothing at all or at least the
/// tolerance.
pub proof fn sells_leave_no_negative_position(p: ProxyPosition, qty: Decimal, price: Decimal)
    requires
        positive(p.qty),
    ensures
        after_sell(p, qty, price) matches Some(q) ==> q.qty == Decimal::of(0, 0) || !less(
            q.qty,
            tolerance(),
        ),
{
}

/// A sell out of nothing changes nothing.
pub proof fn nothing_held_nothing_sold(p: ProxyPosition, qty: Decimal, price: Decimal)
    requires
        !positive(p.qty),
    ensures
        after_sell(p, qty, price) == Some(p),
{
}

} // verus!
