//! What the registry of orders and the positions of the proxy make of fills, changes and
//! cancellations.
use crate::collections::{keyed, lookup, stored_then_lookup, without_then_lookup, Entries};
use crate::decimal::{difference, lemma_of, magnitude, pow10, sum, Decimal};
use crate::decimal_error::{apart, differences_are_near, one, sums_are_near};
use crate::decimal_laws::{less_is_by_units, results_are_valid, units};
use crate::order_tracking::{
    after_buy, after_sell, position_in, positions_after, tolerance, OrderStatus, ProxyPosition,
    RegistryView, TrackedOrderView,
};
use vstd::prelude::*;

verus! {

/// An order that is added is found under its id, and by its exchange id if it has one; all other
/// orders stay as they are.
pub proof fn added_orders_are_found(r: RegistryView, o: TrackedOrderView, other: Seq<char>)
    requires
        other != o.cl_ord_id,
    ensures
        lookup(r.with(o).orders, o.cl_ord_id) == Some(o),
        lookup(r.with(o).orders, other) == lookup(r.orders, other),
        o.exchange_id.len() > 0 ==> lookup(r.with(o).by_exchange, o.exchange_id) == Some(o.cl_ord_id),
        o.exchange_id.len() == 0 ==> r.with(o).by_exchange == r.by_exchange,
{
    stored_then_lookup(r.orders, o.cl_ord_id, o, o.cl_ord_id);
    stored_then_lookup(r.orders, o.cl_ord_id, o, other);
    stored_then_lookup(r.by_exchange, o.exchange_id, o.cl_ord_id, o.exchange_id);
}

/// A fill adds to what is filled of its order, and to nothing else. The order is filled once what is
/// filled is no more than `10^-12` short of the order's quantity, and is then no longer found by its
/// exchange id; until then it is partially filled.
pub proof fn fills_complete_their_order(
    r: RegistryView,
    id: Seq<char>,
    qty: Decimal,
    other: Seq<char>,
)
    requires
        r.well_formed(),
        other != id,
        qty.valid(),
        lookup(r.orders, id) matches Some(o) ==> o.filled_qty.valid() && o.original_qty.valid(),
    ensures
        r.filled(id, qty) matches Some(s) ==> {
            &&& lookup(s.orders, other) == lookup(r.orders, other)
            &&& lookup(r.orders, id) is None ==> s == r
            &&& lookup(r.orders, id) matches Some(o) ==> (lookup(s.orders, id) matches Some(p) && ({
                let tiny = pow10(16);
                let enough = difference(o.original_qty, tolerance()).unwrap();
                &&& apart(units(p.filled_qty), units(o.filled_qty) + units(qty)) * one() <= 11
                    * magnitude(units(p.filled_qty))
                &&& apart(units(enough), units(o.original_qty) - tiny) * one() <= 11 * magnitude(
                    units(enough),
                )
                &&& p.status == OrderStatus::Filled <==> units(p.filled_qty) >= units(enough)
                &&& p.status == OrderStatus::PartiallyFilled <==> units(p.filled_qty) < units(enough)
                &&& p == TrackedOrderView { filled_qty: p.filled_qty, status: p.status, ..o }
                &&& p.status == OrderStatus::Filled ==> !keyed(s.by_exchange, o.exchange_id)
                &&& p.status != OrderStatus::Filled ==> s.by_exchange == r.by_exchange
            }))
        },
{
    lemma_of(1, 12);
    assert(units(tolerance()) == pow10(16)) by {
        assert(1 * pow10(16) == pow10(16));
    }
    if let Some(o) = lookup(r.orders, id) {
        if let Some(s) = r.filled(id, qty) {
            let filled = sum(o.filled_qty, qty).unwrap();
            let enough = difference(o.original_qty, tolerance()).unwrap();
            sums_are_near(o.filled_qty, qty);
            differences_are_near(o.original_qty, tolerance());
            results_are_valid(o.filled_qty, qty);
            results_are_valid(o.original_qty, tolerance());
            less_is_by_units(filled, enough);
            let p = lookup(s.orders, id);
            let status = if units(filled) < units(enough) {
                OrderStatus::PartiallyFilled
            } else {
                OrderStatus::Filled
            };
            let after = TrackedOrderView { filled_qty: filled, status, ..o };
            stored_then_lookup(r.orders, id, after, id);
            stored_then_lookup(r.orders, id, after, other);
            without_then_lookup(r.by_exchange, o.exchange_id, o.exchange_id);
        }
    }
}

/// A new status is noted for one order and nothing else of it is changed; an order that is filled,
/// cancelled or rejected is no longer found by its exchange id, any other one is.
pub proof fn statuses_are_noted(r: RegistryView, id: Seq<char>, status: OrderStatus, other: Seq<char>)
    requires
        r.well_formed(),
        other != id,
    ensures
        ({
            let s = r.with_status(id, status);
            let over = status is Filled || status is Cancelled || status is Rejected;
            &&& lookup(s.orders, other) == lookup(r.orders, other)
            &&& lookup(r.orders, id) is None ==> s == r
            &&& lookup(r.orders, id) matches Some(o) ==> lookup(s.orders, id) == Some(
                TrackedOrderView { status, ..o },
            ) && (over ==> !keyed(s.by_exchange, o.exchange_id)) && (!over ==> s.by_exchange
                == r.by_exchange)
        }),
{
    if let Some(o) = lookup(r.orders, id) {
        stored_then_lookup(r.orders, id, TrackedOrderView { status, ..o }, id);
        stored_then_lookup(r.orders, id, TrackedOrderView { status, ..o }, other);
        without_then_lookup(r.by_exchange, o.exchange_id, o.exchange_id);
    }
}

/// A change of price or quantity concerns one order, what is not given stays, and so does what is
/// filled of it.
pub proof fn changes_keep_the_rest(
    r: RegistryView,
    id: Seq<char>,
    price: Option<Decimal>,
    qty: Option<Decimal>,
    other: Seq<char>,
)
    requires
        other != id,
    ensures
        ({
            let s = r.amended(id, price, qty);
            &&& s.by_exchange == r.by_exchange
            &&& lookup(s.orders, other) == lookup(r.orders, other)
            &&& lookup(r.orders, id) is None ==> s == r
            &&& lookup(r.orders, id) matches Some(o) ==> (lookup(s.orders, id) matches Some(p) && (
            price matches Some(v) ==> p.price == v) && (price is None ==> p.price == o.price) && (
            qty matches Some(v) ==> p.original_qty == v) && (qty is None ==> p.original_qty
                == o.original_qty) && p.filled_qty == o.filled_qty && p.status == o.status && p.side
                == o.side && p.pair == o.pair)
        }),
{
    if let Some(o) = lookup(r.orders, id) {
        let p = TrackedOrderView {
            price: price.unwrap_or(o.price),
            original_qty: qty.unwrap_or(o.original_qty),
            ..o
        };
        stored_then_lookup(r.orders, id, p, id);
        stored_then_lookup(r.orders, id, p, other);
    }
}

/// A fill changes the position of its own pair only: a buy as a purchase, anything else as a sale.
pub proof fn fills_change_one_position(
    s: Entries<ProxyPosition>,
    pair: Seq<char>,
    side: Seq<char>,
    qty: Decimal,
    price: Decimal,
    other: Seq<char>,
)
    requires
        other != pair,
    ensures
        positions_after(s, pair, side, qty, price) matches Some(t) ==> {
            &&& lookup(t, other) == lookup(s, other)
            &&& side == "buy"@ ==> lookup(t, pair) == after_buy(position_in(s, pair), qty, price)
            &&& side != "buy"@ ==> lookup(t, pair) == after_sell(position_in(s, pair), qty, price)
            &&& lookup(t, pair) is Some
        },
{
    if let Some(t) = positions_after(s, pair, side, qty, price) {
        let q = if side == "buy"@ {
            after_buy(position_in(s, pair), qty, price)
        } else {
            after_sell(position_in(s, pair), qty, price)
        }.unwrap();
        stored_then_lookup(s, pair, q, pair);
        stored_then_lookup(s, pair, q, other);
    }
}

} // verus!
