//! Holdings in one pair and what buying and selling does to them.
use crate::collections::Dup;
use crate::decimal::{
    difference, fits, lemma_made_of_parts, lemma_of, lifted, magnitude, mantissa_at, mantissa_ratio,
    over, plus, pow10, product, same, sum, times, Decimal, MAX_SCALE,
};
use vstd::prelude::*;

verus! {

/// A holding: how much, and what a unit of it cost on average.
#[derive(Clone, Copy, Debug)]
pub struct Position {
    pub qty: Decimal,
    pub avg_cost: Decimal,
}

/// Whether `d` is above zero.
pub open spec fn positive(d: Decimal) -> bool {
    d.m() > 0
}

/// The empty holding.
pub open spec fn no_position() -> Position {
    Position { qty: Decimal::of(0, 0), avg_cost: Decimal::of(0, 0) }
}

/// The holding after `qty` is bought at `price`: the cost is averaged over the new quantity.
/// `None` on overflow.
pub open spec fn bought(p: Position, qty: Decimal, price: Decimal) -> Option<Position> {
    match sum(p.qty, qty) {
        Some(new_qty) => if positive(new_qty) {
            let cost = over(
                plus(product(p.qty, p.avg_cost), product(qty, price)),
                Some(new_qty),
            );
            match cost {
                Some(avg_cost) => Some(Position { qty: new_qty, avg_cost }),
                None => None,
            }
        } else {
            Some(Position { qty: new_qty, avg_cost: p.avg_cost })
        },
        None => None,
    }
}

/// The profit of selling `qty` at `price` out of a holding, before fees. `None` on overflow.
pub open spec fn sale_pnl(p: Position, qty: Decimal, price: Decimal) -> Option<Decimal> {
    times(Some(qty), difference(price, p.avg_cost))
}

/// The holding after `qty` is sold: one that would not stay positive becomes empty.
/// `None` on overflow.
pub open spec fn sold(p: Position, qty: Decimal) -> Option<Position> {
    match difference(p.qty, qty) {
        Some(rest) => if positive(rest) {
            Some(Position { qty: rest, avg_cost: p.avg_cost })
        } else {
            Some(no_position())
        },
        None => None,
    }
}

impl Position {
    /// The empty holding.
    pub fn new() -> (r: Position)
        ensures
            r == no_position(),
    {
        Position { qty: Decimal::zero(), avg_cost: Decimal::zero() }
    }

    /// Applies a buy. `None`, with nothing changed, if a result overflows.
    pub fn apply_buy(&mut self, qty: Decimal, price: Decimal) -> (r: Option<()>)
        ensures
            match bought(*old(self), qty, price) {
                Some(p) => r is Some && *final(self) == p,
                None => r is None && *final(self) == *old(self),
            },
    {
        let new_qty = self.qty.checked_add(qty)?;
        if new_qty.mantissa() > 0 {
            let cost = over(
                plus(self.qty.checked_mul(self.avg_cost), qty.checked_mul(price)),
                Some(new_qty),
            );
            self.avg_cost = cost?;
        }
        self.qty = new_qty;
        Some(())
    }

    /// Applies a sell and returns the realized profit, excluding fees. `None`, with nothing
    /// changed, if a result overflows.
    pub fn apply_sell(&mut self, qty: Decimal, price: Decimal) -> (r: Option<Decimal>)
        ensures
            match (sale_pnl(*old(self), qty, price), sold(*old(self), qty)) {
                (Some(pnl), Some(p)) => r == Some(pnl) && *final(self) == p,
                _ => r is None && *final(self) == *old(self),
            },
    {
        let pnl = times(Some(qty), price.checked_sub(self.avg_cost))?;
        let rest = self.qty.checked_sub(qty)?;
        if rest.mantissa() > 0 {
            self.qty = rest;
        } else {
            self.qty = Decimal::zero();
            self.avg_cost = Decimal::zero();
        }
        Some(pnl)
    }

    /// What the holding is worth at a price. `None` on overflow.
    pub fn value_at(&self, price: Decimal) -> (r: Option<Decimal>)
        ensures
            r == product(self.qty, price),
    {
        self.qty.checked_mul(price)
    }

    /// Whether nothing is held.
    pub fn is_empty(&self) -> (r: bool)
        ensures
            r == !positive(self.qty),
    {
        self.qty.mantissa() <= 0
    }
}

impl View for Position {
    type V = Position;

    open spec fn view(&self) -> Position {
        *self
    }
}

impl Dup for Position {
    fn dup(&self) -> (r: Position) {
        *self
    }
}

impl Default for Position {
    fn default() -> (r: Position)
        ensures
            r == no_position(),
    {
        Position::new()
    }
}

/// A holding never turns negative by selling, and an emptied holding has no cost.
pub proof fn selling_leaves_no_negative_holding(p: Position, qty: Decimal)
    requires
        sold(p, qty) is Some,
    ensures
        sold(p, qty).unwrap().qty.m() >= 0,
        !positive(sold(p, qty).unwrap().qty) ==> sold(p, qty).unwrap().avg_cost.m() == 0,
{
    lemma_of(0, 0);
}

/// Buying and then selling the same quantity out of nothing leaves nothing.
pub proof fn buy_then_sell_all_is_empty(qty: Decimal, price: Decimal)
    requires
        qty.valid(),
        price.valid(),
        positive(qty),
        bought(no_position(), qty, price) is Some,
    ensures
        ({
            let held = bought(no_position(), qty, price).unwrap();
            held.qty == qty && sold(held, qty) == Some(no_position())
        }),
{
    lemma_of(0, 0);
    let held = bought(no_position(), qty, price).unwrap();
    assert(held.qty == qty);
    assert(pow10((qty.s() - qty.s()) as nat) == 1);
    assert(mantissa_at(qty, qty.s()) == qty.m());
    assert(difference(qty, qty) == Some(Decimal::of(0, qty.s())));
    lemma_of(0, qty.s());
}

/// Whether quantity times price is computed without rounding.
pub open spec fn exact_value(qty: Decimal, price: Decimal) -> bool {
    price.m() == 0 || (fits(qty.m() * price.m()) && qty.s() + price.s() <= MAX_SCALE)
}

/// What is bought first costs its price on average.
pub proof fn first_purchase_costs_its_price(qty: Decimal, price: Decimal)
    requires
        qty.valid(),
        price.valid(),
        positive(qty),
        exact_value(qty, price),
    ensures
        bought(no_position(), qty, price) matches Some(p) && p.qty == qty && same(
            p.avg_cost,
            price,
        ) && p.avg_cost.valid() && (price.m() != 0 ==> p.avg_cost == price),
{
    lemma_of(0, 0);
    if price.m() != 0 {
        let m = qty.m() * price.m();
        let value = Decimal::of(m, qty.s() + price.s());
        lemma_of(m, qty.s() + price.s());
        let n = magnitude(m);
        let d = qty.m();
        let p = magnitude(price.m());
        assert(n == p * d && m != 0 && (m < 0) == (price.m() < 0)) by (nonlinear_arith)
            requires
                d > 0,
                price.m() != 0,
                m == d * price.m(),
                n == (if m < 0 { -m } else { m }),
                p == (if price.m() < 0 { -price.m() } else { price.m() }),
        ;
        assert(n % d == 0 && n / d == p) by (nonlinear_arith)
            requires
                d > 0,
                n == p * d,
        ;
        assert(mantissa_ratio(value, qty) == price.m());
        lemma_made_of_parts(price);
    } else {
        assert(lifted(Decimal::of(0, 0), price) == 0);
        assert(lifted(price, Decimal::of(0, 0)) == 0);
    }
}

} // verus!
