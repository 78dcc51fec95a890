//! Inventory skew.
use crate::decimal::{
    difference, larger, lemma_of, less, minus, over, product, quotient, smaller, times, Decimal,
};
use crate::decimal_laws::{order_is_total, results_are_valid};
use crate::position::no_position;
use crate::state::{position_of, BotState};
use vstd::prelude::*;

verus! {

/// The inventory skew of a pair: `1 - 2 * exposure / max`, held between -1 and 1; 1 if there is
/// no maximum. `None` on overflow.
pub open spec fn skew_of(exposure: Option<Decimal>, max_inventory: Decimal) -> Option<Decimal> {
    if max_inventory.m() == 0 {
        Some(Decimal::of(1, 0))
    } else {
        match minus(
            Some(Decimal::of(1, 0)),
            over(times(Some(Decimal::of(2, 0)), exposure), Some(max_inventory)),
        ) {
            Some(s) => Some(smaller(larger(s, Decimal::of(-1, 0)), Decimal::of(1, 0))),
            None => None,
        }
    }
}

/// Computes the inventory skew of a pair, in [-1, 1]: 1 with no position (want to buy), -1 when
/// fully loaded (want to sell). A positive skew tightens the bid and widens the ask. `None` on
/// overflow.
pub fn inventory_skew(
    state: &BotState,
    pair: &str,
    current_price: Decimal,
    max_inventory_usd: Decimal,
) -> (r: Option<Decimal>)
    ensures
        r == skew_of(
            product(position_of(state@.positions, pair@).qty, current_price),
            max_inventory_usd,
        ),
        r matches Some(skew) ==> !less(skew, Decimal::of(-1, 0)) && !less(Decimal::of(1, 0), skew),
{
    proof {
        lemma_of(1, 0);
        lemma_of(-1, 0);
    }
    if max_inventory_usd.is_zero() {
        return Some(Decimal::one());
    }
    let exposure = state.pair_exposure_usd(pair, current_price);
    let skew = minus(
        Some(Decimal::one()),
        over(times(Some(Decimal::new(2, 0)), exposure), Some(max_inventory_usd)),
    )?;
    proof {
        use_type_invariant(&skew);
        let low = Decimal::of(-1, 0);
        let high = Decimal::of(1, 0);
        order_is_total(skew, low, high);
        order_is_total(low, high, skew);
    }
    Some(skew.max(Decimal::new(-1, 0)).min(Decimal::one()))
}

/// A skew is a decimal between -1 and 1.
pub proof fn skews_are_valid(exposure: Option<Decimal>, max_inventory: Decimal)
    requires
        exposure matches Some(x) ==> x.valid(),
        max_inventory.valid(),
    ensures
        skew_of(exposure, max_inventory) matches Some(skew) ==> {
            &&& skew.valid()
            &&& !less(skew, Decimal::of(-1, 0))
            &&& !less(Decimal::of(1, 0), skew)
        },
{
    let low = Decimal::of(-1, 0);
    let high = Decimal::of(1, 0);
    lemma_of(1, 0);
    lemma_of(-1, 0);
    lemma_of(2, 0);
    order_is_total(high, high, high);
    order_is_total(low, high, high);
    if let Some(x) = exposure {
        results_are_valid(Decimal::of(2, 0), x);
        if let Some(twice) = product(Decimal::of(2, 0), x) {
            results_are_valid(twice, max_inventory);
            if let Some(part) = quotient(twice, max_inventory) {
                results_are_valid(high, part);
                if let Some(s) = difference(high, part) {
                    order_is_total(s, low, high);
                    order_is_total(low, high, s);
                }
            }
        }
    }
}

/// Without a position the skew is one: all for buying.
pub proof fn no_position_wants_to_buy(price: Decimal, max_inventory: Decimal)
    ensures
        skew_of(product(no_position().qty, price), max_inventory) == Some(Decimal::of(1, 0)),
{
    lemma_of(0, 0);
    lemma_of(1, 0);
    lemma_of(-1, 0);
    lemma_of(2, 0);
}

} // verus!
