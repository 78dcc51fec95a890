//! Decimals and sizes that go with a price.
//!
//! Prices are keys: those of the bounds are the keys of IEEE double precision numbers.
use vstd::prelude::*;

verus! {

/// The key of 1.
pub const ONE_KEY: i64 = 0x3ff0_0000_0000_0000;

/// The key of 0.01.
pub const CENT_KEY: i64 = 0x3f84_7ae1_47ae_147b;

/// The key of 0.001.
pub const MILL_KEY: i64 = 0x3f50_624d_d2f1_a9fc;

/// The key of 0.5.
pub const HALF_KEY: i64 = 0x3fe0_0000_0000_0000;

/// One of four numbers: for prices from 1 on, from 0.01 on, from 0.001 on, and below.
pub open spec fn by_size(price: i64, ones: u32, cents: u32, mills: u32, less: u32) -> u32 {
    if price >= ONE_KEY {
        ones
    } else if price >= CENT_KEY {
        cents
    } else if price >= MILL_KEY {
        mills
    } else {
        less
    }
}

fn pick_by_size(price: i64, ones: u32, cents: u32, mills: u32, less: u32) -> (r: u32)
    ensures
        r == by_size(price, ones, cents, mills, less),
{
    if price >= ONE_KEY {
        ones
    } else if price >= CENT_KEY {
        cents
    } else if price >= MILL_KEY {
        mills
    } else {
        less
    }
}

/// The decimals of prices of the size of `price`.
pub fn price_decimals_for(price: i64) -> (r: u32)
    ensures
        r == by_size(price, 4, 5, 6, 7),
{
    pick_by_size(price, 4, 5, 6, 7)
}

/// The decimals of quantities at a price.
pub fn qty_decimals_for(price: i64) -> (r: u32)
    ensures
        r == by_size(price, 4, 5, 2, 0),
{
    pick_by_size(price, 4, 5, 2, 0)
}

/// The least quantity of an order at a price.
pub fn order_min_for(price: i64) -> (r: u32)
    ensures
        r == by_size(price, 1, 10, 100, 1000),
{
    pick_by_size(price, 1, 10, 100, 1000)
}

/// The key of the least cost of an order, which is the same at every price.
pub fn cost_min_for(_price: i64) -> (r: i64)
    ensures
        r == HALF_KEY,
{
    HALF_KEY
}

/// The quantity around which the levels of a book are filled at a price.
pub fn base_qty_for_price(price: i64) -> (r: u32)
    ensures
        r == by_size(price, 50, 5000, 50000, 500000),
{
    pick_by_size(price, 50, 5000, 50000, 500000)
}

/// Prices of smaller size have at least as many decimals, and ask for quantities at least as
/// large.
pub proof fn smaller_prices_have_larger_sizes(p: i64, q: i64)
    requires
        p <= q,
    ensures
        by_size(p, 4, 5, 6, 7) >= by_size(q, 4, 5, 6, 7),
        by_size(p, 1, 10, 100, 1000) >= by_size(q, 1, 10, 100, 1000),
        by_size(p, 50, 5000, 50000, 500000) >= by_size(q, 50, 5000, 50000, 500000),
{
}

} // verus!
