//! What book updates leave in a book, price by price.
use crate::book::{
    better, lemma_rank, ordered, prices_valid, rank, updated_side, updated_side_all,
    updates_keep_order, updates_valid, BookView, Level,
};
use crate::decimal::{lemma_of, magnitude, pow10, sum, Decimal};
use crate::decimal_error::{apart, lemma_one, one, quotients_are_off_little, sums_are_near};
use crate::decimal_laws::{less_is_by_units, units};
use crate::types::LevelUpdate;
use vstd::prelude::*;

verus! {

/// Whether a quantity stands at a price, given in units, on a side of a book.
pub open spec fn stands(levels: Seq<Level>, price: int, qty: Decimal) -> bool {
    exists|i: int| 0 <= i < levels.len() && units((#[trigger] levels[i]).price) == price && levels[i].qty
        == qty
}

/// An update sets what stands at its price, or takes it away if the quantity is zero, and leaves all
/// other prices as they are.
pub proof fn updates_set_one_price(
    bids: bool,
    levels: Seq<Level>,
    price: Decimal,
    qty: Decimal,
    at: int,
    q: Decimal,
)
    requires
        ordered(bids, levels),
        prices_valid(levels),
        price.valid(),
    ensures
        ({
            let after = updated_side(bids, levels, price, qty);
            &&& at == units(price) ==> (stands(after, at, q) <==> q == qty && qty.m() != 0)
            &&& at != units(price) ==> (stands(after, at, q) <==> stands(levels, at, q))
        }),
{
    let after = updated_side(bids, levels, price, qty);
    let r = rank(bids, levels, price);
    lemma_rank(bids, levels, price);
    assert forall|j: int| 0 <= j < levels.len() && j != r implies units(
        (#[trigger] levels[j]).price,
    ) != units(price) by {
        less_is_by_units(levels[j].price, price);
        less_is_by_units(price, levels[j].price);
        if j < r {
            assert(better(bids, levels[j].price, price));
        }
        if j > r {
            assert(better(bids, levels[r].price, levels[j].price));
            assert(!better(bids, levels[r].price, price));
            less_is_by_units(levels[r].price, levels[j].price);
            less_is_by_units(levels[j].price, levels[r].price);
            less_is_by_units(levels[r].price, price);
            less_is_by_units(price, levels[r].price);
        }
    }
    let hit = r < levels.len() && units(levels[r].price) == units(price);
    if r < levels.len() {
        less_is_by_units(levels[r].price, price);
        less_is_by_units(price, levels[r].price);
    }
    if hit && qty.m() == 0 {
        assert forall|i: int| 0 <= i < after.len() implies #[trigger] after[i] == (if i < r {
            levels[i]
        } else {
            levels[i + 1]
        }) by {}
        if stands(levels, at, q) && at != units(price) {
            let i = choose|i: int|
                0 <= i < levels.len() && units((#[trigger] levels[i]).price) == at && levels[i].qty
                    == q;
            assert(after[if i < r { i } else { i - 1 }] == levels[i]);
        }
    } else if hit {
        if stands(levels, at, q) && at != units(price) {
            let i = choose|i: int|
                0 <= i < levels.len() && units((#[trigger] levels[i]).price) == at && levels[i].qty
                    == q;
            assert(after[i] == levels[i]);
        }
        assert(units(after[r].price) == units(price) && after[r].qty == qty);
    } else if qty.m() != 0 {
        assert forall|i: int| 0 <= i < after.len() && i != r implies #[trigger] after[i] == (if i
            < r {
            levels[i]
        } else {
            levels[i - 1]
        }) by {}
        assert(after[r].qty == qty && units(after[r].price) == units(price));
        if stands(levels, at, q) {
            let i = choose|i: int|
                0 <= i < levels.len() && units((#[trigger] levels[i]).price) == at && levels[i].qty
                    == q;
            assert(after[if i < r { i } else { i + 1 }] == levels[i]);
        }
    }
    if stands(after, at, q) {
        let i = choose|i: int|
            0 <= i < after.len() && units((#[trigger] after[i]).price) == at && after[i].qty == q;
        if hit && qty.m() == 0 {
            let k = if i < r { i } else { i + 1 };
            assert(levels[k] == after[i]);
        } else if !hit && qty.m() != 0 && i != r {
            let k = if i < r { i } else { i - 1 };
            assert(levels[k] == after[i]);
        } else if i != r || !hit {
            if !(qty.m() != 0 && !hit) {
                assert(levels[i] == after[i]);
            }
        }
    }
}

/// What a list of updates says about a price, given in units: the last one of it counts.
pub open spec fn last_word(ups: Seq<LevelUpdate>, price: int) -> Option<Decimal>
    decreases ups.len(),
{
    if ups.len() == 0 {
        None
    } else if units(ups.last().price) == price {
        Some(ups.last().qty)
    } else {
        last_word(ups.drop_last(), price)
    }
}

/// After a list of updates the last word about a price stands there, unless it is zero, and what no
/// update speaks of is as it was.
pub proof fn last_updates_stand(
    bids: bool,
    levels: Seq<Level>,
    ups: Seq<LevelUpdate>,
    price: int,
    q: Decimal,
)
    requires
        ordered(bids, levels),
        prices_valid(levels),
        updates_valid(ups),
    ensures
        stands(updated_side_all(bids, levels, ups), price, q) <==> (match last_word(ups, price) {
            Some(qty) => q == qty && qty.m() != 0,
            None => stands(levels, price, q),
        }),
    decreases ups.len(),
{
    if ups.len() > 0 {
        let front = ups.drop_last();
        assert forall|i: int| 0 <= i < front.len() implies (#[trigger] front[i]).price.valid() by {
            assert(front[i] == ups[i]);
        }
        assert(ups[ups.len() - 1].price.valid());
        last_updates_stand(bids, levels, front, price, q);
        updates_keep_order(bids, levels, front);
        updates_set_one_price(
            bids,
            updated_side_all(bids, levels, front),
            ups.last().price,
            ups.last().qty,
            price,
            q,
        );
    }
}

/// A snapshot takes the place of whatever was there: on each side stands what it says, and nothing
/// else. Updates change both sides each by its own list.
pub proof fn snapshots_say_it_all(
    book: BookView,
    bids: Seq<LevelUpdate>,
    asks: Seq<LevelUpdate>,
    price: int,
    q: Decimal,
)
    requires
        updates_valid(bids) && updates_valid(asks),
        ordered(true, book.bids) && ordered(false, book.asks),
        prices_valid(book.bids) && prices_valid(book.asks),
    ensures
        ({
            let fresh = BookView::snapshot(bids, asks);
            let b = book.updated(bids, asks);
            &&& stands(fresh.bids, price, q) <==> q.m() != 0 && last_word(bids, price) == Some(q)
            &&& stands(fresh.asks, price, q) <==> q.m() != 0 && last_word(asks, price) == Some(q)
            &&& stands(b.bids, price, q) <==> (match last_word(bids, price) {
                Some(qty) => q == qty && qty.m() != 0,
                None => stands(book.bids, price, q),
            })
            &&& stands(b.asks, price, q) <==> (match last_word(asks, price) {
                Some(qty) => q == qty && qty.m() != 0,
                None => stands(book.asks, price, q),
            })
        }),
{
    let none = Seq::<Level>::empty();
    last_updates_stand(true, none, bids, price, q);
    last_updates_stand(false, none, asks, price, q);
    last_updates_stand(true, book.bids, bids, price, q);
    last_updates_stand(false, book.asks, asks, price, q);
}

/// The best bid is the highest bid, the best ask the lowest ask; they are missing if and only if the
/// side is empty.
pub proof fn best_prices_lead(book: BookView, price: int, q: Decimal)
    requires
        ordered(true, book.bids) && ordered(false, book.asks),
        prices_valid(book.bids) && prices_valid(book.asks),
    ensures
        stands(book.bids, price, q) ==> (book.best_bid() matches Some(b) && units(b.price) >= price),
        stands(book.asks, price, q) ==> (book.best_ask() matches Some(a) && units(a.price) <= price),
        book.best_bid() matches Some(b) ==> stands(book.bids, units(b.price), b.qty),
        book.best_ask() matches Some(a) ==> stands(book.asks, units(a.price), a.qty),
{
    if stands(book.bids, price, q) {
        let i = choose|i: int|
            0 <= i < book.bids.len() && units((#[trigger] book.bids[i]).price) == price
                && book.bids[i].qty == q;
        if i > 0 {
            assert(better(true, book.bids[0].price, book.bids[i].price));
            less_is_by_units(book.bids[i].price, book.bids[0].price);
        }
    }
    if stands(book.asks, price, q) {
        let i = choose|i: int|
            0 <= i < book.asks.len() && units((#[trigger] book.asks[i]).price) == price
                && book.asks[i].qty == q;
        if i > 0 {
            assert(better(false, book.asks[0].price, book.asks[i].price));
            less_is_by_units(book.asks[0].price, book.asks[i].price);
        }
    }
}

/// The mid price lies halfway between best bid and best ask, up to rounding; there is none if a side
/// is empty.
pub proof fn mid_lies_halfway(book: BookView)
    requires
        book.best_bid() matches Some(b) ==> b.price.valid(),
        book.best_ask() matches Some(a) ==> a.price.valid(),
    ensures
        (book.best_bid() is None || book.best_ask() is None) <==> book.mid() == Some(
            None::<Decimal>,
        ),
        book.mid() matches Some(Some(m)) ==> {
            let ends = units(book.best_bid().unwrap().price) + units(
                book.best_ask().unwrap().price,
            );
            apart(2 * units(m), ends) * one() <= 3 * one() + 60 * magnitude(units(m))
        },
{
    lemma_one();
    if let (Some(b), Some(a)) = (book.best_bid(), book.best_ask()) {
        let two = Decimal::of(2, 0);
        lemma_of(2, 0);
        assert(units(two) == 2 * one()) by {
            assert(2 * pow10(28) == 2 * one());
        }
        if let Some(s) = sum(b.price, a.price) {
            sums_are_near(b.price, a.price);
            if book.mid() matches Some(Some(_)) {
                let m = book.mid().unwrap().unwrap();
                quotients_are_off_little(s, two);
                lemma_halfway(units(b.price) + units(a.price), units(s), units(m), one());
            }
        }
    }
}

proof fn lemma_halfway(ends: int, s: int, m: int, z: int)
    requires
        z >= 1_000_000,
        apart(s, ends) * z <= 11 * magnitude(s),
        apart(m * (2 * z), s * z) * z <= 2 * z * (z + 10 * magnitude(m)),
    ensures
        apart(2 * m, ends) * z <= 3 * z + 60 * magnitude(m),
{
    let mm = magnitude(m);
    let ms = magnitude(s);
    let e = apart(s, ends);
    let f = apart(2 * m, s);
    assert(apart(m * (2 * z), s * z) == f * z) by {
        assert(m * (2 * z) - s * z == (2 * m - s) * z) by (nonlinear_arith);
        if 2 * m >= s {
            assert((2 * m - s) * z >= 0) by (nonlinear_arith)
                requires
                    2 * m >= s,
                    z > 0,
            ;
        } else {
            assert((2 * m - s) * z < 0 && (s - 2 * m) * z == -((2 * m - s) * z)) by (nonlinear_arith)
                requires
                    2 * m < s,
                    z > 0,
            ;
        }
    }
    assert(f * z <= 2 * z + 20 * mm) by (nonlinear_arith)
        requires
            (f * z) * z <= 2 * z * (z + 10 * mm),
            z > 0,
    ;
    assert(ms <= 2 * mm + f);
    assert(f <= 2 + mm) by (nonlinear_arith)
        requires
            f * z <= 2 * z + 20 * mm,
            z >= 1_000_000,
            mm >= 0,
    ;
    let d = apart(2 * m, ends);
    assert(d * z <= f * z + e * z) by (nonlinear_arith)
        requires
            d <= f + e,
            z > 0,
    ;
}

} // verus!
