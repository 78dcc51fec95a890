//! Order books.
use crate::collections::Dup;
use crate::decimal::{less, over, plus, same, Decimal};
use crate::decimal_laws::order_is_total;
use crate::types::LevelUpdate;
use vstd::prelude::*;

verus! {

/// One level of a book.
#[derive(Clone, Copy, Debug)]
pub struct Level {
    pub price: Decimal,
    pub qty: Decimal,
}

/// Whether price `a` stands before price `b` on a side of the book: bids fall, asks rise.
pub open spec fn better(bids: bool, a: Decimal, b: Decimal) -> bool {
    if bids {
        less(b, a)
    } else {
        less(a, b)
    }
}

/// How many of the leading levels are strictly better than `price`.
pub open spec fn rank(bids: bool, levels: Seq<Level>, price: Decimal) -> int
    decreases levels.len(),
{
    if levels.len() == 0 {
        0
    } else if better(bids, levels[0].price, price) {
        1 + rank(bids, levels.drop_first(), price)
    } else {
        0
    }
}

/// A side after one level update: quantity zero removes the level at that price, any other
/// quantity replaces the one that stands there or adds a level in its place in the order.
pub open spec fn updated_side(bids: bool, levels: Seq<Level>, price: Decimal, qty: Decimal) -> Seq<
    Level,
> {
    let at = rank(bids, levels, price);
    if at < levels.len() && same(levels[at].price, price) {
        if qty.m() == 0 {
            levels.remove(at)
        } else {
            levels.update(at, Level { price: levels[at].price, qty })
        }
    } else if qty.m() == 0 {
        levels
    } else {
        levels.insert(at, Level { price, qty })
    }
}

/// A side after a list of level updates, applied in order.
pub open spec fn updated_side_all(bids: bool, levels: Seq<Level>, ups: Seq<LevelUpdate>) -> Seq<
    Level,
>
    decreases ups.len(),
{
    if ups.len() == 0 {
        levels
    } else {
        let before = updated_side_all(bids, levels, ups.drop_last());
        updated_side(bids, before, ups.last().price, ups.last().qty)
    }
}

/// Whether a side is in strict order, best level first.
pub open spec fn ordered(bids: bool, levels: Seq<Level>) -> bool {
    forall|i: int, j: int|
        0 <= i < j < levels.len() ==> better(bids, levels[i].price, levels[j].price)
}

/// The two sides of a book.
#[verifier::ext_equal]
pub struct BookView {
    pub bids: Seq<Level>,
    pub asks: Seq<Level>,
}

impl BookView {
    /// The book without levels.
    pub open spec fn empty() -> BookView {
        BookView { bids: Seq::empty(), asks: Seq::empty() }
    }

    /// The book a snapshot describes.
    pub open spec fn snapshot(bids: Seq<LevelUpdate>, asks: Seq<LevelUpdate>) -> BookView {
        BookView::empty().updated(bids, asks)
    }

    /// The book after updates to both sides.
    pub open spec fn updated(self, bids: Seq<LevelUpdate>, asks: Seq<LevelUpdate>) -> BookView {
        BookView {
            bids: updated_side_all(true, self.bids, bids),
            asks: updated_side_all(false, self.asks, asks),
        }
    }

    /// The best bid, if there is one.
    pub open spec fn best_bid(self) -> Option<Level> {
        if self.bids.len() > 0 {
            Some(self.bids[0])
        } else {
            None
        }
    }

    /// The best ask, if there is one.
    pub open spec fn best_ask(self) -> Option<Level> {
        if self.asks.len() > 0 {
            Some(self.asks[0])
        } else {
            None
        }
    }

    /// The mean of best bid and best ask; the outer `None` stands for an overflow, the inner for
    /// a side without levels.
    pub open spec fn mid(self) -> Option<Option<Decimal>> {
        match (self.best_bid(), self.best_ask()) {
            (Some(b), Some(a)) => {
                match over(plus(Some(b.price), Some(a.price)), Some(Decimal::of(2, 0))) {
                    Some(m) => Some(Some(m)),
                    None => None,
                }
            },
            _ => Some(None),
        }
    }
}

/// An order book: bids with the highest price first, asks with the lowest first.
#[derive(Debug)]
pub struct OrderBook {
    bids: Vec<Level>,
    asks: Vec<Level>,
}

impl View for OrderBook {
    type V = BookView;

    closed spec fn view(&self) -> BookView {
        BookView { bids: self.bids@, asks: self.asks@ }
    }
}

fn find_rank(bids: bool, levels: &Vec<Level>, price: Decimal) -> (r: usize)
    ensures
        r == rank(bids, levels@, price),
        r <= levels@.len(),
{
    let mut i: usize = 0;
    proof {
        assert(levels@.skip(0) =~= levels@);
    }
    while i < levels.len()
        invariant
            i <= levels.len(),
            rank(bids, levels@, price) == i + rank(bids, levels@.skip(i as int), price),
        decreases levels.len() - i,
    {
        let rest = levels[i].price;
        proof {
            assert(levels@.skip(i as int)[0] == levels@[i as int]);
            assert(levels@.skip(i as int).drop_first() =~= levels@.skip(i + 1));
        }
        let ahead = if bids {
            price < rest
        } else {
            rest < price
        };
        if !ahead {
            return i;
        }
        i = i + 1;
    }
    i
}

fn update_side(bids: bool, levels: &mut Vec<Level>, price: Decimal, qty: Decimal)
    ensures
        final(levels)@ == updated_side(bids, old(levels)@, price, qty),
{
    let at: usize = find_rank(bids, levels, price);
    if at < levels.len() && levels[at].price == price {
        if qty.is_zero() {
            levels.remove(at);
        } else {
            let kept = levels[at].price;
            levels.set(at, Level { price: kept, qty });
        }
    } else if !qty.is_zero() {
        levels.insert(at, Level { price, qty });
    }
}

fn update_side_all(bids: bool, levels: &mut Vec<Level>, ups: &Vec<LevelUpdate>)
    ensures
        final(levels)@ == updated_side_all(bids, old(levels)@, ups@),
{
    let mut i: usize = 0;
    assert(ups@.take(0).len() == 0);
    while i < ups.len()
        invariant
            i <= ups.len(),
            levels@ == updated_side_all(bids, old(levels)@, ups@.take(i as int)),
        decreases ups.len() - i,
    {
        proof {
            assert(ups@.take(i + 1).drop_last() =~= ups@.take(i as int));
            assert(ups@.take(i + 1).last() == ups@[i as int]);
        }
        let u = ups[i];
        update_side(bids, levels, u.price, u.qty);
        i = i + 1;
    }
    assert(ups@.take(i as int) =~= ups@);
}

impl OrderBook {
    /// A book without levels.
    pub fn new() -> (r: OrderBook)
        ensures
            r@ == BookView::empty(),
    {
        let r = OrderBook { bids: Vec::new(), asks: Vec::new() };
        assert(r@ =~= BookView::empty());
        r
    }

    /// Replaces the whole book by the levels of a snapshot.
    pub fn apply_snapshot(&mut self, bids: &Vec<LevelUpdate>, asks: &Vec<LevelUpdate>)
        ensures
            final(self)@ == BookView::snapshot(bids@, asks@),
    {
        self.bids = Vec::new();
        self.asks = Vec::new();
        update_side_all(true, &mut self.bids, bids);
        update_side_all(false, &mut self.asks, asks);
    }

    /// Applies level updates to both sides.
    pub fn apply_update(&mut self, bids: &Vec<LevelUpdate>, asks: &Vec<LevelUpdate>)
        ensures
            final(self)@ == old(self)@.updated(bids@, asks@),
    {
        update_side_all(true, &mut self.bids, bids);
        update_side_all(false, &mut self.asks, asks);
    }

    /// Sets the quantity at a bid price; zero removes the level.
    pub fn update_bid(&mut self, price: Decimal, qty: Decimal)
        ensures
            final(self)@ == (BookView {
                bids: updated_side(true, old(self)@.bids, price, qty),
                asks: old(self)@.asks,
            }),
    {
        update_side(true, &mut self.bids, price, qty);
    }

    /// Sets the quantity at an ask price; zero removes the level.
    pub fn update_ask(&mut self, price: Decimal, qty: Decimal)
        ensures
            final(self)@ == (BookView {
                bids: old(self)@.bids,
                asks: updated_side(false, old(self)@.asks, price, qty),
            }),
    {
        update_side(false, &mut self.asks, price, qty);
    }

    /// The highest bid and its quantity.
    pub fn best_bid(&self) -> (r: Option<Level>)
        ensures
            r == self@.best_bid(),
    {
        if self.bids.len() > 0 {
            Some(self.bids[0])
        } else {
            None
        }
    }

    /// The lowest ask and its quantity.
    pub fn best_ask(&self) -> (r: Option<Level>)
        ensures
            r == self@.best_ask(),
    {
        if self.asks.len() > 0 {
            Some(self.asks[0])
        } else {
            None
        }
    }

    /// The mean of best bid and best ask, if both sides have levels; the outer `None` stands for
    /// an overflow.
    pub fn mid_price(&self) -> (r: Option<Option<Decimal>>)
        ensures
            r == self@.mid(),
    {
        match (self.best_bid(), self.best_ask()) {
            (Some(b), Some(a)) => {
                match over(plus(Some(b.price), Some(a.price)), Some(Decimal::new(2, 0))) {
                    Some(m) => Some(Some(m)),
                    None => None,
                }
            },
            _ => Some(None),
        }
    }

    /// Number of bid levels.
    pub fn bid_depth(&self) -> (r: usize)
        ensures
            r == self@.bids.len(),
    {
        self.bids.len()
    }

    /// Number of ask levels.
    pub fn ask_depth(&self) -> (r: usize)
        ensures
            r == self@.asks.len(),
    {
        self.asks.len()
    }

    /// Whether neither side has a level.
    pub fn is_empty(&self) -> (r: bool)
        ensures
            r == (self@.bids.len() == 0 && self@.asks.len() == 0),
    {
        self.bids.len() == 0 && self.asks.len() == 0
    }
}

fn copy_levels(levels: &Vec<Level>) -> (r: Vec<Level>)
    ensures
        r@ == levels@,
{
    let mut r: Vec<Level> = Vec::new();
    let mut i: usize = 0;
    while i < levels.len()
        invariant
            i <= levels.len(),
            r@ == levels@.take(i as int),
        decreases levels.len() - i,
    {
        r.push(levels[i]);
        i = i + 1;
        assert(r@ =~= levels@.take(i as int));
    }
    assert(r@ =~= levels@);
    r
}

impl Dup for OrderBook {
    fn dup(&self) -> (r: OrderBook) {
        OrderBook { bids: copy_levels(&self.bids), asks: copy_levels(&self.asks) }
    }
}

/// Whether all prices of a side are decimals in range.
pub open spec fn prices_valid(levels: Seq<Level>) -> bool {
    forall|i: int| 0 <= i < levels.len() ==> (#[trigger] levels[i]).price.valid()
}

proof fn lemma_better(bids: bool, a: Decimal, b: Decimal, c: Decimal)
    requires
        a.valid(),
        b.valid(),
        c.valid(),
    ensures
        better(bids, a, b) && better(bids, b, c) ==> better(bids, a, c),
        better(bids, a, b) && same(b, c) ==> better(bids, a, c),
        same(a, b) && better(bids, b, c) ==> better(bids, a, c),
        !better(bids, a, b) && !same(a, b) ==> better(bids, b, a),
        same(a, b) <==> same(b, a),
{
    order_is_total(a, b, c);
    order_is_total(b, a, c);
    order_is_total(c, b, a);
}

/// What the rank of a price is: all levels before it are better, the one at it is not.
pub proof fn lemma_rank(bids: bool, levels: Seq<Level>, price: Decimal)
    ensures
        0 <= rank(bids, levels, price) <= levels.len(),
        forall|j: int|
            0 <= j < rank(bids, levels, price) ==> better(
                bids,
                (#[trigger] levels[j]).price,
                price,
            ),
        rank(bids, levels, price) < levels.len() ==> !better(
            bids,
            levels[rank(bids, levels, price)].price,
            price,
        ),
    decreases levels.len(),
{
    if levels.len() > 0 && better(bids, levels[0].price, price) {
        let t = levels.drop_first();
        lemma_rank(bids, t, price);
        assert forall|j: int| 0 <= j < rank(bids, levels, price) implies better(
            bids,
            (#[trigger] levels[j]).price,
            price,
        ) by {
            if j > 0 {
                assert(t[j - 1] == levels[j]);
            }
        }
        if rank(bids, levels, price) < levels.len() {
            assert(t[rank(bids, t, price)] == levels[rank(bids, levels, price)]);
        }
    }
}

/// A level update keeps a side in strict order.
pub proof fn update_keeps_order(bids: bool, levels: Seq<Level>, price: Decimal, qty: Decimal)
    requires
        ordered(bids, levels),
        prices_valid(levels),
        price.valid(),
    ensures
        ordered(bids, updated_side(bids, levels, price, qty)),
        prices_valid(updated_side(bids, levels, price, qty)),
{
    let at = rank(bids, levels, price);
    let out = updated_side(bids, levels, price, qty);
    lemma_rank(bids, levels, price);
    if at < levels.len() && same(levels[at].price, price) {
        assert forall|i: int| 0 <= i < out.len() implies (#[trigger] out[i]).price.valid() by {
            if qty.m() == 0 {
                assert(out[i] == (if i < at { levels[i] } else { levels[i + 1] }));
            } else {
                assert(out[i].price == levels[i].price);
            }
        }
        assert forall|i: int, j: int| 0 <= i < j < out.len() implies better(
            bids,
            out[i].price,
            out[j].price,
        ) by {
            if qty.m() == 0 {
                let a = if i < at { i } else { i + 1 };
                let b = if j < at { j } else { j + 1 };
                assert(out[i] == levels[a] && out[j] == levels[b]);
                assert(better(bids, levels[a].price, levels[b].price));
            } else {
                assert(better(bids, levels[i].price, levels[j].price));
            }
        }
    } else if qty.m() != 0 {
        assert forall|i: int| 0 <= i < out.len() implies (#[trigger] out[i]).price.valid() by {
            if i < at {
                assert(out[i] == levels[i]);
            } else if i > at {
                assert(out[i] == levels[i - 1]);
            }
        }
        assert forall|i: int, j: int| 0 <= i < j < out.len() implies better(
            bids,
            out[i].price,
            out[j].price,
        ) by {
            if j < at {
                assert(better(bids, levels[i].price, levels[j].price));
            } else if i > at {
                assert(better(bids, levels[i - 1].price, levels[j - 1].price));
            } else if j == at {
                assert(better(bids, levels[i].price, price));
            } else {
                let x = levels[at].price;
                lemma_better(bids, x, price, price);
                assert(better(bids, price, x));
                let y = levels[j - 1].price;
                if j - 1 > at {
                    assert(better(bids, x, y));
                    lemma_better(bids, price, x, y);
                }
                if i < at {
                    assert(out[i] == levels[i]);
                    lemma_better(bids, levels[i].price, price, y);
                }
            }
        }
    }
}

/// Whether all prices of a list of updates are decimals in range.
pub open spec fn updates_valid(ups: Seq<LevelUpdate>) -> bool {
    forall|i: int| 0 <= i < ups.len() ==> (#[trigger] ups[i]).price.valid()
}

/// Updates keep a side in strict order, best level first; in particular every snapshot gives a
/// side in order.
pub proof fn updates_keep_order(bids: bool, levels: Seq<Level>, ups: Seq<LevelUpdate>)
    requires
        ordered(bids, levels),
        prices_valid(levels),
        updates_valid(ups),
    ensures
        ordered(bids, updated_side_all(bids, levels, ups)),
        prices_valid(updated_side_all(bids, levels, ups)),
    decreases ups.len(),
{
    if ups.len() > 0 {
        assert forall|i: int| 0 <= i < ups.drop_last().len() implies (
        #[trigger] ups.drop_last()[i]).price.valid() by {
            assert(ups.drop_last()[i] == ups[i]);
        }
        updates_keep_order(bids, levels, ups.drop_last());
        assert(ups[ups.len() - 1].price.valid());
        update_keeps_order(
            bids,
            updated_side_all(bids, levels, ups.drop_last()),
            ups.last().price,
            ups.last().qty,
        );
    }
}

/// The best bid of a snapshot is not below any of its bids, and the best ask not above any ask.
pub proof fn best_levels_are_best(bids: Seq<LevelUpdate>, asks: Seq<LevelUpdate>, i: int)
    requires
        updates_valid(bids),
        updates_valid(asks),
    ensures
        ({
            let b = BookView::snapshot(bids, asks);
            &&& 0 <= i < b.bids.len() ==> !less(b.bids[0].price, b.bids[i].price)
            &&& 0 <= i < b.asks.len() ==> !less(b.asks[i].price, b.asks[0].price)
        }),
{
    let none = Seq::<Level>::empty();
    updates_keep_order(true, none, bids);
    updates_keep_order(false, none, asks);
    let b = BookView::snapshot(bids, asks);
    if 0 <= i < b.bids.len() {
        order_is_total(b.bids[0].price, b.bids[i].price, b.bids[i].price);
        order_is_total(b.bids[i].price, b.bids[0].price, b.bids[0].price);
        if i > 0 {
            assert(better(true, b.bids[0].price, b.bids[i].price));
        }
    }
    if 0 <= i < b.asks.len() {
        order_is_total(b.asks[0].price, b.asks[i].price, b.asks[i].price);
        order_is_total(b.asks[i].price, b.asks[0].price, b.asks[0].price);
        if i > 0 {
            assert(better(false, b.asks[0].price, b.asks[i].price));
        }
    }
}

} // verus!
