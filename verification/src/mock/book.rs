//! Books of the simulated exchange.
use vstd::prelude::*;

verus! {

/// A price level: the keys of price and quantity.
pub type KeyLevel = (i64, i64);

/// Where a price belongs in ascending levels: the number of levels below it.
pub open spec fn place_of(levels: Seq<KeyLevel>, price: i64) -> int
    decreases levels.len(),
{
    if levels.len() > 0 && levels[0].0 < price {
        1 + place_of(levels.drop_first(), price)
    } else {
        0
    }
}

/// Ascending levels after a quantity is stored for a price.
pub open spec fn with_level(levels: Seq<KeyLevel>, price: i64, qty: i64) -> Seq<KeyLevel> {
    let p = place_of(levels, price);
    if p < levels.len() && levels[p].0 == price {
        levels.update(p, (price, qty))
    } else {
        levels.insert(p, (price, qty))
    }
}

/// Ascending levels after some more are stored, one after the other.
pub open spec fn with_levels(levels: Seq<KeyLevel>, more: Seq<KeyLevel>) -> Seq<KeyLevel>
    decreases more.len(),
{
    if more.len() == 0 {
        levels
    } else {
        let l = more.last();
        with_level(with_levels(levels, more.drop_last()), l.0, l.1)
    }
}

/// The levels with a positive price.
pub open spec fn positive_levels(levels: Seq<KeyLevel>) -> Seq<KeyLevel> {
    levels.filter(|l: KeyLevel| l.0 > 0)
}

/// Whether prices ascend.
pub open spec fn ascending(levels: Seq<KeyLevel>) -> bool {
    forall|i: int, j: int| 0 <= i < j < levels.len() ==> levels[i].0 < levels[j].0
}

/// The place of a price: all levels before it are below the price, all others are not.
pub proof fn lemma_place(levels: Seq<KeyLevel>, price: i64)
    requires
        ascending(levels),
    ensures
        0 <= place_of(levels, price) <= levels.len(),
        forall|j: int| 0 <= j < place_of(levels, price) ==> #[trigger] levels[j].0 < price,
        forall|j: int|
            place_of(levels, price) <= j < levels.len() ==> #[trigger] levels[j].0 >= price,
    decreases levels.len(),
{
    if levels.len() > 0 && levels[0].0 < price {
        let t = levels.drop_first();
        assert(ascending(t));
        lemma_place(t, price);
        assert forall|j: int| 0 <= j < place_of(levels, price) implies #[trigger] levels[j].0
            < price by {
            if j > 0 {
                assert(t[j - 1].0 < price);
            }
        }
        assert forall|j: int|
            place_of(levels, price) <= j < levels.len() implies #[trigger] levels[j].0 >= price by {
            assert(t[j - 1].0 >= price);
        }
    }
}

/// Storing a level keeps the prices ascending.
pub proof fn storing_keeps_prices_ascending(levels: Seq<KeyLevel>, price: i64, qty: i64)
    requires
        ascending(levels),
    ensures
        ascending(with_level(levels, price, qty)),
{
    lemma_place(levels, price);
    let p = place_of(levels, price);
    let t = with_level(levels, price, qty);
    assert forall|i: int, j: int| 0 <= i < j < t.len() implies t[i].0 < t[j].0 by {
        if t.len() == levels.len() {
            assert(levels[i].0 < levels[j].0);
        } else {
            let a = if i < p { i } else { i - 1 };
            let b = if j < p { j } else { j - 1 };
            if i != p && j != p {
                assert(levels[a].0 < levels[b].0);
            }
        }
    }
}

/// Book of the simulated exchange for a single pair: bids and asks by ascending price, so that the
/// best bid comes last and the best ask first.
#[derive(Debug)]
pub struct OrderBook {
    bids: Vec<KeyLevel>,
    asks: Vec<KeyLevel>,
}

/// Model of [`OrderBook`].
pub struct KeyBookView {
    pub bids: Seq<KeyLevel>,
    pub asks: Seq<KeyLevel>,
}

impl View for OrderBook {
    type V = KeyBookView;

    closed spec fn view(&self) -> KeyBookView {
        KeyBookView { bids: self.bids@, asks: self.asks@ }
    }
}

/// Stores a level in ascending levels.
fn store_level(levels: &mut Vec<KeyLevel>, price: i64, qty: i64)
    requires
        ascending(old(levels)@),
    ensures
        final(levels)@ == with_level(old(levels)@, price, qty),
        ascending(final(levels)@),
{
    let mut i: usize = 0;
    let ghost all = levels@;
    proof {
        lemma_place(all, price);
        storing_keeps_prices_ascending(all, price, qty);
    }
    while i < levels.len() && levels[i].0 < price
        invariant
            i <= levels.len(),
            levels@ == all,
            forall|j: int| 0 <= j < i ==> #[trigger] all[j].0 < price,
        decreases levels.len() - i,
    {
        i = i + 1;
    }
    proof {
        let p = place_of(all, price);
        if i < p {
            assert(all[i as int].0 < price);
        }
        if p < i {
            assert(all[p].0 < price);
        }
    }
    if i < levels.len() && levels[i].0 == price {
        levels.set(i, (price, qty));
    } else {
        levels.insert(i, (price, qty));
    }
}

impl OrderBook {
    #[verifier::type_invariant]
    spec fn in_order(self) -> bool {
        ascending(self.bids@) && ascending(self.asks@)
    }

    /// A book of the given levels. Bids without a positive price are left out.
    pub fn new(bids: &Vec<KeyLevel>, asks: &Vec<KeyLevel>) -> (r: OrderBook)
        ensures
            r@.bids == with_levels(Seq::empty(), positive_levels(bids@)),
            r@.asks == with_levels(Seq::empty(), asks@),
            ascending(r@.bids),
            ascending(r@.asks),
    {
        let mut b: Vec<KeyLevel> = Vec::new();
        let mut i: usize = 0;
        proof {
            reveal(Seq::filter);
            assert(bids@.take(0) =~= Seq::empty());
        }
        while i < bids.len()
            invariant
                i <= bids.len(),
                ascending(b@),
                b@ == with_levels(Seq::empty(), positive_levels(bids@.take(i as int))),
            decreases bids.len() - i,
        {
            let (price, qty) = bids[i];
            proof {
                reveal(Seq::filter);
                assert(bids@.take(i + 1).drop_last() =~= bids@.take(i as int));
                let known = positive_levels(bids@.take(i as int));
                assert(known.push((price, qty)).drop_last() =~= known);
            }
            if price > 0 {
                store_level(&mut b, price, qty);
            }
            i = i + 1;
        }
        assert(bids@.take(i as int) =~= bids@);
        let mut a: Vec<KeyLevel> = Vec::new();
        let mut k: usize = 0;
        assert(asks@.take(0) =~= Seq::empty());
        while k < asks.len()
            invariant
                k <= asks.len(),
                ascending(a@),
                a@ == with_levels(Seq::empty(), asks@.take(k as int)),
            decreases asks.len() - k,
        {
            let (price, qty) = asks[k];
            assert(asks@.take(k + 1).drop_last() =~= asks@.take(k as int));
            store_level(&mut a, price, qty);
            k = k + 1;
        }
        assert(asks@.take(k as int) =~= asks@);
        OrderBook { bids: b, asks: a }
    }

    /// Best bid price (highest bid).
    pub fn best_bid(&self) -> (r: Option<i64>)
        ensures
            match r {
                Some(p) => self@.bids.len() > 0 && self@.bids.last().0 == p && forall|i: int|
                    0 <= i < self@.bids.len() ==> #[trigger] self@.bids[i].0 <= p,
                None => self@.bids.len() == 0,
            },
    {
        proof {
            use_type_invariant(self);
        }
        if self.bids.len() == 0 {
            None
        } else {
            Some(self.bids[self.bids.len() - 1].0)
        }
    }

    /// Best ask price (lowest ask).
    pub fn best_ask(&self) -> (r: Option<i64>)
        ensures
            match r {
                Some(p) => self@.asks.len() > 0 && self@.asks[0].0 == p && forall|i: int|
                    0 <= i < self@.asks.len() ==> #[trigger] self@.asks[i].0 >= p,
                None => self@.asks.len() == 0,
            },
    {
        proof {
            use_type_invariant(self);
        }
        if self.asks.len() == 0 {
            None
        } else {
            Some(self.asks[0].0)
        }
    }

    /// The first `depth` bids, best first.
    pub fn top_bids(&self, depth: usize) -> (r: Vec<KeyLevel>)
        ensures
            r@ == self@.bids.reverse().take(
                if depth <= self@.bids.len() {
                    depth as int
                } else {
                    self@.bids.len() as int
                },
            ),
    {
        let n: usize = if depth <= self.bids.len() {
            depth
        } else {
            self.bids.len()
        };
        let mut r: Vec<KeyLevel> = Vec::new();
        while r.len() < n
            invariant
                r.len() <= n <= self.bids.len(),
                r@ == self.bids@.reverse().take(r.len() as int),
            decreases n - r.len(),
        {
            let i: usize = self.bids.len() - 1 - r.len();
            r.push(self.bids[i]);
            assert(r@ =~= self.bids@.reverse().take(r.len() as int));
        }
        r
    }

    /// The first `depth` asks, best first.
    pub fn top_asks(&self, depth: usize) -> (r: Vec<KeyLevel>)
        ensures
            r@ == self@.asks.take(
                if depth <= self@.asks.len() {
                    depth as int
                } else {
                    self@.asks.len() as int
                },
            ),
    {
        let n: usize = if depth <= self.asks.len() {
            depth
        } else {
            self.asks.len()
        };
        let mut r: Vec<KeyLevel> = Vec::new();
        while r.len() < n
            invariant
                r.len() <= n <= self.asks.len(),
                r@ == self.asks@.take(r.len() as int),
            decreases n - r.len(),
        {
            r.push(self.asks[r.len()]);
            assert(r@ =~= self.asks@.take(r.len() as int));
        }
        r
    }

    /// The number of bids.
    pub fn bid_depth(&self) -> (r: usize)
        ensures
            r == self@.bids.len(),
    {
        self.bids.len()
    }

    /// The number of asks.
    pub fn ask_depth(&self) -> (r: usize)
        ensures
            r == self@.asks.len(),
    {
        self.asks.len()
    }
}

} // verus!
