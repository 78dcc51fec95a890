//! Settings of the simulated exchange.
use crate::collections::texts;
use crate::mock::exchange::symbol_to_rest_key;
use crate::text::{opt_text, pieces, replaced, split, str_eq, trim, trims_to, white};
use vstd::prelude::*;

verus! {

/// A pair and the text of its starting price.
#[derive(Debug)]
pub struct PairSetting {
    pub symbol: String,
    pub price: String,
}

/// Whether an entry `SYMBOL:PRICE`, with white space anywhere around its parts, says this.
pub open spec fn says(entry: Seq<char>, p: PairSetting) -> bool {
    exists|t: Seq<char>|
        #![trigger pieces(t, ':')]
        trims_to(entry, t) && pieces(t, ':').len() == 2 && trims_to(pieces(t, ':')[0], p.symbol@)
            && trims_to(pieces(t, ':')[1], p.price@)
}

/// Whether an entry does not have two parts.
pub open spec fn malformed(entry: Seq<char>) -> bool {
    exists|t: Seq<char>| #![trigger pieces(t, ':')] trims_to(entry, t) && pieces(t, ':').len() != 2
}

/// Reads an entry `SYMBOL:PRICE`.
pub fn read_pair(entry: &str) -> (r: Option<PairSetting>)
    ensures
        match r {
            Some(p) => says(entry@, p),
            None => malformed(entry@),
        },
{
    let t = trim(entry);
    let parts = split(t, ':');
    assert(texts(parts@).len() == parts@.len());
    if parts.len() == 2 {
        let symbol = trim(parts[0].as_str()).to_owned();
        let price = trim(parts[1].as_str()).to_owned();
        proof {
            assert(texts(parts@)[0] == parts@[0]@);
            assert(texts(parts@)[1] == parts@[1]@);
        }
        Some(PairSetting { symbol, price })
    } else {
        None
    }
}

/// Whether some settings are what a list of entries says, in order, those that are malformed left
/// out.
pub open spec fn says_all(entries: Seq<Seq<char>>, r: Seq<PairSetting>) -> bool
    decreases entries.len(),
{
    if entries.len() == 0 {
        r.len() == 0
    } else {
        ||| r.len() > 0 && says(entries.last(), r.last()) && says_all(
            entries.drop_last(),
            r.drop_last(),
        )
        ||| malformed(entries.last()) && says_all(entries.drop_last(), r)
    }
}

/// Reads a list of entries `SYMBOL:PRICE` between commas.
pub fn read_pairs(list: &str) -> (r: Vec<PairSetting>)
    ensures
        says_all(pieces(list@, ','), r@),
{
    let entries = split(list, ',');
    let ghost all = texts(entries@);
    let mut r: Vec<PairSetting> = Vec::new();
    let mut i: usize = 0;
    assert(all.take(0) =~= Seq::empty());
    while i < entries.len()
        invariant
            i <= entries.len(),
            all == texts(entries@),
            says_all(all.take(i as int), r@),
        decreases entries.len() - i,
    {
        proof {
            assert(all.take(i + 1).drop_last() =~= all.take(i as int));
            assert(all.take(i + 1).last() == all[i as int]);
        }
        let ghost before = r@;
        if let Some(p) = read_pair(entries[i].as_str()) {
            r.push(p);
            assert(r@.drop_last() =~= before);
        }
        i = i + 1;
    }
    assert(all.take(i as int) =~= all);
    r
}

/// Whether a pair with this key was asked for: all are if no list is given.
pub open spec fn asked_for(list: Option<Seq<char>>, key: Seq<char>) -> bool {
    match list {
        Some(l) => listed(pieces(l, ','), key),
        None => true,
    }
}

/// Whether a key is among some texts, each without the white space around it.
pub open spec fn listed(parts: Seq<Seq<char>>, key: Seq<char>) -> bool {
    exists|i: int| 0 <= i < parts.len() && trims_to(#[trigger] parts[i], key)
}

proof fn lemma_trim_unique(s: Seq<char>, a: Seq<char>, b: Seq<char>)
    requires
        trims_to(s, a),
        trims_to(s, b),
    ensures
        a == b,
{
    let (i, j) = choose|i: int, j: int|
        0 <= i <= j <= s.len() && a == #[trigger] s.subrange(i, j) && (forall|k: int|
            0 <= k < i || j <= k < s.len() ==> white(#[trigger] s[k])) && (i < j
            ==> !white(s[i]) && !white(s[j - 1]));
    let (x, y) = choose|i: int, j: int|
        0 <= i <= j <= s.len() && b == #[trigger] s.subrange(i, j) && (forall|k: int|
            0 <= k < i || j <= k < s.len() ==> white(#[trigger] s[k])) && (i < j
            ==> !white(s[i]) && !white(s[j - 1]));
    if i < j {
        assert(x <= i && j <= y);
        assert(x < y);
        assert(i <= x && y <= j);
    } else if x < y {
        assert(white(s[x]));
    } else {
        assert(a =~= b);
    }
}

/// Pairs that a client asks for, in a query of the REST interface.
#[derive(Debug)]
pub struct PairQuery {
    /// Keys between commas.
    pub pair: Option<String>,
}

impl PairQuery {
    /// Whether the query asks for a pair.
    pub fn wants(&self, wsname: &str) -> (r: bool)
        ensures
            r == asked_for(opt_text(self.pair), replaced(wsname@, '/', ""@)),
    {
        let key = symbol_to_rest_key(wsname);
        match &self.pair {
            Some(list) => {
                let parts = split(list.as_str(), ',');
                let ghost all = pieces(list@, ',');
                let mut i: usize = 0;
                while i < parts.len()
                    invariant
                        i <= parts.len(),
                        all == texts(parts@),
                        all == pieces(list@, ','),
                        self.pair == Some(*list),
                        key@ == replaced(wsname@, '/', ""@),
                        forall|k: int| 0 <= k < i ==> !trims_to(#[trigger] all[k], key@),
                    decreases parts.len() - i,
                {
                    let t = trim(parts[i].as_str());
                    assert(all[i as int] == parts@[i as int]@);
                    if str_eq(t, key.as_str()) {
                        assert(trims_to(all[i as int], key@));
                        assert(listed(all, key@));
                        return true;
                    }
                    proof {
                        if trims_to(all[i as int], key@) {
                            lemma_trim_unique(all[i as int], t@, key@);
                        }
                    }
                    i = i + 1;
                }
                assert(all.len() == parts@.len());
                false
            },
            None => true,
        }
    }
}

/// A pair and the key of its starting price.
#[derive(Debug)]
pub struct PairStart {
    pub symbol: String,
    pub price: i64,
}

/// Pairs with their starting prices.
pub open spec fn starts(s: Seq<PairStart>) -> Seq<(Seq<char>, i64)> {
    Seq::new(s.len(), |i: int| (s[i].symbol@, s[i].price))
}

/// The index of the first pair with a symbol, or the length if there is none.
pub open spec fn first_with(s: Seq<(Seq<char>, i64)>, symbol: Seq<char>) -> int
    decreases s.len(),
{
    if s.len() == 0 || s[0].0 == symbol {
        0
    } else {
        1 + first_with(s.drop_first(), symbol)
    }
}

/// Pairs after one from a scenario is merged in: the price of a pair that is there is changed,
/// others are added.
pub open spec fn merged_one(s: Seq<(Seq<char>, i64)>, p: (Seq<char>, i64)) -> Seq<(Seq<char>, i64)> {
    let i = first_with(s, p.0);
    if i < s.len() {
        s.update(i, p)
    } else {
        s.push(p)
    }
}

/// Pairs after those of a scenario are merged in.
pub open spec fn merged(s: Seq<(Seq<char>, i64)>, more: Seq<(Seq<char>, i64)>) -> Seq<
    (Seq<char>, i64),
>
    decreases more.len(),
{
    if more.len() == 0 {
        s
    } else {
        merged_one(merged(s, more.drop_last()), more.last())
    }
}

proof fn lemma_first_with(s: Seq<(Seq<char>, i64)>, symbol: Seq<char>, i: int)
    requires
        0 <= i <= s.len(),
        i < s.len() ==> s[i].0 == symbol,
        forall|j: int| 0 <= j < i ==> #[trigger] s[j].0 != symbol,
    ensures
        first_with(s, symbol) == i,
    decreases i,
{
    if i > 0 {
        assert(s[0].0 != symbol);
        let t = s.drop_first();
        assert forall|j: int| 0 <= j < i - 1 implies #[trigger] t[j].0 != symbol by {
            assert(s[j + 1].0 != symbol);
        }
        lemma_first_with(t, symbol, i - 1);
    }
}

/// Merges the pairs of a scenario into those that are configured.
pub fn merge_pairs(pairs: Vec<PairStart>, more: &Vec<PairStart>) -> (r: Vec<PairStart>)
    ensures
        starts(r@) == merged(starts(pairs@), starts(more@)),
{
    let ghost base = starts(pairs@);
    let ghost extra = starts(more@);
    let mut r = pairs;
    let mut k: usize = 0;
    assert(extra.take(0).len() == 0);
    while k < more.len()
        invariant
            k <= more.len(),
            extra == starts(more@),
            starts(r@) == merged(base, extra.take(k as int)),
        decreases more.len() - k,
    {
        proof {
            assert(extra.take(k + 1).drop_last() =~= extra.take(k as int));
            assert(extra.take(k + 1).last() == extra[k as int]);
        }
        let ghost now = starts(r@);
        let symbol = more[k].symbol.clone();
        let price: i64 = more[k].price;
        let mut i: usize = 0;
        while i < r.len() && !str_eq(r[i].symbol.as_str(), symbol.as_str())
            invariant
                i <= r.len(),
                now == starts(r@),
                forall|j: int| 0 <= j < i ==> #[trigger] now[j].0 != symbol@,
            decreases r.len() - i,
        {
            assert(now[i as int].0 == r@[i as int].symbol@);
            i = i + 1;
        }
        proof {
            assert(now.len() == r@.len());
            if i < r.len() {
                assert(now[i as int].0 == r@[i as int].symbol@);
            }
            lemma_first_with(now, symbol@, i as int);
        }
        if i < r.len() {
            r.set(i, PairStart { symbol, price });
        } else {
            r.push(PairStart { symbol, price });
        }
        assert(starts(r@) =~= merged(base, extra.take(k + 1)));
        k = k + 1;
    }
    assert(extra.take(k as int) =~= extra);
    r
}

} // verus!
