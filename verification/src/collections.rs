//! Insertion-ordered maps and sets keyed by strings.
//!
//! Both are modelled by sequences without repeated keys, so that what a walk over the
//! entries produces is part of the model.
use crate::text::str_eq;
use vstd::prelude::*;

verus! {

/// A value that can be copied out of a shared reference.
pub trait Dup: View + Sized {
    /// A copy of the value.
    fn dup(&self) -> (r: Self)
        ensures
            r@ == self@,
    ;
}

/// The models of a list of values.
pub open spec fn views<T: View>(s: Seq<T>) -> Seq<T::V> {
    Seq::new(s.len(), |i: int| s[i]@)
}

/// Appends a value to a list.
pub fn push_value<T: View>(v: &mut Vec<T>, x: T)
    ensures
        views(final(v)@) == views(old(v)@).push(x@),
        final(v)@ == old(v)@.push(x),
{
    let ghost want = views(v@).push(x@);
    v.push(x);
    assert(views(v@) =~= want);
}

/// A copy of a list.
pub fn dup_all<T: Dup>(v: &Vec<T>) -> (r: Vec<T>)
    ensures
        views(r@) == views(v@),
{
    let mut r: Vec<T> = Vec::new();
    let mut i: usize = 0;
    while i < v.len()
        invariant
            i <= v.len(),
            r.len() == i,
            forall|j: int| 0 <= j < i ==> (#[trigger] r@[j])@ == v@[j]@,
        decreases v.len() - i,
    {
        r.push(v[i].dup());
        i = i + 1;
    }
    assert(views(r@) =~= views(v@));
    r
}

/// The model of a map: its entries in the order in which the keys first came.
pub type Entries<T> = Seq<(Seq<char>, T)>;

/// The index of the entry for `k`, or the length if there is none.
pub open spec fn slot<T>(s: Entries<T>, k: Seq<char>) -> int
    decreases s.len(),
{
    if s.len() == 0 {
        0
    } else if s[0].0 == k {
        0
    } else {
        1 + slot(s.drop_first(), k)
    }
}

/// Whether `k` is a key.
pub open spec fn keyed<T>(s: Entries<T>, k: Seq<char>) -> bool {
    slot(s, k) < s.len()
}

/// The value for `k`, if any.
pub open spec fn lookup<T>(s: Entries<T>, k: Seq<char>) -> Option<T> {
    if keyed(s, k) {
        Some(s[slot(s, k)].1)
    } else {
        None
    }
}

/// The entries after `v` is stored for `k`: in place if the key is there, at the end if not.
pub open spec fn stored<T>(s: Entries<T>, k: Seq<char>, v: T) -> Entries<T> {
    if keyed(s, k) {
        s.update(slot(s, k), (k, v))
    } else {
        s.push((k, v))
    }
}

/// The entries without the one for `k`.
pub open spec fn without<T>(s: Entries<T>, k: Seq<char>) -> Entries<T> {
    if keyed(s, k) {
        s.remove(slot(s, k))
    } else {
        s
    }
}

/// Whether no key occurs twice.
pub open spec fn distinct_keys<T>(s: Entries<T>) -> bool {
    forall|i: int, j: int| 0 <= i < j < s.len() ==> s[i].0 != s[j].0
}

/// The keys in order.
pub open spec fn keys_of<T>(s: Entries<T>) -> Seq<Seq<char>> {
    s.map_values(|e: (Seq<char>, T)| e.0)
}

/// `slot` is the first index at which the key stands.
pub proof fn lemma_slot<T>(s: Entries<T>, k: Seq<char>)
    ensures
        0 <= slot(s, k) <= s.len(),
        keyed(s, k) ==> s[slot(s, k)].0 == k,
        forall|j: int| 0 <= j < slot(s, k) ==> #[trigger] s[j].0 != k,
    decreases s.len(),
{
    if s.len() > 0 && s[0].0 != k {
        let t = s.drop_first();
        lemma_slot(t, k);
        assert forall|j: int| 0 <= j < slot(s, k) implies #[trigger] s[j].0 != k by {
            if j > 0 {
                assert(t[j - 1].0 != k);
            }
        }
        if keyed(s, k) {
            assert(t[slot(t, k)] == s[slot(s, k)]);
        }
    }
}

/// An index with no earlier occurrence of the key is its slot.
pub proof fn lemma_slot_is<T>(s: Entries<T>, k: Seq<char>, i: int)
    requires
        0 <= i <= s.len(),
        i < s.len() ==> s[i].0 == k,
        forall|j: int| 0 <= j < i ==> #[trigger] s[j].0 != k,
    ensures
        slot(s, k) == i,
{
    lemma_slot(s, k);
    if slot(s, k) < i {
        assert(s[slot(s, k)].0 != k);
    }
    if i < slot(s, k) {
        assert(s[i].0 != k);
    }
}

/// A key is present exactly if it stands at some index.
pub proof fn lemma_keyed<T>(s: Entries<T>, k: Seq<char>, i: int)
    requires
        0 <= i < s.len(),
        s[i].0 == k,
    ensures
        keyed(s, k),
        distinct_keys(s) ==> slot(s, k) == i && lookup(s, k) == Some(s[i].1),
{
    lemma_slot(s, k);
    if !keyed(s, k) {
        assert(s[i].0 != k);
    }
    if distinct_keys(s) && slot(s, k) != i {
        let p = slot(s, k);
        if p < i {
            assert(s[p].0 != s[i].0);
        } else {
            assert(s[i].0 != k);
        }
    }
}

/// A stored value is found again, and no other key is touched.
pub proof fn stored_then_lookup<T>(s: Entries<T>, k: Seq<char>, v: T, q: Seq<char>)
    ensures
        lookup(stored(s, k, v), q) == (if q == k {
            Some(v)
        } else {
            lookup(s, q)
        }),
        distinct_keys(s) ==> distinct_keys(stored(s, k, v)),
{
    let t = stored(s, k, v);
    lemma_slot(s, k);
    lemma_slot(s, q);
    if q == k {
        lemma_slot_is(t, q, slot(s, k));
    } else {
        if keyed(s, q) {
            assert forall|j: int| 0 <= j < slot(s, q) implies #[trigger] t[j].0 != q by {
                assert(s[j].0 != q);
            }
            lemma_slot_is(t, q, slot(s, q));
        } else {
            assert forall|j: int| 0 <= j < t.len() implies #[trigger] t[j].0 != q by {
                if j < s.len() {
                    assert(s[j].0 != q);
                }
            }
            lemma_slot_is(t, q, t.len() as int);
        }
    }
    if distinct_keys(s) {
        assert forall|i: int, j: int| 0 <= i < j < t.len() implies t[i].0 != t[j].0 by {
            if j < s.len() {
                assert(s[i].0 != s[j].0);
            } else {
                assert(s[i].0 != k);
            }
        }
    }
}

/// A removed key is gone, and no other key is touched.
pub proof fn without_then_lookup<T>(s: Entries<T>, k: Seq<char>, q: Seq<char>)
    requires
        distinct_keys(s),
    ensures
        lookup(without(s, k), q) == (if q == k {
            None
        } else {
            lookup(s, q)
        }),
        distinct_keys(without(s, k)),
{
    let t = without(s, k);
    let p = slot(s, k);
    lemma_slot(s, k);
    lemma_slot(s, q);
    if keyed(s, k) {
        assert forall|i: int| 0 <= i < t.len() implies #[trigger] t[i] == (if i < p {
            s[i]
        } else {
            s[i + 1]
        }) by {}
        assert forall|i: int, j: int| 0 <= i < j < t.len() implies t[i].0 != t[j].0 by {
            let a = if i < p { i } else { i + 1 };
            let b = if j < p { j } else { j + 1 };
            assert(s[a].0 != s[b].0);
        }
        if q == k {
            assert forall|j: int| 0 <= j < t.len() implies #[trigger] t[j].0 != q by {
                let b = if j < p { j } else { j + 1 };
                if b < p {
                    assert(s[b].0 != s[p].0);
                } else {
                    assert(s[p].0 != s[b].0);
                }
            }
            lemma_slot_is(t, q, t.len() as int);
        } else if keyed(s, q) {
            let z = slot(s, q);
            let i = if z < p { z } else { z - 1 };
            assert(t[i] == s[z]);
            lemma_keyed(t, q, i);
            assert(lookup(t, q) == Some(t[i].1));
        } else {
            assert forall|j: int| 0 <= j < t.len() implies #[trigger] t[j].0 != q by {
                let b = if j < p { j } else { j + 1 };
                assert(s[b].0 != q);
            }
            lemma_slot_is(t, q, t.len() as int);
        }
    } else if q == k {
        assert(lookup(t, q) is None);
    }
}

impl Dup for () {
    fn dup(&self) -> (r: ()) {
    }
}

impl Dup for u32 {
    fn dup(&self) -> (r: u32) {
        *self
    }
}

/// A set of strings that remembers the order in which they came.
pub type StrSet = StrMap<()>;

/// A map from strings to values that remembers the order in which keys came.
pub struct StrMap<V> {
    entries: Vec<(String, V)>,
}

impl<V: View> View for StrMap<V> {
    type V = Entries<V::V>;

    closed spec fn view(&self) -> Entries<V::V> {
        entries_view(self.entries@)
    }
}

spec fn entries_view<V: View>(s: Seq<(String, V)>) -> Entries<V::V> {
    Seq::new(s.len(), |i: int| (s[i].0@, s[i].1@))
}

impl<V> StrMap<V> {
    /// Whether no key occurs twice; true of every map a program holds.
    #[verifier::type_invariant]
    pub closed spec fn keys_distinct(self) -> bool {
        forall|i: int, j: int|
            0 <= i < j < self.entries@.len() ==> self.entries@[i].0@ != self.entries@[j].0@
    }
}

impl<V: View> StrMap<V> {
    /// The empty map.
    pub fn new() -> (r: StrMap<V>)
        ensures
            r@ == Seq::<(Seq<char>, V::V)>::empty(),
    {
        let r = StrMap { entries: Vec::new() };
        assert(r@ =~= Seq::<(Seq<char>, V::V)>::empty());
        r
    }

    /// The number of entries.
    pub fn len(&self) -> (r: usize)
        ensures
            r == self@.len(),
            distinct_keys(self@),
    {
        proof {
            use_type_invariant(self);
            lemma_distinct(self.entries@);
        }
        self.entries.len()
    }

    /// Whether there are no entries.
    pub fn is_empty(&self) -> (r: bool)
        ensures
            r == (self@.len() == 0),
    {
        self.entries.len() == 0
    }

    /// The key at an index.
    pub fn key_at(&self, i: usize) -> (r: &String)
        requires
            i < self@.len(),
        ensures
            r@ == self@[i as int].0,
    {
        &self.entries[i].0
    }

    /// The value at an index.
    pub fn value_at(&self, i: usize) -> (r: &V)
        requires
            i < self@.len(),
        ensures
            r@ == self@[i as int].1,
    {
        &self.entries[i].1
    }

    fn find(&self, k: &str) -> (r: usize)
        ensures
            r == slot(self@, k@),
    {
        let mut i: usize = 0;
        while i < self.entries.len()
            invariant
                i <= self.entries.len(),
                self@.len() == self.entries.len(),
                forall|j: int| 0 <= j < i ==> #[trigger] self@[j].0 != k@,
            decreases self.entries.len() - i,
        {
            assert(self@[i as int].0 == self.entries@[i as int].0@);
            if str_eq(self.entries[i].0.as_str(), k) {
                proof {
                    lemma_slot_is(self@, k@, i as int);
                }
                return i;
            }
            i = i + 1;
        }
        proof {
            lemma_slot_is(self@, k@, i as int);
        }
        i
    }

    /// The value for a key.
    pub fn get(&self, k: &str) -> (r: Option<&V>)
        ensures
            match r {
                Some(v) => lookup(self@, k@) == Some(v@),
                None => lookup(self@, k@) is None,
            },
    {
        let i: usize = self.find(k);
        proof {
            lemma_slot(self@, k@);
        }
        if i < self.entries.len() {
            assert(self@[i as int].1 == self.entries@[i as int].1@);
            Some(&self.entries[i].1)
        } else {
            None
        }
    }

    /// Whether a key is present.
    pub fn contains_key(&self, k: &str) -> (r: bool)
        ensures
            r == keyed(self@, k@),
    {
        let i: usize = self.find(k);
        i < self.entries.len()
    }

    /// Stores a value for a key.
    pub fn insert(&mut self, k: String, v: V)
        ensures
            final(self)@ == stored(old(self)@, k@, v@),
    {
        proof {
            use_type_invariant(&*self);
        }
        let i: usize = self.find(k.as_str());
        let ghost before = self@;
        proof {
            lemma_slot(before, k@);
        }
        let mut entries: Vec<(String, V)> = Vec::new();
        std::mem::swap(&mut self.entries, &mut entries);
        let ghost held = entries@;
        assert(before =~= entries_view(held));
        if i < entries.len() {
            entries.set(i, (k, v));
        } else {
            entries.push((k, v));
        }
        proof {
            stored_then_lookup(before, k@, v@, k@);
            assert(entries_view(entries@) =~= stored(before, k@, v@));
            lemma_distinct(held);
            lemma_distinct(entries@);
        }
        self.entries = entries;
    }

    /// Replaces the value at an index.
    pub fn set_value_at(&mut self, i: usize, v: V)
        requires
            i < old(self)@.len(),
        ensures
            final(self)@ == old(self)@.update(i as int, (old(self)@[i as int].0, v@)),
    {
        proof {
            use_type_invariant(&*self);
        }
        let ghost before = self@;
        let mut entries: Vec<(String, V)> = Vec::new();
        std::mem::swap(&mut self.entries, &mut entries);
        let ghost held = entries@;
        let k = entries[i].0.clone();
        entries.set(i, (k, v));
        proof {
            assert(entries_view(entries@) =~= before.update(i as int, (before[i as int].0, v@)));
            assert(forall|j: int| 0 <= j < held.len() ==> entries@[j].0@ == held[j].0@);
        }
        self.entries = entries;
    }

    /// Removes a key and its value.
    pub fn remove(&mut self, k: &str) -> (r: Option<V>)
        ensures
            final(self)@ == without(old(self)@, k@),
            match r {
                Some(v) => lookup(old(self)@, k@) == Some(v@),
                None => lookup(old(self)@, k@) is None,
            },
    {
        proof {
            use_type_invariant(&*self);
        }
        let i: usize = self.find(k);
        let ghost before = self@;
        proof {
            lemma_slot(before, k@);
        }
        if i >= self.entries.len() {
            return None;
        }
        let mut entries: Vec<(String, V)> = Vec::new();
        std::mem::swap(&mut self.entries, &mut entries);
        let ghost held = entries@;
        assert(before =~= entries_view(held));
        assert(before[i as int].1 == held[i as int].1@);
        let e = entries.remove(i);
        proof {
            lemma_distinct(held);
            without_then_lookup(before, k@, k@);
            assert(entries_view(entries@) =~= without(before, k@));
            lemma_distinct(entries@);
        }
        self.entries = entries;
        Some(e.1)
    }

    /// Removes every entry.
    pub fn clear(&mut self)
        ensures
            final(self)@ == Seq::<(Seq<char>, V::V)>::empty(),
    {
        self.entries = Vec::new();
        assert(self@ =~= Seq::<(Seq<char>, V::V)>::empty());
    }
}

/// The keys of a map are distinct.
pub proof fn map_keys_are_distinct<V: View>(m: StrMap<V>)
    requires
        m.keys_distinct(),
    ensures
        distinct_keys(m@),
{
    lemma_distinct(m.entries@);
}

proof fn lemma_distinct<V: View>(s: Seq<(String, V)>)
    ensures
        distinct_keys(entries_view(s)) <==> (forall|i: int, j: int|
            0 <= i < j < s.len() ==> s[i].0@ != s[j].0@),
{
    let t = entries_view(s);
    assert forall|i: int| 0 <= i < s.len() implies #[trigger] t[i].0 == s[i].0@ by {}
    if distinct_keys(t) {
        assert forall|i: int, j: int| 0 <= i < j < s.len() implies s[i].0@ != s[j].0@ by {
            assert(t[i].0 != t[j].0);
        }
    }
}

impl<V: View> StrMap<V> {
    /// The keys in order.
    pub fn keys(&self) -> (r: Vec<String>)
        ensures
            texts(r@) == keys_of(self@),
    {
        let mut r: Vec<String> = Vec::new();
        let mut i: usize = 0;
        while i < self.entries.len()
            invariant
                i <= self.entries.len(),
                r.len() == i,
                forall|j: int| 0 <= j < i ==> #[trigger] r@[j]@ == self.entries@[j].0@,
            decreases self.entries.len() - i,
        {
            r.push(self.entries[i].0.clone());
            i = i + 1;
        }
        assert(texts(r@) =~= keys_of(self@));
        r
    }
}

/// The characters of a list of strings.
pub open spec fn texts(s: Seq<String>) -> Seq<Seq<char>> {
    Seq::new(s.len(), |i: int| s[i]@)
}

impl<V: Dup> Dup for StrMap<V> {
    fn dup(&self) -> (r: StrMap<V>) {
        let mut entries: Vec<(String, V)> = Vec::new();
        let mut i: usize = 0;
        while i < self.entries.len()
            invariant
                i <= self.entries.len(),
                entries.len() == i,
                forall|j: int|
                    0 <= j < i ==> #[trigger] entries@[j].0@ == self.entries@[j].0@
                        && entries@[j].1@ == self.entries@[j].1@,
            decreases self.entries.len() - i,
        {
            entries.push((self.entries[i].0.clone(), self.entries[i].1.dup()));
            i = i + 1;
        }
        proof {
            use_type_invariant(self);
        }
        let r = StrMap { entries };
        assert(r@ =~= self@);
        r
    }
}

} // verus!
