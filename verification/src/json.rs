//! Reading and rewriting JSON texts.
use crate::collections::views;
use crate::text::{digits, number_text, opt_text};
use vstd::prelude::*;

verus! {

/// A value inside a JSON text, down to what the library reads of it.
#[derive(Clone, Debug)]
#[allow(inconsistent_fields)]
pub enum Leaf {
    Null,
    Flag(bool),
    /// A number: its value if it is a whole number without a sign, and its text.
    Number { whole: Option<u64>, text: String },
    Text(String),
    /// An array, with its length.
    List(usize),
    Object,
}

/// Model of [`Leaf`].
#[allow(inconsistent_fields)]
pub enum LeafView {
    Null,
    Flag(bool),
    Number { whole: Option<u64>, text: Seq<char> },
    Text(Seq<char>),
    List(usize),
    Object,
}

impl View for Leaf {
    type V = LeafView;

    open spec fn view(&self) -> LeafView {
        match *self {
            Leaf::Null => LeafView::Null,
            Leaf::Flag(b) => LeafView::Flag(b),
            Leaf::Number { whole, text } => LeafView::Number { whole, text: text@ },
            Leaf::Text(s) => LeafView::Text(s@),
            Leaf::List(n) => LeafView::List(n),
            Leaf::Object => LeafView::Object,
        }
    }
}

/// The model of an optional value.
pub open spec fn leaf_view(l: Option<Leaf>) -> Option<LeafView> {
    match l {
        Some(x) => Some(x@),
        None => None,
    }
}

/// What a JSON text holds at a pointer: `None` if the text is not JSON or holds nothing there.
pub uninterp spec fn json_leaf(text: Seq<char>, pointer: Seq<char>) -> Option<LeafView>;

/// A JSON text with the value at a pointer, if there is one, replaced by a string: `None` if the
/// text is not JSON.
pub uninterp spec fn json_with(text: Seq<char>, pointer: Seq<char>, value: Seq<char>) -> Option<
    Seq<char>,
>;

/// The value that `serde_json` parses from a text at a pointer, by `serde_json::from_str` and
/// `Value::pointer`.
#[verifier::external_body]
pub(crate) fn leaf_at(text: &str, pointer: &str) -> (r: Option<Leaf>)
    ensures
        leaf_view(r) == json_leaf(text@, pointer@),
{
    let value: serde_json::Value = serde_json::from_str(text).ok()?;
    Some(match value.pointer(pointer)? {
        serde_json::Value::Null => Leaf::Null,
        serde_json::Value::Bool(b) => Leaf::Flag(*b),
        serde_json::Value::Number(n) => Leaf::Number { whole: n.as_u64(), text: n.to_string() },
        serde_json::Value::String(s) => Leaf::Text(s.clone()),
        serde_json::Value::Array(a) => Leaf::List(a.len()),
        serde_json::Value::Object(_) => Leaf::Object,
    })
}

/// A JSON text in which `serde_json` has replaced the value at a pointer, by
/// `serde_json::from_str`, `Value::pointer_mut` and `serde_json::to_string`. Where the text held a
/// value at the pointer, the result holds the new string there.
#[verifier::external_body]
fn replace_leaf(text: &str, pointer: &str, value: &str) -> (r: Option<String>)
    ensures
        opt_text(r) == json_with(text@, pointer@, value@),
        r is Some && json_leaf(text@, pointer@) is Some ==> json_leaf(r.unwrap()@, pointer@)
            == Some(LeafView::Text(value@)),
        json_leaf(text@, pointer@) is Some ==> r is Some,
{
    let mut json: serde_json::Value = serde_json::from_str(text).ok()?;
    if let Some(slot) = json.pointer_mut(pointer) {
        *slot = serde_json::Value::String(value.to_owned());
    }
    serde_json::to_string(&json).ok()
}

/// The first of two values that is there.
pub open spec fn first_of(a: Option<LeafView>, b: Option<LeafView>) -> Option<LeafView> {
    if a is Some {
        a
    } else {
        b
    }
}

/// The first of two values that is there.
pub fn first_leaf(a: Option<Leaf>, b: Option<Leaf>) -> (r: Option<Leaf>)
    ensures
        leaf_view(r) == first_of(leaf_view(a), leaf_view(b)),
{
    if a.is_some() {
        a
    } else {
        b
    }
}

/// The text of a value that is a string.
pub open spec fn as_text(l: Option<LeafView>) -> Option<Seq<char>> {
    match l {
        Some(LeafView::Text(s)) => Some(s),
        _ => None,
    }
}

/// The text of a value that is a string.
pub fn text_of_leaf(l: Option<Leaf>) -> (r: Option<String>)
    ensures
        opt_text(r) == as_text(leaf_view(l)),
{
    match l {
        Some(Leaf::Text(s)) => Some(s),
        _ => None,
    }
}

/// The text of a value that is a string, or a default.
pub fn text_or(l: Option<Leaf>, default: &str) -> (r: String)
    ensures
        r@ == (match as_text(leaf_view(l)) {
            Some(s) => s,
            None => default@,
        }),
{
    match text_of_leaf(l) {
        Some(s) => s,
        None => default.to_owned(),
    }
}

/// The text of a value that is a number.
pub open spec fn as_number(l: Option<LeafView>) -> Option<Seq<char>> {
    match l {
        Some(LeafView::Number { whole, text }) => Some(text),
        _ => None,
    }
}

/// The text of a value that is a number.
pub fn number_of_leaf(l: Option<Leaf>) -> (r: Option<String>)
    ensures
        opt_text(r) == as_number(leaf_view(l)),
{
    match l {
        Some(Leaf::Number { whole: _, text }) => Some(text),
        _ => None,
    }
}

/// A value that is a whole number, or zero.
pub open spec fn as_count(l: Option<LeafView>) -> u64 {
    match l {
        Some(LeafView::Number { whole: Some(n), text }) => n,
        _ => 0,
    }
}

/// A value that is a whole number, or zero.
pub fn count_of_leaf(l: Option<Leaf>) -> (r: u64)
    ensures
        r == as_count(leaf_view(l)),
{
    match l {
        Some(Leaf::Number { whole: Some(n), text: _ }) => n,
        _ => 0,
    }
}

/// Whether a value is `true`.
pub fn is_true(l: &Option<Leaf>) -> (r: bool)
    ensures
        r == (leaf_view(*l) == Some(LeafView::Flag(true))),
{
    match l {
        Some(Leaf::Flag(b)) => *b,
        _ => false,
    }
}

/// The pointer to an element of the array at `pointer`.
pub open spec fn element(pointer: Seq<char>, i: nat) -> Seq<char> {
    pointer + "/"@ + digits(i)
}

/// The first `n` elements of the array that a text holds at a pointer.
pub open spec fn elements(text: Seq<char>, pointer: Seq<char>, n: nat) -> Seq<Option<LeafView>>
{
    Seq::new(n, |i: int| json_leaf(text, element(pointer, i as nat)))
}

/// The strings among some values, in order.
pub open spec fn strings(s: Seq<Option<LeafView>>) -> Seq<Seq<char>>
    decreases s.len(),
{
    if s.len() == 0 {
        Seq::empty()
    } else {
        match as_text(s.last()) {
            Some(t) => strings(s.drop_last()).push(t),
            None => strings(s.drop_last()),
        }
    }
}

/// The strings in the array that a text holds at a pointer; `None` if it holds no array there.
pub open spec fn string_list(text: Seq<char>, pointer: Seq<char>) -> Option<Seq<Seq<char>>> {
    match json_leaf(text, pointer) {
        Some(LeafView::List(n)) => Some(strings(elements(text, pointer, n as nat))),
        _ => None,
    }
}

/// The models of a list of values.
pub open spec fn leaves(s: Seq<Option<Leaf>>) -> Seq<Option<LeafView>> {
    Seq::new(s.len(), |i: int| leaf_view(s[i]))
}

/// The strings among some values.
pub fn strings_of(v: Vec<Option<Leaf>>) -> (r: Vec<String>)
    ensures
        views(r@) == strings(leaves(v@)),
{
    let mut r: Vec<String> = Vec::new();
    let mut i: usize = 0;
    assert(views(r@) =~= strings(leaves(v@).take(0)));
    while i < v.len()
        invariant
            i <= v.len(),
            views(r@) == strings(leaves(v@).take(i as int)),
        decreases v.len() - i,
    {
        let ghost before = views(r@);
        proof {
            assert(leaves(v@).take(i + 1).drop_last() =~= leaves(v@).take(i as int));
            assert(leaves(v@).take(i + 1).last() == leaf_view(v@[i as int]));
        }
        match &v[i] {
            Some(Leaf::Text(s)) => {
                let t: String = s.clone();
                r.push(t);
                assert(views(r@) =~= before.push(s@));
            },
            _ => {},
        }
        i = i + 1;
    }
    assert(leaves(v@).take(i as int) =~= leaves(v@));
    r
}

/// The strings in the array that a text holds at a pointer; `None` if it holds no array there.
pub fn read_strings(text: &str, pointer: &str) -> (r: Option<Vec<String>>)
    ensures
        match r {
            Some(v) => string_list(text@, pointer@) == Some(views(v@)),
            None => string_list(text@, pointer@) is None,
        },
{
    match leaf_at(text, pointer) {
        Some(Leaf::List(n)) => {
            let mut all: Vec<Option<Leaf>> = Vec::new();
            let mut i: usize = 0;
            while i < n
                invariant
                    i <= n,
                    all@.len() == i,
                    leaves(all@) == elements(text@, pointer@, i as nat),
                decreases n - i,
            {
                let at = pointer.to_owned().concat("/").concat(number_text(i as u64).as_str());
                let leaf = leaf_at(text, at.as_str());
                let ghost before = leaves(all@);
                all.push(leaf);
                proof {
                    assert(at@ == element(pointer@, i as nat));
                    let want = elements(text@, pointer@, (i + 1) as nat);
                    assert forall|j: int| 0 <= j <= i implies leaves(all@)[j] == want[j] by {
                        if j < i {
                            assert(leaves(all@)[j] == before[j]);
                            assert(before[j] == elements(text@, pointer@, i as nat)[j]);
                        }
                    }
                    assert(leaves(all@) =~= want);
                }
                i = i + 1;
            }
            Some(strings_of(all))
        },
        _ => None,
    }
}

/// What is sent on after an attempt to put a token into a message: the rewritten text, or the
/// message itself where it is not JSON.
pub fn rewritten_or(text: &str, rewritten: Option<String>) -> (r: String)
    ensures
        r@ == (match rewritten {
            Some(s) => s@,
            None => text@,
        }),
{
    match rewritten {
        Some(s) => s,
        None => text.to_owned(),
    }
}

/// Puts the real token into a message that has a `params.token` field. A message that is not JSON
/// is passed on as it is.
pub fn inject_token(text: &str, token: &str) -> (r: String)
    ensures
        r@ == (match json_with(text@, "/params/token"@, token@) {
            Some(s) => s,
            None => text@,
        }),
        json_leaf(text@, "/params/token"@) is Some ==> json_leaf(r@, "/params/token"@) == Some(
            LeafView::Text(token@),
        ),
{
    rewritten_or(text, replace_leaf(text, "/params/token", token))
}

} // verus!
