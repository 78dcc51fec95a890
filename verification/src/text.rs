//! Strings: the few operations the library needs, with exact contracts.
use crate::collections::texts;
use crate::decimal::{magnitude, pow10};
use vstd::prelude::*;

verus! {

/// Whether two strings hold the same characters, by `str`'s `PartialEq::eq`.
#[verifier::external_body]
pub(crate) fn str_eq(a: &str, b: &str) -> (r: bool)
    ensures
        r == (a@ == b@),
{
    a == b
}

/// The characters of an optional string.
pub open spec fn opt_text(o: Option<String>) -> Option<Seq<char>> {
    match o {
        Some(s) => Some(s@),
        None => None,
    }
}

/// A copy of an optional string.
pub fn copy_opt(o: &Option<String>) -> (r: Option<String>)
    ensures
        opt_text(r) == opt_text(*o),
{
    match o {
        Some(s) => Some(s.clone()),
        None => None,
    }
}

/// Whether an optional string holds exactly the characters of `s`.
pub fn opt_is(o: &Option<String>, s: &str) -> (r: bool)
    ensures
        r == (opt_text(*o) == Some(s@)),
{
    match o {
        Some(t) => str_eq(t.as_str(), s),
        None => false,
    }
}

/// Whether `s` begins with `p`.
pub open spec fn begins_with(s: Seq<char>, p: Seq<char>) -> bool {
    p.len() <= s.len() && s.subrange(0, p.len() as int) == p
}

/// Whether `p` occurs somewhere in `s`.
pub open spec fn occurs_in(p: Seq<char>, s: Seq<char>) -> bool {
    exists|i: int|
        0 <= i && i + p.len() <= s.len() && #[trigger] s.subrange(i, i + p.len()) == p
}

/// `s` with every occurrence of the character `c` replaced by `t`.
pub open spec fn replaced(s: Seq<char>, c: char, t: Seq<char>) -> Seq<char>
    decreases s.len(),
{
    if s.len() == 0 {
        s
    } else if s.last() == c {
        replaced(s.drop_last(), c, t) + t
    } else {
        replaced(s.drop_last(), c, t).push(s.last())
    }
}

/// Whether `s` begins with `p`, by `str::starts_with`.
#[verifier::external_body]
pub(crate) fn starts_with(s: &str, p: &str) -> (r: bool)
    ensures
        r == begins_with(s@, p@),
{
    s.starts_with(p)
}

/// Whether `p` occurs in `s`, by `str::contains`.
#[verifier::external_body]
pub(crate) fn contains(s: &str, p: &str) -> (r: bool)
    ensures
        r == occurs_in(p@, s@),
{
    s.contains(p)
}

/// `s` with every `c` replaced by `t`, by `str::replace`.
#[verifier::external_body]
pub(crate) fn replace(s: &str, c: char, t: &str) -> (r: String)
    ensures
        r@ == replaced(s@, c, t@),
{
    s.replace(c, t)
}

/// `s` with the first occurrence of the non-empty `p` replaced by `t`.
pub open spec fn replaced_first(s: Seq<char>, p: Seq<char>, t: Seq<char>) -> Seq<char>
    decreases s.len(),
{
    if s.len() < p.len() || s.len() == 0 {
        s
    } else if begins_with(s, p) {
        t + s.skip(p.len() as int)
    } else {
        seq![s[0]] + replaced_first(s.drop_first(), p, t)
    }
}

/// `s` with the first `p` replaced by `t`, by `str::replacen` with a count of one.
#[verifier::external_body]
pub(crate) fn replace_first(s: &str, p: &str, t: &str) -> (r: String)
    requires
        p@.len() > 0,
    ensures
        r@ == replaced_first(s@, p@, t@),
{
    s.replacen(p, t, 1)
}

/// `s` without the characters `c` at its end.
pub open spec fn trimmed_end(s: Seq<char>, c: char) -> Seq<char>
    decreases s.len(),
{
    if s.len() > 0 && s.last() == c {
        trimmed_end(s.drop_last(), c)
    } else {
        s
    }
}

/// `s` without the characters `c` at its end.
pub fn trim_end(s: &str, c: char) -> (r: &str)
    ensures
        r@ == trimmed_end(s@, c),
{
    let mut n: usize = s.unicode_len();
    assert(s@.take(n as int) =~= s@);
    while n > 0 && s.get_char(n - 1) == c
        invariant
            n <= s@.len(),
            trimmed_end(s@.take(n as int), c) == trimmed_end(s@, c),
        decreases n,
    {
        proof {
            assert(s@.take(n as int).last() == s@[n - 1]);
            assert(s@.take(n as int).drop_last() =~= s@.take(n - 1));
        }
        n = n - 1;
    }
    proof {
        if n > 0 {
            assert(s@.take(n as int).last() == s@[n - 1]);
        }
        assert(s@.subrange(0, n as int) =~= s@.take(n as int));
    }
    s.substring_char(0, n)
}

/// The part of `s` before the first `c`; all of it if there is none.
pub open spec fn before_char(s: Seq<char>, c: char) -> Seq<char>
    decreases s.len(),
{
    if s.len() == 0 || s[0] == c {
        Seq::empty()
    } else {
        seq![s[0]] + before_char(s.drop_first(), c)
    }
}

proof fn lemma_before_char(s: Seq<char>, c: char, n: int)
    requires
        0 <= n <= s.len(),
        forall|j: int| 0 <= j < n ==> #[trigger] s[j] != c,
        n < s.len() ==> s[n] == c,
    ensures
        before_char(s, c) == s.take(n),
    decreases n,
{
    if n == 0 {
        assert(s.take(0) =~= Seq::empty());
    } else {
        let t = s.drop_first();
        assert forall|j: int| 0 <= j < n - 1 implies #[trigger] t[j] != c by {
            assert(s[j + 1] != c);
        }
        lemma_before_char(t, c, n - 1);
        assert(s[0] != c);
        assert(seq![s[0]] + t.take(n - 1) =~= s.take(n));
    }
}

/// The part of `s` before the first `c`; all of it if there is none.
pub fn up_to(s: &str, c: char) -> (r: &str)
    ensures
        r@ == before_char(s@, c),
{
    let len: usize = s.unicode_len();
    let mut n: usize = 0;
    while n < len && s.get_char(n) != c
        invariant
            n <= len == s@.len(),
            forall|j: int| 0 <= j < n ==> #[trigger] s@[j] != c,
        decreases len - n,
    {
        n = n + 1;
    }
    proof {
        lemma_before_char(s@, c, n as int);
        assert(s@.subrange(0, n as int) =~= s@.take(n as int));
    }
    s.substring_char(0, n)
}

/// `s` with every occurrence of the non-empty `p` replaced by `t`, from the left.
pub open spec fn replaced_all(s: Seq<char>, p: Seq<char>, t: Seq<char>) -> Seq<char>
    decreases s.len(),
{
    if p.len() == 0 || s.len() < p.len() {
        s
    } else if begins_with(s, p) {
        t + replaced_all(s.skip(p.len() as int), p, t)
    } else {
        seq![s[0]] + replaced_all(s.drop_first(), p, t)
    }
}

/// `s` with every occurrence of the non-empty `p` replaced by `t`, from the left.
pub fn replace_all(s: &str, p: &str, t: &str) -> (r: String)
    requires
        p@.len() > 0,
    ensures
        r@ == replaced_all(s@, p@, t@),
{
    let n: usize = s.unicode_len();
    let width: usize = p.unicode_len();
    let mut r = String::new();
    let mut i: usize = 0;
    let ghost want = replaced_all(s@, p@, t@);
    assert(r@ + replaced_all(s@.skip(0), p@, t@) =~= want) by {
        assert(s@.skip(0) =~= s@);
    }
    while width <= n - i
        invariant
            i <= n == s@.len(),
            width == p@.len() > 0,
            r@ + replaced_all(s@.skip(i as int), p@, t@) == want,
        decreases n - i,
    {
        let rest = s.substring_char(i, n);
        let ghost before = r@;
        let ghost tail = s@.skip(i as int);
        assert(rest@ =~= tail);
        if starts_with(rest, p) {
            r.append(t);
            i = i + width;
            proof {
                assert(tail.skip(width as int) =~= s@.skip(i as int));
                assert(r@ + replaced_all(s@.skip(i as int), p@, t@) =~= before + (t@
                    + replaced_all(s@.skip(i as int), p@, t@)));
            }
        } else {
            let one = s.substring_char(i, i + 1);
            r.append(one);
            i = i + 1;
            proof {
                assert(one@ =~= seq![tail[0]]);
                assert(tail.drop_first() =~= s@.skip(i as int));
                assert(r@ + replaced_all(s@.skip(i as int), p@, t@) =~= before + (seq![tail[0]]
                    + replaced_all(s@.skip(i as int), p@, t@)));
            }
        }
    }
    let rest = s.substring_char(i, n);
    assert(rest@ =~= s@.skip(i as int));
    r.append(rest);
    r
}

/// Whether a character is white space.
pub open spec fn white(c: char) -> bool {
    let n = c as u32;
    9 <= n <= 13 || n == 0x20 || n == 0x85 || n == 0xA0 || n == 0x1680 || 0x2000 <= n <= 0x200A || n
        == 0x2028 || n == 0x2029 || n == 0x202F || n == 0x205F || n == 0x3000
}

fn is_white(c: char) -> (r: bool)
    ensures
        r == white(c),
{
    let n: u32 = c as u32;
    (9 <= n && n <= 13) || n == 0x20 || n == 0x85 || n == 0xA0 || n == 0x1680 || (0x2000 <= n && n
        <= 0x200A) || n == 0x2028 || n == 0x2029 || n == 0x202F || n == 0x205F || n == 0x3000
}

/// Whether `t` is `s` without the white space around it.
pub open spec fn trims_to(s: Seq<char>, t: Seq<char>) -> bool {
    exists|i: int, j: int|
        0 <= i <= j <= s.len() && t == #[trigger] s.subrange(i, j) && (forall|k: int|
            0 <= k < i || j <= k < s.len() ==> white(#[trigger] s[k])) && (i < j ==> !white(s[i])
            && !white(s[j - 1]))
}

/// A string without the white space around it.
pub fn trim(s: &str) -> (r: &str)
    ensures
        trims_to(s@, r@),
{
    let n: usize = s.unicode_len();
    let mut i: usize = 0;
    while i < n && is_white(s.get_char(i))
        invariant
            i <= n == s@.len(),
            forall|k: int| 0 <= k < i ==> white(#[trigger] s@[k]),
        decreases n - i,
    {
        i = i + 1;
    }
    let mut j: usize = n;
    while j > i && is_white(s.get_char(j - 1))
        invariant
            i <= j <= n == s@.len(),
            forall|k: int| j <= k < n ==> white(#[trigger] s@[k]),
        decreases j,
    {
        j = j - 1;
    }
    proof {
        assert(s@.subrange(i as int, j as int) == s@.subrange(i as int, j as int));
    }
    s.substring_char(i, j)
}

/// The pieces of `s` between occurrences of `c`.
pub open spec fn pieces(s: Seq<char>, c: char) -> Seq<Seq<char>>
    decreases s.len(),
{
    let head = before_char(s, c);
    if head.len() >= s.len() {
        seq![s]
    } else {
        seq![head] + pieces(s.skip(head.len() as int + 1), c)
    }
}

proof fn lemma_before_len(s: Seq<char>, c: char)
    ensures
        before_char(s, c).len() <= s.len(),
        before_char(s, c).len() == s.len() ==> before_char(s, c) == s,
    decreases s.len(),
{
    if s.len() > 0 && s[0] != c {
        lemma_before_len(s.drop_first(), c);
        if before_char(s, c).len() == s.len() {
            assert(seq![s[0]] + s.drop_first() =~= s);
        }
    }
}

/// The pieces of a string between occurrences of a character.
pub fn split(s: &str, c: char) -> (r: Vec<String>)
    ensures
        texts(r@) == pieces(s@, c),
    decreases s@.len(),
{
    let head = up_to(s, c);
    let n: usize = s.unicode_len();
    let k: usize = head.unicode_len();
    proof {
        lemma_before_len(s@, c);
    }
    let mut r: Vec<String> = Vec::new();
    r.push(head.to_owned());
    if k < n {
        let rest = s.substring_char(k + 1, n);
        assert(rest@ =~= s@.skip(k + 1));
        let mut more = split(rest, c);
        let ghost tail = more@;
        r.append(&mut more);
        proof {
            assert(texts(r@) =~= seq![head@] + texts(tail));
        }
    } else {
        assert(texts(r@) =~= seq![s@]);
    }
    r
}

/// The number that digits stand for, read from the left; `None` at anything but a digit.
pub open spec fn digits_value(s: Seq<char>) -> Option<nat>
    decreases s.len(),
{
    if s.len() == 0 {
        Some(0)
    } else {
        match digits_value(s.drop_last()) {
            Some(n) => if '0' <= s.last() <= '9' {
                Some((10 * n + (s.last() as u32 - '0' as u32)) as nat)
            } else {
                None
            },
            None => None,
        }
    }
}

/// The unsigned 64-bit number that a text stands for: digits, with a plus sign before them or
/// not.
pub open spec fn number_in(s: Seq<char>) -> Option<u64> {
    let body = if s.len() > 0 && s[0] == '+' {
        s.skip(1)
    } else {
        s
    };
    match digits_value(body) {
        Some(n) => if body.len() > 0 && n <= u64::MAX {
            Some(n as u64)
        } else {
            None
        },
        None => None,
    }
}

proof fn lemma_digits_value(s: Seq<char>, i: int)
    requires
        0 <= i <= s.len(),
    ensures
        digits_value(s.take(i)) is None ==> digits_value(s) is None,
        digits_value(s.take(i)) is Some && digits_value(s) is Some ==> digits_value(s).unwrap()
            >= digits_value(s.take(i)).unwrap(),
    decreases s.len() - i,
{
    if i == s.len() {
        assert(s.take(i) =~= s);
    } else {
        assert(s.take(i + 1).drop_last() =~= s.take(i));
        lemma_digits_value(s, i + 1);
    }
}

/// Reads an unsigned number.
pub fn parse_number(s: &str) -> (r: Option<u64>)
    ensures
        r == number_in(s@),
{
    let n: usize = s.unicode_len();
    let start: usize = if n > 0 && s.get_char(0) == '+' {
        1
    } else {
        0
    };
    let ghost body = if s@.len() > 0 && s@[0] == '+' {
        s@.skip(1)
    } else {
        s@
    };
    if start == n {
        return None;
    }
    let mut value: u64 = 0;
    let mut i: usize = start;
    assert(body.take(0).len() == 0);
    while i < n
        invariant
            start <= i <= n == s@.len(),
            start <= 1,
            body.len() == n - start,
            forall|k: int| 0 <= k < body.len() ==> body[k] == s@[k + start],
            digits_value(body.take(i - start)) == Some(value as nat),
            body.len() > 0,
            number_in(s@) == (match digits_value(body) {
                Some(v) => if v <= u64::MAX {
                    Some(v as u64)
                } else {
                    None
                },
                None => None,
            }),
        decreases n - i,
    {
        let c = s.get_char(i);
        proof {
            assert(body.take(i - start + 1).drop_last() =~= body.take(i - start));
            assert(body.take(i - start + 1).last() == c);
            lemma_digits_value(body, i - start + 1);
        }
        if c < '0' || c > '9' {
            return None;
        }
        let d: u64 = (c as u32 - '0' as u32) as u64;
        if value > (u64::MAX - d) / 10 {
            return None;
        }
        value = 10 * value + d;
        i = i + 1;
    }
    assert(body.take(i - start) =~= body);
    Some(value)
}

/// The character of a decimal digit.
pub open spec fn digit_char(d: int) -> char {
    if d == 0 {
        '0'
    } else if d == 1 {
        '1'
    } else if d == 2 {
        '2'
    } else if d == 3 {
        '3'
    } else if d == 4 {
        '4'
    } else if d == 5 {
        '5'
    } else if d == 6 {
        '6'
    } else if d == 7 {
        '7'
    } else if d == 8 {
        '8'
    } else {
        '9'
    }
}

/// The decimal digits of a number, without leading zeros.
pub open spec fn digits(n: nat) -> Seq<char>
    decreases n,
{
    if n < 10 {
        seq![digit_char(n as int)]
    } else {
        digits(n / 10).push(digit_char((n % 10) as int))
    }
}

/// The last `width` decimal digits of a number, with leading zeros.
pub open spec fn padded_digits(n: nat, width: nat) -> Seq<char>
    decreases width,
{
    if width == 0 {
        seq![]
    } else {
        padded_digits(n / 10, (width - 1) as nat).push(digit_char((n % 10) as int))
    }
}

/// How a decimal with the given mantissa and scale is written: sign, integer part and, if the
/// scale is not zero, a point and that many decimal places.
pub open spec fn decimal_text(m: int, s: nat) -> Seq<char> {
    let n = magnitude(m) as nat;
    let sign = if m < 0 {
        seq!['-']
    } else {
        seq![]
    };
    let unit = pow10(s) as nat;
    if s == 0 {
        sign + digits(n)
    } else {
        sign + digits(n / unit) + seq!['.'] + padded_digits(n % unit, s)
    }
}

fn digit_text(d: u64) -> (r: &'static str)
    requires
        d < 10,
    ensures
        r@ == seq![digit_char(d as int)],
{
    proof {
        reveal_strlit("0");
        reveal_strlit("1");
        reveal_strlit("2");
        reveal_strlit("3");
        reveal_strlit("4");
        reveal_strlit("5");
        reveal_strlit("6");
        reveal_strlit("7");
        reveal_strlit("8");
        reveal_strlit("9");
    }
    let r = match d {
        0 => "0",
        1 => "1",
        2 => "2",
        3 => "3",
        4 => "4",
        5 => "5",
        6 => "6",
        7 => "7",
        8 => "8",
        _ => "9",
    };
    assert(r@ =~= seq![digit_char(d as int)]);
    r
}

/// The decimal digits of a number.
pub fn number_text(n: u64) -> (r: String)
    ensures
        r@ == digits(n as nat),
    decreases n,
{
    if n < 10 {
        String::from_str(digit_text(n))
    } else {
        let mut s = number_text(n / 10);
        s.append(digit_text(n % 10));
        assert(s@ =~= digits((n / 10) as nat).push(digit_char((n % 10) as int)));
        s
    }
}

/// An unsigned 64-bit number read as a signed one.
pub open spec fn as_signed(n: u64) -> int {
    if n <= i64::MAX {
        n as int
    } else {
        n - 0x1_0000_0000_0000_0000
    }
}

/// An unsigned 64-bit number read as a signed one.
pub fn signed(n: u64) -> (r: i128)
    ensures
        r == as_signed(n),
{
    if n <= 0x7fff_ffff_ffff_ffff {
        n as i128
    } else {
        n as i128 - 0x1_0000_0000_0000_0000
    }
}

/// A number with a minus sign if it is negative.
pub open spec fn signed_digits(n: int) -> Seq<char> {
    if n < 0 {
        seq!['-'] + digits((-n) as nat)
    } else {
        digits(n as nat)
    }
}

/// A signed number as text.
pub fn signed_text(n: i64) -> (r: String)
    ensures
        r@ == signed_digits(n as int),
{
    if n < 0 {
        proof {
            reveal_strlit("-");
            assert("-"@ =~= seq!['-']);
        }
        let m: u64 = (-(n as i128)) as u64;
        String::from_str("-").concat(number_text(m).as_str())
    } else {
        number_text(n as u64)
    }
}

/// The last `width` digits of a number, padded with zeros on the left.
pub fn padded_text(n: u64, width: usize) -> (r: String)
    ensures
        r@ == padded_digits(n as nat, width as nat),
    decreases width,
{
    if width == 0 {
        let s = String::new();
        assert(s@ =~= padded_digits(n as nat, 0));
        s
    } else {
        let mut s = padded_text(n / 10, width - 1);
        s.append(digit_text(n % 10));
        assert(s@ =~= padded_digits((n / 10) as nat, (width - 1) as nat).push(
            digit_char((n % 10) as int),
        ));
        s
    }
}

/// Different numbers have different digits.
pub proof fn digits_are_injective(a: nat, b: nat)
    requires
        digits(a) == digits(b),
    ensures
        a == b,
    decreases a + b,
{
    lemma_digits_len(a);
    lemma_digits_len(b);
    assert(digits(a).last() == digits(b).last());
    if a < 10 {
        if b >= 10 {
            lemma_digits_len(b / 10);
            assert(digits(b).len() == digits(b / 10).len() + 1);
            assert(digits(a).len() == 1);
        } else {
            assert(digits(a)[0] == digit_char(a as int));
            assert(digits(b)[0] == digit_char(b as int));
        }
    } else {
        if b < 10 {
            lemma_digits_len(a / 10);
            assert(digits(a).len() == digits(a / 10).len() + 1);
            assert(digits(b).len() == 1);
        } else {
            assert(digits(a).drop_last() =~= digits(a / 10));
            assert(digits(b).drop_last() =~= digits(b / 10));
            digits_are_injective(a / 10, b / 10);
            assert(digits(a).last() == digit_char((a % 10) as int));
            assert(digits(b).last() == digit_char((b % 10) as int));
            assert(a % 10 == b % 10);
        }
    }
}

/// Padded numbers have the width that was asked for.
pub proof fn padded_digits_have_their_width(n: nat, width: nat)
    ensures
        padded_digits(n, width).len() == width,
    decreases width,
{
    if width > 0 {
        padded_digits_have_their_width(n / 10, (width - 1) as nat);
    }
}

/// Numbers that fit the width are padded to different texts.
pub proof fn padded_digits_are_injective(a: nat, b: nat, width: nat)
    requires
        a < pow10(width),
        b < pow10(width),
        padded_digits(a, width) == padded_digits(b, width),
    ensures
        a == b,
    decreases width,
{
    if width > 0 {
        let x = padded_digits(a / 10, (width - 1) as nat);
        let y = padded_digits(b / 10, (width - 1) as nat);
        assert(x =~= padded_digits(a, width).drop_last());
        assert(y =~= padded_digits(b, width).drop_last());
        assert(padded_digits(a, width).last() == digit_char((a % 10) as int));
        assert(padded_digits(b, width).last() == digit_char((b % 10) as int));
        assert(a / 10 < pow10((width - 1) as nat));
        assert(b / 10 < pow10((width - 1) as nat));
        padded_digits_are_injective(a / 10, b / 10, (width - 1) as nat);
        assert(a % 10 == b % 10);
    }
}

proof fn lemma_digits_len(n: nat)
    ensures
        digits(n).len() >= 1,
    decreases n,
{
    if n >= 10 {
        lemma_digits_len(n / 10);
    }
}

} // verus!
