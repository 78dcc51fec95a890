use kraken_mm::decimal::{truncate_decimal, Decimal};

fn d(s: &str) -> Decimal {
    Decimal::parse(s).unwrap()
}

fn parts(x: Decimal) -> (i128, u32) {
    (x.mantissa(), x.scale())
}

#[test]
fn sums_keep_the_larger_scale() {
    assert_eq!(parts(d("1.5").checked_add(d("2.25")).unwrap()), (375, 2));
    assert_eq!(parts(d("0.10").checked_add(d("-0.1")).unwrap()), (0, 2));
    assert_eq!(parts(d("0").checked_add(d("1.50")).unwrap()), (150, 2));
}

#[test]
fn differences() {
    assert_eq!(parts(d("2.25").checked_sub(d("1.5")).unwrap()), (75, 2));
    assert_eq!(d("0").checked_sub(d("1.5")).unwrap(), d("-1.5"));
    assert_eq!(d("1").checked_sub(d("0.023")).unwrap(), d("0.977"));
}

#[test]
fn products_add_scales() {
    assert_eq!(parts(d("1.50").checked_mul(d("0.2")).unwrap()), (300, 3));
    assert_eq!(d("-3").checked_mul(d("0.5")).unwrap(), d("-1.5"));
    assert_eq!(parts(d("0.00").checked_mul(d("123")).unwrap()).0, 0);
}

#[test]
fn quotients() {
    assert_eq!(d("100").checked_div(d("0.5")).unwrap(), d("200"));
    assert_eq!(d("1").checked_div(d("8")).unwrap(), d("0.125"));
    assert_eq!(d("-6").checked_div(d("4")).unwrap(), d("-1.5"));
    assert!(d("1").checked_div(d("0.00")).is_none());
    assert_eq!(d("0").checked_div(d("7")).unwrap(), d("0"));
    assert_eq!(d("1").checked_div(d("3")).unwrap(), d("0.3333333333333333333333333333"));
}

#[test]
fn overflow_is_reported() {
    let max = Decimal::try_from_i128_with_scale(79228162514264337593543950335, 0).unwrap();
    assert!(max.checked_add(d("1")).is_none());
    assert!(max.negate().checked_sub(d("1")).is_none());
    assert!(max.checked_mul(d("2")).is_none());
    assert!(max.checked_div(d("0.1")).is_none());
    assert!(Decimal::try_from_i128_with_scale(79228162514264337593543950336, 0).is_none());
    assert!(Decimal::try_new(1, 29).is_none());
    assert_eq!(Decimal::try_new(1, 28).unwrap().scale(), 28);
}

#[test]
fn order_goes_by_value() {
    assert_eq!(d("1.50"), d("1.5"));
    assert!(d("-2") < d("-1.99"));
    assert!(d("0.1") > d("0.09"));
    assert!(d("1.0") <= d("1"));
    assert_ne!(d("1.5"), d("1.51"));
    assert_eq!(d("3").max(d("2.9")), d("3"));
    assert_eq!(d("3").min(d("2.9")), d("2.9"));
    assert_eq!(d("-2.5").abs(), d("2.5"));
}

#[test]
fn rounding_is_half_to_even() {
    assert_eq!(d("2.345").round_dp(2), d("2.34"));
    assert_eq!(d("2.355").round_dp(2), d("2.36"));
    assert_eq!(d("-2.5").round_dp(0), d("-2"));
    assert_eq!(d("2.3451").round_dp(2), d("2.35"));
    assert_eq!(d("2.3").round_dp(5), d("2.3"));
}

#[test]
fn floors() {
    assert_eq!(d("2.9").floor(), d("2"));
    assert_eq!(d("-2.1").floor(), d("-3"));
    assert_eq!(d("7").floor(), d("7"));
}

#[test]
fn truncation_never_exceeds_the_value() {
    assert_eq!(truncate_decimal(d("1.23456"), 3).unwrap(), d("1.234"));
    assert_eq!(truncate_decimal(d("99.9999"), 0).unwrap(), d("99"));
    assert_eq!(truncate_decimal(d("5"), 2).unwrap(), d("5"));
    assert_eq!(truncate_decimal(d("0.00019"), 4).unwrap(), d("0.0001"));
}

#[test]
fn texts_round_trip() {
    for t in ["0", "1", "-1", "0.50", "123.4500", "-0.00001", "79228162514264337593543950335"] {
        assert_eq!(d(t).to_text(), t);
    }
    assert_eq!(parts(d("0.50")), (50, 2));
    assert_eq!(parts(d("-12.5")), (-125, 1));
    assert!(Decimal::parse("abc").is_none());
    assert!(Decimal::parse("").is_none());
}

#[test]
fn constants() {
    assert!(Decimal::zero().is_zero());
    assert!(Decimal::default().is_zero());
    assert_eq!(Decimal::one(), Decimal::new(1, 0));
    assert_eq!(Decimal::new(25, 2), d("0.25"));
}

const MAX: i128 = 79228162514264337593543950335;

fn grid() -> Vec<Decimal> {
    let mut v = vec![];
    let sizes: [i128; 22] = [
        0, 1, 2, 3, 5, 7, 10, 25, 100, 999, 1000, 4096, 65535, 123456789, 4294967295, 4294967296,
        1000000000000, 18446744073709551615, 18446744073709551616, 39614081257132168796771987507,
        70000000000000000000000000000, MAX,
    ];
    for m in sizes {
        for s in [0u32, 1, 2, 3, 5, 9, 10, 14, 19, 20, 27, 28] {
            v.push(Decimal::try_from_i128_with_scale(m, s).unwrap());
            v.push(Decimal::try_from_i128_with_scale(-m, s).unwrap());
        }
    }
    v
}

fn pow(n: u32) -> i128 {
    10i128.pow(n)
}

/// The mantissa at a larger scale, if it fits.
fn at_scale(x: Decimal, s: u32) -> Option<i128> {
    let m = x.mantissa().checked_mul(pow(s - x.scale()))?;
    if m.abs() <= MAX {
        Some(m)
    } else {
        None
    }
}

#[test]
fn sums_and_differences_are_exact_on_a_grid() {
    let g = grid();
    for &a in &g {
        for &b in &g {
            let s = a.scale().max(b.scale());
            if a.mantissa() == 0 {
                assert_eq!(parts(a.checked_add(b).unwrap()), parts(b));
                let r = a.checked_sub(b).unwrap();
                assert_eq!(parts(r), (-b.mantissa(), b.scale()));
            } else if b.mantissa() == 0 {
                assert_eq!(parts(a.checked_add(b).unwrap()), parts(a));
                assert_eq!(parts(a.checked_sub(b).unwrap()), parts(a));
            } else if let (Some(x), Some(y)) = (at_scale(a, s), at_scale(b, s)) {
                if (x + y).abs() <= MAX {
                    assert_eq!(parts(a.checked_add(b).unwrap()), (x + y, s));
                }
                if (x - y).abs() <= MAX {
                    assert_eq!(parts(a.checked_sub(b).unwrap()), (x - y, s));
                }
            }
        }
    }
}

#[test]
fn products_and_quotients_are_exact_on_a_grid() {
    let g = grid();
    for &a in &g {
        for &b in &g {
            let product = a.checked_mul(b);
            if a.mantissa() == 0 || b.mantissa() == 0 {
                assert_eq!(parts(product.unwrap()), (0, 0));
            } else if let Some(p) = a.mantissa().checked_mul(b.mantissa()) {
                if p.abs() <= MAX && a.scale() + b.scale() <= 28 {
                    assert_eq!(parts(product.unwrap()), (p, a.scale() + b.scale()));
                }
            }
            let quotient = a.checked_div(b);
            if b.mantissa() == 0 {
                assert!(quotient.is_none());
            } else if a.mantissa() == 0 {
                assert_eq!(parts(quotient.unwrap()), (0, 0));
            } else if a.mantissa() % b.mantissa() == 0 {
                let q = a.mantissa() / b.mantissa();
                if a.scale() >= b.scale() {
                    assert_eq!(parts(quotient.unwrap()), (q, a.scale() - b.scale()));
                } else {
                    match q.checked_mul(pow(b.scale() - a.scale())) {
                        Some(t) if t.abs() <= MAX => assert_eq!(parts(quotient.unwrap()), (t, 0)),
                        _ => assert!(quotient.is_none()),
                    }
                }
            }
        }
    }
    for &a in &g {
        if a.scale() == 0 {
            for k in 0..20 {
                let b = Decimal::try_from_i128_with_scale(pow(k), 0).unwrap();
                let r = a.checked_div(b).unwrap();
                // r == a / 10^k, told from digits: both sides without their trailing zeros.
                let (mut m, mut s) = parts(r);
                while m != 0 && s > 0 && m % 10 == 0 {
                    m /= 10;
                    s -= 1;
                }
                let (mut n, mut t) = (a.mantissa(), k);
                while n != 0 && t > 0 && n % 10 == 0 {
                    n /= 10;
                    t -= 1;
                }
                if n == 0 {
                    assert_eq!(m, 0);
                } else {
                    assert_eq!((m, s), (n, t));
                }
            }
        }
    }
}

/// Natural numbers of any size, in limbs of nine digits, the lowest first.
type Limbs = Vec<u64>;

const LIMB: u64 = 1_000_000_000;

fn trimmed(mut v: Limbs) -> Limbs {
    while v.last() == Some(&0) {
        v.pop();
    }
    v
}

fn limbs(mut n: u128) -> Limbs {
    let mut v = vec![];
    while n > 0 {
        v.push((n % LIMB as u128) as u64);
        n /= LIMB as u128;
    }
    v
}

fn times(a: &Limbs, b: &Limbs) -> Limbs {
    let mut v = vec![0u64; a.len() + b.len() + 1];
    for (i, x) in a.iter().enumerate() {
        let mut carry = 0;
        for (j, y) in b.iter().enumerate() {
            let t = v[i + j] + x * y + carry;
            v[i + j] = t % LIMB;
            carry = t / LIMB;
        }
        v[i + b.len()] += carry;
    }
    trimmed(v)
}

fn plus(a: &Limbs, b: &Limbs) -> Limbs {
    let mut v = vec![];
    let mut carry = 0;
    for i in 0..a.len().max(b.len()) + 1 {
        let t = a.get(i).unwrap_or(&0) + b.get(i).unwrap_or(&0) + carry;
        v.push(t % LIMB);
        carry = t / LIMB;
    }
    trimmed(v)
}

fn at_most(a: &Limbs, b: &Limbs) -> bool {
    if a.len() != b.len() {
        return a.len() < b.len();
    }
    for i in (0..a.len()).rev() {
        if a[i] != b[i] {
            return a[i] < b[i];
        }
    }
    true
}

fn big_pow(n: u32) -> Limbs {
    limbs(10u128.pow(n))
}

fn size(x: Decimal) -> Limbs {
    limbs(x.mantissa().unsigned_abs())
}

const LIMIT: u128 = 79228162514264337593543950336;
const TENTH: i128 = 7922816251426433759354395034;

/// Checks that a result is the decimal nearest to `n / d`: rounded, halves to even, to as many
/// decimal places as fit, at most 28. With `full` it has just that many.
fn check_nearest(n: &Limbs, d: &Limbs, r: Option<Decimal>, full: bool) {
    let bound = times(&limbs(LIMIT), d);
    let mut t = 28;
    let mut x = times(n, &big_pow(t));
    // The digits fit if n * 10^t < 2^96 * d.
    while at_most(&bound, &x) {
        if t == 0 {
            assert!(r.is_none());
            return;
        }
        t -= 1;
        x = times(n, &big_pow(t));
    }
    let two_x = times(&limbs(2), &x);
    // Rounding up to 2^96 takes a fraction of a half or more above the largest mantissa, an odd one.
    if at_most(&times(&limbs(2 * LIMIT - 1), d), &two_x) {
        match r {
            None => assert_eq!(t, 0),
            Some(r) => assert_eq!((r.mantissa().abs(), r.scale() + 1), (TENTH, t)),
        }
        return;
    }
    let r = r.unwrap();
    assert!(if full { r.scale() == t } else { r.scale() <= t });
    let m = times(&size(r), &big_pow(t - r.scale()));
    let two_md = times(&times(&limbs(2), &m), d);
    assert!(at_most(&two_md, &plus(&two_x, d)));
    assert!(at_most(&two_x, &plus(&two_md, d)));
    if plus(&two_x, d) == two_md || plus(&two_md, d) == two_x {
        assert!(m.is_empty() || m[0] % 2 == 0);
    }
}

/// Decimals of all sizes, by a fixed rule.
fn scattered(count: usize) -> Vec<Decimal> {
    let mut state: u128 = 0x2545_f491_4f6c_dd1d_1234_5678_9abc_def1;
    let mut v = vec![];
    for i in 0..count {
        state = state.wrapping_mul(0xda94_2042_e4dd_58b5).wrapping_add(0x1357_9bdf_0246_8ace);
        let mantissa = ((state >> 16) >> (16 + (i * 7) % 96)) as i128;
        let mantissa = if i % 2 == 0 { mantissa } else { -mantissa };
        v.push(Decimal::try_from_i128_with_scale(mantissa, (state >> 100) as u32 % 29).unwrap());
    }
    v
}

fn pairs() -> Vec<(Decimal, Decimal)> {
    let g = grid();
    let v = scattered(160);
    let mut r = vec![];
    for &a in g.iter().step_by(7) {
        for &b in &g {
            r.push((a, b));
        }
    }
    for &a in &v {
        for &b in &v {
            r.push((a, b));
        }
    }
    r
}

/// The total of two mantissas at their larger scale: its sign and size.
fn total(a: Decimal, b: Decimal) -> (bool, Limbs) {
    let s = a.scale().max(b.scale());
    let x = times(&size(a), &big_pow(s - a.scale()));
    let y = times(&size(b), &big_pow(s - b.scale()));
    let (na, nb) = (a.mantissa() < 0, b.mantissa() < 0);
    if na == nb {
        return (na, plus(&x, &y));
    }
    // The larger minus the smaller one.
    let (negative, x, y) = if at_most(&y, &x) { (na, x, y) } else { (nb, y, x) };
    let mut v = x.clone();
    let mut borrow = 0;
    for i in 0..v.len() {
        let take = y.get(i).unwrap_or(&0) + borrow;
        if v[i] < take {
            v[i] = v[i] + LIMB - take;
            borrow = 1;
        } else {
            v[i] -= take;
            borrow = 0;
        }
    }
    (negative, trimmed(v))
}

#[test]
fn sums_are_nearest() {
    for (a, b) in pairs() {
        if a.mantissa() == 0 || b.mantissa() == 0 {
            continue;
        }
        let s = a.scale().max(b.scale());
        for (b, r) in [(b, a.checked_add(b)), (b.negate(), a.checked_sub(b))] {
            let (negative, t) = total(a, b);
            if at_most(&t, &limbs(MAX as u128)) {
                let r = r.unwrap();
                assert_eq!((size(r), r.scale()), (t, s));
            } else {
                check_nearest(&t, &big_pow(s), r, true);
            }
            if let Some(r) = r {
                assert!(r.mantissa() == 0 || (r.mantissa() < 0) == negative);
            }
        }
    }
    let max = |scale| Decimal::try_from_i128_with_scale(MAX, scale).unwrap();
    assert!(max(0).checked_add(d("0.5")).is_none());
    assert_eq!(parts(max(0).checked_add(d("0.4")).unwrap()), (MAX, 0));
    assert_eq!(parts(max(1).checked_add(d("0.05")).unwrap()), (TENTH, 0));
}

#[test]
fn products_are_nearest() {
    for (a, b) in pairs() {
        let s = a.scale() + b.scale();
        let r = a.checked_mul(b);
        let n = times(&size(a), &size(b));
        let small = |x: Decimal| x.mantissa().abs() < 1 << 32;
        if n.is_empty() || (small(a) && small(b) && s > 47) {
            assert_eq!(parts(r.unwrap()), (0, 0));
            if !n.is_empty() {
                check_nearest(&n, &times(&big_pow(28), &big_pow(s - 28)), r, false);
            }
        } else if s <= 28 && at_most(&n, &limbs(MAX as u128)) {
            let r = r.unwrap();
            assert_eq!((size(r), r.scale()), (n, s));
        } else {
            let low = s.min(28);
            check_nearest(&n, &times(&big_pow(low), &big_pow(s - low)), r, true);
        }
        if let Some(r) = r {
            let negative = (a.mantissa() < 0) != (b.mantissa() < 0);
            assert!(r.mantissa() == 0 || (r.mantissa() < 0) == negative);
        }
    }
}

#[test]
fn quotients_are_nearest() {
    for (a, b) in pairs() {
        let q = a.checked_div(b);
        if b.mantissa() == 0 {
            assert!(q.is_none());
            continue;
        }
        let n = times(&size(a), &big_pow(b.scale()));
        let d = times(&size(b), &big_pow(a.scale()));
        check_nearest(&n, &d, q, false);
        if let Some(q) = q {
            let negative = (a.mantissa() < 0) != (b.mantissa() < 0);
            assert!(q.mantissa() == 0 || (q.mantissa() < 0) == negative);
        }
    }
}

#[test]
fn truncation_gives_the_largest_multiple_below() {
    let g = grid();
    for &a in &g {
        for dp in [0u32, 1, 4, 8, 19] {
            if let Some(t) = truncate_decimal(a, dp) {
                assert!(t <= a);
                // A multiple of 10^-dp has at most dp decimal places.
                let (mut m, mut s) = parts(t);
                while m != 0 && s > 0 && m % 10 == 0 {
                    m /= 10;
                    s -= 1;
                }
                assert!(m == 0 || s <= dp);
                if let Some(next) = t.checked_add(Decimal::try_new(1, dp).unwrap()) {
                    if let Some(exact) = next.checked_sub(t) {
                        if exact == Decimal::try_new(1, dp).unwrap() {
                            assert!(a < next);
                        }
                    }
                }
            }
        }
    }
    assert_eq!(truncate_decimal(d("50.00006"), 4).unwrap(), d("50"));
    assert_eq!(truncate_decimal(d("-0.00001"), 4).unwrap(), d("-0.0001"));
    // The scaled value does not fit as it stands, but only zeros are cut off.
    let long = d("1.2345678901234567890123456789");
    assert_eq!(truncate_decimal(long, 8).unwrap(), d("1.23456789"));
    assert_eq!(truncate_decimal(d("0.9999999999999999999999999999"), 8).unwrap(), d("0.99999999"));
    assert!(truncate_decimal(d("1"), 20).is_none());
}

#[test]
fn order_rounding_and_text_on_a_grid() {
    let g = grid();
    for &a in &g {
        for &b in &g {
            let s = a.scale().max(b.scale());
            let x = a.mantissa().checked_mul(pow(s - a.scale()));
            let y = b.mantissa().checked_mul(pow(s - b.scale()));
            if let (Some(x), Some(y)) = (x, y) {
                assert_eq!(a < b, x < y);
                assert_eq!(a == b, x == y);
                assert_eq!(a > b, x > y);
            }
        }
        for dp in [0u32, 1, 2, 5, 9, 20, 28] {
            let r = a.round_dp(dp);
            if a.scale() <= dp {
                assert_eq!(parts(r), parts(a));
            } else {
                let unit = pow(a.scale() - dp);
                let q = a.mantissa().abs() / unit;
                let rest = a.mantissa().abs() % unit;
                let up = 2 * rest > unit || (2 * rest == unit && q % 2 == 1);
                let want = if up { q + 1 } else { q };
                assert_eq!(r.mantissa().abs(), want);
                assert_eq!(r.scale(), dp);
                assert!(want == 0 || (r.mantissa() < 0) == (a.mantissa() < 0));
            }
        }
        assert_eq!(parts(a.floor()), (a.mantissa().div_euclid(pow(a.scale())), 0));
        let text = a.to_text();
        assert_eq!(parts(Decimal::parse(&text).unwrap()).0, a.mantissa());
        let digits = a.mantissa().unsigned_abs() / (pow(a.scale()) as u128);
        let mut want = if a.mantissa() < 0 { "-".to_string() } else { String::new() };
        want.push_str(&digits.to_string());
        if a.scale() > 0 {
            let rest = a.mantissa().unsigned_abs() % (pow(a.scale()) as u128);
            want.push('.');
            want.push_str(&format!("{:0width$}", rest, width = a.scale() as usize));
        }
        assert_eq!(text, want);
    }
}
