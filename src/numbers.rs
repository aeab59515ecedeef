//! Exact reading of the numeric fields of a dump file.
use vstd::prelude::*;

verus! {

pub open spec fn is_digit(b: u8) -> bool {
    48 <= b <= 57
}

pub open spec fn all_digits(t: Seq<u8>) -> bool {
    forall|k: int| 0 <= k < t.len() ==> is_digit(#[trigger] t[k])
}

/// The value of a string of decimal digits, most significant first.
pub open spec fn digits_value(t: Seq<u8>) -> int
    decreases t.len(),
{
    if t.len() == 0 {
        0
    } else {
        10 * digits_value(t.drop_last()) + (t.last() - 48)
    }
}

/// Length of a leading sign character (`+` or `-`), 0 or 1.
pub open spec fn sign_len(t: Seq<u8>) -> int {
    if t.len() > 0 && (t[0] == 43 || t[0] == 45) {
        1
    } else {
        0
    }
}

/// An optionally signed, non-empty string of digits, and its value.
pub open spec fn signed_int_value(t: Seq<u8>) -> Option<int> {
    let body = t.skip(sign_len(t));
    if body.len() > 0 && all_digits(body) {
        if t.len() > 0 && t[0] == 45 {
            Some(-digits_value(body))
        } else {
            Some(digits_value(body))
        }
    } else {
        None
    }
}

/// A token read as an `i32`: a signed integer within the type's range.
pub open spec fn i32_token(t: Seq<u8>) -> Option<i32> {
    match signed_int_value(t) {
        Some(v) => if i32::MIN <= v <= i32::MAX {
            Some(v as i32)
        } else {
            None
        },
        None => None,
    }
}

/// A token read as a `usize`: digits with an optional `+`, within range.
pub open spec fn usize_token(t: Seq<u8>) -> Option<usize> {
    match signed_int_value(t) {
        Some(v) => if !(t.len() > 0 && t[0] == 45) && v <= usize::MAX {
            Some(v as usize)
        } else {
            None
        },
        None => None,
    }
}

pub proof fn lemma_digits_value_nonneg(t: Seq<u8>)
    requires
        all_digits(t),
    ensures
        digits_value(t) >= 0,
    decreases t.len(),
{
    if t.len() > 0 {
        lemma_digits_value_nonneg(t.drop_last());
    }
}

/// A prefix of a digit string is worth no more than the whole string.
pub proof fn lemma_digits_value_prefix(t: Seq<u8>, k: int)
    requires
        all_digits(t),
        0 <= k <= t.len(),
    ensures
        digits_value(t.take(k)) <= digits_value(t),
    decreases t.len(),
{
    if k < t.len() {
        assert(t.drop_last().take(k) =~= t.take(k));
        lemma_digits_value_prefix(t.drop_last(), k);
        lemma_digits_value_nonneg(t.drop_last());
    } else {
        assert(t.take(k) =~= t);
    }
}

/// Value of the digits `pre` followed by `text[start..end]`, where `init` is
/// the value of `pre`; `None` when it exceeds `bound` or a byte is not a digit.
fn read_digits(text: &[u8], start: usize, end: usize, pre: Ghost<Seq<u8>>, init: u64, bound: u64) -> (r: Option<u64>)
    requires
        start <= end <= text@.len(),
        all_digits(pre@),
        init == digits_value(pre@),
        init <= bound,
    ensures
        ({
            let full = pre@ + text@.subrange(start as int, end as int);
            match r {
                Some(v) => all_digits(full) && v == digits_value(full) && v <= bound,
                None => !all_digits(full) || digits_value(full) > bound,
            }
        }),
{
    let ghost t = text@.subrange(start as int, end as int);
    let ghost full = pre@ + t;
    let mut acc: u64 = init;
    let mut i: usize = start;
    assert(pre@ + t.take(0) =~= pre@);
    while i < end
        invariant
            start <= i <= end <= text@.len(),
            t == text@.subrange(start as int, end as int),
            full == pre@ + t,
            all_digits(pre@ + t.take(i - start)),
            acc == digits_value(pre@ + t.take(i - start)),
            acc <= bound,
        decreases end - i,
    {
        let b = text[i];
        let ghost k = i - start;
        assert(full.take(pre@.len() + k + 1) =~= pre@ + t.take(k + 1));
        if b < 48 || b > 57 {
            assert(!is_digit(full[pre@.len() + k]));
            return None;
        }
        assert((pre@ + t.take(k + 1)).drop_last() =~= pre@ + t.take(k));
        assert(all_digits(pre@ + t.take(k + 1))) by {
            assert forall|j: int| 0 <= j < (pre@ + t.take(k + 1)).len() implies is_digit(
                #[trigger] (pre@ + t.take(k + 1))[j],
            ) by {
                if j < pre@.len() + k {
                    assert((pre@ + t.take(k + 1))[j] == (pre@ + t.take(k))[j]);
                }
            }
        }
        let d = (b - 48) as u64;
        if d > bound || acc > (bound - d) / 10 {
            proof {
                assert(digits_value(pre@ + t.take(k + 1)) == 10 * acc + d);
                assert(10 * acc + d > bound) by (nonlinear_arith)
                    requires d > bound || acc > (bound - d) / 10, acc >= 0;
                if all_digits(full) {
                    lemma_digits_value_prefix(full, pre@.len() + k + 1);
                }
            }
            return None;
        }
        assert(10 * acc + d <= bound) by (nonlinear_arith)
            requires acc <= (bound - d) / 10, d <= 9, 0 <= bound - d;
        acc = acc * 10 + d;
        i = i + 1;
    }
    assert(t.take(end - start) =~= t);
    Some(acc)
}

/// Position of the first byte after an optional leading sign in `text[start..end]`.
fn skip_sign(text: &[u8], start: usize, end: usize) -> (r: usize)
    requires
        start <= end <= text@.len(),
    ensures
        r == start + sign_len(text@.subrange(start as int, end as int)),
        text@.subrange(start as int, end as int).skip(sign_len(text@.subrange(start as int, end as int)))
            =~= text@.subrange(r as int, end as int),
{
    if start < end && (text[start] == 43 || text[start] == 45) {
        start + 1
    } else {
        start
    }
}

/// Reads `text[start..end]` as an `i32`.
pub fn parse_i32(text: &[u8], start: usize, end: usize) -> (r: Option<i32>)
    requires
        start <= end <= text@.len(),
    ensures
        r == i32_token(text@.subrange(start as int, end as int)),
{
    let ghost t = text@.subrange(start as int, end as int);
    let s = skip_sign(text, start, end);
    assert(seq![] + text@.subrange(s as int, end as int) =~= t.skip(sign_len(t)));
    if s == end {
        return None;
    }
    let neg = text[start] == 45;
    assert(neg == (t.len() > 0 && t[0] == 45));
    match read_digits(text, s, end, Ghost(Seq::empty()), 0, 2147483648) {
        None => None,
        Some(v) => {
            if neg {
                Some((0 - (v as i64)) as i32)
            } else if v <= 2147483647 {
                Some(v as i32)
            } else {
                None
            }
        },
    }
}

/// Reads `text[start..end]` as a `usize`.
pub fn parse_usize(text: &[u8], start: usize, end: usize) -> (r: Option<usize>)
    requires
        start <= end <= text@.len(),
    ensures
        r == usize_token(text@.subrange(start as int, end as int)),
{
    let ghost t = text@.subrange(start as int, end as int);
    let s = skip_sign(text, start, end);
    assert(seq![] + text@.subrange(s as int, end as int) =~= t.skip(sign_len(t)));
    if s == end || text[start] == 45 {
        return None;
    }
    match read_digits(text, s, end, Ghost(Seq::empty()), 0, u64::MAX) {
        None => None,
        Some(v) => {
            if v <= usize::MAX as u64 {
                Some(v as usize)
            } else {
                None
            }
        },
    }
}

/// An exact decimal number, `mantissa * 10^exponent`.
#[derive(Clone, Copy, Debug, PartialEq, Eq, Structural)]
pub struct Decimal {
    pub mantissa: i64,
    pub exponent: i32,
}

/// The first index at or after `k` that holds `a` or `b`, or `t.len()`.
pub open spec fn find_either(t: Seq<u8>, a: u8, b: u8, k: int) -> int
    decreases t.len() - k,
{
    if k >= t.len() || k < 0 {
        t.len() as int
    } else if t[k] == a || t[k] == b {
        k
    } else {
        find_either(t, a, b, k + 1)
    }
}

/// The number of `0` bytes that end `s`.
pub open spec fn trailing_zeros(s: Seq<u8>) -> int
    decreases s.len(),
{
    if s.len() > 0 && s.last() == 48 {
        1 + trailing_zeros(s.drop_last())
    } else {
        0
    }
}

/// A real-valued field: an optional sign, digits with at most one decimal
/// point (at least one digit in all), and an optional exponent `e`/`E`
/// followed by an `i32`. Trailing zero digits are dropped into the exponent;
/// zero has exponent 0. Its value must then fit a `Decimal` exactly.
pub open spec fn decimal_token(t: Seq<u8>) -> Option<Decimal> {
    let body = t.skip(sign_len(t));
    let e = find_either(body, 101, 69, 0);
    let mant = body.take(e);
    let d = find_either(mant, 46, 46, 0);
    let ip = mant.take(d);
    let fp = if d < mant.len() { mant.skip(d + 1) } else { Seq::<u8>::empty() };
    let exp = if e < body.len() { i32_token(body.skip(e + 1)) } else { Some(0i32) };
    let dg = ip + fp;
    let z = trailing_zeros(dg);
    let kept = dg.take(dg.len() - z);
    let m = if t.len() > 0 && t[0] == 45 { -digits_value(kept) } else { digits_value(kept) };
    if dg.len() > 0 && all_digits(dg) && exp is Some {
        let x = if kept.len() == 0 { 0 } else { exp.unwrap() - fp.len() + z };
        if i64::MIN <= m <= i64::MAX && i32::MIN <= x <= i32::MAX {
            Some(Decimal { mantissa: m as i64, exponent: x as i32 })
        } else {
            None
        }
    } else {
        None
    }
}

proof fn lemma_trailing_zeros(s: Seq<u8>)
    ensures
        0 <= trailing_zeros(s) <= s.len(),
        forall|k: int| s.len() - trailing_zeros(s) <= k < s.len() ==> s[k] == 48,
        trailing_zeros(s) < s.len() ==> s[s.len() - trailing_zeros(s) - 1] != 48,
    decreases s.len(),
{
    if s.len() > 0 && s.last() == 48 {
        lemma_trailing_zeros(s.drop_last());
        assert forall|k: int| s.len() - trailing_zeros(s) <= k < s.len() implies s[k] == 48 by {
            if k < s.len() - 1 {
                assert(s[k] == s.drop_last()[k]);
            }
        }
    }
}

proof fn lemma_trailing_zeros_concat(a: Seq<u8>, b: Seq<u8>)
    ensures
        trailing_zeros(a + b) == if trailing_zeros(b) < b.len() {
            trailing_zeros(b)
        } else {
            b.len() + trailing_zeros(a)
        },
    decreases b.len(),
{
    lemma_trailing_zeros(b);
    if b.len() == 0 {
        assert(a + b =~= a);
    } else {
        assert((a + b).drop_last() =~= a + b.drop_last());
        lemma_trailing_zeros_concat(a, b.drop_last());
    }
}

/// A digit string is all digits exactly when what is left after its
/// trailing zeros is.
proof fn lemma_kept_digits(dg: Seq<u8>)
    ensures
        all_digits(dg) <==> all_digits(dg.take(dg.len() - trailing_zeros(dg))),
{
    lemma_trailing_zeros(dg);
    let kept = dg.take(dg.len() - trailing_zeros(dg));
    if all_digits(kept) {
        assert forall|k: int| 0 <= k < dg.len() implies is_digit(#[trigger] dg[k]) by {
            if k < kept.len() {
                assert(dg[k] == kept[k]);
            }
        }
    }
    if all_digits(dg) {
        assert forall|k: int| 0 <= k < kept.len() implies is_digit(#[trigger] kept[k]) by {
            assert(dg[k] == kept[k]);
        }
    }
}

/// The position in `lo..=hi` where the trailing zeros of `text[lo..hi]` begin.
fn strip_zeros(text: &[u8], lo: usize, hi: usize) -> (r: usize)
    requires
        lo <= hi <= text@.len(),
    ensures
        lo <= r <= hi,
        hi - r == trailing_zeros(text@.subrange(lo as int, hi as int)),
{
    let mut p: usize = hi;
    while p > lo && text[p - 1] == 48
        invariant
            lo <= p <= hi <= text@.len(),
            trailing_zeros(text@.subrange(lo as int, hi as int)) == (hi - p) + trailing_zeros(
                text@.subrange(lo as int, p as int),
            ),
        decreases p - lo,
    {
        assert(text@.subrange(lo as int, p as int).drop_last() =~= text@.subrange(lo as int, p - 1));
        p = p - 1;
    }
    p
}

/// The first position in `text[start..end]` holding `a` or `b`, or `end`.
fn find_in(text: &[u8], start: usize, end: usize, a: u8, b: u8) -> (r: usize)
    requires
        start <= end <= text@.len(),
    ensures
        start <= r <= end,
        r - start == find_either(text@.subrange(start as int, end as int), a, b, 0),
{
    let ghost t = text@.subrange(start as int, end as int);
    let mut i: usize = start;
    while i < end
        invariant
            start <= i <= end <= text@.len(),
            t == text@.subrange(start as int, end as int),
            find_either(t, a, b, 0) == find_either(t, a, b, i - start),
        decreases end - i,
    {
        if text[i] == a || text[i] == b {
            return i;
        }
        i = i + 1;
    }
    i
}

/// The value of the digits `text[s..d]` followed by `text[fs..e]` once their
/// trailing zeros are dropped, with the positions in each part where those
/// zeros begin; `None` when it exceeds `i64::MAX + 1` or a byte is not a digit.
fn kept_value(text: &[u8], s: usize, d: usize, fstart: usize, e: usize) -> (r: (Option<u64>, usize, usize))
    requires
        s <= d <= fstart <= e <= text@.len(),
    ensures
        ({
            let dg = text@.subrange(s as int, d as int) + text@.subrange(fstart as int, e as int);
            let z = trailing_zeros(dg);
            let kept = dg.take(dg.len() - z);
            &&& fstart <= r.1 <= e
            &&& s <= r.2 <= d
            &&& (e - r.1) + (d - r.2) == z
            &&& (kept.len() == 0 <==> r.1 == fstart && r.2 == s)
            &&& match r.0 {
                Some(v) => all_digits(dg) && v == digits_value(kept) && v <= 9223372036854775808,
                None => !all_digits(dg) || digits_value(kept) > 9223372036854775808,
            }
        }),
{
    let ghost ip = text@.subrange(s as int, d as int);
    let ghost fp = text@.subrange(fstart as int, e as int);
    let ghost dg = ip + fp;
    let pf = strip_zeros(text, fstart, e);
    let pi = if pf > fstart { d } else { strip_zeros(text, s, d) };
    proof {
        lemma_trailing_zeros_concat(ip, fp);
        lemma_trailing_zeros(fp);
        lemma_trailing_zeros(ip);
        lemma_kept_digits(dg);
    }
    let ghost kept = dg.take(dg.len() - trailing_zeros(dg));
    let m: u64 = if pf > fstart {
        assert(kept =~= ip + text@.subrange(fstart as int, pf as int));
        let lead = match read_digits(text, s, d, Ghost(Seq::empty()), 0, 9223372036854775808) {
            None => {
                assert(Seq::<u8>::empty() + ip =~= ip);
                proof {
                    if all_digits(kept) {
                        assert(kept.take(ip.len() as int) =~= ip);
                        lemma_digits_value_prefix(kept, ip.len() as int);
                    }
                }
                return (None, pf, pi);
            },
            Some(v) => v,
        };
        assert(Seq::<u8>::empty() + ip =~= ip);
        match read_digits(text, fstart, pf, Ghost(ip), lead, 9223372036854775808) {
            None => {
                return (None, pf, pi);
            },
            Some(v) => v,
        }
    } else {
        assert(kept =~= text@.subrange(s as int, pi as int));
        assert(Seq::<u8>::empty() + kept =~= kept);
        match read_digits(text, s, pi, Ghost(Seq::empty()), 0, 9223372036854775808) {
            None => {
                return (None, pf, pi);
            },
            Some(v) => v,
        }
    };
    (Some(m), pf, pi)
}

/// Reads `text[start..end]` as a `Decimal`.
#[verifier::rlimit(40)]
pub fn parse_decimal(text: &[u8], start: usize, end: usize) -> (r: Option<Decimal>)
    requires
        start <= end <= text@.len(),
    ensures
        r == decimal_token(text@.subrange(start as int, end as int)),
{
    let ghost t = text@.subrange(start as int, end as int);
    let s = skip_sign(text, start, end);
    let ghost body = t.skip(sign_len(t));
    let e = find_in(text, s, end, 101, 69);
    let ghost mant = body.take(e - s);
    assert(mant =~= text@.subrange(s as int, e as int));
    let d = find_in(text, s, e, 46, 46);
    let ghost ip = mant.take(d - s);
    assert(ip =~= text@.subrange(s as int, d as int));
    let fstart = if d < e { d + 1 } else { e };
    let ghost fp = if d < e { mant.skip(d - s + 1) } else { Seq::<u8>::empty() };
    assert(fp =~= text@.subrange(fstart as int, e as int));
    let exp: Option<i32> = if e < end {
        assert(body.skip(e - s + 1) =~= text@.subrange(e + 1, end as int));
        parse_i32(text, e + 1, end)
    } else {
        Some(0)
    };
    let neg = start < end && text[start] == 45;
    assert(neg == (t.len() > 0 && t[0] == 45));
    if d == s && fstart == e {
        return None;
    }
    let x = match exp {
        None => {
            return None;
        },
        Some(x) => x,
    };
    let (mv, pf, pi) = kept_value(text, s, d, fstart, e);
    assert(ip + fp =~= text@.subrange(s as int, d as int) + text@.subrange(fstart as int, e as int));
    let m = match mv {
        None => {
            return None;
        },
        Some(v) => v,
    };
    let xe: i128 = if pi == s && pf == fstart {
        0
    } else {
        x as i128 - (e - fstart) as i128 + ((e - pf) + (d - pi)) as i128
    };
    if xe < i32::MIN as i128 || xe > i32::MAX as i128 {
        return None;
    }
    if neg {
        Some(Decimal { mantissa: (0 - (m as i128)) as i64, exponent: xe as i32 })
    } else if m <= 9223372036854775807 {
        Some(Decimal { mantissa: m as i64, exponent: xe as i32 })
    } else {
        None
    }
}

} // verus!
