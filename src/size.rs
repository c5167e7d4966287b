//! Reading sizes such as `512`, `1.5M` or `2G`, counted in bytes.
use vstd::arithmetic::div_mod::{lemma_div_denominator, lemma_hoist_over_denominator};
use vstd::prelude::*;

use crate::text::{
    all_digits, before_first, decimal_value, digit_value, find_char, first_index, has_char,
    is_digit,
};

verus! {

pub open spec fn pow10(k: nat) -> nat
    decreases k,
{
    if k == 0 {
        1
    } else {
        10 * pow10((k - 1) as nat)
    }
}

/// The value of the decimal digits `whole`, capped at 2^64.
pub(crate) fn parse_whole(whole: &str) -> (r: Option<u128>)
    ensures
        r is Some <==> all_digits(whole@),
        r is Some ==> r->0 as int == if decimal_value(whole@) < 0x1_0000_0000_0000_0000 {
            decimal_value(whole@) as int
        } else {
            0x1_0000_0000_0000_0000
        },
{
    let cap: u128 = 0x1_0000_0000_0000_0000;
    let wn = whole.unicode_len();
    let mut acc: u128 = 0;
    let mut i: usize = 0;
    assert(whole@.subrange(0, 0) =~= Seq::<char>::empty());
    while i < wn
        invariant
            wn == whole@.len(),
            i <= wn,
            cap == 0x1_0000_0000_0000_0000,
            acc <= cap,
            all_digits(whole@.subrange(0, i as int)),
            acc as int == if decimal_value(whole@.subrange(0, i as int)) < cap {
                decimal_value(whole@.subrange(0, i as int)) as int
            } else {
                cap as int
            },
        decreases wn - i,
    {
        let c = whole.get_char(i);
        if !('0' <= c && c <= '9') {
            assert(!all_digits(whole@)) by {
                assert(!is_digit(whole@[i as int]));
            }
            return None;
        }
        let ghost prev = whole@.subrange(0, i as int);
        let ghost next = whole@.subrange(0, i + 1);
        assert(next.drop_last() == prev);
        assert(all_digits(next)) by {
            assert forall|j: int| 0 <= j < next.len() implies is_digit(#[trigger] next[j]) by {
                if j < i {
                    assert(next[j] == prev[j]);
                }
            }
        }
        let d = (c as u32 - '0' as u32) as u128;
        let grown = acc * 10 + d;
        proof {
            let v = decimal_value(prev) as int;
            assert(decimal_value(next) == v * 10 + d);
            if v >= cap {
                assert(v * 10 + d >= cap) by (nonlinear_arith)
                    requires
                        v >= cap,
                        d >= 0,
                ;
            }
        }
        acc = if grown < cap {
            grown
        } else {
            cap
        };
        i = i + 1;
    }
    assert(whole@.subrange(0, wn as int) == whole@);
    Some(acc)
}

/// `fraction` read as the digits after a decimal point, times `unit`, rounded down.
fn parse_fraction(fraction: &str, unit: u64) -> (r: Option<u64>)
    requires
        1 <= unit <= 1024 * 1024 * 1024 * 1024,
    ensures
        r is Some <==> all_digits(fraction@),
        r is Some ==> r->0 as int == (decimal_value(fraction@) * unit) as int / pow10(
            fraction@.len(),
        ) as int,
        r is Some ==> r->0 < unit,
{
    // Read from the last digit to the first: each step keeps the exact floor.
    let fnl = fraction.unicode_len();
    let mut x: u64 = 0;
    let mut j: usize = fnl;
    assert(fraction@.subrange(fnl as int, fnl as int) =~= Seq::<char>::empty());
    while j > 0
        invariant
            fnl == fraction@.len(),
            j <= fnl,
            1 <= unit <= 1024 * 1024 * 1024 * 1024,
            all_digits(fraction@.subrange(j as int, fnl as int)),
            x as int == (decimal_value(fraction@.subrange(j as int, fnl as int)) * unit) as int
                / pow10((fnl - j) as nat) as int,
            x < unit,
        decreases j,
    {
        let c = fraction.get_char(j - 1);
        if !('0' <= c && c <= '9') {
            assert(!all_digits(fraction@)) by {
                assert(!is_digit(fraction@[j - 1]));
            }
            return None;
        }
        let d = (c as u32 - '0' as u32) as u64;
        let ghost tail = fraction@.subrange(j as int, fnl as int);
        let ghost longer = fraction@.subrange(j - 1, fnl as int);
        assert(longer =~= seq![c] + tail);
        proof {
            lemma_decimal_front(c, tail);
            assert(all_digits(longer)) by {
                assert forall|q: int| 0 <= q < longer.len() implies is_digit(#[trigger] longer[q]) by {
                    if q > 0 {
                        assert(longer[q] == tail[q - 1]);
                    }
                }
            }
            lemma_pow10_positive(tail.len());
            lemma_fraction_step(d as int, decimal_value(tail) as int, pow10(tail.len()) as int, unit as int);
            assert(pow10(longer.len()) == pow10(tail.len()) * 10);
            assert(all_digits(longer)) by {
                assert forall|q: int| 0 <= q < longer.len() implies is_digit(#[trigger] longer[q]) by {
                    if q > 0 {
                        assert(longer[q] == tail[q - 1]);
                    }
                }
            }
            lemma_decimal_bound(longer);
            let v = decimal_value(longer) as int;
            let p = pow10(longer.len()) as int;
            let u = unit as int;
            assert((v * u) / p < u) by (nonlinear_arith)
                requires
                    0 <= v < p,
                    0 < u,
            ;
        }
        assert(d * unit + x <= 10 * unit) by (nonlinear_arith)
            requires
                d <= 9,
                x < unit,
        ;
        x = (d * unit + x) / 10;
        j = j - 1;
    }
    assert(fraction@.subrange(0, fnl as int) == fraction@);
    Some(x)
}

/// The number of bytes that a size suffix stands for.
pub open spec fn unit_of(c: char) -> nat {
    if c == 'K' {
        1024
    } else if c == 'M' {
        1024 * 1024
    } else if c == 'G' {
        1024 * 1024 * 1024
    } else if c == 'T' {
        1024 * 1024 * 1024 * 1024
    } else {
        1
    }
}

pub open spec fn is_unit(c: char) -> bool {
    c == 'K' || c == 'M' || c == 'G' || c == 'T'
}

/// `s` without its unit suffix, if it has one.
pub open spec fn number_part(s: Seq<char>) -> Seq<char> {
    if s.len() > 0 && is_unit(s.last()) {
        s.drop_last()
    } else {
        s
    }
}

/// The bytes that one of the number in `s` stands for.
pub open spec fn unit_part(s: Seq<char>) -> nat {
    if s.len() > 0 && is_unit(s.last()) {
        unit_of(s.last())
    } else {
        1
    }
}

/// The number of `s` without a leading `+`.
pub open spec fn unsigned_part(s: Seq<char>) -> Seq<char> {
    let t = number_part(s);
    if t.len() > 0 && t[0] == '+' {
        t.drop_first()
    } else {
        t
    }
}

/// The digits before the decimal point.
pub open spec fn whole_digits(s: Seq<char>) -> Seq<char> {
    before_first(unsigned_part(s), '.')
}

/// The digits after the decimal point.
pub open spec fn fraction_digits(s: Seq<char>) -> Seq<char> {
    let t = unsigned_part(s);
    if has_char(t, '.') {
        t.subrange(first_index(t, '.') + 1, t.len() as int)
    } else {
        Seq::empty()
    }
}

/// `s` spells a size: `[+]digits[.digits]` with at least one digit, then an
/// optional suffix `K`, `M`, `G` or `T` (powers of 1024).
pub open spec fn size_text_valid(s: Seq<char>) -> bool {
    &&& all_digits(whole_digits(s))
    &&& all_digits(fraction_digits(s))
    &&& whole_digits(s).len() + fraction_digits(s).len() > 0
}

/// The exact number of bytes that `s` spells, rounded down.
pub open spec fn size_value(s: Seq<char>) -> nat {
    decimal_value(whole_digits(s)) * unit_part(s) + (decimal_value(fraction_digits(s))
        * unit_part(s)) / pow10(fraction_digits(s).len())
}

/// `v`, saturated to the largest `u64`.
pub open spec fn saturate(v: nat) -> u64 {
    if v > u64::MAX {
        u64::MAX
    } else {
        v as u64
    }
}

proof fn lemma_pow10_positive(k: nat)
    ensures
        pow10(k) > 0,
    decreases k,
{
    if k > 0 {
        lemma_pow10_positive((k - 1) as nat);
    }
}

proof fn lemma_decimal_bound(t: Seq<char>)
    requires
        all_digits(t),
    ensures
        decimal_value(t) < pow10(t.len()),
    decreases t.len(),
{
    if t.len() > 0 {
        let u = t.drop_last();
        assert(all_digits(u)) by {
            assert forall|i: int| 0 <= i < u.len() implies is_digit(#[trigger] u[i]) by {
                assert(is_digit(t[i]));
            }
        }
        lemma_decimal_bound(u);
        assert(is_digit(t[t.len() - 1]));
        let v = decimal_value(u);
        let p = pow10(u.len());
        let d = digit_value(t.last());
        assert(v * 10 + d < p * 10) by (nonlinear_arith)
            requires
                v < p,
                0 <= d < 10,
        ;
    }
}

proof fn lemma_decimal_front(c: char, t: Seq<char>)
    requires
        is_digit(c),
        all_digits(t),
    ensures
        decimal_value(seq![c] + t) == digit_value(c) * pow10(t.len()) + decimal_value(t),
    decreases t.len(),
{
    let s = seq![c] + t;
    let d = digit_value(c);
    if t.len() == 0 {
        assert(s.drop_last() =~= Seq::<char>::empty());
        assert(s.last() == c);
        assert(decimal_value(s.drop_last()) == 0);
        assert(pow10(0) == 1);
        assert(decimal_value(s) == d);
        assert(decimal_value(t) == 0);
        assert(d * pow10(t.len()) == d);
    } else {
        let u = t.drop_last();
        assert(s.drop_last() =~= seq![c] + u);
        assert(s.last() == t.last());
        assert(all_digits(u)) by {
            assert forall|i: int| 0 <= i < u.len() implies is_digit(#[trigger] u[i]) by {
                assert(is_digit(t[i]));
            }
        }
        assert(is_digit(t[t.len() - 1]));
        lemma_decimal_front(c, u);
        let p = pow10(u.len());
        let v = decimal_value(u);
        let l = digit_value(t.last());
        assert(pow10(t.len()) == 10 * p);
        assert(decimal_value(t) == v * 10 + l);
        assert(decimal_value(seq![c] + u) == d * p + v);
        assert(decimal_value(s) == (d * p + v) * 10 + l);
        assert((d * p + v) * 10 + l == d * (10 * p) + (v * 10 + l)) by (nonlinear_arith);
        assert(decimal_value(s) == d * pow10(t.len()) + decimal_value(t));
    }
}

/// One step of reading a fraction from its last digit to its first.
proof fn lemma_fraction_step(d: int, v: int, p: int, u: int)
    requires
        0 <= d,
        0 <= v,
        0 < p,
        0 < u,
    ensures
        (d * u + (v * u) / p) / 10 == ((d * p + v) * u) / (p * 10),
{
    lemma_hoist_over_denominator(v * u, d * u, p as nat);
    assert((d * p + v) * u == v * u + (d * u) * p) by (nonlinear_arith);
    assert(v * u + (d * u) * p >= 0) by (nonlinear_arith)
        requires
            0 <= d,
            0 <= v,
            0 < p,
            0 < u,
    ;
    lemma_div_denominator(v * u + (d * u) * p, p, 10);
}

/// `value` without its unit suffix, and the bytes that the suffix stands for.
fn split_unit(value: &str) -> (r: (&str, u64))
    ensures
        r.0@ == number_part(value@),
        r.1 == unit_part(value@),
        1 <= r.1 <= 1024 * 1024 * 1024 * 1024,
{
    let n = value.unicode_len();
    if n == 0 {
        return (value, 1);
    }
    let last = value.get_char(n - 1);
    let unit: u64 = if last == 'K' {
        1024
    } else if last == 'M' {
        1024 * 1024
    } else if last == 'G' {
        1024 * 1024 * 1024
    } else if last == 'T' {
        1024 * 1024 * 1024 * 1024
    } else {
        1
    };
    if unit > 1 {
        (value.substring_char(0, n - 1), unit)
    } else {
        (value, 1)
    }
}

/// The number of bytes that a size such as `1.5M` stands for, rounded down
/// and saturated; `None` when `value` is not a size.
pub fn parse_size(value: &str) -> (r: Option<u64>)
    ensures
        r is Some <==> size_text_valid(value@),
        r is Some ==> r->0 == saturate(size_value(value@)),
{
    let (number, unit) = split_unit(value);
    let m = number.unicode_len();
    let digits = if m > 0 && number.get_char(0) == '+' {
        number.substring_char(1, m)
    } else {
        number
    };
    assert(digits@ == unsigned_part(value@));
    let k = digits.unicode_len();
    let (whole, fraction) = match find_char(digits, '.') {
        Some(p) => (digits.substring_char(0, p), digits.substring_char(p + 1, k)),
        None => (digits, digits.substring_char(k, k)),
    };
    assert(whole@ == whole_digits(value@));
    assert(fraction@ =~= fraction_digits(value@));
    let wn = whole.unicode_len();
    let fnl = fraction.unicode_len();
    if wn == 0 && fnl == 0 {
        return None;
    }
    let acc = match parse_whole(whole) {
        Some(a) => a,
        None => return None,
    };
    assert(acc <= 0x1_0000_0000_0000_0000);
    let x = match parse_fraction(fraction, unit) {
        Some(x) => x,
        None => return None,
    };
    let cap: u128 = 0x1_0000_0000_0000_0000;
    assert(acc * unit <= cap * (1024 * 1024 * 1024 * 1024)) by (nonlinear_arith)
        requires
            acc <= cap,
            unit <= 1024 * 1024 * 1024 * 1024,
    ;
    let total: u128 = acc * (unit as u128) + x as u128;
    proof {
        let w = decimal_value(whole@) as int;
        let u = unit as int;
        if w >= cap {
            assert(w * u >= cap * u) by (nonlinear_arith)
                requires
                    w >= cap,
                    u >= 1,
            ;
            assert(cap * u >= cap) by (nonlinear_arith)
                requires
                    u >= 1,
            ;
        }
    }
    if total > u64::MAX as u128 {
        Some(u64::MAX)
    } else {
        Some(total as u64)
    }
}

} // verus!
