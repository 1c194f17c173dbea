//! Sitemap priorities.
//!
//! A priority is kept as the decimal text that stands in the sitemap, such
//! as `0.5` or `1`: an optional `-`, one or more digits, and optionally a `.`
//! followed by one or more digits.  It is in range when the number it
//! writes lies between 0 and 1, both included.

use vstd::prelude::*;
use crate::text::{before_first, digit_at, digit_value, find_char, first_index_of, is_digit,
    lemma_first_index_of, to_chars, value_at};

verus! {

/// Ten to the power `n`.
pub open spec fn pow10(n: nat) -> nat
    decreases n,
{
    if n == 0 {
        1
    } else {
        10 * pow10((n - 1) as nat)
    }
}

/// Whether every character of `s` is a decimal digit.
pub open spec fn all_digits(s: Seq<char>) -> bool {
    forall|i: int| 0 <= i < s.len() ==> is_digit(#[trigger] s[i])
}

/// The number that the decimal digits `s` write; 0 for no digits.
pub open spec fn digits_value(s: Seq<char>) -> nat
    decreases s.len(),
{
    if s.len() == 0 {
        0
    } else {
        (digits_value(s.drop_last()) * 10 + digit_value(s.last())) as nat
    }
}

/// Whether the text starts with a minus sign.
pub open spec fn is_negative(s: Seq<char>) -> bool {
    s.len() > 0 && s[0] == '-'
}

/// The text without its minus sign.
pub open spec fn unsigned_part(s: Seq<char>) -> Seq<char> {
    if is_negative(s) {
        s.drop_first()
    } else {
        s
    }
}

/// Whether the text holds a decimal point.
pub open spec fn has_fraction(s: Seq<char>) -> bool {
    first_index_of(unsigned_part(s), '.') < unsigned_part(s).len()
}

/// What stands between the sign and the decimal point.
pub open spec fn whole_part(s: Seq<char>) -> Seq<char> {
    before_first(unsigned_part(s), '.')
}

/// What stands behind the decimal point; nothing where there is no point.
pub open spec fn fraction_part(s: Seq<char>) -> Seq<char> {
    if has_fraction(s) {
        unsigned_part(s).skip(first_index_of(unsigned_part(s), '.') + 1)
    } else {
        Seq::empty()
    }
}

/// Whether the text is a decimal number: an optional `-`, one or more
/// digits, and optionally a `.` followed by one or more digits.
pub open spec fn is_decimal(s: Seq<char>) -> bool {
    &&& whole_part(s).len() > 0
    &&& all_digits(whole_part(s))
    &&& all_digits(fraction_part(s))
    &&& has_fraction(s) ==> fraction_part(s).len() > 0
}

/// The number without its sign is `numerator(s) / denominator(s)`.
pub open spec fn numerator(s: Seq<char>) -> nat {
    digits_value(whole_part(s)) * pow10(fraction_part(s).len()) + digits_value(fraction_part(s))
}

/// Ten to the number of digits behind the decimal point.
pub open spec fn denominator(s: Seq<char>) -> nat {
    pow10(fraction_part(s).len())
}

/// Whether the text is a decimal number between 0 and 1, both included.
/// Minus zero counts as zero.
pub open spec fn in_unit_interval(s: Seq<char>) -> bool {
    &&& is_decimal(s)
    &&& (numerator(s) == 0 || (!is_negative(s) && numerator(s) <= denominator(s)))
}

/// The smaller of two numbers.
pub open spec fn least(a: int, b: int) -> int {
    if a <= b {
        a
    } else {
        b
    }
}

/// Digits write a number below ten to the number of digits.
pub proof fn lemma_digits_bound(s: Seq<char>)
    requires
        all_digits(s),
    ensures
        digits_value(s) < pow10(s.len()),
    decreases s.len(),
{
    if s.len() > 0 {
        let front = s.drop_last();
        assert forall|i: int| 0 <= i < front.len() implies is_digit(#[trigger] front[i]) by {
            assert(front[i] == s[i]);
        }
        lemma_digits_bound(front);
        assert(is_digit(s[s.len() - 1]));
    }
}

/// The copy `v[from..to]`.
fn slice_chars(v: &Vec<char>, from: usize, to: usize) -> (r: Vec<char>)
    requires
        from <= to <= v.len(),
    ensures
        r@ == v@.subrange(from as int, to as int),
{
    let mut r: Vec<char> = Vec::new();
    let mut i: usize = from;
    while i < to
        invariant
            from <= i <= to <= v.len(),
            r@ == v@.subrange(from as int, i as int),
        decreases to - i,
    {
        r.push(v[i]);
        i += 1;
    }
    r
}

/// Reads the digits `v[from..to]` and gives the number they write, or `cap`
/// where the number is larger; `None` where one of them is no digit.
fn capped_value(v: &Vec<char>, from: usize, to: usize, cap: u8) -> (r: Option<u8>)
    requires
        from <= to <= v.len(),
        cap <= 2,
    ensures
        match r {
            Some(n) => {
                &&& all_digits(v@.subrange(from as int, to as int))
                &&& n == least(digits_value(v@.subrange(from as int, to as int)) as int, cap as int)
            },
            None => !all_digits(v@.subrange(from as int, to as int)),
        },
{
    let mut n: u8 = 0;
    let mut i: usize = from;
    while i < to
        invariant
            from <= i <= to <= v.len(),
            cap <= 2,
            n <= cap,
            all_digits(v@.subrange(from as int, i as int)),
            n == least(digits_value(v@.subrange(from as int, i as int)) as int, cap as int),
        decreases to - i,
    {
        let ghost before = v@.subrange(from as int, i as int);
        let ghost after = v@.subrange(from as int, i + 1);
        if !digit_at(v, i) {
            proof {
                let whole = v@.subrange(from as int, to as int);
                assert(whole[i - from] == v@[i as int]);
            }
            return None;
        }
        let d: i32 = value_at(v, i);
        proof {
            assert(after.drop_last() =~= before);
            assert(after.last() == v@[i as int]);
            assert forall|k: int| 0 <= k < after.len() implies is_digit(#[trigger] after[k]) by {
                if k < before.len() {
                    assert(after[k] == before[k]);
                }
            }
        }
        if n >= cap {
            n = cap;
        } else if n == 0 {
            n = if d >= cap as i32 {
                cap
            } else {
                d as u8
            };
        } else {
            n = cap;
        }
        i += 1;
    }
    Some(n)
}

/// Whether a priority, written as decimal text, lies between 0 and 1.  Text
/// that is no decimal number is out of range.
pub fn priority_in_range(text: &str) -> (b: bool)
    ensures
        b == in_unit_interval(text@),
{
    let v = to_chars(text);
    let negative: bool = v.len() > 0 && v[0] == '-';
    let start: usize = if negative {
        1
    } else {
        0
    };
    let u = slice_chars(&v, start, v.len());
    assert(u@ =~= unsigned_part(text@));
    let dot = find_char(&u, '.');
    proof {
        lemma_first_index_of(u@, '.');
    }
    assert(u@.subrange(0, dot as int) =~= whole_part(text@));
    if dot == 0 {
        return false;
    }
    let whole = match capped_value(&u, 0, dot, 2) {
        Some(n) => n,
        None => {
            return false;
        },
    };
    let fraction: u8 = if dot < u.len() {
        assert(u@.subrange(dot + 1, u.len() as int) =~= fraction_part(text@));
        if dot + 1 == u.len() {
            return false;
        }
        match capped_value(&u, dot + 1, u.len(), 1) {
            Some(n) => n,
            None => {
                return false;
            },
        }
    } else {
        0
    };
    proof {
        let w = digits_value(whole_part(text@)) as int;
        let f = digits_value(fraction_part(text@)) as int;
        let p = pow10(fraction_part(text@).len()) as int;
        lemma_digits_bound(fraction_part(text@));
        assert(is_decimal(text@));
        assert(numerator(text@) == w * p + f);
        assert(w == 0 ==> w * p + f == f) by (nonlinear_arith);
        assert(w == 1 ==> w * p + f == p + f) by (nonlinear_arith);
        assert(w >= 2 && p >= 1 && f >= 0 ==> w * p + f >= 2 * p) by (nonlinear_arith);
    }
    if whole == 0 {
        fraction == 0 || !negative
    } else if whole == 1 {
        fraction == 0 && !negative
    } else {
        false
    }
}

} // verus!
