//! Which texts read as a floating-point number.

use vstd::prelude::*;
use crate::expression::{is_digit, is_numeral, check_numeral};

verus! {

pub open spec fn lower_ascii(c: char) -> char {
    if 'A' <= c && c <= 'Z' {
        ((c as u8) + 32) as char
    } else {
        c
    }
}

pub open spec fn lower_all(t: Seq<char>) -> Seq<char> {
    t.map_values(|c: char| lower_ascii(c))
}

pub open spec fn is_special_float(t: Seq<char>) -> bool {
    let l = lower_all(t);
    l == seq!['i', 'n', 'f'] || l == seq!['i', 'n', 'f', 'i', 'n', 'i', 't', 'y'] || l == seq!['n', 'a', 'n']
}

pub open spec fn all_digits(t: Seq<char>) -> bool {
    forall|i: int| 0 <= i < t.len() ==> is_digit(#[trigger] t[i])
}

pub open spec fn without_sign(t: Seq<char>) -> Seq<char> {
    if t.len() > 0 && (t[0] == '+' || t[0] == '-') {
        t.skip(1)
    } else {
        t
    }
}

/// `e` or `E`, an optional sign and at least one digit (the `e` left off).
pub open spec fn is_exponent(t: Seq<char>) -> bool {
    without_sign(t).len() > 0 && all_digits(without_sign(t))
}

pub open spec fn is_exponent_mark(c: char) -> bool {
    c == 'e' || c == 'E'
}

/// The text of a floating-point number as `f64::from_str` reads it: an
/// optional sign, then `inf`, `infinity` or `nan` in any case, or a decimal
/// numeral with an optional exponent.
pub open spec fn is_float_text(t: Seq<char>) -> bool {
    let u = without_sign(t);
    ||| is_special_float(u)
    ||| is_numeral(u)
    ||| exists|k: int| 0 <= k < u.len() && is_exponent_mark(#[trigger] u[k]) && is_numeral(u.take(k)) && is_exponent(u.skip(k + 1))
}

fn lower_chars(t: &[char]) -> (r: Vec<char>)
    ensures
        r@ == lower_all(t@),
{
    let mut r: Vec<char> = Vec::new();
    let mut i: usize = 0;
    while i < t.len()
        invariant
            i <= t.len(),
            r@ == lower_all(t@.take(i as int)),
        decreases t.len() - i,
    {
        let c = t[i];
        let l = if 'A' <= c && c <= 'Z' { ((c as u8) + 32) as char } else { c };
        r.push(l);
        assert(lower_all(t@.take(i + 1)) =~= lower_all(t@.take(i as int)).push(lower_ascii(c)));
        i = i + 1;
    }
    assert(t@.take(t.len() as int) =~= t@);
    r
}

fn equals_literal(a: &Vec<char>, b: &[char]) -> (r: bool)
    ensures
        r == (a@ == b@),
{
    if a.len() != b.len() {
        return false;
    }
    let mut i: usize = 0;
    while i < a.len()
        invariant
            i <= a.len() == b.len(),
            forall|j: int| 0 <= j < i ==> a@[j] == b@[j],
        decreases a.len() - i,
    {
        if a[i] != b[i] {
            return false;
        }
        i = i + 1;
    }
    assert(a@ =~= b@);
    true
}

fn digits_check(t: &[char]) -> (r: bool)
    ensures
        r == all_digits(t@),
{
    let mut i: usize = 0;
    while i < t.len()
        invariant
            i <= t.len(),
            forall|j: int| 0 <= j < i ==> is_digit(#[trigger] t@[j]),
        decreases t.len() - i,
    {
        if !('0' <= t[i] && t[i] <= '9') {
            return false;
        }
        i = i + 1;
    }
    true
}

fn exponent_check(t: &[char]) -> (r: bool)
    ensures
        r == is_exponent(t@),
{
    let u = if t.len() > 0 && (t[0] == '+' || t[0] == '-') {
        let (_, rest) = t.split_at(1);
        rest
    } else {
        t
    };
    assert(u@ == without_sign(t@));
    u.len() > 0 && digits_check(u)
}

/// Whether `t` reads as an `f64`; see `is_float_text`.
pub fn float_text_check(t: &[char]) -> (r: bool)
    ensures
        r == is_float_text(t@),
{
    let u = if t.len() > 0 && (t[0] == '+' || t[0] == '-') {
        let (_, rest) = t.split_at(1);
        rest
    } else {
        t
    };
    assert(u@ == without_sign(t@));
    let l = lower_chars(u);
    if equals_literal(&l, &['i', 'n', 'f']) || equals_literal(&l, &['i', 'n', 'f', 'i', 'n', 'i', 't', 'y'])
        || equals_literal(&l, &['n', 'a', 'n']) {
        return true;
    }
    assert(!is_special_float(u@));
    if check_numeral(u) {
        return true;
    }
    let mut k: usize = 0;
    while k < u.len()
        invariant
            k <= u.len(),
            u@ == without_sign(t@),
            !is_special_float(u@),
            !is_numeral(u@),
            forall|j: int| 0 <= j < k ==> !is_exponent_mark(#[trigger] u@[j]),
        decreases u.len() - k,
    {
        if u[k] == 'e' || u[k] == 'E' {
            let (head, tail) = u.split_at(k);
            let (_, exp) = tail.split_at(1);
            assert(head@ =~= u@.take(k as int));
            assert(exp@ =~= u@.skip(k + 1));
            let ok = check_numeral(head) && exponent_check(exp);
            proof {
                if ok {
                    assert(is_exponent_mark(u@[k as int]));
                    assert(is_numeral(u@.take(k as int)));
                    assert(is_exponent(u@.skip(k + 1)));
                    assert(is_float_text(t@));
                }
                if !ok {
                    assert forall|j: int| 0 <= j < u@.len() && is_exponent_mark(#[trigger] u@[j]) implies
                        !(is_numeral(u@.take(j)) && is_exponent(u@.skip(j + 1))) by {
                        if j > k {
                            assert(u@.take(j)[k as int] == u@[k as int]);
                        } else if j < k {
                            assert(!is_exponent_mark(u@[j]));
                        }
                    }
                    assert(!is_float_text(t@));
                }
            }
            return ok;
        }
        k = k + 1;
    }
    false
}

/// The value of the text of an integer as `i64::from_str` reads it: an
/// optional sign and at least one digit, within range.
pub open spec fn int_text_value(t: Seq<char>) -> Option<i64> {
    let body = without_sign(t);
    let magnitude = crate::dice::digits_value(body) as int;
    let v = if t.len() > 0 && t[0] == '-' { -magnitude } else { magnitude };
    if body.len() == 0 || !all_digits(body) || v < i64::MIN || v > i64::MAX {
        None
    } else {
        Some(v as i64)
    }
}

/// Reads `t` as an `i64`; see `int_text_value`.
pub fn parse_int_text(t: &[char]) -> (r: Option<i64>)
    ensures
        r == int_text_value(t@),
{
    let negative = t.len() > 0 && t[0] == '-';
    let u = if t.len() > 0 && (t[0] == '+' || t[0] == '-') {
        let (_, rest) = t.split_at(1);
        rest
    } else {
        t
    };
    assert(u@ == without_sign(t@));
    if u.len() == 0 || !digits_check(u) {
        return None;
    }
    let mut value: i128 = 0;
    let mut i: usize = 0;
    while i < u.len()
        invariant
            i <= u.len(),
            all_digits(u@),
            u@ == without_sign(t@),
            u@.len() > 0,
            negative == (t@.len() > 0 && t@[0] == '-'),
            value == crate::dice::digits_value(u@.take(i as int)),
            value <= 0x8000_0000_0000_0000,
        decreases u.len() - i,
    {
        let d = (u[i] as u32 - '0' as u32) as i128;
        assert(u@.take(i + 1).drop_last() =~= u@.take(i as int));
        if value * 10 + d > 0x8000_0000_0000_0000 {
            proof {
                crate::dice::lemma_digits_value_prefix(u@, i + 1);
            }
            return None;
        }
        value = value * 10 + d;
        i = i + 1;
    }
    assert(u@.take(u.len() as int) =~= u@);
    let v: i128 = if negative { -value } else { value };
    if v < i64::MIN as i128 || v > i64::MAX as i128 {
        return None;
    }
    Some(v as i64)
}

} // verus!
