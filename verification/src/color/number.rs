use vstd::prelude::*;
use crate::color::text::{copy_range, digit_value, is_digit, run_length, scan_run, trim, trimmed, CharClass};

verus! {

pub open spec fn all_digits(s: Seq<char>) -> bool {
    forall|i: int| 0 <= i < s.len() ==> is_digit(#[trigger] s[i])
}

/// The number that a string of decimal digits stands for; the empty string
/// stands for zero.
pub open spec fn decimal_value(s: Seq<char>) -> nat
    decreases s.len(),
{
    if s.len() == 0 {
        0
    } else {
        (10 * decimal_value(s.drop_last()) + digit_value(s.last())) as nat
    }
}

/// The number that `s` stands for, where `s` is made of one or more decimal
/// digits and nothing else, and the number is no more than `max`.
pub open spec fn bounded_number(s: Seq<char>, max: nat) -> Option<nat> {
    if s.len() > 0 && all_digits(s) && decimal_value(s) <= max {
        Some(decimal_value(s))
    } else {
        None
    }
}

/// A string of digits stands for no less than any of its prefixes does.
pub proof fn lemma_decimal_prefix(s: Seq<char>, k: int)
    requires
        0 <= k <= s.len(),
        all_digits(s),
    ensures
        decimal_value(s.take(k)) <= decimal_value(s),
    decreases s.len() - k,
{
    if k < s.len() {
        lemma_decimal_prefix(s, k + 1);
        assert(s.take(k + 1).drop_last() =~= s.take(k));
        assert(is_digit(s[k]));
        assert(s.take(k + 1).last() == s[k]);
    } else {
        assert(s.take(k) =~= s);
    }
}

/// Reads a number of one or more decimal digits that is no more than `max`.
pub fn parse_bounded(v: &Vec<char>, max: u32) -> (r: Option<u32>)
    ensures
        r is Some <==> bounded_number(v@, max as nat) is Some,
        r is Some ==> Some(r->0 as nat) == bounded_number(v@, max as nat),
{
    if v.len() == 0 {
        return None;
    }
    let mut acc: u32 = 0;
    let mut i: usize = 0;
    while i < v.len()
        invariant
            i <= v.len(),
            acc <= max,
            acc == decimal_value(v@.take(i as int)),
            all_digits(v@.take(i as int)),
        decreases v.len() - i,
    {
        let c = v[i];
        if !CharClass::Digit.contains(c) {
            return None;
        }
        let d: u64 = (c as u32 - '0' as u32) as u64;
        let next: u64 = acc as u64 * 10 + d;
        proof {
            assert(v@.take(i + 1).drop_last() =~= v@.take(i as int));
            assert(v@.take(i + 1).last() == c);
            assert(next == decimal_value(v@.take(i + 1)));
            assert forall|j: int| 0 <= j < i + 1 implies is_digit(#[trigger] v@.take(i + 1)[j]) by {
                if j < i {
                    assert(v@.take(i as int)[j] == v@[j]);
                }
            }
        }
        if next > max as u64 {
            proof {
                if all_digits(v@) {
                    lemma_decimal_prefix(v@, i + 1);
                }
            }
            return None;
        }
        acc = next as u32;
        i += 1;
    }
    proof {
        assert(v@.take(i as int) =~= v@);
    }
    Some(acc)
}

/// The text of a percentage without the `%` that may end it, and without the
/// blanks around the number.
pub open spec fn percent_digits(field: Seq<char>) -> Seq<char> {
    let t = trimmed(field);
    if t.len() > 0 && t.last() == '%' {
        trimmed(t.drop_last())
    } else {
        t
    }
}

/// The digits that a hue starts with. What follows them, a degree mark for
/// one, is not read.
pub open spec fn hue_digits(field: Seq<char>) -> Seq<char> {
    let t = trimmed(field);
    t.take(run_length(t, CharClass::Digit) as int)
}

/// A color channel: a whole number from 0 to 255, with nothing but blanks
/// around it.
pub open spec fn channel(field: Seq<char>) -> Option<nat> {
    bounded_number(trimmed(field), 255)
}

/// A percentage: a whole number from 0 to 100, with or without `%` after it.
pub open spec fn percentage(field: Seq<char>) -> Option<nat> {
    bounded_number(percent_digits(field), 100)
}

/// `s` without the `+` that it may start with.
pub open spec fn after_plus(s: Seq<char>) -> Seq<char> {
    if s.len() > 0 && s[0] == '+' {
        s.drop_first()
    } else {
        s
    }
}

/// An ink: a percentage whose number may have a `+` before it.
pub open spec fn ink(field: Seq<char>) -> Option<nat> {
    bounded_number(after_plus(percent_digits(field)), 100)
}

/// A hue: a whole number of degrees from 0 to 360.
pub open spec fn hue(field: Seq<char>) -> Option<nat> {
    bounded_number(hue_digits(field), 360)
}

pub fn parse_channel(field: &Vec<char>) -> (r: Option<u8>)
    ensures
        r is Some <==> channel(field@) is Some,
        r is Some ==> Some(r->0 as nat) == channel(field@),
{
    let t = trim(field);
    match parse_bounded(&t, 255) {
        Some(n) => Some(n as u8),
        None => None,
    }
}

/// The text of a percentage without its `%` and the blanks around the number.
fn percent_text(field: &Vec<char>) -> (r: Vec<char>)
    ensures
        r@ == percent_digits(field@),
{
    let t = trim(field);
    if t.len() > 0 && t[t.len() - 1] == '%' {
        let inner = copy_range(&t, 0, t.len() - 1);
        assert(inner@ =~= t@.drop_last());
        trim(&inner)
    } else {
        t
    }
}

pub fn parse_percentage(field: &Vec<char>) -> (r: Option<u8>)
    ensures
        r is Some <==> percentage(field@) is Some,
        r is Some ==> Some(r->0 as nat) == percentage(field@),
{
    let digits = percent_text(field);
    match parse_bounded(&digits, 100) {
        Some(n) => Some(n as u8),
        None => None,
    }
}

pub fn parse_ink(field: &Vec<char>) -> (r: Option<u8>)
    ensures
        r is Some <==> ink(field@) is Some,
        r is Some ==> Some(r->0 as nat) == ink(field@),
{
    let text = percent_text(field);
    let digits = if text.len() > 0 && text[0] == '+' {
        let rest = copy_range(&text, 1, text.len());
        assert(rest@ =~= text@.drop_first());
        rest
    } else {
        text
    };
    match parse_bounded(&digits, 100) {
        Some(n) => Some(n as u8),
        None => None,
    }
}

pub fn parse_hue(field: &Vec<char>) -> (r: Option<u16>)
    ensures
        r is Some <==> hue(field@) is Some,
        r is Some ==> Some(r->0 as nat) == hue(field@),
{
    let t = trim(field);
    let end = scan_run(&t, 0, CharClass::Digit);
    let digits = copy_range(&t, 0, end);
    proof {
        assert(t@.skip(0) =~= t@);
        assert(digits@ =~= t@.take(end as int));
    }
    match parse_bounded(&digits, 360) {
        Some(n) => Some(n as u16),
        None => None,
    }
}

} // verus!
