use vstd::prelude::*;
use crate::color::number::{all_digits, decimal_value, parse_bounded};
use crate::color::text::{copy_range, digit_value, is_digit, run_length, scan_run, trim, trimmed, CharClass};

verus! {

/// The number of units in an alpha of one. It is 255 times a million, so that
/// both a byte out of 255 and a decimal fraction of six places are whole
/// numbers of units.
pub const ALPHA_ONE: u32 = 255_000_000;

/// The units that one part in 255 of full opacity takes.
pub const UNITS_PER_BYTE: u32 = 1_000_000;

/// The units that one millionth of full opacity takes.
pub const UNITS_PER_MILLIONTH: u32 = 255;

/// The opacity of a color as a fixed-point fraction: `units` out of
/// `ALPHA_ONE`. Zero is fully transparent, `ALPHA_ONE` is fully opaque.
#[derive(Debug, Clone, Copy, PartialEq, Eq, PartialOrd, Structural)]
pub struct Alpha {
    pub units: u32,
}

impl Alpha {
    /// Whether the fraction lies between zero and one.
    pub open spec fn in_range(self) -> bool {
        self.units <= ALPHA_ONE
    }

    /// Full opacity.
    pub fn opaque() -> (a: Self)
        ensures
            a.units == ALPHA_ONE,
    {
        Alpha { units: ALPHA_ONE }
    }

    /// Full transparency.
    pub fn transparent() -> (a: Self)
        ensures
            a.units == 0,
    {
        Alpha { units: 0 }
    }

    /// The fraction `byte / 255`.
    pub fn from_byte(byte: u8) -> (a: Self)
        ensures
            a.units == byte * UNITS_PER_BYTE,
            a.in_range(),
    {
        Alpha { units: byte as u32 * UNITS_PER_BYTE }
    }

    /// The fraction `millionths / 1000000`, or one where that is more.
    pub fn from_millionths(millionths: u32) -> (a: Self)
        ensures
            a.units == UNITS_PER_MILLIONTH * (if millionths <= 1_000_000 {
                millionths
            } else {
                1_000_000
            }),
            a.in_range(),
    {
        if millionths <= 1_000_000 {
            Alpha { units: UNITS_PER_MILLIONTH * millionths }
        } else {
            Alpha { units: ALPHA_ONE }
        }
    }
}

/// The first six decimal places of the fraction `0.s` in millionths, where
/// `scale` is the worth of the first place. Further places are dropped.
pub open spec fn millionths_of(s: Seq<char>, scale: nat) -> nat
    decreases s.len(),
{
    if s.len() == 0 || scale == 0 {
        0
    } else {
        (digit_value(s[0]) * scale + millionths_of(s.drop_first(), scale / 10)) as nat
    }
}

/// The digits of an alpha literal before its decimal point.
pub open spec fn whole_digits(field: Seq<char>) -> Seq<char> {
    let t = trimmed(field);
    t.take(run_length(t, CharClass::Digit) as int)
}

/// What follows the whole digits of an alpha literal, without the decimal
/// point if it starts with one.
pub open spec fn fraction_digits(field: Seq<char>) -> Seq<char> {
    let t = trimmed(field);
    let rest = t.skip(run_length(t, CharClass::Digit) as int);
    if rest.len() > 0 && rest[0] == '.' {
        rest.drop_first()
    } else {
        rest
    }
}

/// An alpha literal is made of decimal digits with at most one decimal point
/// among them, and at least one digit.
pub open spec fn is_alpha_literal(field: Seq<char>) -> bool {
    all_digits(fraction_digits(field)) && whole_digits(field).len() + fraction_digits(field).len()
        > 0
}

/// The value of an alpha literal in millionths, read to six decimal places.
pub open spec fn literal_millionths(field: Seq<char>) -> nat {
    decimal_value(whole_digits(field)) * 1_000_000 + millionths_of(
        fraction_digits(field),
        100_000,
    )
}

/// The alpha that a field states: a literal whose value is no more than one.
pub open spec fn alpha_of(field: Seq<char>) -> Option<Alpha> {
    if is_alpha_literal(field) && literal_millionths(field) <= 1_000_000 {
        Some(Alpha { units: (UNITS_PER_MILLIONTH * literal_millionths(field)) as u32 })
    } else {
        None
    }
}

/// Reads the first six decimal places of `v` from `from` on as millionths,
/// or nothing where a character there is no digit.
fn parse_fraction(v: &Vec<char>, from: usize) -> (r: Option<u32>)
    requires
        from <= v.len(),
    ensures
        r is Some <==> all_digits(v@.skip(from as int)),
        r is Some ==> r->0 == millionths_of(v@.skip(from as int), 100_000),
        r is Some ==> r->0 < 1_000_000,
{
    let ghost s = v@.skip(from as int);
    let mut acc: u32 = 0;
    let mut scale: u32 = 100_000;
    let mut i: usize = from;
    while i < v.len()
        invariant
            from <= i <= v.len(),
            s == v@.skip(from as int),
            acc + 10 * scale <= 1_000_000,
            acc < 1_000_000,
            scale <= 100_000,
            acc + millionths_of(v@.skip(i as int), scale as nat) == millionths_of(s, 100_000),
            forall|j: int| from <= j < i ==> is_digit(#[trigger] v@[j]),
        decreases v.len() - i,
    {
        let c = v[i];
        if !CharClass::Digit.contains(c) {
            proof {
                assert(s[i - from] == c);
            }
            return None;
        }
        let d: u32 = c as u32 - '0' as u32;
        proof {
            assert(v@.skip(i as int).drop_first() =~= v@.skip(i + 1));
            assert(v@.skip(i as int)[0] == c);
            assert(d * scale <= 9 * scale) by (nonlinear_arith)
                requires
                    d <= 9,
            ;
        }
        acc = acc + d * scale;
        scale = scale / 10;
        i += 1;
    }
    proof {
        assert(v@.skip(i as int).len() == 0);
        assert forall|j: int| 0 <= j < s.len() implies is_digit(#[trigger] s[j]) by {
            assert(s[j] == v@[from + j]);
        }
    }
    Some(acc)
}

/// Reads an alpha literal.
pub fn parse_alpha(field: &Vec<char>) -> (r: Option<Alpha>)
    ensures
        r == alpha_of(field@),
{
    let t = trim(field);
    let end = scan_run(&t, 0, CharClass::Digit);
    let whole = copy_range(&t, 0, end);
    let from = if end < t.len() && t[end] == '.' {
        end + 1
    } else {
        end
    };
    proof {
        assert(t@.skip(0) =~= t@);
        assert(whole@ =~= whole_digits(field@));
        let rest = t@.skip(end as int);
        if end < t.len() && t[end as int] == '.' {
            assert(rest[0] == '.');
            assert(rest.drop_first() =~= t@.skip(from as int));
        }
        assert(t@.skip(from as int) =~= fraction_digits(field@));
    }
    let fraction = match parse_fraction(&t, from) {
        Some(f) => f,
        None => { return None; },
    };
    if end == 0 && from == t.len() {
        return None;
    }
    let ones: u32 = if end == 0 {
        0
    } else {
        proof {
            crate::color::text::lemma_run_length_chars(t@, CharClass::Digit);
            assert(all_digits(whole@));
        }
        match parse_bounded(&whole, 1) {
            Some(n) => n,
            None => { return None; },
        }
    };
    let millionths: u32 = ones * 1_000_000 + fraction;
    if millionths > 1_000_000 {
        return None;
    }
    Some(Alpha { units: UNITS_PER_MILLIONTH * millionths })
}

} // verus!
