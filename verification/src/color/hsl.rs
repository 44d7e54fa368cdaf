use vstd::prelude::*;
use vstd::math::abs;
use crate::color::alpha::{Alpha, ALPHA_ONE};
use crate::color::number::{hue, parse_hue, parse_percentage, percentage};
use crate::color::rgb::{
    alpha_field, hsl_of_rgb, parse_alpha_field, rgb_in_any_notation, RGBColor,
};
use crate::color::text::{chars_of, trimmed};
use crate::color::utils::{
    lemma_wrapper_transparent, safe_value, split_fields, strip_wrapper, tokens, wrapped,
    wrapper_of, Wrapper,
};
use crate::error::{Error, ErrorKind};

verus! {

/// A color by its hue in degrees, its saturation and lightness in percent,
/// and its opacity.
#[derive(Debug, Clone, Copy, PartialEq, Eq, PartialOrd, Structural)]
pub struct HSLColor {
    pub h: u16,
    pub s: u8,
    pub l: u8,
    pub a: Alpha,
}

/// The color that a string in HSL notation states: `hsl(..)`, `hsla(..)` or
/// no wrapper, around a hue, two percentages and, if it is there, an alpha.
pub open spec fn hsl_notation(text: Seq<char>) -> Option<HSLColor> {
    let w = wrapper_of(trimmed(text));
    let f = tokens(text);
    if (w == Wrapper::Bare || w == Wrapper::Hsl || w == Wrapper::Hsla) && alpha_field(f, 3) is Some
        && hue(f[0]) is Some && percentage(f[1]) is Some && percentage(f[2]) is Some {
        Some(
            HSLColor {
                h: hue(f[0])->0 as u16,
                s: percentage(f[1])->0 as u8,
                l: percentage(f[2])->0 as u8,
                a: alpha_field(f, 3)->0,
            },
        )
    } else {
        None
    }
}

/// Wrapper transparency: a list of fields that has no wrapper of its own
/// states the same color in HSL notation inside `hsl(..)` or `hsla(..)` as it
/// does alone.
pub proof fn lemma_hsl_wrapper_transparent(body: Seq<char>)
    requires
        wrapper_of(trimmed(body)) == Wrapper::Bare,
    ensures
        hsl_notation(wrapped(Wrapper::Hsl, body)) == hsl_notation(body),
        hsl_notation(wrapped(Wrapper::Hsla, body)) == hsl_notation(body),
{
    lemma_wrapper_transparent(Wrapper::Hsl, body);
    lemma_wrapper_transparent(Wrapper::Hsla, body);
}

/// The chroma `(1 - |2l - 1|) * s` in ten-thousandths, for a saturation and a
/// lightness in percent.
pub open spec fn chroma(s: int, l: int) -> int {
    (100 - abs(2 * l - 100)) * s
}

/// `1 - |(h / 60) mod 2 - 1|` in sixtieths, for a hue in degrees.
pub open spec fn ramp(h: int) -> int {
    60 - abs(h % 120 - 60)
}

/// What the hue gives to red, green and blue before the lightness is added,
/// in parts of 600000: the chroma `c`, `x = c * ramp`, or nothing. The circle
/// has six segments of 60 degrees; 360 degrees belong to the last.
pub open spec fn hue_share(h: int, s: int, l: int) -> (int, int, int) {
    let c = 60 * chroma(s, l);
    let x = chroma(s, l) * ramp(h);
    if h < 60 {
        (c, x, 0)
    } else if h < 120 {
        (x, c, 0)
    } else if h < 180 {
        (0, c, x)
    } else if h < 240 {
        (0, x, c)
    } else if h < 300 {
        (x, 0, c)
    } else {
        (c, 0, x)
    }
}

/// What the lightness adds to every channel, `m = l - c / 2`, in parts of
/// 600000.
pub open spec fn lift(s: int, l: int) -> int {
    30 * (200 * l - chroma(s, l))
}

/// The byte for a level in parts of 600000: 255 times the level, rounded to
/// the nearest whole number, a half upward.
pub open spec fn level_byte(level: int) -> int {
    (17 * level + 20000) / 40000
}

/// Red, green and blue of a color of hue `h` in degrees and saturation `s` and
/// lightness `l` in percent.
pub open spec fn hsl_to_rgb(h: int, s: int, l: int) -> (int, int, int) {
    let (r, g, b) = hue_share(h, s, l);
    let m = lift(s, l);
    (level_byte(r + m), level_byte(g + m), level_byte(b + m))
}

/// The levels that a color in range has lie between nothing and the whole.
pub proof fn lemma_levels_in_range(h: int, s: int, l: int)
    requires
        0 <= h <= 360,
        0 <= s <= 100,
        0 <= l <= 100,
    ensures
        0 <= chroma(s, l) <= 10000,
        0 <= ramp(h) <= 60,
        0 <= chroma(s, l) * ramp(h) <= 60 * chroma(s, l),
        0 <= lift(s, l),
        60 * chroma(s, l) + lift(s, l) <= 600000,
{
    let spread = 100 - abs(2 * l - 100);
    assert(0 <= spread <= 100);
    assert(spread <= 2 * l);
    assert(spread <= 200 - 2 * l);
    assert(0 <= spread * s <= spread * 100) by (nonlinear_arith)
        requires
            0 <= spread,
            0 <= s <= 100,
    ;
    let c = chroma(s, l);
    let t = ramp(h);
    assert(0 <= c * t <= 60 * c) by (nonlinear_arith)
        requires
            0 <= c,
            0 <= t <= 60,
    ;
}

/// The color in red, green and blue that is the same as `c`.
pub open spec fn rgb_of_hsl(c: HSLColor) -> RGBColor {
    let (r, g, b) = hsl_to_rgb(c.h as int, c.s as int, c.l as int);
    RGBColor { r: r as u8, g: g as u8, b: b as u8, a: c.a }
}

fn byte_of_level(level: u32) -> (b: u8)
    requires
        level <= 600000,
    ensures
        b == level_byte(level as int),
{
    ((17 * level + 20000) / 40000) as u8
}

impl HSLColor {
    /// Whether the hue is at most 360 degrees, saturation and lightness at
    /// most 100 percent, and the alpha at most one.
    pub open spec fn in_range(self) -> bool {
        self.h <= 360 && self.s <= 100 && self.l <= 100 && self.a.in_range()
    }

    /// A color of the given values. A value above its range is taken as the
    /// top of the range, and a missing alpha as full opacity.
    pub fn new(h: u16, s: u8, l: u8, a: Option<Alpha>) -> (c: Self)
        ensures
            c.h == (if h <= 360 { h } else { 360 }),
            c.s == (if s <= 100 { s } else { 100 }),
            c.l == (if l <= 100 { l } else { 100 }),
            c.a.units == (match a {
                Some(alpha) => if alpha.units <= ALPHA_ONE {
                    alpha.units
                } else {
                    ALPHA_ONE
                },
                None => ALPHA_ONE,
            }),
            c.in_range(),
    {
        let units = match a {
            Some(alpha) => alpha.units,
            None => ALPHA_ONE,
        };
        Self {
            h: safe_value(0, 360, h),
            s: safe_value(0, 100, s),
            l: safe_value(0, 100, l),
            a: Alpha { units: safe_value(0, ALPHA_ONE, units) },
        }
    }

    /// Reads a color in hexadecimal, RGB or HSL notation and gives it by
    /// hue, saturation and lightness, as they come from its red, green and
    /// blue channels.
    pub fn parse(color: &String) -> (r: Result<Self, Error>)
        ensures
            match rgb_in_any_notation(color@) {
                Some(c) => r == Ok::<Self, Error>(hsl_of_rgb(c)),
                None => r is Err && r->Err_0.says(ErrorKind::Parse, "Invalid color string"),
            },
            r is Ok ==> r->Ok_0.in_range(),
    {
        match RGBColor::parse(color) {
            Ok(rgb) => Ok(rgb.to_hsl()),
            Err(e) => Err(e),
        }
    }

    /// Reads a string in HSL notation.
    pub fn from(color: &String) -> (r: Result<Self, Error>)
        ensures
            match hsl_notation(color@) {
                Some(c) => r == Ok::<Self, Error>(c),
                None => r is Err && r->Err_0.says(ErrorKind::Parse, "Can't parse HSL string"),
            },
            r is Ok ==> r->Ok_0.in_range(),
    {
        let text = chars_of(color.as_str());
        let (w, body) = strip_wrapper(&text);
        let fields = split_fields(&body);
        match w {
            Wrapper::Bare | Wrapper::Hsl | Wrapper::Hsla => {},
            _ => { return Err(Error::new("Can't parse HSL string")); },
        }
        let a = match parse_alpha_field(&fields, 3) {
            Some(a) => a,
            None => { return Err(Error::new("Can't parse HSL string")); },
        };
        match (parse_hue(&fields[0]), parse_percentage(&fields[1]), parse_percentage(&fields[2])) {
            (Some(h), Some(s), Some(l)) => Ok(Self { h, s, l, a }),
            _ => Err(Error::new("Can't parse HSL string")),
        }
    }

    /// The same color by its red, green and blue channels.
    pub fn to_rgb(&self) -> (c: RGBColor)
        requires
            self.in_range(),
        ensures
            (c.r as int, c.g as int, c.b as int) == hsl_to_rgb(
                self.h as int,
                self.s as int,
                self.l as int,
            ),
            c == rgb_of_hsl(*self),
            c.in_range(),
    {
        let h = self.h as u32;
        let s = self.s as u32;
        let l = self.l as u32;
        proof {
            lemma_levels_in_range(h as int, s as int, l as int);
        }
        let spread: u32 = if l >= 50 {
            200 - 2 * l
        } else {
            2 * l
        };
        assert(spread * s == chroma(s as int, l as int)) by (nonlinear_arith)
            requires
                spread == 100 - abs(2 * l - 100),
                chroma(s as int, l as int) == (100 - abs(2 * l - 100)) * s,
        ;
        let c: u32 = spread * s;
        let turn = h % 120;
        let t: u32 = if turn >= 60 {
            120 - turn
        } else {
            turn
        };
        assert(t == ramp(h as int));
        let x: u32 = c * t;
        let c: u32 = 60 * c;
        let m: u32 = 30 * (200 * l - c / 60);
        let (r, g, b) = if h < 60 {
            (c, x, 0)
        } else if h < 120 {
            (x, c, 0)
        } else if h < 180 {
            (0, c, x)
        } else if h < 240 {
            (0, x, c)
        } else if h < 300 {
            (x, 0, c)
        } else {
            (c, 0, x)
        };
        RGBColor {
            r: byte_of_level(r + m),
            g: byte_of_level(g + m),
            b: byte_of_level(b + m),
            a: self.a,
        }
    }

    /// Sets the alpha. One above one is taken as one.
    pub fn set_alpha(&mut self, alpha: Alpha)
        ensures
            final(self).h == old(self).h,
            final(self).s == old(self).s,
            final(self).l == old(self).l,
            final(self).a.units == (if alpha.units <= ALPHA_ONE {
                alpha.units
            } else {
                ALPHA_ONE
            }),
            old(self).in_range() ==> final(self).in_range(),
    {
        self.a = Alpha { units: safe_value(0, ALPHA_ONE, alpha.units) };
    }

    /// Whether a string is in HSL notation.
    pub fn is_hsl_string(color: &String) -> (b: bool)
        ensures
            b == hsl_notation(color@) is Some,
    {
        match Self::from(color) {
            Ok(_) => true,
            Err(_) => false,
        }
    }
}

} // verus!
