use vstd::prelude::*;
use vstd::math::{abs, max, min};
use crate::color::alpha::{alpha_of, parse_alpha, Alpha, ALPHA_ONE};
use crate::color::hex::{hex_notation, rgb_digits, rgb_of_digits, HexColor};
use crate::color::hsl::{hsl_notation, rgb_of_hsl, HSLColor};
use crate::color::number::{channel, parse_channel};
use crate::color::text::{chars_of, trimmed, views};
use crate::color::utils::{
    lemma_wrapper_transparent, safe_value, split_fields, strip_wrapper, tokens, wrapped,
    wrapper_of, Wrapper,
};
use crate::error::{Error, ErrorKind};

verus! {

/// A color by its red, green and blue channels and its opacity.
#[derive(Debug, Clone, Copy, PartialEq, Eq, PartialOrd, Structural)]
pub struct RGBColor {
    pub r: u8,
    pub g: u8,
    pub b: u8,
    pub a: Alpha,
}

/// The alpha of a color string whose fields `f` hold other values in their
/// first `n` places: what the next field states, or full opacity where there
/// is no further field.
pub open spec fn alpha_field(f: Seq<Seq<char>>, n: int) -> Option<Alpha> {
    if f.len() == n {
        Some(Alpha { units: ALPHA_ONE })
    } else if f.len() == n + 1 {
        alpha_of(f[n])
    } else {
        None
    }
}

/// The color that a string in RGB notation states: `rgb(..)`, `rgba(..)` or
/// no wrapper, around three channels and, if it is there, an alpha.
pub open spec fn rgb_notation(text: Seq<char>) -> Option<RGBColor> {
    let w = wrapper_of(trimmed(text));
    let f = tokens(text);
    if (w == Wrapper::Bare || w == Wrapper::Rgb || w == Wrapper::Rgba) && alpha_field(f, 3) is Some
        && channel(f[0]) is Some && channel(f[1]) is Some && channel(f[2]) is Some {
        Some(
            RGBColor {
                r: channel(f[0])->0 as u8,
                g: channel(f[1])->0 as u8,
                b: channel(f[2])->0 as u8,
                a: alpha_field(f, 3)->0,
            },
        )
    } else {
        None
    }
}

/// The color in red, green and blue that a string states in hexadecimal, RGB
/// or HSL notation, the first of these that it is in.
pub open spec fn rgb_in_any_notation(text: Seq<char>) -> Option<RGBColor> {
    if hex_notation(text) is Some {
        Some(rgb_of_digits(hex_notation(text)->0))
    } else if rgb_notation(text) is Some {
        rgb_notation(text)
    } else if hsl_notation(text) is Some {
        Some(rgb_of_hsl(hsl_notation(text)->0))
    } else {
        None
    }
}

/// Wrapper transparency: a list of fields that has no wrapper of its own
/// states the same color in RGB notation inside `rgb(..)` or `rgba(..)` as it
/// does alone.
pub proof fn lemma_rgb_wrapper_transparent(body: Seq<char>)
    requires
        wrapper_of(trimmed(body)) == Wrapper::Bare,
    ensures
        rgb_notation(wrapped(Wrapper::Rgb, body)) == rgb_notation(body),
        rgb_notation(wrapped(Wrapper::Rgba, body)) == rgb_notation(body),
{
    lemma_wrapper_transparent(Wrapper::Rgb, body);
    lemma_wrapper_transparent(Wrapper::Rgba, body);
}

/// Reads the alpha of a color string whose first `n` fields hold other values.
pub fn parse_alpha_field(fields: &Vec<Vec<char>>, n: usize) -> (r: Option<Alpha>)
    ensures
        r == alpha_field(views(fields@), n as int),
{
    if fields.len() == n {
        Some(Alpha::opaque())
    } else if fields.len() > n && fields.len() - 1 == n {
        parse_alpha(&fields[n])
    } else {
        None
    }
}

/// `n / d` rounded upward, for `n` that is not negative and `d` above zero.
pub open spec fn ceil_div(n: int, d: int) -> int {
    (n + d - 1) / d
}

/// The lightness in percent, rounded upward, of a color whose largest and
/// smallest channels are `hi` and `lo`: `(hi + lo) / 2` out of 255.
pub open spec fn lightness(hi: int, lo: int) -> int {
    ceil_div(100 * (hi + lo), 510)
}

/// The saturation in percent, rounded upward, of a color whose largest and
/// smallest channels are `hi` and `lo`: nothing for a gray, else
/// `delta / (1 - |2l - 1|)` with `delta = (hi - lo) / 255` and
/// `l = (hi + lo) / 510`.
pub open spec fn saturation(hi: int, lo: int) -> int {
    if hi == lo {
        0
    } else {
        ceil_div(100 * (hi - lo), 255 - abs(hi + lo - 255))
    }
}

/// The hue in degrees times `delta`, the largest channel less the smallest,
/// before it is brought into the circle: by the channel that is the largest,
/// red before green before blue.
pub open spec fn hue_angle(r: int, g: int, b: int) -> int {
    let hi = max(max(r, g), b);
    let delta = hi - min(min(r, g), b);
    if hi == r {
        60 * (g - b)
    } else if hi == g {
        60 * (b - r) + 120 * delta
    } else {
        60 * (r - g) + 240 * delta
    }
}

/// The hue in degrees of a color: nothing for a gray; else the angle, a
/// negative one taken a full turn further, rounded upward.
pub open spec fn hue_degrees(r: int, g: int, b: int) -> int {
    let delta = max(max(r, g), b) - min(min(r, g), b);
    let angle = hue_angle(r, g, b);
    if delta == 0 {
        0
    } else if angle < 0 {
        ceil_div(angle + 360 * delta, delta)
    } else {
        ceil_div(angle, delta)
    }
}

/// The color in hue, saturation and lightness that is the same as `c`.
pub open spec fn hsl_of_rgb(c: RGBColor) -> HSLColor {
    let hi = max(max(c.r as int, c.g as int), c.b as int);
    let lo = min(min(c.r as int, c.g as int), c.b as int);
    HSLColor {
        h: hue_degrees(c.r as int, c.g as int, c.b as int) as u16,
        s: saturation(hi, lo) as u8,
        l: lightness(hi, lo) as u8,
        a: c.a,
    }
}

/// A quotient rounded upward is no more than `q` where the dividend is no
/// more than `q` times the divisor.
pub proof fn lemma_ceil_div_bound(n: int, d: int, q: int)
    requires
        0 <= n <= q * d,
        0 < d,
    ensures
        0 <= ceil_div(n, d) <= q,
{
    assert(0 <= (n + d - 1) / d <= q) by (nonlinear_arith)
        requires
            0 <= n <= q * d,
            0 < d,
    ;
}

/// The largest and the smallest of three channels.
fn extremes(r: u8, g: u8, b: u8) -> (x: (u8, u8))
    ensures
        x.0 == max(max(r as int, g as int), b as int),
        x.1 == min(min(r as int, g as int), b as int),
        x.1 <= x.0,
{
    let hi = if r >= g { r } else { g };
    let lo = if r <= g { r } else { g };
    (if hi >= b { hi } else { b }, if lo <= b { lo } else { b })
}

fn lightness_of(hi: u8, lo: u8) -> (l: u8)
    ensures
        l == lightness(hi as int, lo as int),
        l <= 100,
{
    let sum = hi as u32 + lo as u32;
    proof {
        lemma_ceil_div_bound(100 * sum, 510, 100);
    }
    ((100 * sum + 509) / 510) as u8
}

fn saturation_of(hi: u8, lo: u8) -> (s: u8)
    requires
        lo <= hi,
    ensures
        s == saturation(hi as int, lo as int),
        s <= 100,
{
    if hi == lo {
        return 0;
    }
    let delta = hi as u32 - lo as u32;
    let sum = hi as u32 + lo as u32;
    let span = if sum <= 255 { sum } else { 510 - sum };
    proof {
        assert(span == 255 - abs(hi + lo - 255));
        lemma_ceil_div_bound(100 * delta, span as int, 100);
    }
    ((100 * delta + span - 1) / span) as u8
}

fn hue_of(r: u8, g: u8, b: u8) -> (h: u16)
    ensures
        h == hue_degrees(r as int, g as int, b as int),
        h <= 360,
{
    let (hi, lo) = extremes(r, g, b);
    if hi == lo {
        return 0;
    }
    let delta = hi as u32 - lo as u32;
    let (r, g, b) = (r as u32, g as u32, b as u32);
    let turned: u32 = if hi as u32 == r {
        if g >= b {
            60 * (g - b)
        } else {
            360 * delta - 60 * (b - g)
        }
    } else if hi as u32 == g {
        120 * delta + 60 * b - 60 * r
    } else {
        240 * delta + 60 * r - 60 * g
    };
    proof {
        let angle = hue_angle(r as int, g as int, b as int);
        assert(turned == if angle < 0 { angle + 360 * delta } else { angle });
        lemma_ceil_div_bound(turned as int, delta as int, 360);
    }
    ((turned + delta - 1) / delta) as u16
}

impl RGBColor {
    /// Whether the alpha lies between zero and one. The channels are bytes
    /// and cannot lie outside their range.
    pub open spec fn in_range(self) -> bool {
        self.a.in_range()
    }

    /// A color of the given channels. An alpha above one is taken as one, and
    /// a missing one as full opacity.
    pub fn new(r: u8, g: u8, b: u8, a: Option<Alpha>) -> (c: Self)
        ensures
            c.r == r,
            c.g == g,
            c.b == b,
            c.a.units == (match a {
                Some(alpha) => if alpha.units <= ALPHA_ONE {
                    alpha.units
                } else {
                    ALPHA_ONE
                },
                None => ALPHA_ONE,
            }),
            c.in_range(),
    {
        let units = match a {
            Some(alpha) => alpha.units,
            None => ALPHA_ONE,
        };
        Self {
            r: safe_value(0, 255, r),
            g: safe_value(0, 255, g),
            b: safe_value(0, 255, b),
            a: Alpha { units: safe_value(0, ALPHA_ONE, units) },
        }
    }

    /// The same color by hue, saturation and lightness, each rounded upward.
    pub fn to_hsl(&self) -> (c: HSLColor)
        ensures
            c == hsl_of_rgb(*self),
            c.h == hue_degrees(self.r as int, self.g as int, self.b as int),
            c.s == saturation(
                max(max(self.r as int, self.g as int), self.b as int),
                min(min(self.r as int, self.g as int), self.b as int),
            ),
            c.l == lightness(
                max(max(self.r as int, self.g as int), self.b as int),
                min(min(self.r as int, self.g as int), self.b as int),
            ),
            c.h <= 360 && c.s <= 100 && c.l <= 100,
            self.in_range() ==> c.in_range(),
    {
        let (hi, lo) = extremes(self.r, self.g, self.b);
        HSLColor {
            h: hue_of(self.r, self.g, self.b),
            s: saturation_of(hi, lo),
            l: lightness_of(hi, lo),
            a: self.a,
        }
    }

    /// The same color as six hexadecimal digits in small letters. The alpha
    /// is left out.
    pub fn to_hex(&self) -> (h: HexColor)
        ensures
            h.digits() == rgb_digits(self.r, self.g, self.b),
    {
        HexColor::from_channels(self.r, self.g, self.b)
    }

    /// Reads a color in hexadecimal, RGB or HSL notation and gives it by its
    /// red, green and blue channels.
    pub fn parse(color: &String) -> (r: Result<Self, Error>)
        ensures
            match rgb_in_any_notation(color@) {
                Some(c) => r == Ok::<Self, Error>(c),
                None => r is Err && r->Err_0.says(ErrorKind::Parse, "Invalid color string"),
            },
            r is Ok ==> r->Ok_0.in_range(),
    {
        if let Ok(hex) = HexColor::from(color) {
            return Ok(hex.to_rgb());
        }
        if let Ok(rgb) = Self::from(color) {
            return Ok(rgb);
        }
        if let Ok(hsl) = HSLColor::from(color) {
            return Ok(hsl.to_rgb());
        }
        Err(Error::new("Invalid color string"))
    }

    /// Reads a string in RGB notation.
    pub fn from(color: &String) -> (r: Result<Self, Error>)
        ensures
            match rgb_notation(color@) {
                Some(c) => r == Ok::<Self, Error>(c),
                None => r is Err && r->Err_0.says(ErrorKind::Parse, "Can't parse RGB string"),
            },
            r is Ok ==> r->Ok_0.in_range(),
    {
        let text = chars_of(color.as_str());
        let (w, body) = strip_wrapper(&text);
        let fields = split_fields(&body);
        match w {
            Wrapper::Bare | Wrapper::Rgb | Wrapper::Rgba => {},
            _ => { return Err(Error::new("Can't parse RGB string")); },
        }
        let a = match parse_alpha_field(&fields, 3) {
            Some(a) => a,
            None => { return Err(Error::new("Can't parse RGB string")); },
        };
        match (parse_channel(&fields[0]), parse_channel(&fields[1]), parse_channel(&fields[2])) {
            (Some(r), Some(g), Some(b)) => Ok(Self { r, g, b, a }),
            _ => Err(Error::new("Can't parse RGB string")),
        }
    }

    /// Sets the alpha. One above one is taken as one.
    pub fn set_alpha(&mut self, alpha: Alpha)
        ensures
            final(self).r == old(self).r,
            final(self).g == old(self).g,
            final(self).b == old(self).b,
            final(self).a.units == (if alpha.units <= ALPHA_ONE {
                alpha.units
            } else {
                ALPHA_ONE
            }),
            final(self).in_range(),
    {
        self.a = Alpha { units: safe_value(0, ALPHA_ONE, alpha.units) };
    }

    /// Whether a string is in RGB notation.
    pub fn is_rgb_string(color: &String) -> (b: bool)
        ensures
            b == rgb_notation(color@) is Some,
    {
        match Self::from(color) {
            Ok(_) => true,
            Err(_) => false,
        }
    }
}

} // verus!
