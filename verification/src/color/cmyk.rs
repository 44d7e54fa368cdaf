use vstd::prelude::*;
use crate::color::alpha::{Alpha, ALPHA_ONE};
use crate::color::hex::{rgb_digits, HexColor};
use crate::color::hsl::HSLColor;
use crate::color::number::{ink, parse_ink};
use crate::color::rgb::{hsl_of_rgb, RGBColor};
use crate::color::text::{chars_of, trimmed};
use crate::color::utils::{
    lemma_wrapper_transparent, split_fields, strip_wrapper, tokens, wrapped, wrapper_of, Wrapper,
};
use crate::error::{Error, ErrorKind};

verus! {

/// A color by its cyan, magenta, yellow and key inks, each in percent.
#[derive(Debug, Clone, Copy, PartialEq, Eq, Structural)]
pub struct CMYKColor {
    pub c: u8,
    pub m: u8,
    pub y: u8,
    pub k: u8,
}

/// The color that a string in CMYK notation states: `cmyk(..)` or no
/// wrapper, around four inks.
pub open spec fn cmyk_notation(text: Seq<char>) -> Option<CMYKColor> {
    let w = wrapper_of(trimmed(text));
    let f = tokens(text);
    if (w == Wrapper::Bare || w == Wrapper::Cmyk) && f.len() == 4 && ink(f[0]) is Some
        && ink(f[1]) is Some && ink(f[2]) is Some && ink(f[3]) is Some {
        Some(
            CMYKColor {
                c: ink(f[0])->0 as u8,
                m: ink(f[1])->0 as u8,
                y: ink(f[2])->0 as u8,
                k: ink(f[3])->0 as u8,
            },
        )
    } else {
        None
    }
}

/// Wrapper transparency: a list of fields that has no wrapper of its own
/// states the same color in CMYK notation inside `cmyk(..)` as it does alone.
pub proof fn lemma_cmyk_wrapper_transparent(body: Seq<char>)
    requires
        wrapper_of(trimmed(body)) == Wrapper::Bare,
    ensures
        cmyk_notation(wrapped(Wrapper::Cmyk, body)) == cmyk_notation(body),
{
    lemma_wrapper_transparent(Wrapper::Cmyk, body);
}

/// The channel that the ink over it and the key leave, both in percent:
/// `255 * (1 - ink / 100) * (1 - key / 100)`, cut down to a whole number.
pub open spec fn inked(ink: int, key: int) -> int {
    255 * (100 - ink) * (100 - key) / 10000
}

/// The color in red, green and blue that is the same as `c`, fully opaque.
pub open spec fn rgb_of_cmyk(c: CMYKColor) -> RGBColor {
    RGBColor {
        r: inked(c.c as int, c.k as int) as u8,
        g: inked(c.m as int, c.k as int) as u8,
        b: inked(c.y as int, c.k as int) as u8,
        a: Alpha { units: ALPHA_ONE },
    }
}

fn channel_under(ink: u8, key: u8) -> (v: u8)
    requires
        ink <= 100,
        key <= 100,
    ensures
        v == inked(ink as int, key as int),
{
    let clear: u32 = 100 - ink as u32;
    let light: u32 = 100 - key as u32;
    assert(0 <= clear * light <= 10000) by (nonlinear_arith)
        requires
            0 <= clear <= 100,
            0 <= light <= 100,
    ;
    assert(255 * (100 - ink) * (100 - key) == 255 * (clear * light)) by (nonlinear_arith)
        requires
            clear == 100 - ink,
            light == 100 - key,
    ;
    (255 * (clear * light) / 10000) as u8
}

/// Whether a string is in CMYK notation.
pub fn is_cmyk_string(color: &String) -> (b: bool)
    ensures
        b == cmyk_notation(color@) is Some,
{
    match CMYKColor::from(color) {
        Ok(_) => true,
        Err(_) => false,
    }
}

impl CMYKColor {
    /// Whether each ink is at most 100 percent.
    pub open spec fn in_range(self) -> bool {
        self.c <= 100 && self.m <= 100 && self.y <= 100 && self.k <= 100
    }

    /// Reads a string in CMYK notation.
    pub fn from(color: &String) -> (r: Result<Self, Error>)
        ensures
            match cmyk_notation(color@) {
                Some(c) => r == Ok::<Self, Error>(c),
                None => r is Err && r->Err_0.says(ErrorKind::Parse, "Can't parse CMYK string"),
            },
            r is Ok ==> r->Ok_0.in_range(),
    {
        let text = chars_of(color.as_str());
        let (w, body) = strip_wrapper(&text);
        let fields = split_fields(&body);
        match w {
            Wrapper::Bare | Wrapper::Cmyk => {},
            _ => { return Err(Error::new("Can't parse CMYK string")); },
        }
        if fields.len() != 4 {
            return Err(Error::new("Can't parse CMYK string"));
        }
        match (
            parse_ink(&fields[0]),
            parse_ink(&fields[1]),
            parse_ink(&fields[2]),
            parse_ink(&fields[3]),
        ) {
            (Some(c), Some(m), Some(y), Some(k)) => Ok(Self { c, m, y, k }),
            _ => Err(Error::new("Can't parse CMYK string")),
        }
    }

    /// The same color by its red, green and blue channels, fully opaque.
    pub fn to_rgb(&self) -> (c: RGBColor)
        requires
            self.in_range(),
        ensures
            c == rgb_of_cmyk(*self),
            c.r == inked(self.c as int, self.k as int),
            c.g == inked(self.m as int, self.k as int),
            c.b == inked(self.y as int, self.k as int),
            c.in_range(),
    {
        RGBColor {
            r: channel_under(self.c, self.k),
            g: channel_under(self.m, self.k),
            b: channel_under(self.y, self.k),
            a: Alpha::opaque(),
        }
    }

    /// The same color as six hexadecimal digits.
    pub fn to_hex(&self) -> (h: HexColor)
        requires
            self.in_range(),
        ensures
            h.digits() == rgb_digits(
                rgb_of_cmyk(*self).r,
                rgb_of_cmyk(*self).g,
                rgb_of_cmyk(*self).b,
            ),
    {
        self.to_rgb().to_hex()
    }

    /// The same color by hue, saturation and lightness.
    pub fn to_hsl(&self) -> (c: HSLColor)
        requires
            self.in_range(),
        ensures
            c == hsl_of_rgb(rgb_of_cmyk(*self)),
            c.in_range(),
    {
        self.to_rgb().to_hsl()
    }
}

} // verus!
