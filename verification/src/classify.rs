use vstd::prelude::*;
use crate::color::cmyk::{cmyk_notation, rgb_of_cmyk, CMYKColor};
use crate::color::hex::{after_hash, hex_notation, rgb_digits, rgb_of_digits, HexColor};
use crate::color::hsl::{hsl_notation, rgb_of_hsl, HSLColor};
use crate::color::rgb::{hsl_of_rgb, rgb_notation, RGBColor};
use crate::color::text::{is_hex_digit, is_space, lemma_one_word, trimmed};
use crate::color::utils::{lemma_bare_without_bracket, tokens};

verus! {

/// The notations that a color can be written in, in the order in which a
/// string is tried against them.
#[derive(Clone, Copy, Debug, PartialEq, Eq, Structural)]
pub enum Notation {
    Hex,
    Rgb,
    Hsl,
    Cmyk,
}

/// A color as the notation of its string states it.
#[derive(Debug)]
pub enum ParsedColor {
    Hex(HexColor),
    Rgb(RGBColor),
    Hsl(HSLColor),
    Cmyk(CMYKColor),
}

/// One color in the three notations that every color is shown in.
#[derive(Debug)]
pub struct Equivalents {
    pub hex: HexColor,
    pub rgb: RGBColor,
    pub hsl: HSLColor,
}

/// What trying a string against the notations gives.
#[derive(Debug)]
pub enum Outcome {
    /// The string is in a notation, and this is its color.
    Matched(ParsedColor),
    /// The string is in none of the notations.
    NoMatch,
}

/// The first notation that `text` is in, if it is in any.
pub open spec fn notation_of(text: Seq<char>) -> Option<Notation> {
    if hex_notation(text) is Some {
        Some(Notation::Hex)
    } else if rgb_notation(text) is Some {
        Some(Notation::Rgb)
    } else if hsl_notation(text) is Some {
        Some(Notation::Hsl)
    } else if cmyk_notation(text) is Some {
        Some(Notation::Cmyk)
    } else {
        None
    }
}

impl ParsedColor {
    /// The notation that the color was written in.
    pub open spec fn notation_spec(&self) -> Notation {
        match self {
            ParsedColor::Hex(_) => Notation::Hex,
            ParsedColor::Rgb(_) => Notation::Rgb,
            ParsedColor::Hsl(_) => Notation::Hsl,
            ParsedColor::Cmyk(_) => Notation::Cmyk,
        }
    }

    /// Whether the color is what `text` states in the notation that the
    /// color was written in.
    pub open spec fn states(self, text: Seq<char>) -> bool {
        match self {
            ParsedColor::Hex(c) => hex_notation(text) == Some(c.digits()),
            ParsedColor::Rgb(c) => rgb_notation(text) == Some(c),
            ParsedColor::Hsl(c) => hsl_notation(text) == Some(c),
            ParsedColor::Cmyk(c) => cmyk_notation(text) == Some(c),
        }
    }

    /// Whether the values of the color lie in their ranges.
    pub open spec fn in_range(self) -> bool {
        match self {
            ParsedColor::Hex(_) => true,
            ParsedColor::Rgb(c) => c.in_range(),
            ParsedColor::Hsl(c) => c.in_range(),
            ParsedColor::Cmyk(c) => c.in_range(),
        }
    }

    /// The color by its red, green and blue channels.
    pub open spec fn rgb(self) -> RGBColor {
        match self {
            ParsedColor::Hex(c) => rgb_of_digits(c.digits()),
            ParsedColor::Rgb(c) => c,
            ParsedColor::Hsl(c) => rgb_of_hsl(c),
            ParsedColor::Cmyk(c) => rgb_of_cmyk(c),
        }
    }

    /// The color in hexadecimal, RGB and HSL notation. In its own notation
    /// it stays as it is; into the others it goes by way of its red, green
    /// and blue channels.
    pub fn equivalents(&self) -> (e: Equivalents)
        requires
            self.in_range(),
        ensures
            e.rgb == self.rgb(),
            e.hsl == (match *self {
                ParsedColor::Hsl(c) => c,
                _ => hsl_of_rgb(self.rgb()),
            }),
            e.hex.digits() == (match *self {
                ParsedColor::Hex(c) => c.digits(),
                _ => rgb_digits(self.rgb().r, self.rgb().g, self.rgb().b),
            }),
    {
        match self {
            ParsedColor::Hex(c) => Equivalents { hex: c.clone(), rgb: c.to_rgb(), hsl: c.to_hsl() },
            ParsedColor::Rgb(c) => Equivalents { hex: c.to_hex(), rgb: *c, hsl: c.to_hsl() },
            ParsedColor::Hsl(c) => {
                let rgb = c.to_rgb();
                Equivalents { hex: rgb.to_hex(), rgb, hsl: *c }
            },
            ParsedColor::Cmyk(c) => Equivalents {
                hex: c.to_hex(),
                rgb: c.to_rgb(),
                hsl: c.to_hsl(),
            },
        }
    }

    /// The notation that the color was written in.
    #[verifier::when_used_as_spec(notation_spec)]
    pub fn notation(&self) -> (n: Notation)
        ensures
            n == self.notation_spec(),
    {
        match self {
            ParsedColor::Hex(_) => Notation::Hex,
            ParsedColor::Rgb(_) => Notation::Rgb,
            ParsedColor::Hsl(_) => Notation::Hsl,
            ParsedColor::Cmyk(_) => Notation::Cmyk,
        }
    }
}

/// No string is in hexadecimal and in RGB notation at once: one in
/// hexadecimal notation is a single field, and RGB notation has three or
/// four. So the order of the two never decides.
pub proof fn lemma_hex_excludes_rgb(text: Seq<char>)
    requires
        hex_notation(text) is Some,
    ensures
        rgb_notation(text) is None,
        notation_of(text) == Some(Notation::Hex),
{
    let t = trimmed(text);
    reveal_strlit("transparent");
    assert forall|i: int| 0 <= i < t.len() implies {
        let c = #[trigger] t[i];
        c != '(' && c != ',' && !is_space(c)
    } by {
        if t != "transparent"@ {
            let d = after_hash(t);
            if i > 0 || d.len() == t.len() {
                assert(is_hex_digit(d[i - (t.len() - d.len())]));
            }
        }
    }
    lemma_bare_without_bracket(t);
    lemma_one_word(t);
    assert(!t.contains(','));
    assert(tokens(text) == seq![t]);
}

/// Tries a string against the hexadecimal, RGB, HSL and CMYK notations, in
/// that order, and gives the color that the first one it is in states.
pub fn classify_and_convert(text: &String) -> (r: Outcome)
    ensures
        match r {
            Outcome::Matched(c) => notation_of(text@) == Some(c.notation()) && c.states(text@)
                && c.in_range(),
            Outcome::NoMatch => notation_of(text@) is None,
        },
{
    if let Ok(c) = HexColor::from(text) {
        return Outcome::Matched(ParsedColor::Hex(c));
    }
    if let Ok(c) = RGBColor::from(text) {
        return Outcome::Matched(ParsedColor::Rgb(c));
    }
    if let Ok(c) = HSLColor::from(text) {
        return Outcome::Matched(ParsedColor::Hsl(c));
    }
    if let Ok(c) = CMYKColor::from(text) {
        return Outcome::Matched(ParsedColor::Cmyk(c));
    }
    Outcome::NoMatch
}

} // verus!
