use vstd::prelude::*;
use vstd::pervasive::unreached;
use crate::color::alpha::{Alpha, ALPHA_ONE, UNITS_PER_BYTE};
use crate::color::hsl::HSLColor;
use crate::color::rgb::{hsl_of_rgb, RGBColor};
use crate::color::text::{
    chars_of, copy_range, hex_digit_value, is_hex_digit, string_of, trim, trimmed,
};
use crate::color::utils::{hex_byte, hex_pair, hex_to_u8, is_hex_text};
use crate::error::{Error, ErrorKind};

verus! {

/// A color as hexadecimal digits, two for each of red, green and blue, and
/// two more for the alpha where the color states one.
#[derive(Debug)]
pub struct HexColor(String);

pub open spec fn all_hex_digits(s: Seq<char>) -> bool {
    forall|i: int| 0 <= i < s.len() ==> is_hex_digit(#[trigger] s[i])
}

/// Whether `s` is the digits of a color: six or eight hexadecimal digits.
pub open spec fn is_color_digits(s: Seq<char>) -> bool {
    (s.len() == 6 || s.len() == 8) && all_hex_digits(s)
}

/// `s` with each of its characters twice.
pub open spec fn twice_each(s: Seq<char>) -> Seq<char> {
    Seq::new(2 * s.len(), |i: int| s[i / 2])
}

/// `t` without the `#` that it may start with.
pub open spec fn after_hash(t: Seq<char>) -> Seq<char> {
    if t.len() > 0 && t[0] == '#' {
        t.drop_first()
    } else {
        t
    }
}

/// The digits of the color that a string in hexadecimal notation states. The
/// word `transparent` is black with no opacity. Six or eight digits, after a
/// `#` or without one, are taken as they are; three or four stand for twice
/// as many, each one twice.
pub open spec fn hex_notation(text: Seq<char>) -> Option<Seq<char>> {
    let t = trimmed(text);
    let d = after_hash(t);
    if t == "transparent"@ {
        Some("00000000"@)
    } else if all_hex_digits(d) && (d.len() == 6 || d.len() == 8) {
        Some(d)
    } else if all_hex_digits(d) && (d.len() == 3 || d.len() == 4) {
        Some(twice_each(d))
    } else {
        None
    }
}

/// The hexadecimal digit, a small letter from ten on, for a number below 16.
pub open spec fn hex_digit(n: int) -> char {
    if n < 10 {
        ('0' as int + n) as char
    } else {
        ('a' as int + n - 10) as char
    }
}

/// The two hexadecimal digits of a byte.
pub open spec fn byte_digits(byte: u8) -> Seq<char> {
    seq![hex_digit(byte as int / 16), hex_digit(byte as int % 16)]
}

/// The six hexadecimal digits of three channels, red first.
pub open spec fn rgb_digits(r: u8, g: u8, b: u8) -> Seq<char> {
    byte_digits(r) + byte_digits(g) + byte_digits(b)
}

/// The color in red, green and blue that the digits `d` state: a byte for
/// each pair, and for the alpha the fourth byte out of 255, or full opacity
/// where there are three.
pub open spec fn rgb_of_digits(d: Seq<char>) -> RGBColor {
    RGBColor {
        r: hex_byte(d, 0),
        g: hex_byte(d, 1),
        b: hex_byte(d, 2),
        a: Alpha {
            units: if d.len() == 8 {
                (hex_byte(d, 3) * UNITS_PER_BYTE) as u32
            } else {
                ALPHA_ONE
            },
        },
    }
}

/// Whether a string is in hexadecimal notation.
pub fn is_hex_string(color: &String) -> (b: bool)
    ensures
        b == hex_notation(color@) is Some,
{
    if let Ok(_) = HexColor::from(color) {
        return true;
    }
    false
}

fn is_hex_char(c: char) -> (b: bool)
    ensures
        b == is_hex_digit(c),
{
    ('0' <= c && c <= '9') || ('a' <= c && c <= 'f') || ('A' <= c && c <= 'F')
}

fn digit_char(n: u8) -> (c: char)
    requires
        n < 16,
    ensures
        c == hex_digit(n as int),
{
    if n < 10 {
        (48u8 + n) as char
    } else {
        (87u8 + n) as char
    }
}

fn push_byte(digits: &mut String, byte: u8)
    ensures
        final(digits)@ == old(digits)@ + byte_digits(byte),
{
    digits.push(digit_char(byte / 16));
    digits.push(digit_char(byte % 16));
    assert(digits@ =~= old(digits)@ + byte_digits(byte));
}

impl HexColor {
    #[verifier::type_invariant]
    pub closed spec fn well_formed(self) -> bool {
        is_color_digits(self.0@)
    }

    /// The hexadecimal digits of the color.
    pub closed spec fn digits(self) -> Seq<char> {
        self.0@
    }

    /// The digits of the color as a string, without `#`.
    pub fn as_string(&self) -> (s: &String)
        ensures
            s@ == self.digits(),
            is_color_digits(s@),
    {
        proof {
            use_type_invariant(self);
        }
        &self.0
    }

    /// Reads a string in hexadecimal notation.
    pub fn from(color: &String) -> (r: Result<Self, Error>)
        ensures
            match hex_notation(color@) {
                Some(d) => r is Ok && r->Ok_0.digits() == d,
                None => r is Err && r->Err_0.says(ErrorKind::Parse, "Can't parse Hex string"),
            },
            r is Ok ==> is_color_digits(r->Ok_0.digits()),
    {
        let text = chars_of(color.as_str());
        let t = trim(&text);
        proof {
            reveal_strlit("transparent");
            reveal_strlit("00000000");
        }
        if t.len() == 11 && t[0] == 't' && t[1] == 'r' && t[2] == 'a' && t[3] == 'n' && t[4] == 's'
            && t[5] == 'p' && t[6] == 'a' && t[7] == 'r' && t[8] == 'e' && t[9] == 'n' && t[10]
            == 't' {
            assert(t@ =~= "transparent"@);
            return Ok(HexColor("00000000".to_owned()));
        }
        assert(t@ != "transparent"@);
        let start: usize = if t.len() > 0 && t[0] == '#' {
            1
        } else {
            0
        };
        let n = t.len() - start;
        let ghost d = after_hash(t@);
        assert(d =~= t@.skip(start as int));
        if !(n == 3 || n == 4 || n == 6 || n == 8) {
            return Err(Error::new("Can't parse Hex string"));
        }
        let each: usize = if n <= 4 {
            2
        } else {
            1
        };
        let mut digits: Vec<char> = Vec::new();
        let mut i: usize = 0;
        while i < n
            invariant
                i <= n,
                n == t.len() - start,
                n <= 8,
                each == 1 || each == 2,
                d == t@.skip(start as int),
                d == after_hash(trimmed(color@)),
                trimmed(color@) != "transparent"@,
                all_hex_digits(d.take(i as int)),
                each == 1 ==> digits@ == d.take(i as int),
                each == 2 ==> digits@ == twice_each(d.take(i as int)),
            decreases n - i,
        {
            let c = t[start + i];
            if !is_hex_char(c) {
                assert(d[i as int] == c);
                return Err(Error::new("Can't parse Hex string"));
            }
            digits.push(c);
            if each == 2 {
                digits.push(c);
            }
            i += 1;
            proof {
                assert forall|j: int| 0 <= j < i implies is_hex_digit(#[trigger] d.take(i as int)[j]) by {
                    if j < i - 1 {
                        assert(d.take(i - 1)[j] == d[j]);
                    }
                }
                if each == 1 {
                    assert(digits@ =~= d.take(i as int));
                } else {
                    assert(digits@ =~= twice_each(d.take(i as int)));
                }
            }
        }
        proof {
            assert(d.take(n as int) =~= d);
            assert forall|j: int| 0 <= j < digits@.len() implies is_hex_digit(
                #[trigger] digits@[j],
            ) by {
                if each == 2 {
                    assert(digits@[j] == d[j / 2]);
                }
            }
        }
        Ok(HexColor(string_of(&digits)))
    }

    /// The color of the given channels, in small letters and without alpha.
    pub fn from_channels(r: u8, g: u8, b: u8) -> (h: Self)
        ensures
            h.digits() == rgb_digits(r, g, b),
    {
        let mut digits = String::new();
        push_byte(&mut digits, r);
        push_byte(&mut digits, g);
        push_byte(&mut digits, b);
        proof {
            lemma_rgb_digits(r, g, b);
            assert(digits@ =~= rgb_digits(r, g, b));
        }
        HexColor(digits)
    }

    /// Decodes the pair of digits that starts at `2 * i`.
    fn byte_at(&self, i: usize) -> (byte: u8)
        requires
            2 * i + 2 <= self.digits().len(),
        ensures
            byte == hex_byte(self.digits(), i as int),
    {
        proof {
            use_type_invariant(self);
        }
        let all = chars_of(self.0.as_str());
        let pair = copy_range(&all, 2 * i, 2 * i + 2);
        assert(is_hex_text(pair@));
        assert(hex_pair(pair@) == Some(hex_byte(self.digits(), i as int)));
        match hex_to_u8(string_of(&pair)) {
            Ok(byte) => byte,
            Err(_) => unreached(),
        }
    }

    /// The same color by its red, green and blue channels. The alpha is the
    /// fourth byte out of 255, or full opacity where the color states none.
    pub fn to_rgb(&self) -> (c: RGBColor)
        ensures
            c == rgb_of_digits(self.digits()),
            c.in_range(),
    {
        proof {
            use_type_invariant(self);
        }
        let n = self.0.as_str().unicode_len();
        let a = if n == 8 {
            Alpha::from_byte(self.byte_at(3))
        } else {
            Alpha::opaque()
        };
        RGBColor { r: self.byte_at(0), g: self.byte_at(1), b: self.byte_at(2), a }
    }

    /// The same color by hue, saturation and lightness.
    pub fn to_hsl(&self) -> (c: HSLColor)
        ensures
            c == hsl_of_rgb(rgb_of_digits(self.digits())),
            c.in_range(),
    {
        self.to_rgb().to_hsl()
    }
}

impl Clone for HexColor {
    fn clone(&self) -> (c: Self)
        ensures
            c.digits() == self.digits(),
    {
        proof {
            use_type_invariant(self);
        }
        HexColor(self.0.clone())
    }
}

/// The digit of a number below 16 is a hexadecimal digit that stands for
/// that number.
pub proof fn lemma_hex_digit_value(n: int)
    requires
        0 <= n < 16,
    ensures
        is_hex_digit(hex_digit(n)),
        hex_digit_value(hex_digit(n)) == n,
        !crate::color::text::is_blank(hex_digit(n)),
        hex_digit(n) != '#',
{
}

/// Hexadecimal round trip: the digits of three channels decode into those
/// channels, fully opaque, and as a string they are in hexadecimal notation
/// and state themselves.
pub proof fn lemma_hex_round_trip(r: u8, g: u8, b: u8)
    ensures
        rgb_of_digits(rgb_digits(r, g, b)) == (RGBColor { r, g, b, a: Alpha { units: ALPHA_ONE } }),
        hex_notation(rgb_digits(r, g, b)) == Some(rgb_digits(r, g, b)),
{
    let s = rgb_digits(r, g, b);
    lemma_rgb_digits(r, g, b);
    lemma_hex_digit_value(r as int / 16);
    lemma_hex_digit_value(r as int % 16);
    lemma_hex_digit_value(g as int / 16);
    lemma_hex_digit_value(g as int % 16);
    lemma_hex_digit_value(b as int / 16);
    lemma_hex_digit_value(b as int % 16);
    assert(s[0] == hex_digit(r as int / 16) && s[1] == hex_digit(r as int % 16));
    assert(s[2] == hex_digit(g as int / 16) && s[3] == hex_digit(g as int % 16));
    assert(s[4] == hex_digit(b as int / 16) && s[5] == hex_digit(b as int % 16));
    assert(hex_byte(s, 0) == r);
    assert(hex_byte(s, 1) == g);
    assert(hex_byte(s, 2) == b);
    crate::color::text::lemma_trimmed_unchanged(s);
    reveal_strlit("transparent");
    assert(after_hash(s) == s);
}

/// Reduced form: three or four hexadecimal digits after `#` state the same
/// color as the digits with each one twice.
pub proof fn lemma_reduced_hex_expands(d: Seq<char>)
    requires
        all_hex_digits(d),
        d.len() == 3 || d.len() == 4,
    ensures
        hex_notation(seq!['#'] + d) == Some(twice_each(d)),
        hex_notation(seq!['#'] + twice_each(d)) == Some(twice_each(d)),
{
    let short = seq!['#'] + d;
    let long = seq!['#'] + twice_each(d);
    reveal_strlit("transparent");
    assert(is_hex_digit(d[d.len() - 1]));
    assert(short.last() == d[d.len() - 1]);
    assert(long.last() == d[d.len() - 1]);
    crate::color::text::lemma_trimmed_unchanged(short);
    crate::color::text::lemma_trimmed_unchanged(long);
    assert(after_hash(short) =~= d);
    assert(after_hash(long) =~= twice_each(d));
    assert forall|i: int| 0 <= i < twice_each(d).len() implies is_hex_digit(
        #[trigger] twice_each(d)[i],
    ) by {
        assert(is_hex_digit(d[i / 2]));
    }
}

/// The digits of three channels are six hexadecimal digits.
pub proof fn lemma_rgb_digits(r: u8, g: u8, b: u8)
    ensures
        is_color_digits(rgb_digits(r, g, b)),
        rgb_digits(r, g, b).len() == 6,
{
    let s = rgb_digits(r, g, b);
    assert forall|i: int| 0 <= i < s.len() implies is_hex_digit(#[trigger] s[i]) by {
        assert(0 <= r as int / 16 < 16 && 0 <= r as int % 16 < 16);
        assert(0 <= g as int / 16 < 16 && 0 <= g as int % 16 < 16);
        assert(0 <= b as int / 16 < 16 && 0 <= b as int % 16 < 16);
    }
}

} // verus!
