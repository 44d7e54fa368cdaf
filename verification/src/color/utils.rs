use vstd::prelude::*;
use vstd::laws_cmp::obeys_partial_cmp_spec_properties;
use vstd::laws_eq::obeys_eq_spec_properties;
use vstd::std_specs::cmp::PartialOrdIs;
use vstd::std_specs::cmp::PartialOrdSpec;
use vstd::string::StringExecFns;
use crate::color::text::{
    ascii_lower, chars_of, copy_range, hex_digit_value, is_hex_digit, joined,
    lemma_split_commas_joined, scan_run, split_at_commas, split_commas, split_words, string_of,
    string_views, trim, trimmed, views, words, CharClass,
};
use crate::error::{Error, ErrorKind};

verus! {

/// The value of `value` bounded into `low ..= high`: `low` where `value` lies
/// below it, else `high` where `value` lies above it, else `value` itself.
pub open spec fn bounded<T: PartialOrd>(low: T, high: T, value: T) -> T {
    if value.is_lt(&low) {
        low
    } else if value.is_gt(&high) {
        high
    } else {
        value
    }
}

/// Whether the comparisons of `T` are those of a total order: any two values
/// compare, and the results agree with one another.
pub open spec fn totally_ordered<T: PartialOrd>() -> bool {
    &&& T::obeys_partial_cmp_spec()
    &&& obeys_partial_cmp_spec_properties::<T>()
    &&& forall|x: T, y: T| (#[trigger] x.partial_cmp_spec(&y)) is Some
}

/// In a total order, a value bounded into a range that is not empty lies in
/// the range.
pub proof fn lemma_bounded_in_range<T: PartialOrd>(low: T, high: T, value: T)
    requires
        totally_ordered::<T>(),
        low.is_le(&high),
    ensures
        low.is_le(&bounded(low, high, value)),
        bounded(low, high, value).is_le(&high),
{
    reveal(obeys_partial_cmp_spec_properties);
    reveal(obeys_eq_spec_properties);
    assert(low.partial_cmp_spec(&low) is Some);
    assert(high.partial_cmp_spec(&high) is Some);
    assert(value.partial_cmp_spec(&low) is Some);
    assert(low.partial_cmp_spec(&value) is Some);
    assert(value.partial_cmp_spec(&high) is Some);
}

/// Bounds `value` into the inclusive range from `low` to `high`.
pub fn safe_value<T>(low: T, high: T, value: T) -> (r: T) where T: PartialOrd + Copy
    ensures
        T::obeys_partial_cmp_spec() ==> r == bounded(low, high, value),
        totally_ordered::<T>() && low.is_le(&high) ==> low.is_le(&r) && r.is_le(&high),
{
    proof {
        if totally_ordered::<T>() && low.is_le(&high) {
            lemma_bounded_in_range(low, high, value);
        }
    }
    if value < low {
        low
    } else if value > high {
        high
    } else {
        value
    }
}

/// The functional forms that a color string can be wrapped in.
#[derive(Clone, Copy, Debug, PartialEq, Eq, Structural)]
pub enum Wrapper {
    /// No wrapper: the fields stand alone.
    Bare,
    Rgb,
    Rgba,
    Hsl,
    Hsla,
    Cmyk,
}

/// Whether `t` is `name` in small or capital letters, then `(`, then
/// anything, then `)`.
pub open spec fn is_call(t: Seq<char>, name: Seq<char>) -> bool {
    &&& t.len() >= name.len() + 2
    &&& forall|i: int| 0 <= i < name.len() ==> ascii_lower(#[trigger] t[i]) == name[i]
    &&& t[name.len() as int] == '('
    &&& t.last() == ')'
}

/// What stands between the brackets of a call of `name`.
pub open spec fn call_body(t: Seq<char>, name: Seq<char>) -> Seq<char> {
    t.subrange(name.len() as int + 1, t.len() - 1)
}

impl Wrapper {
    pub open spec fn name(self) -> Seq<char> {
        match self {
            Wrapper::Bare => Seq::empty(),
            Wrapper::Rgb => "rgb"@,
            Wrapper::Rgba => "rgba"@,
            Wrapper::Hsl => "hsl"@,
            Wrapper::Hsla => "hsla"@,
            Wrapper::Cmyk => "cmyk"@,
        }
    }
}

/// The wrapper that `t` has, where `t` has no blanks around it.
pub open spec fn wrapper_of(t: Seq<char>) -> Wrapper {
    if is_call(t, Wrapper::Rgb.name()) {
        Wrapper::Rgb
    } else if is_call(t, Wrapper::Rgba.name()) {
        Wrapper::Rgba
    } else if is_call(t, Wrapper::Hsl.name()) {
        Wrapper::Hsl
    } else if is_call(t, Wrapper::Hsla.name()) {
        Wrapper::Hsla
    } else if is_call(t, Wrapper::Cmyk.name()) {
        Wrapper::Cmyk
    } else {
        Wrapper::Bare
    }
}

/// The list of fields in `text` as written: what stands between the brackets
/// of its wrapper, or all of it where it has none, without the blanks around
/// it.
pub open spec fn body_of(text: Seq<char>) -> Seq<char> {
    let t = trimmed(text);
    match wrapper_of(t) {
        Wrapper::Bare => t,
        w => trimmed(call_body(t, w.name())),
    }
}

/// The fields of a list: what its commas part, or, where it has no comma,
/// what its ASCII white space parts.
pub open spec fn fields_of(body: Seq<char>) -> Seq<Seq<char>> {
    if body.contains(',') {
        split_commas(body)
    } else {
        words(body)
    }
}

/// The fields of a color string, in order and as written.
pub open spec fn tokens(text: Seq<char>) -> Seq<Seq<char>> {
    fields_of(body_of(text))
}

fn is_wrapped(t: &Vec<char>, name: &str) -> (b: bool)
    ensures
        b == is_call(t@, name@),
{
    let letters = chars_of(name);
    let n = letters.len();
    if t.len() < 2 || t.len() - 2 < n {
        return false;
    }
    let mut i: usize = 0;
    while i < n
        invariant
            i <= n,
            n == letters.len(),
            n + 2 <= t.len(),
            letters@ == name@,
            forall|j: int| 0 <= j < i ==> ascii_lower(#[trigger] t@[j]) == letters@[j],
        decreases n - i,
    {
        let c = t[i];
        let lower = if 'A' <= c && c <= 'Z' {
            ((c as u8) + 32) as char
        } else {
            c
        };
        assert(lower == ascii_lower(c));
        if lower != letters[i] {
            assert(ascii_lower(t@[i as int]) != name@[i as int]);
            assert(!is_call(t@, name@));
            return false;
        }
        i += 1;
    }
    t[n] == '(' && t[t.len() - 1] == ')'
}

/// Tells which wrapper `t` has, where `t` has no blanks around it.
pub fn detect_wrapper(t: &Vec<char>) -> (w: Wrapper)
    ensures
        w == wrapper_of(t@),
{
    if is_wrapped(t, "rgb") {
        Wrapper::Rgb
    } else if is_wrapped(t, "rgba") {
        Wrapper::Rgba
    } else if is_wrapped(t, "hsl") {
        Wrapper::Hsl
    } else if is_wrapped(t, "hsla") {
        Wrapper::Hsla
    } else if is_wrapped(t, "cmyk") {
        Wrapper::Cmyk
    } else {
        Wrapper::Bare
    }
}

/// The list of fields `body` inside the wrapper `w`: the name of the wrapper,
/// `(`, the list, and `)`.
pub open spec fn wrapped(w: Wrapper, body: Seq<char>) -> Seq<char> {
    w.name() + seq!['('] + body + seq![')']
}

/// Wrapper transparency: a list of fields that has no wrapper of its own has
/// the same fields inside a wrapper as it has alone, and the wrapper is told
/// for what it is.
pub proof fn lemma_wrapper_transparent(w: Wrapper, body: Seq<char>)
    requires
        w != Wrapper::Bare,
        wrapper_of(trimmed(body)) == Wrapper::Bare,
    ensures
        wrapper_of(trimmed(wrapped(w, body))) == w,
        tokens(wrapped(w, body)) == tokens(body),
{
    reveal_strlit("rgb");
    reveal_strlit("rgba");
    reveal_strlit("hsl");
    reveal_strlit("hsla");
    reveal_strlit("cmyk");
    let t = wrapped(w, body);
    let n = w.name().len() as int;
    assert(t.last() == ')');
    assert(t[0] == w.name()[0]);
    crate::color::text::lemma_trimmed_unchanged(t);
    assert forall|i: int| 0 <= i < n implies ascii_lower(#[trigger] t[i]) == w.name()[i] by {
        assert(t[i] == w.name()[i]);
    }
    assert(t[n] == '(');
    assert(is_call(t, w.name()));
    assert(t[1] == w.name()[1] && t[2] == w.name()[2] && t[3] == (w.name() + seq!['('])[3]);
    assert(wrapper_of(t) == w);
    assert(call_body(t, w.name()) =~= body);
}

/// A list with commas and without wrapper: its fields are the pieces
/// between the commas of the text without the blanks at its ends. Joined by
/// commas they are that text, and no field holds a comma.
pub proof fn lemma_comma_list(text: Seq<char>)
    requires
        wrapper_of(trimmed(text)) == Wrapper::Bare,
        trimmed(text).contains(','),
    ensures
        tokens(text) == split_commas(trimmed(text)),
        joined(tokens(text)) == trimmed(text),
        forall|i: int, j: int|
            0 <= i < tokens(text).len() && 0 <= j < tokens(text)[i].len() ==> (
            #[trigger] tokens(text)[i][j]) != ',',
{
    lemma_split_commas_joined(trimmed(text));
}

/// A text without an opening bracket has no wrapper.
pub proof fn lemma_bare_without_bracket(t: Seq<char>)
    requires
        forall|i: int| 0 <= i < t.len() ==> #[trigger] t[i] != '(',
    ensures
        wrapper_of(t) == Wrapper::Bare,
{
    reveal_strlit("rgb");
    reveal_strlit("rgba");
    reveal_strlit("hsl");
    reveal_strlit("hsla");
    reveal_strlit("cmyk");
    if t.len() >= 5 {
        assert(t[3] != '(');
    }
    if t.len() >= 6 {
        assert(t[4] != '(');
    }
}

/// Parts a color string into its wrapper and its list of fields.
pub fn strip_wrapper(text: &Vec<char>) -> (r: (Wrapper, Vec<char>))
    ensures
        r.0 == wrapper_of(trimmed(text@)),
        r.1@ == body_of(text@),
{
    let t = trim(text);
    let w = detect_wrapper(&t);
    let n: usize = match w {
        Wrapper::Bare => { return (w, t); },
        Wrapper::Rgb | Wrapper::Hsl => 3,
        Wrapper::Rgba | Wrapper::Hsla | Wrapper::Cmyk => 4,
    };
    proof {
        reveal_strlit("rgb");
        reveal_strlit("rgba");
        reveal_strlit("hsl");
        reveal_strlit("hsla");
        reveal_strlit("cmyk");
    }
    let inner = copy_range(&t, n + 1, t.len() - 1);
    (w, trim(&inner))
}

/// Parts a list into its fields.
pub fn split_fields(body: &Vec<char>) -> (r: Vec<Vec<char>>)
    ensures
        views(r@) == fields_of(body@),
{
    let comma = scan_run(body, 0, CharClass::Field);
    proof {
        assert(body@.skip(0) =~= body@);
        crate::color::text::lemma_run_length_chars(body@, CharClass::Field);
        if comma < body.len() {
            assert(body@[comma as int] == ',');
        }
    }
    if comma < body.len() {
        split_at_commas(body)
    } else {
        split_words(body)
    }
}

/// Parts a color string into its fields: the wrapper is taken off, and what is
/// left is parted at its commas, or at ASCII white space where it has no
/// comma. Blanks of any script are taken off the ends of the string and of
/// what stands inside the wrapper.
/// Neither the number of fields nor what they hold is looked at.
pub fn color_string_splitter(color: &String) -> (r: Vec<String>)
    ensures
        string_views(r@) == tokens(color@),
{
    let text = chars_of(color.as_str());
    let (_, body) = strip_wrapper(&text);
    let fields = split_fields(&body);
    let mut r: Vec<String> = Vec::new();
    let mut i: usize = 0;
    while i < fields.len()
        invariant
            i <= fields.len(),
            string_views(r@) == views(fields@).take(i as int),
        decreases fields.len() - i,
    {
        let field = string_of(&fields[i]);
        let ghost before = string_views(r@);
        r.push(field);
        assert(string_views(r@) =~= before.push(field@));
        i += 1;
        assert(string_views(r@) =~= views(fields@).take(i as int));
    }
    assert(views(fields@).take(i as int) =~= views(fields@));
    r
}

/// Whether `s` is an even number of hexadecimal digits.
pub open spec fn is_hex_text(s: Seq<char>) -> bool {
    s.len() % 2 == 0 && forall|i: int| 0 <= i < s.len() ==> is_hex_digit(#[trigger] s[i])
}

/// The byte that the pair of hexadecimal digits at `2 * i` in `s` stands for.
pub open spec fn hex_byte(s: Seq<char>, i: int) -> u8 {
    (16 * hex_digit_value(s[2 * i]) + hex_digit_value(s[2 * i + 1])) as u8
}

/// The bytes that the pairs of hexadecimal digits in `s` stand for.
pub open spec fn hex_bytes(s: Seq<char>) -> Seq<u8> {
    Seq::new(s.len() / 2, |i: int| hex_byte(s, i))
}

/// The error of `hex::decode`, of which nothing is read.
#[verifier::external_type_specification]
#[verifier::external_body]
pub struct ExFromHexError(hex::FromHexError);

/// Calls `hex::decode`. That function takes the text by its bytes. It gives
/// an error for an odd number of them and for any byte that is not one of
/// `0-9`, `a-f`, `A-F`; else it gives, for each pair of digits, sixteen times
/// the first digit's value plus the second's. A hexadecimal digit is a
/// character of one byte and no byte of a longer character is one, so the
/// text is decoded exactly where it is an even number of such digits.
#[verifier::external_body]
fn decode_hex(text: &String) -> (r: Result<Vec<u8>, hex::FromHexError>)
    ensures
        r is Ok <==> is_hex_text(text@),
        r is Ok ==> r->Ok_0@ == hex_bytes(text@),
{
    hex::decode(text)
}

/// A single digit twice, anything else as it is.
pub open spec fn doubled(s: Seq<char>) -> Seq<char> {
    if s.len() == 1 {
        s + s
    } else {
        s
    }
}

/// The byte that one hexadecimal digit, taken twice, or two of them stand for.
pub open spec fn hex_pair(s: Seq<char>) -> Option<u8> {
    if (s.len() == 1 || s.len() == 2) && is_hex_text(doubled(s)) {
        Some(hex_byte(doubled(s), 0))
    } else {
        None
    }
}

/// The length of a text in bytes, as UTF-8.
pub open spec fn byte_length(s: Seq<char>) -> nat {
    vstd::utf8::encode_utf8(s).len()
}

/// A text of hexadecimal digits has one byte for each digit.
pub proof fn lemma_hex_digits_bytes(s: Seq<char>)
    requires
        forall|i: int| 0 <= i < s.len() ==> is_hex_digit(#[trigger] s[i]),
    ensures
        byte_length(s) == s.len(),
{
    assert(vstd::utf8::is_ascii_chars(s)) by {
        assert forall|i: int| 0 <= i < s.len() implies '\0' <= #[trigger] s[i] <= '\u{7f}' by {
            assert(is_hex_digit(s[i]));
        }
    }
    vstd::utf8::is_ascii_chars_encode_utf8(s);
}

/// Decodes one or two hexadecimal digits into a byte. A single digit is read
/// as if it stood twice. A text of another length in bytes is not read at
/// all; one of that length that is no hexadecimal digits is not decoded.
pub fn hex_to_u8(value: String) -> (r: Result<u8, Error>)
    ensures
        match hex_pair(value@) {
            Some(byte) => r == Ok::<u8, Error>(byte),
            None => r is Err,
        },
        r is Err ==> r->Err_0.says(
            ErrorKind::Decode,
            if byte_length(value@) == 1 || byte_length(value@) == 2 {
                "Cannot decode hex value"
            } else {
                "Cannot read hex value"
            },
        ),
{
    let n = value.as_str().as_bytes().len();
    proof {
        assert(n == byte_length(value@));
        if hex_pair(value@) is Some {
            assert forall|i: int| 0 <= i < value@.len() implies is_hex_digit(
                #[trigger] value@[i],
            ) by {
                assert(doubled(value@)[i] == value@[i]);
            }
            lemma_hex_digits_bytes(value@);
        }
    }
    let text = if n == 2 {
        value
    } else if n == 1 {
        let again = value.clone();
        value.concat(again.as_str())
    } else {
        return Err(Error::decode("Cannot read hex value"));
    };
    match decode_hex(&text) {
        Ok(bytes) => {
            proof {
                assert forall|i: int| 0 <= i < value@.len() implies is_hex_digit(
                    #[trigger] value@[i],
                ) by {
                    assert(text@[i] == value@[i]);
                }
                lemma_hex_digits_bytes(value@);
            }
            Ok(bytes[0])
        },
        Err(_) => Err(Error::decode("Cannot decode hex value")),
    }
}

} // verus!
