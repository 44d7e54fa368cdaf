use color_convert::color::text::trim;
use color_convert::color::utils::{color_string_splitter, hex_to_u8, safe_value};
use color_convert::error::{Error, ErrorKind};

fn split(text: &str) -> Vec<String> {
    color_string_splitter(&String::from(text))
}

#[test]
fn safe_value_bounds_into_the_range() {
    assert_eq!(safe_value(0, 255, 300), 255);
    assert_eq!(safe_value(0, 255, -10), 0);
    assert_eq!(safe_value(0, 255, 128), 128);
    assert_eq!(safe_value(0, 255, 0), 0);
    assert_eq!(safe_value(0, 255, 255), 255);
    assert_eq!(safe_value(0u8, 100u8, 101u8), 100);
    assert_eq!(safe_value(0u16, 360u16, 361u16), 360);
    assert_eq!(safe_value(-5i64, 5i64, -6i64), -5);
    assert_eq!(safe_value(0.0, 1.0, 1.5), 1.0);
    assert_eq!(safe_value(0.0, 1.0, -0.5), 0.0);
    assert_eq!(safe_value(0.0, 1.0, 0.25), 0.25);
}

#[test]
fn splitter_parts_at_commas() {
    assert_eq!(split("255, 0, 0"), vec!["255", " 0", " 0"]);
    assert_eq!(split(" 1,2 ,3 "), vec!["1", "2 ", "3"]);
    assert_eq!(split("1,,2"), vec!["1", "", "2"]);
    assert_eq!(split(","), vec!["", ""]);
    assert_eq!(split("a b,c d"), vec!["a b", "c d"]);
}

#[test]
fn splitter_parts_at_white_space_without_commas() {
    assert_eq!(split("255 0 0"), vec!["255", "0", "0"]);
    assert_eq!(split("  255 \t 0\n0  "), vec!["255", "0", "0"]);
    assert_eq!(split("one"), vec!["one"]);
    assert!(split("").is_empty());
    assert!(split("   ").is_empty());
}

#[test]
fn trim_agrees_with_std_on_every_character() {
    for code in 0..=0x10ffffu32 {
        let Some(c) = char::from_u32(code) else { continue };
        let text = vec![c, 'x', c];
        let expected: Vec<char> = text.iter().collect::<String>().trim().chars().collect();
        assert_eq!(trim(&text), expected, "{:?}", c);
    }
    let text: Vec<char> = " \u{a0}\t a \u{3000} b \u{2003}\n".chars().collect();
    assert_eq!(trim(&text).iter().collect::<String>(), "a \u{3000} b");
    assert!(trim(&Vec::new()).is_empty());
    assert!(trim(&vec!['\u{a0}', ' ', '\u{2028}']).is_empty());
}

#[test]
fn splitter_fields_joined_are_the_trimmed_string() {
    for text in ["\u{a0}1,2", " 1, 2 ,,3 \u{3000}", ",", "a,b,c\u{85}", "\u{b}x , y\u{b}", "1\u{a0},\u{a0}2"] {
        let fields = split(text);
        assert_eq!(fields.join(","), text.trim(), "{:?}", text);
        assert_eq!(fields.len(), 1 + text.matches(',').count(), "{:?}", text);
        let expected: Vec<&str> = text.trim().split(",").collect();
        assert_eq!(fields, expected, "{:?}", text);
    }
    assert_eq!(split("\u{a0}1,2"), vec!["1", "2"]);
}

#[test]
fn splitter_words_are_parted_by_ascii_white_space_only() {
    for text in ["1\u{a0}2 3", "\u{a0} 1\u{b}2\t3 \u{2003}", "a\u{3000}b", "\u{85}x\ny\u{c}z\r", " \u{b} "] {
        let expected: Vec<&str> = text.trim().split_ascii_whitespace().collect();
        assert_eq!(split(text), expected, "{:?}", text);
    }
    assert_eq!(split("1\u{a0}2 3"), vec!["1\u{a0}2", "3"]);
    assert_eq!(split("1\u{b}2 3"), vec!["1\u{b}2", "3"]);
}

#[test]
fn splitter_takes_the_wrapper_off() {
    assert_eq!(split("rgb(255, 0, 0)"), vec!["255", " 0", " 0"]);
    assert_eq!(split("  RGBA( 1 2 3 0.5 ) "), vec!["1", "2", "3", "0.5"]);
    assert_eq!(split("hsl(120, 50%, 50%)"), vec!["120", " 50%", " 50%"]);
    assert_eq!(split("hsla(1,2,3,4)"), vec!["1", "2", "3", "4"]);
    assert_eq!(split("cmyk(0,100,100,0)"), vec!["0", "100", "100", "0"]);
    assert!(split("rgb()").is_empty());
    assert!(split("rgb(  )").is_empty());
}

#[test]
fn splitter_leaves_other_text_as_it_is() {
    assert_eq!(split("rgb(1,2,3"), vec!["rgb(1", "2", "3"]);
    assert_eq!(split("lab(1,2,3)"), vec!["lab(1", "2", "3)"]);
    assert_eq!(split("rgb (1 2)"), vec!["rgb", "(1", "2)"]);
}

fn decode(text: &str) -> Result<u8, String> {
    hex_to_u8(String::from(text)).map_err(|e| e.message)
}

#[test]
fn hex_to_u8_decodes_two_digits() {
    assert_eq!(decode("ff"), Ok(255));
    assert_eq!(decode("00"), Ok(0));
    assert_eq!(decode("0a"), Ok(10));
    assert_eq!(decode("a0"), Ok(160));
    assert_eq!(decode("7F"), Ok(127));
    assert_eq!(decode("Ab"), Ok(171));
}

#[test]
fn hex_to_u8_doubles_one_digit() {
    assert_eq!(decode("f"), Ok(255));
    assert_eq!(decode("0"), Ok(0));
    assert_eq!(decode("a"), Ok(170));
    assert_eq!(decode("7"), Ok(0x77));
}

#[test]
fn hex_to_u8_errors() {
    assert_eq!(decode(""), Err(String::from("Cannot read hex value")));
    assert_eq!(decode("abc"), Err(String::from("Cannot read hex value")));
    assert_eq!(decode("zz"), Err(String::from("Cannot decode hex value")));
    assert_eq!(decode("g"), Err(String::from("Cannot decode hex value")));
    assert_eq!(decode("f "), Err(String::from("Cannot decode hex value")));
}

#[test]
fn hex_to_u8_takes_the_length_in_bytes() {
    // One character of two bytes has the length of a pair.
    assert_eq!("\u{e9}".len(), 2);
    assert_eq!(decode("\u{e9}"), Err(String::from("Cannot decode hex value")));
    // One of three bytes, and two characters of more than two, have not.
    assert_eq!(decode("\u{20ac}"), Err(String::from("Cannot read hex value")));
    assert_eq!(decode("\u{e9}\u{e9}"), Err(String::from("Cannot read hex value")));
    assert_eq!(decode("\u{e9}f"), Err(String::from("Cannot read hex value")));
    assert_eq!(decode("\u{20ac}f"), Err(String::from("Cannot read hex value")));
}

#[test]
fn error_keeps_its_message() {
    assert_eq!(Error::new("Invalid color string").message, "Invalid color string");
    assert_eq!(Error::new("").message, "");
    assert_eq!(Error::decode("Cannot read hex value").message, "Cannot read hex value");
}

#[test]
fn error_kinds() {
    assert_eq!(Error::new("x").kind, ErrorKind::Parse);
    assert_eq!(Error::decode("x").kind, ErrorKind::Decode);
    assert_eq!(hex_to_u8(String::from("zz")).unwrap_err().kind, ErrorKind::Decode);
    assert_eq!(hex_to_u8(String::from("")).unwrap_err().kind, ErrorKind::Decode);
    let e = color_convert::color::rgb::RGBColor::from(&String::from("rgb(1,2)")).unwrap_err();
    assert_eq!(e.kind, ErrorKind::Parse);
    let e = color_convert::color::hex::HexColor::from(&String::from("#gg")).unwrap_err();
    assert_eq!(e.kind, ErrorKind::Parse);
}
