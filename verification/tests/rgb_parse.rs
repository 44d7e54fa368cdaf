use color_convert::color::alpha::Alpha;
use color_convert::color::rgb::RGBColor;

#[test]
fn transparent_string() {
    assert_eq!(
        RGBColor::parse(&String::from("transparent")).unwrap(),
        RGBColor {
            r: 0,
            g: 0,
            b: 0,
            a: Alpha::transparent()
        }
    );
}

#[test]
fn reduced_hex_string() {
    assert_eq!(
        RGBColor::parse(&String::from("#fff")).unwrap(),
        RGBColor {
            r: 255,
            g: 255,
            b: 255,
            a: Alpha::opaque()
        }
    );
}

#[test]
fn reduced_hex_with_alpha_string() {
    assert_eq!(
        RGBColor::parse(&String::from("#fff0")).unwrap(),
        RGBColor {
            r: 255,
            g: 255,
            b: 255,
            a: Alpha::transparent()
        }
    );
}

#[test]
fn invalid_reduced_hex_string() {
    let result_1 = RGBColor::parse(&String::from("#zzz")).map_err(|e| e.message);
    assert_eq!(result_1, Err(String::from("Invalid color string")));

    let result_2 = RGBColor::parse(&String::from("#ffag")).map_err(|e| e.message);
    assert_eq!(result_2, Err(String::from("Invalid color string")));
}

#[test]
fn hex_string() {
    assert_eq!(
        RGBColor::parse(&String::from("#000000")).unwrap(),
        RGBColor {
            r: 0,
            g: 0,
            b: 0,
            a: Alpha::opaque()
        }
    );
}

#[test]
fn hex_with_alpha_string() {
    assert_eq!(
        RGBColor::parse(&String::from("#000000ff")).unwrap(),
        RGBColor {
            r: 0,
            g: 0,
            b: 0,
            a: Alpha::opaque()
        }
    );
}

#[test]
fn invalid_hex_string() {
    let result_1 = RGBColor::parse(&String::from("#abcdefgh")).map_err(|e| e.message);
    assert_eq!(result_1, Err(String::from("Invalid color string")));

    let result_2 = RGBColor::parse(&String::from("#iklmno")).map_err(|e| e.message);
    assert_eq!(result_2, Err(String::from("Invalid color string")));
}

#[test]
fn rgb_string() {
    assert_eq!(
        RGBColor::parse(&String::from("rgb(0, 0, 0)")).unwrap(),
        RGBColor {
            r: 0,
            g: 0,
            b: 0,
            a: Alpha::opaque()
        }
    );
}

#[test]
fn rgba_string() {
    assert_eq!(
        RGBColor::parse(&String::from("rgba( 255, 255, 255, 0)")).unwrap(),
        RGBColor {
            r: 255,
            g: 255,
            b: 255,
            a: Alpha::transparent()
        }
    );
}

#[test]
fn hsl_string() {
    assert_eq!(RGBColor::parse(&String::from("hsl(136, 32%, 62%)")).unwrap(),
    RGBColor {
        r: 127,
        g: 189,
        b: 144,
        a: Alpha::opaque()
    })
}

#[test]
fn parse_does_not_read_cmyk() {
    let result = RGBColor::parse(&String::from("cmyk(0,100,100,0)")).map_err(|e| e.message);
    assert_eq!(result, Err(String::from("Invalid color string")));
}

#[test]
fn parse_reads_hex_before_rgb_and_hsl() {
    // Three digits are a reduced hex color, not a lone field.
    assert_eq!(
        RGBColor::parse(&String::from("123")).unwrap(),
        RGBColor { r: 0x11, g: 0x22, b: 0x33, a: Alpha::opaque() }
    );
}
