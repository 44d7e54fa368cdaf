use color_convert::color::alpha::{Alpha, ALPHA_ONE};
use color_convert::color::cmyk::CMYKColor;
use color_convert::color::hex::HexColor;
use color_convert::color::hsl::HSLColor;
use color_convert::color::rgb::RGBColor;

fn rgb(r: u8, g: u8, b: u8) -> RGBColor {
    RGBColor { r, g, b, a: Alpha::opaque() }
}

fn hsl(h: u16, s: u8, l: u8) -> HSLColor {
    HSLColor { h, s, l, a: Alpha::opaque() }
}

#[test]
fn rgb_to_hex_is_lower_case_pairs() {
    assert_eq!(rgb(255, 0, 171).to_hex().as_string(), "ff00ab");
    assert_eq!(rgb(0, 0, 0).to_hex().as_string(), "000000");
    assert_eq!(rgb(1, 2, 3).to_hex().as_string(), "010203");
    assert_eq!(rgb(16, 159, 240).to_hex().as_string(), "109ff0");
}

#[test]
fn rgb_to_hex_leaves_the_alpha_out() {
    let c = RGBColor { r: 1, g: 2, b: 3, a: Alpha::from_millionths(500_000) };
    assert_eq!(c.to_hex().as_string(), "010203");
    assert_eq!(c.to_hex().to_rgb(), rgb(1, 2, 3));
}

#[test]
fn hex_round_trip_of_every_byte() {
    for v in 0..=255u8 {
        let w = 255 - v;
        let u = v.wrapping_mul(7);
        let back = rgb(v, w, u).to_hex().to_rgb();
        assert_eq!((back.r, back.g, back.b), (v, w, u));
        assert_eq!(back.a, Alpha::opaque());
    }
}

#[test]
fn hex_parse_round_trip() {
    let hex = rgb(18, 52, 86).to_hex();
    let again = HexColor::from(hex.as_string()).unwrap();
    assert_eq!(again.as_string(), "123456");
    assert_eq!(again.to_rgb(), rgb(18, 52, 86));
}

#[test]
fn rgb_to_hsl_exact_values() {
    assert_eq!(rgb(255, 0, 0).to_hsl(), hsl(0, 100, 50));
    assert_eq!(rgb(0, 255, 0).to_hsl(), hsl(120, 100, 50));
    assert_eq!(rgb(0, 0, 255).to_hsl(), hsl(240, 100, 50));
    assert_eq!(rgb(255, 255, 255).to_hsl(), hsl(0, 0, 100));
    assert_eq!(rgb(0, 0, 0).to_hsl(), hsl(0, 0, 0));
    assert_eq!(rgb(200, 100, 50).to_hsl(), hsl(20, 60, 50));
    assert_eq!(rgb(12, 34, 56).to_hsl(), hsl(210, 65, 14));
}

#[test]
fn rgb_to_hsl_rounds_upward() {
    // 128 of 255 is 50.196 percent.
    assert_eq!(rgb(128, 128, 128).to_hsl(), hsl(0, 0, 51));
    // 136.45 degrees, 31.95 percent, 61.96 percent.
    assert_eq!(rgb(127, 189, 144).to_hsl(), hsl(137, 32, 62));
    assert_eq!(rgb(1, 1, 1).to_hsl(), hsl(0, 0, 1));
}

#[test]
fn rgb_to_hsl_hue_just_below_a_full_turn_is_360() {
    assert_eq!(rgb(255, 0, 1).to_hsl(), hsl(360, 100, 50));
    assert_eq!(rgb(255, 0, 255).to_hsl(), hsl(300, 100, 50));
}

#[test]
fn hsl_to_rgb_exact_values() {
    assert_eq!(hsl(0, 100, 50).to_rgb(), rgb(255, 0, 0));
    assert_eq!(hsl(60, 100, 50).to_rgb(), rgb(255, 255, 0));
    assert_eq!(hsl(120, 100, 50).to_rgb(), rgb(0, 255, 0));
    assert_eq!(hsl(180, 100, 50).to_rgb(), rgb(0, 255, 255));
    assert_eq!(hsl(240, 100, 50).to_rgb(), rgb(0, 0, 255));
    assert_eq!(hsl(300, 100, 50).to_rgb(), rgb(255, 0, 255));
    assert_eq!(hsl(210, 50, 40).to_rgb(), rgb(51, 102, 153));
    assert_eq!(hsl(136, 32, 62).to_rgb(), rgb(127, 189, 144));
    assert_eq!(hsl(0, 0, 0).to_rgb(), rgb(0, 0, 0));
    assert_eq!(hsl(0, 0, 100).to_rgb(), rgb(255, 255, 255));
}

#[test]
fn hsl_to_rgb_rounds_to_the_nearest() {
    // 127.5 goes up.
    assert_eq!(hsl(0, 0, 50).to_rgb(), rgb(128, 128, 128));
    assert_eq!(hsl(30, 100, 50).to_rgb(), rgb(255, 128, 0));
    assert_eq!(hsl(359, 100, 50).to_rgb(), rgb(255, 0, 4));
}

#[test]
fn hsl_to_rgb_at_360_degrees() {
    assert_eq!(hsl(360, 100, 50).to_rgb(), rgb(255, 0, 0));
}

#[test]
fn conversions_carry_the_alpha() {
    let a = Alpha::from_millionths(250_000);
    assert_eq!(RGBColor { r: 255, g: 0, b: 0, a }.to_hsl(), HSLColor { h: 0, s: 100, l: 50, a });
    assert_eq!(HSLColor { h: 0, s: 100, l: 50, a }.to_rgb(), RGBColor { r: 255, g: 0, b: 0, a });
}

#[test]
fn round_trip_through_hsl() {
    for c in [rgb(255, 0, 0), rgb(0, 255, 0), rgb(0, 0, 255), rgb(255, 255, 255), rgb(0, 0, 0), rgb(255, 0, 1), rgb(127, 189, 144)] {
        let back = c.to_hsl().to_rgb();
        assert!(back.r.abs_diff(c.r) <= 1 && back.g.abs_diff(c.g) <= 1 && back.b.abs_diff(c.b) <= 1, "{:?}", c);
    }
    // The rounding of the percentages can cost more than one step.
    assert_eq!(rgb(0, 0, 1).to_hsl().to_rgb(), rgb(0, 0, 5));
}

#[test]
fn round_trip_stays_close() {
    let check = |c: RGBColor| {
        let back = c.to_hsl().to_rgb();
        for (was, is) in [(c.r, back.r), (c.g, back.g), (c.b, back.b)] {
            let (was, is) = (was as i32, is as i32);
            assert!(was - 8 <= is && is <= was + 11, "{:?} {:?}", c, back);
        }
        assert_eq!(back.a, c.a);
    };
    for r in (0..=255u8).step_by(5) {
        for g in (0..=255u8).step_by(3) {
            for b in (0..=255u8).step_by(7) {
                check(rgb(r, g, b));
            }
        }
    }
    assert_eq!(rgb(1, 5, 242).to_hsl().to_rgb(), rgb(0, 0, 245));
    assert_eq!(rgb(1, 244, 232).to_hsl().to_rgb(), rgb(0, 250, 242));
}

#[test]
fn round_trip_of_grays() {
    for v in 0..=255u8 {
        let back = rgb(v, v, v).to_hsl().to_rgb();
        assert!(back.r == back.g && back.g == back.b);
        assert!(v <= back.r && back.r as u16 <= v as u16 + 3, "{}", v);
    }
}

#[test]
fn cmyk_to_rgb_exact_values() {
    let c = |c, m, y, k| {
        let v = CMYKColor { c, m, y, k }.to_rgb();
        assert_eq!(v.a.units, ALPHA_ONE);
        (v.r, v.g, v.b)
    };
    assert_eq!(c(0, 100, 100, 0), (255, 0, 0));
    assert_eq!(c(0, 0, 0, 0), (255, 255, 255));
    assert_eq!(c(100, 100, 100, 100), (0, 0, 0));
    assert_eq!(c(50, 0, 0, 0), (127, 255, 255));
    assert_eq!(c(0, 0, 0, 50), (127, 127, 127));
    assert_eq!(c(10, 20, 30, 40), (137, 122, 107));
    assert_eq!(c(33, 66, 99, 1), (169, 85, 2));
}

#[test]
fn cmyk_to_hex_and_hsl() {
    let red = CMYKColor { c: 0, m: 100, y: 100, k: 0 };
    assert_eq!(red.to_hex().as_string(), "ff0000");
    assert_eq!(red.to_hsl(), hsl(0, 100, 50));
}

#[test]
fn hex_to_hsl() {
    let h = HexColor::from(&String::from("#336699")).unwrap();
    assert_eq!(h.to_hsl(), hsl(210, 50, 40));
}

#[test]
fn new_bounds_its_arguments() {
    assert_eq!(RGBColor::new(1, 2, 3, None), rgb(1, 2, 3));
    assert_eq!(RGBColor::new(255, 0, 255, Some(Alpha { units: ALPHA_ONE + 1 })), rgb(255, 0, 255));
    assert_eq!(RGBColor::new(1, 2, 3, Some(Alpha { units: 5 })).a.units, 5);
    assert_eq!(HSLColor::new(400, 120, 101, None), hsl(360, 100, 100));
    assert_eq!(HSLColor::new(360, 100, 0, Some(Alpha { units: u32::MAX })), hsl(360, 100, 0));
    assert_eq!(HSLColor::new(12, 34, 56, Some(Alpha::transparent())), HSLColor { h: 12, s: 34, l: 56, a: Alpha::transparent() });
}

#[test]
fn set_alpha_bounds_its_argument() {
    let mut c = rgb(1, 2, 3);
    c.set_alpha(Alpha::from_millionths(500_000));
    assert_eq!(c, RGBColor { r: 1, g: 2, b: 3, a: Alpha { units: 127_500_000 } });
    c.set_alpha(Alpha { units: 300_000_000 });
    assert_eq!(c, rgb(1, 2, 3));
    let mut h = hsl(1, 2, 3);
    h.set_alpha(Alpha::transparent());
    assert_eq!(h.a.units, 0);
    h.set_alpha(Alpha { units: u32::MAX });
    assert_eq!(h, hsl(1, 2, 3));
}

#[test]
fn alpha_constructors() {
    assert_eq!(Alpha::opaque().units, 255_000_000);
    assert_eq!(Alpha::transparent().units, 0);
    assert_eq!(Alpha::from_byte(255), Alpha::opaque());
    assert_eq!(Alpha::from_byte(1).units, 1_000_000);
    assert_eq!(Alpha::from_millionths(1_000_000), Alpha::opaque());
    assert_eq!(Alpha::from_millionths(1).units, 255);
    assert_eq!(Alpha::from_millionths(2_000_000), Alpha::opaque());
}
