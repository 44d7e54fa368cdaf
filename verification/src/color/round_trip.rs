use vstd::prelude::*;
use vstd::math::{abs, max, min};
use crate::color::alpha::Alpha;
use crate::color::hsl::{
    chroma, hsl_to_rgb, hue_share, lemma_levels_in_range, level_byte, lift, ramp, rgb_of_hsl,
    HSLColor,
};
use crate::color::rgb::{
    ceil_div, hsl_of_rgb, hue_angle, hue_degrees, lemma_ceil_div_bound, lightness, saturation,
    RGBColor,
};

verus! {

/// The share of the chroma that red, green and blue each have at a hue, in
/// sixtieths: all of it, the ramp, or none.
pub open spec fn weights(h: int) -> (int, int, int) {
    if h < 60 {
        (60, ramp(h), 0)
    } else if h < 120 {
        (ramp(h), 60, 0)
    } else if h < 180 {
        (0, 60, ramp(h))
    } else if h < 240 {
        (0, ramp(h), 60)
    } else if h < 300 {
        (ramp(h), 0, 60)
    } else {
        (60, 0, ramp(h))
    }
}

/// What the hue gives to each channel is the chroma times its weight.
pub proof fn lemma_hue_share_by_weights(h: int, s: int, l: int)
    ensures
        hue_share(h, s, l) == (
            chroma(s, l) * weights(h).0,
            chroma(s, l) * weights(h).1,
            chroma(s, l) * weights(h).2,
        ),
{
    let c = chroma(s, l);
    assert(60 * c == c * 60) by (nonlinear_arith);
    assert(c * 0 == 0) by (nonlinear_arith);
}

/// A quotient rounded upward lies between two whole numbers where the
/// dividend lies between their products with the divisor.
pub proof fn lemma_rounded_between(a: int, d: int, h: int, low: int, high: int)
    requires
        d > 0,
        a <= d * h <= a + d - 1,
        low * d <= a <= high * d,
    ensures
        low <= h <= high,
{
    assert(low <= h <= high) by (nonlinear_arith)
        requires
            d > 0,
            a <= d * h <= a + d - 1,
            low * d <= a <= high * d,
    ;
}

/// How far the chroma that comes back lies from the true one, `delta / 255`:
/// in ten-thousandths times 51, `-10100 ..= 15281` from `2000 * delta`. Here
/// `l` and `s` are the percentages of a color whose largest and smallest
/// channels differ by `delta` and sum to `sum`, each rounded upward.
pub proof fn lemma_chroma_error(delta: int, sum: int, l: int, s: int)
    requires
        1 <= delta <= 255 - abs(sum - 255),
        0 <= sum <= 510,
        100 * sum <= 510 * l <= 100 * sum + 509,
        100 * delta <= (255 - abs(sum - 255)) * s <= 100 * delta + (255 - abs(sum - 255)) - 1,
    ensures
        2000 * delta - 10100 <= 51 * chroma(s, l) <= 2000 * delta + 15281,
{
    let p = 255 - abs(sum - 255);
    let q = 100 - abs(2 * l - 100);
    assert(0 <= l <= 100);
    assert(20 * p - 101 <= 51 * q <= 20 * p + 101);
    assert(0 <= q <= 100);
    assert(s >= 1) by (nonlinear_arith)
        requires
            p >= 1,
            p * s >= 100 * delta,
            delta >= 1,
    ;
    let ps = p * s;
    assert((51 * q) * ps <= (20 * p + 101) * (100 * delta + p - 1)) by (nonlinear_arith)
        requires
            0 <= 51 * q <= 20 * p + 101,
            0 <= ps <= 100 * delta + p - 1,
    ;
    assert((20 * p + 101) * (100 * delta + p - 1) <= p * (2000 * delta + 20 * p + 10181))
        by (nonlinear_arith)
        requires
            1 <= delta <= p,
    ;
    assert((51 * q) * ps == p * (51 * (q * s))) by (nonlinear_arith)
        requires
            ps == p * s,
    ;
    assert(51 * (q * s) <= 2000 * delta + 20 * p + 10181) by (nonlinear_arith)
        requires
            p >= 1,
            p * (51 * (q * s)) <= p * (2000 * delta + 20 * p + 10181),
    ;
    assert((51 * q) * ps >= (20 * p - 101) * (100 * delta)) by (nonlinear_arith)
        requires
            51 * q >= 20 * p - 101,
            51 * q >= 0,
            ps >= 100 * delta,
            delta >= 1,
    ;
    assert((20 * p - 101) * (100 * delta) >= p * (2000 * delta - 10100)) by (nonlinear_arith)
        requires
            1 <= delta <= p,
    ;
    assert(51 * (q * s) >= 2000 * delta - 10100) by (nonlinear_arith)
        requires
            p >= 1,
            p * (51 * (q * s)) >= p * (2000 * delta - 10100),
    ;
}

/// A channel comes back no more than 8 steps lower and 11 steps higher than
/// it was, where lightness, chroma and weight are as near to the true ones
/// as the roundings leave them.
pub proof fn lemma_channel_error(v: int, lo: int, delta: int, l: int, c: int, t: int)
    requires
        0 <= lo <= v <= lo + delta,
        1 <= delta,
        lo + delta <= 255,
        100 * (2 * lo + delta) <= 510 * l <= 100 * (2 * lo + delta) + 509,
        2000 * delta - 10100 <= 51 * c <= 2000 * delta + 15281,
        0 <= t <= 60,
        -(delta - 1) <= delta * t - 60 * (v - lo) <= delta - 1,
    ensures
        v - 8 <= level_byte(c * t + 30 * (200 * l - c)) <= v + 11,
{
    let e1 = (51 * c - 2000 * delta) * (t - 30);
    let e2 = 2000 * (delta * t - 60 * (v - lo));
    let e3 = 306000 * l - 60000 * (2 * lo + delta);
    let level = c * t + 30 * (200 * l - c);
    assert(-458430 <= e1 <= 458430) by (nonlinear_arith)
        requires
            e1 == (51 * c - 2000 * delta) * (t - 30),
            -10100 <= 51 * c - 2000 * delta <= 15281,
            -30 <= t - 30 <= 30,
    ;
    assert(51 * level == e1 + e2 + e3 + 120000 * v) by (nonlinear_arith)
        requires
            e1 == (51 * c - 2000 * delta) * (t - 30),
            e2 == 2000 * (delta * t - 60 * (v - lo)),
            e3 == 306000 * l - 60000 * (2 * lo + delta),
            level == c * t + 30 * (200 * l - c),
    ;
    assert(-508000 <= e2 <= 508000);
    assert(0 <= e3 <= 305400);
}

/// A quotient rounded upward, times the divisor, is the dividend or up to
/// one less than the divisor more.
pub proof fn lemma_ceil_div_times(n: int, d: int)
    requires
        0 <= n,
        0 < d,
    ensures
        n <= d * ceil_div(n, d) <= n + d - 1,
{
    vstd::arithmetic::div_mod::lemma_fundamental_div_mod(n + d - 1, d);
}

/// The angle of a color that is no gray, brought into the circle.
pub open spec fn turned(r: int, g: int, b: int) -> int {
    let delta = max(max(r, g), b) - min(min(r, g), b);
    if hue_angle(r, g, b) < 0 {
        hue_angle(r, g, b) + 360 * delta
    } else {
        hue_angle(r, g, b)
    }
}

/// The weights at the hue that a color gets are as near to its channels as
/// the rounding of the hue leaves them: each channel lies `weight / 60` of
/// the way from the smallest to the largest, to within one sixtieth.
pub proof fn lemma_weight_error(r: int, g: int, b: int)
    requires
        0 <= r <= 255,
        0 <= g <= 255,
        0 <= b <= 255,
        max(max(r, g), b) > min(min(r, g), b),
    ensures
        ({
            let lo = min(min(r, g), b);
            let delta = max(max(r, g), b) - lo;
            let w = weights(hue_degrees(r, g, b));
            &&& 0 <= hue_degrees(r, g, b) <= 360
            &&& 0 <= w.0 <= 60 && 0 <= w.1 <= 60 && 0 <= w.2 <= 60
            &&& -(delta - 1) <= delta * w.0 - 60 * (r - lo) <= delta - 1
            &&& -(delta - 1) <= delta * w.1 - 60 * (g - lo) <= delta - 1
            &&& -(delta - 1) <= delta * w.2 - 60 * (b - lo) <= delta - 1
        }),
{
    let hi = max(max(r, g), b);
    let lo = min(min(r, g), b);
    let delta = hi - lo;
    let a = turned(r, g, b);
    let h = hue_degrees(r, g, b);
    assert(0 <= a);
    assert(h == ceil_div(a, delta));
    lemma_ceil_div_times(a, delta);
    let e = delta * h;
    assert(delta * 60 == 60 * delta) by (nonlinear_arith);
    assert(delta * 0 == 0) by (nonlinear_arith);
    assert(delta * (120 - h) == 120 * delta - e) by (nonlinear_arith)
        requires
            e == delta * h,
    ;
    assert(delta * (h - 120) == e - 120 * delta) by (nonlinear_arith)
        requires
            e == delta * h,
    ;
    assert(delta * (240 - h) == 240 * delta - e) by (nonlinear_arith)
        requires
            e == delta * h,
    ;
    assert(delta * (h - 240) == e - 240 * delta) by (nonlinear_arith)
        requires
            e == delta * h,
    ;
    assert(delta * (360 - h) == 360 * delta - e) by (nonlinear_arith)
        requires
            e == delta * h,
    ;
    if hi == r {
        if g >= b {
            lemma_rounded_between(a, delta, h, 0, 60);
            assert(lo == b && a == 60 * (g - b));
            assert(ramp(h) == h);
            assert(weights(h) == (60int, h, 0int));
        } else {
            lemma_rounded_between(a, delta, h, 300, 360);
            assert(lo == g && a == 360 * delta - 60 * (b - g));
            assert(ramp(h) == 360 - h);
            assert(weights(h) == (60int, 0int, 360 - h));
        }
    } else if hi == g {
        if b >= r {
            lemma_rounded_between(a, delta, h, 120, 180);
            assert(lo == r && a == 120 * delta + 60 * (b - r));
            assert(ramp(h) == h - 120);
            if h < 180 {
                assert(weights(h) == (0int, 60int, h - 120));
            } else {
                assert(weights(h) == (0int, 60int, 60int));
            }
        } else {
            lemma_rounded_between(a, delta, h, 60, 120);
            assert(lo == b && a == 120 * delta - 60 * (r - b));
            if h < 120 {
                assert(ramp(h) == 120 - h);
                assert(weights(h) == (120 - h, 60int, 0int));
            } else {
                assert(ramp(h) == 0);
                assert(weights(h) == (0int, 60int, 0int));
            }
        }
    } else {
        assert(hi == b);
        if r >= g {
            lemma_rounded_between(a, delta, h, 240, 300);
            assert(lo == g && a == 240 * delta + 60 * (r - g));
            if h < 300 {
                assert(ramp(h) == h - 240);
                assert(weights(h) == (h - 240, 0int, 60int));
            } else {
                assert(ramp(h) == 60);
                assert(weights(h) == (60int, 0int, 60int));
            }
        } else {
            lemma_rounded_between(a, delta, h, 180, 240);
            assert(lo == r && a == 240 * delta - 60 * (g - r));
            if h < 240 {
                assert(ramp(h) == 240 - h);
                assert(weights(h) == (0int, 240 - h, 60int));
            } else {
                assert(ramp(h) == 0);
                assert(weights(h) == (0int, 0int, 60int));
            }
        }
    }
}

/// A gray that goes into hue, saturation and lightness and back stays a
/// gray, and each channel comes back as it was or up to three steps more:
/// the lightness is rounded upward to a whole percent.
pub proof fn lemma_gray_round_trip(v: u8, a: Alpha)
    ensures
        ({
            let back = rgb_of_hsl(hsl_of_rgb(RGBColor { r: v, g: v, b: v, a }));
            &&& back.r == back.g && back.g == back.b
            &&& v <= back.r <= v + 3
            &&& back.a == a
        }),
{
    let gray = RGBColor { r: v, g: v, b: v, a };
    let l = (200 * v + 509) / 510;
    assert(hsl_of_rgb(gray) == HSLColor { h: 0, s: 0, l: l as u8, a });
    assert(chroma(0, l) == 0) by (nonlinear_arith);
    assert(hue_share(0, 0, l) == (0int, 0int, 0int));
    assert(lift(0, l) == 6000 * l);
    assert(v <= level_byte(6000 * l) <= v + 3);
}

/// Round trip through hue, saturation and lightness: each channel comes
/// back no more than 8 steps lower and 11 steps higher than it was, and the
/// alpha as it was. The difference is what rounding the hue to whole degrees
/// and saturation and lightness to whole percents, each upward, costs.
pub proof fn lemma_round_trip(c: RGBColor)
    ensures
        ({
            let back = rgb_of_hsl(hsl_of_rgb(c));
            &&& c.r - 8 <= back.r <= c.r + 11
            &&& c.g - 8 <= back.g <= c.g + 11
            &&& c.b - 8 <= back.b <= c.b + 11
            &&& back.a == c.a
        }),
{
    let (r, g, b) = (c.r as int, c.g as int, c.b as int);
    let hi = max(max(r, g), b);
    let lo = min(min(r, g), b);
    let delta = hi - lo;
    if delta == 0 {
        lemma_gray_round_trip(c.r, c.a);
    } else {
        let sum = hi + lo;
        let span = 255 - abs(sum - 255);
        let h = hue_degrees(r, g, b);
        let s = saturation(hi, lo);
        let l = lightness(hi, lo);
        lemma_weight_error(r, g, b);
        lemma_ceil_div_bound(100 * sum, 510, 100);
        lemma_ceil_div_times(100 * sum, 510);
        assert(1 <= delta <= span);
        lemma_ceil_div_bound(100 * delta, span, 100);
        lemma_ceil_div_times(100 * delta, span);
        assert(hsl_of_rgb(c) == HSLColor { h: h as u16, s: s as u8, l: l as u8, a: c.a });
        let q = chroma(s, l);
        let w = weights(h);
        lemma_chroma_error(delta, sum, l, s);
        lemma_hue_share_by_weights(h, s, l);
        lemma_levels_in_range(h, s, l);
        lemma_level_in_range(q, w.0, lift(s, l));
        lemma_level_in_range(q, w.1, lift(s, l));
        lemma_level_in_range(q, w.2, lift(s, l));
        lemma_channel_error(r, lo, delta, l, q, w.0);
        lemma_channel_error(g, lo, delta, l, q, w.1);
        lemma_channel_error(b, lo, delta, l, q, w.2);
        assert(hsl_to_rgb(h, s, l) == (
            level_byte(q * w.0 + lift(s, l)),
            level_byte(q * w.1 + lift(s, l)),
            level_byte(q * w.2 + lift(s, l)),
        ));
    }
}

/// A level lies between nothing and the whole where the chroma and the lift
/// do, and its byte between 0 and 255.
proof fn lemma_level_in_range(q: int, t: int, m: int)
    requires
        0 <= q,
        0 <= t <= 60,
        0 <= m,
        60 * q + m <= 600000,
    ensures
        0 <= q * t + m <= 600000,
        0 <= level_byte(q * t + m) <= 255,
{
    assert(0 <= q * t <= 60 * q) by (nonlinear_arith)
        requires
            0 <= q,
            0 <= t <= 60,
    ;
}

} // verus!
