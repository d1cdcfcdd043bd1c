use vstd::prelude::*;

use vstd::arithmetic::div_mod::{
    lemma_div_pos_is_pos, lemma_fundamental_div_mod, lemma_fundamental_div_mod_converse_div,
    lemma_multiply_divide_lt,
};

verus! {

// ---------------------------------------------------------------------------
// Rounded division.
//
// Every conversion formula below is a ratio of integers; the final integer
// channel is the nearest integer to that ratio. `rhu` breaks ties upward,
// `rhd` breaks ties downward; each conversion states which one it uses.
// ---------------------------------------------------------------------------
/// Nearest integer to `a / b`, ties rounded up (`b >= 1`, `a >= 0`).
pub open spec fn rhu(a: int, b: int) -> int {
    (2 * a + b) / (2 * b)
}

/// Nearest integer to `a / b`, ties rounded down (`b >= 1`, `a >= 0`).
pub open spec fn rhd(a: int, b: int) -> int {
    (2 * a + b - 1) / (2 * b)
}

pub proof fn lemma_rhu_range(a: int, b: int, c: int)
    requires
        b >= 1,
        0 <= a <= c * b,
    ensures
        0 <= rhu(a, b) <= c,
{
    lemma_div_pos_is_pos(2 * a + b, 2 * b);
    assert(2 * a + b < (2 * b) * (c + 1)) by (nonlinear_arith)
        requires
            b >= 1,
            a <= c * b,
    ;
    lemma_multiply_divide_lt(2 * a + b, 2 * b, c + 1);
}

pub proof fn lemma_rhd_range(a: int, b: int, c: int)
    requires
        b >= 1,
        0 <= a <= c * b,
    ensures
        0 <= rhd(a, b) <= c,
{
    lemma_div_pos_is_pos(2 * a + b - 1, 2 * b);
    assert(2 * a + b - 1 < (2 * b) * (c + 1)) by (nonlinear_arith)
        requires
            b >= 1,
            a <= c * b,
    ;
    lemma_multiply_divide_lt(2 * a + b - 1, 2 * b, c + 1);
}

/// Rounded division, ties up, on machine words.
pub(crate) fn rhu64(a: u64, b: u64) -> (q: u64)
    requires
        1 <= b,
        a <= 0x1000_0000_0000,
        b <= 0x1000_0000_0000,
    ensures
        q == rhu(a as int, b as int),
{
    (2 * a + b) / (2 * b)
}

/// Rounded division, ties down, on machine words.
pub(crate) fn rhd64(a: u64, b: u64) -> (q: u64)
    requires
        1 <= b,
        a <= 0x1000_0000_0000,
        b <= 0x1000_0000_0000,
    ensures
        q == rhd(a as int, b as int),
{
    (2 * a + b - 1) / (2 * b)
}

/// The hue after rotating by `degrees` (either sign): `(h + degrees)` taken
/// into `[0, 360)` by the mathematical (Euclidean) remainder.
pub open spec fn spec_rotate(h: int, degrees: int) -> int {
    (h + degrees) % 360
}

/// The lightness (or value) after darkening by `ratio` hundredths:
/// the channel shrinks by `l * ratio / 100`, saturating at zero.
pub open spec fn darkened(l: int, ratio: int) -> int {
    let delta = (l * ratio) / 100;
    if delta >= l {
        0
    } else {
        l - delta
    }
}

/// The lightness (or value) after lightening by `ratio` hundredths:
/// the channel grows by `l * ratio / 100`, clamped to 100.
pub open spec fn lightened(l: int, ratio: int) -> int {
    let delta = (l * ratio) / 100;
    if l + delta >= 100 {
        100
    } else {
        l + delta
    }
}

pub open spec fn s_max3(a: int, b: int, c: int) -> int {
    if a >= b && a >= c {
        a
    } else if b >= c {
        b
    } else {
        c
    }
}

pub open spec fn s_min3(a: int, b: int, c: int) -> int {
    if a <= b && a <= c {
        a
    } else if b <= c {
        b
    } else {
        c
    }
}

// ---------------------------------------------------------------------------
// RGB -> HSL / HSV hue.
//
// The standard piecewise hue: 60 degrees per sector, anchored at the largest
// channel, normalized into [0, 360). Written with a non-negative numerator
// (the `mx == r` case folds the negative branch in by adding one full turn)
// so that `rhu` applies directly; ties round up.
// ---------------------------------------------------------------------------
/// Hue in degrees of an RGB color with `max > min`, in `[0, 360)`.
pub open spec fn hue_of_rgb(r: int, g: int, b: int) -> int {
    let mx = s_max3(r, g, b);
    let mn = s_min3(r, g, b);
    let d = mx - mn;
    if mx == r {
        let h0 = rhu(360 * d + 60 * g - 60 * b, d);
        if h0 >= 360 {
            h0 - 360
        } else {
            h0
        }
    } else if mx == g {
        rhu(120 * d + 60 * b - 60 * r, d)
    } else {
        rhu(240 * d + 60 * r - 60 * g, d)
    }
}

/// `(h, s, l)` of an RGB color: lightness `(max+min)/2`, saturation
/// `delta / (1 - |2*lightness - 1|)`, both scaled to percent; all three
/// rounded to the nearest integer, ties up. Achromatic input gives `h = s = 0`.
pub open spec fn hsl_of_rgb(r: int, g: int, b: int) -> (int, int, int) {
    let mx = s_max3(r, g, b);
    let mn = s_min3(r, g, b);
    let d = mx - mn;
    let sum = mx + mn;
    let l = rhu(100 * sum, 510);
    if d == 0 {
        (0, 0, l)
    } else {
        let s = if sum <= 255 {
            rhu(100 * d, sum)
        } else {
            rhu(100 * d, 510 - sum)
        };
        (hue_of_rgb(r, g, b), s, l)
    }
}

/// `(h, s, v)` of an RGB color: value `max/255`, saturation `delta/max`,
/// scaled to percent and rounded, ties up. Achromatic input gives `h = s = 0`.
pub open spec fn hsv_of_rgb(r: int, g: int, b: int) -> (int, int, int) {
    let mx = s_max3(r, g, b);
    let mn = s_min3(r, g, b);
    let d = mx - mn;
    let v = rhu(100 * mx, 255);
    let s = if mx == 0 {
        0
    } else {
        rhu(100 * d, mx)
    };
    if d == 0 {
        (0, s, v)
    } else {
        (hue_of_rgb(r, g, b), s, v)
    }
}

// ---------------------------------------------------------------------------
// HSL / HSV -> RGB.
//
// Standard chroma/sector reconstruction. All intermediate values are exact
// rationals over the denominator 600000; the final cast to a 0..=255 channel
// rounds to the nearest integer, ties down.
// ---------------------------------------------------------------------------
/// `(r, g, b)` of an HSL color.
pub open spec fn rgb_of_hsl(h: int, s: int, l: int) -> (int, int, int) {
    let ab = if 2 * l >= 100 {
        2 * l - 100
    } else {
        100 - 2 * l
    };
    let cnum = (100 - ab) * s;  // chroma, over 10000
    let m = 6000 * l - 30 * cnum;  // smallest channel, over 600000
    sector_mix(h, cnum, m)
}

/// `(r, g, b)` of an HSV color.
pub open spec fn rgb_of_hsv(h: int, s: int, v: int) -> (int, int, int) {
    let cnum = v * s;  // chroma, over 10000
    let m = 6000 * v - 60 * cnum;  // smallest channel, over 600000
    sector_mix(h, cnum, m)
}

/// Distributes chroma `cnum` (over 10000) and base `m` (over 600000) onto the
/// three channels according to the hue sector, and rounds each channel to
/// `0..=255`, ties down.
pub open spec fn sector_mix(h: int, cnum: int, m: int) -> (int, int, int) {
    let hm = h % 120;
    let xd = if hm >= 60 {
        hm - 60
    } else {
        60 - hm
    };
    let xnum = cnum * (60 - xd);  // second channel, over 600000
    let sect = (h % 360) / 60;
    let big = if sect == 0 {
        (m + 60 * cnum, m + xnum, m)
    } else if sect == 1 {
        (m + xnum, m + 60 * cnum, m)
    } else if sect == 2 {
        (m, m + 60 * cnum, m + xnum)
    } else if sect == 3 {
        (m, m + xnum, m + 60 * cnum)
    } else if sect == 4 {
        (m + xnum, m, m + 60 * cnum)
    } else {
        (m + 60 * cnum, m, m + xnum)
    };
    (rhd(255 * big.0, 600000), rhd(255 * big.1, 600000), rhd(255 * big.2, 600000))
}

// ---------------------------------------------------------------------------
// RGB <-> CMYK.
// ---------------------------------------------------------------------------
/// `(c, m, y, k)` of an RGB color: `k = 1 - max/255`,
/// `c,m,y = (max - channel)/max`, scaled to percent and rounded, ties up.
/// Pure black takes the special case `c = m = y = 0`, `k = 100`.
pub open spec fn cmyk_of_rgb(r: int, g: int, b: int) -> (int, int, int, int) {
    let mx = s_max3(r, g, b);
    if mx == 0 {
        (0, 0, 0, 100)
    } else {
        (
            rhu(100 * (mx - r), mx),
            rhu(100 * (mx - g), mx),
            rhu(100 * (mx - b), mx),
            rhu(100 * (255 - mx), 255),
        )
    }
}

/// `(r, g, b)` of a CMYK color: `channel = 255 * (1 - c) * (1 - k)`, rounded
/// to the nearest integer, ties up.
pub open spec fn rgb_of_cmyk(c: int, m: int, y: int, k: int) -> (int, int, int) {
    (
        rhu(255 * (100 - c) * (100 - k), 10000),
        rhu(255 * (100 - m) * (100 - k), 10000),
        rhu(255 * (100 - y) * (100 - k), 10000),
    )
}

// ---------------------------------------------------------------------------
// Alpha: stored in thousandths of full opacity; a hexadecimal alpha digit
// pair is a byte. Both directions round to the nearest value, ties up.
// ---------------------------------------------------------------------------
pub open spec fn mille_of_byte(b: int) -> int {
    rhu(1000 * b, 255)
}

pub open spec fn byte_of_mille(a: int) -> int {
    rhu(255 * a, 1000)
}

pub proof fn lemma_mille_of_byte_range(b: int)
    requires
        0 <= b <= 255,
    ensures
        0 <= mille_of_byte(b) <= 1000,
{
    lemma_rhu_range(1000 * b, 255, 1000);
    assert(1000 * b <= 1000 * 255);
}

pub proof fn lemma_byte_of_mille_range(a: int)
    requires
        0 <= a <= 1000,
    ensures
        0 <= byte_of_mille(a) <= 255,
{
    lemma_rhu_range(255 * a, 1000, 255);
    assert(255 * a <= 255 * 1000);
}

/// Alpha thousandths to a hexadecimal alpha byte; see `byte_of_mille`.
pub fn mille_to_byte(a: u32) -> (r: u32)
    requires
        a <= 1000,
    ensures
        r as int == byte_of_mille(a as int),
        r <= 255,
{
    proof {
        lemma_byte_of_mille_range(a as int);
    }
    let q: u64 = rhu64(255 * (a as u64), 1000);
    q as u32
}

/// A hexadecimal alpha byte to thousandths; see `mille_of_byte`.
pub fn byte_to_mille(b: u32) -> (r: u32)
    requires
        b <= 255,
    ensures
        r as int == mille_of_byte(b as int),
        r <= 1000,
{
    proof {
        lemma_mille_of_byte_range(b as int);
    }
    let q: u64 = rhu64(1000 * (b as u64), 255);
    q as u32
}

// ---------------------------------------------------------------------------
// Executable numeric core.
// ---------------------------------------------------------------------------
/// RGB to HSL; see `hsl_of_rgb`. The result satisfies
/// `h < 360`, `s <= 100`, `l <= 100`.
pub fn rgb_to_hsl(r: u32, g: u32, b: u32) -> (hsl: (u32, u32, u32))
    requires
        r <= 255,
        g <= 255,
        b <= 255,
    ensures
        (hsl.0 as int, hsl.1 as int, hsl.2 as int) == hsl_of_rgb(r as int, g as int, b as int),
        hsl.0 < 360,
        hsl.1 <= 100,
        hsl.2 <= 100,
{
    let mx: u64 = max3_exec(r, g, b) as u64;
    let mn: u64 = min3_exec(r, g, b) as u64;
    let d: u64 = mx - mn;
    let sum: u64 = mx + mn;
    proof {
        lemma_rhu_range(100 * (sum as int), 510, 100);
    }
    let l: u64 = rhu64(100 * sum, 510);
    if d == 0 {
        (0, 0, l as u32)
    } else {
        let sden: u64 = if sum <= 255 {
            sum
        } else {
            510 - sum
        };
        proof {
            assert(100 * (d as int) <= 100 * (sden as int));
            lemma_rhu_range(100 * (d as int), sden as int, 100);
        }
        let s: u64 = rhu64(100 * d, sden);
        let h: u64 = hue_exec(r, g, b);
        (h as u32, s as u32, l as u32)
    }
}

/// RGB to HSV; see `hsv_of_rgb`. The result satisfies
/// `h < 360`, `s <= 100`, `v <= 100`.
pub fn rgb_to_hsv(r: u32, g: u32, b: u32) -> (hsv: (u32, u32, u32))
    requires
        r <= 255,
        g <= 255,
        b <= 255,
    ensures
        (hsv.0 as int, hsv.1 as int, hsv.2 as int) == hsv_of_rgb(r as int, g as int, b as int),
        hsv.0 < 360,
        hsv.1 <= 100,
        hsv.2 <= 100,
{
    let mx: u64 = max3_exec(r, g, b) as u64;
    let mn: u64 = min3_exec(r, g, b) as u64;
    let d: u64 = mx - mn;
    proof {
        lemma_rhu_range(100 * (mx as int), 255, 100);
        assert(100 * (mx as int) <= 100 * 255);
    }
    let v: u64 = rhu64(100 * mx, 255);
    let s: u64 = if mx == 0 {
        0
    } else {
        proof {
            assert(100 * (d as int) <= 100 * (mx as int));
            lemma_rhu_range(100 * (d as int), mx as int, 100);
        }
        rhu64(100 * d, mx)
    };
    if d == 0 {
        (0, s as u32, v as u32)
    } else {
        let h: u64 = hue_exec(r, g, b);
        (h as u32, s as u32, v as u32)
    }
}

/// HSL to RGB; see `rgb_of_hsl`. Each channel of the result is `<= 255`.
pub fn hsl_to_rgb(h: u32, s: u32, l: u32) -> (rgb: (u32, u32, u32))
    requires
        h <= 360,
        s <= 100,
        l <= 100,
    ensures
        (rgb.0 as int, rgb.1 as int, rgb.2 as int) == rgb_of_hsl(h as int, s as int, l as int),
        rgb.0 <= 255,
        rgb.1 <= 255,
        rgb.2 <= 255,
{
    let l2: u64 = 2 * (l as u64);
    let ab: u64 = if l2 >= 100 {
        l2 - 100
    } else {
        100 - l2
    };
    proof {
        assert(0 <= (100 - ab as int) * (s as int) && (100 - ab as int) * (s as int) <= (100
            - ab as int) * 100) by (nonlinear_arith)
            requires
                0 <= s as int <= 100,
                0 <= ab as int <= 100,
        ;
    }
    let cnum: u64 = (100 - ab) * (s as u64);
    proof {
        assert(30 * (cnum as int) <= 6000 * (l as int));
        assert((cnum as int) <= 10000);
        assert(6000 * (l as int) - 30 * (cnum as int) + 60 * (cnum as int) <= 600000);
    }
    let m: u64 = 6000 * (l as u64) - 30 * cnum;
    sector_mix_exec(h, cnum, m)
}

/// HSV to RGB; see `rgb_of_hsv`. Each channel of the result is `<= 255`.
pub fn hsv_to_rgb(h: u32, s: u32, v: u32) -> (rgb: (u32, u32, u32))
    requires
        h <= 360,
        s <= 100,
        v <= 100,
    ensures
        (rgb.0 as int, rgb.1 as int, rgb.2 as int) == rgb_of_hsv(h as int, s as int, v as int),
        rgb.0 <= 255,
        rgb.1 <= 255,
        rgb.2 <= 255,
{
    proof {
        assert(0 <= (v as int) * (s as int) && (v as int) * (s as int) <= 100 * (v as int))
            by (nonlinear_arith)
            requires
                0 <= s as int <= 100,
                0 <= v as int <= 100,
        ;
    }
    let cnum: u64 = (v as u64) * (s as u64);
    let m: u64 = 6000 * (v as u64) - 60 * cnum;
    sector_mix_exec(h, cnum, m)
}

/// RGB to CMYK; see `cmyk_of_rgb`. Each channel of the result is `<= 100`.
pub fn rgb_to_cmyk(r: u32, g: u32, b: u32) -> (cmyk: (u32, u32, u32, u32))
    requires
        r <= 255,
        g <= 255,
        b <= 255,
    ensures
        (cmyk.0 as int, cmyk.1 as int, cmyk.2 as int, cmyk.3 as int) == cmyk_of_rgb(
            r as int,
            g as int,
            b as int,
        ),
        cmyk.0 <= 100,
        cmyk.1 <= 100,
        cmyk.2 <= 100,
        cmyk.3 <= 100,
{
    let mx: u64 = max3_exec(r, g, b) as u64;
    if mx == 0 {
        (0, 0, 0, 100)
    } else {
        proof {
            assert(100 * (mx as int - r as int) <= 100 * (mx as int));
            assert(100 * (mx as int - g as int) <= 100 * (mx as int));
            assert(100 * (mx as int - b as int) <= 100 * (mx as int));
            lemma_rhu_range(100 * (mx as int - r as int), mx as int, 100);
            lemma_rhu_range(100 * (mx as int - g as int), mx as int, 100);
            lemma_rhu_range(100 * (mx as int - b as int), mx as int, 100);
            lemma_rhu_range(100 * (255 - mx as int), 255, 100);
            assert(100 * (255 - mx as int) <= 100 * 255);
        }
        let c: u64 = rhu64(100 * (mx - r as u64), mx);
        let m: u64 = rhu64(100 * (mx - g as u64), mx);
        let y: u64 = rhu64(100 * (mx - b as u64), mx);
        let k: u64 = rhu64(100 * (255 - mx), 255);
        (c as u32, m as u32, y as u32, k as u32)
    }
}

/// CMYK to RGB; see `rgb_of_cmyk`. Each channel of the result is `<= 255`.
pub fn cmyk_to_rgb(c: u32, m: u32, y: u32, k: u32) -> (rgb: (u32, u32, u32))
    requires
        c <= 100,
        m <= 100,
        y <= 100,
        k <= 100,
    ensures
        (rgb.0 as int, rgb.1 as int, rgb.2 as int) == rgb_of_cmyk(
            c as int,
            m as int,
            y as int,
            k as int,
        ),
        rgb.0 <= 255,
        rgb.1 <= 255,
        rgb.2 <= 255,
{
    let r: u64 = cmyk_channel(c, k);
    let g: u64 = cmyk_channel(m, k);
    let b: u64 = cmyk_channel(y, k);
    (r as u32, g as u32, b as u32)
}

/// One channel of `rgb_of_cmyk`.
fn cmyk_channel(c: u32, k: u32) -> (r: u64)
    requires
        c <= 100,
        k <= 100,
    ensures
        r == rhu(255 * (100 - c as int) * (100 - k as int), 10000),
        r <= 255,
{
    proof {
        assert(0 <= (100 - c as int) * (100 - k as int) <= 10000) by (nonlinear_arith)
            requires
                c <= 100,
                k <= 100,
        ;
    }
    let p: u64 = (100 - c as u64) * (100 - k as u64);
    proof {
        assert(255 * (p as int) <= 255 * 10000);
        lemma_rhu_range(255 * (p as int), 10000, 255);
        assert(255 * (100 - c as int) * (100 - k as int) == 255 * (p as int)) by (nonlinear_arith)
            requires
                p as int == (100 - c as int) * (100 - k as int),
        ;
    }
    rhu64(255 * p, 10000)
}

fn max3_exec(a: u32, b: u32, c: u32) -> (r: u32)
    ensures
        r as int == s_max3(a as int, b as int, c as int),
{
    if a >= b && a >= c {
        a
    } else if b >= c {
        b
    } else {
        c
    }
}

fn min3_exec(a: u32, b: u32, c: u32) -> (r: u32)
    ensures
        r as int == s_min3(a as int, b as int, c as int),
{
    if a <= b && a <= c {
        a
    } else if b <= c {
        b
    } else {
        c
    }
}

/// Hue of a non-achromatic RGB color; see `hue_of_rgb`.
fn hue_exec(r: u32, g: u32, b: u32) -> (h: u64)
    requires
        r <= 255,
        g <= 255,
        b <= 255,
        s_max3(r as int, g as int, b as int) != s_min3(r as int, g as int, b as int),
    ensures
        h as int == hue_of_rgb(r as int, g as int, b as int),
        h < 360,
{
    let mx: u64 = max3_exec(r, g, b) as u64;
    let mn: u64 = min3_exec(r, g, b) as u64;
    let d: u64 = mx - mn;
    if mx == r as u64 {
        let n: u64 = 360 * d + 60 * (g as u64) - 60 * (b as u64);
        proof {
            assert(n as int <= 420 * (d as int));
            lemma_rhu_range(n as int, d as int, 420);
        }
        let h0: u64 = rhu64(n, d);
        if h0 >= 360 {
            h0 - 360
        } else {
            h0
        }
    } else if mx == g as u64 {
        let n: u64 = 120 * d + 60 * (b as u64) - 60 * (r as u64);
        proof {
            assert(n as int <= 180 * (d as int));
            lemma_rhu_range(n as int, d as int, 180);
        }
        rhu64(n, d)
    } else {
        let n: u64 = 240 * d + 60 * (r as u64) - 60 * (g as u64);
        proof {
            assert(n as int <= 300 * (d as int));
            lemma_rhu_range(n as int, d as int, 300);
        }
        rhu64(n, d)
    }
}

/// Executable form of `sector_mix`: inputs are the chroma numerator (over
/// 10000) and the base channel (over 600000).
fn sector_mix_exec(h: u32, cnum: u64, m: u64) -> (rgb: (u32, u32, u32))
    requires
        h <= 360,
        cnum <= 10000,
        m as int + 60 * (cnum as int) <= 600000,
    ensures
        (rgb.0 as int, rgb.1 as int, rgb.2 as int) == sector_mix(h as int, cnum as int, m as int),
        rgb.0 <= 255,
        rgb.1 <= 255,
        rgb.2 <= 255,
{
    let hm: u64 = (h as u64) % 120;
    let xd: u64 = if hm >= 60 {
        hm - 60
    } else {
        60 - hm
    };
    proof {
        assert(0 <= (cnum as int) * (60 - xd as int) && (cnum as int) * (60 - xd as int) <= 60
            * (cnum as int)) by (nonlinear_arith)
            requires
                0 <= xd as int <= 60,
                0 <= cnum as int,
        ;
    }
    let xnum: u64 = cnum * (60 - xd);
    let sect: u64 = ((h as u64) % 360) / 60;
    let big: (u64, u64, u64) = if sect == 0 {
        (m + 60 * cnum, m + xnum, m)
    } else if sect == 1 {
        (m + xnum, m + 60 * cnum, m)
    } else if sect == 2 {
        (m, m + 60 * cnum, m + xnum)
    } else if sect == 3 {
        (m, m + xnum, m + 60 * cnum)
    } else if sect == 4 {
        (m + xnum, m, m + 60 * cnum)
    } else {
        (m + 60 * cnum, m, m + xnum)
    };
    proof {
        lemma_rhd_range(255 * (big.0 as int), 600000, 255);
        lemma_rhd_range(255 * (big.1 as int), 600000, 255);
        lemma_rhd_range(255 * (big.2 as int), 600000, 255);
        assert(255 * (big.0 as int) <= 255 * 600000);
        assert(255 * (big.1 as int) <= 255 * 600000);
        assert(255 * (big.2 as int) <= 255 * 600000);
    }
    let r: u64 = rhd64(255 * big.0, 600000);
    let g: u64 = rhd64(255 * big.1, 600000);
    let b: u64 = rhd64(255 * big.2, 600000);
    (r as u32, g as u32, b as u32)
}

} // verus!
