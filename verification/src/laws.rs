use vstd::prelude::*;

use crate::cmyk::{spec_parse_cmyk, spec_render_cmyk};
use crate::hex::{spec_parse_hex, spec_render_hex};
use crate::hsl::{spec_parse_hsl, spec_render_hsl};
use crate::hsv::{spec_parse_hsv, spec_render_hsv};
use crate::math::{
    byte_of_mille, cmyk_of_rgb, hsl_of_rgb, mille_of_byte, rgb_of_cmyk, rgb_of_hsl, rhd, rhu,
    sector_mix, spec_rotate,
};
use crate::hsla::{spec_parse_hsla, spec_render_hsla};
use crate::rgb::{spec_parse_rgb, spec_render_rgb};
use crate::rgba::{spec_parse_rgba, spec_render_rgba};
use crate::text::{
    all_hex, hbyte, hchar, hpair, hval, lemma_func3_round, lemma_func3a_round, lemma_func4_round,
    strim,
};
use vstd::arithmetic::div_mod::{
    lemma_fundamental_div_mod, lemma_fundamental_div_mod_converse_div,
};

verus! {

// ---------------------------------------------------------------------------
// Round-trip laws: formatting a valid value and parsing the result
// reproduces the value exactly, for every type. (The pivot conversions
// RGB <-> HSL and RGB <-> HSV remain lossy; these laws are about the
// textual forms, which are exact.)
// ---------------------------------------------------------------------------
/// Formatting any valid RGB value and parsing it back yields the channels
/// unchanged.
pub proof fn lemma_rgb_format_parse(r: int, g: int, b: int)
    requires
        0 <= r <= 255,
        0 <= g <= 255,
        0 <= b <= 255,
    ensures
        spec_parse_rgb(spec_render_rgb(r, g, b)) == Some((r as u32, g as u32, b as u32)),
{
    lemma_func3_round(r, g, b, 'r', 'g', 'b', false, false, false);
}

/// Formatting any valid HSL value and parsing it back yields the channels
/// unchanged.
pub proof fn lemma_hsl_format_parse(h: int, s: int, l: int)
    requires
        0 <= h <= 360,
        0 <= s <= 100,
        0 <= l <= 100,
    ensures
        spec_parse_hsl(spec_render_hsl(h, s, l)) == Some((h as u32, s as u32, l as u32)),
{
    lemma_func3_round(h, s, l, 'h', 's', 'l', false, true, true);
}

/// Formatting any valid HSV value and parsing it back yields the channels
/// unchanged.
pub proof fn lemma_hsv_format_parse(h: int, s: int, v: int)
    requires
        0 <= h <= 360,
        0 <= s <= 100,
        0 <= v <= 100,
    ensures
        spec_parse_hsv(spec_render_hsv(h, s, v)) == Some((h as u32, s as u32, v as u32)),
{
    lemma_func3_round(h, s, v, 'h', 's', 'v', false, true, true);
}

/// Formatting any valid CMYK value and parsing it back yields the channels
/// unchanged.
pub proof fn lemma_cmyk_format_parse(c: int, m: int, y: int, k: int)
    requires
        0 <= c <= 100,
        0 <= m <= 100,
        0 <= y <= 100,
        0 <= k <= 100,
    ensures
        spec_parse_cmyk(spec_render_cmyk(c, m, y, k)) == Some(
            (c as u32, m as u32, y as u32, k as u32),
        ),
{
    lemma_func4_round(c, m, y, k, 'c', 'm', 'y', 'k', true);
}

/// Formatting any valid RGBA value and parsing it back yields the channels
/// unchanged, alpha included: the stored thousandths render in at most
/// three decimal places, which the parser reads back exactly.
pub proof fn lemma_rgba_format_parse(r: int, g: int, b: int, a: int)
    requires
        0 <= r <= 255,
        0 <= g <= 255,
        0 <= b <= 255,
        0 <= a <= 1000,
    ensures
        spec_parse_rgba(spec_render_rgba(r, g, b, a)) == Some(
            (r as u32, g as u32, b as u32, a),
        ),
{
    lemma_func3a_round(r, g, b, a, 'r', 'g', 'b', 'a', false, false, false);
}

/// Formatting any valid HSLA value and parsing it back yields the channels
/// unchanged, alpha included.
pub proof fn lemma_hsla_format_parse(h: int, s: int, l: int, a: int)
    requires
        0 <= h <= 360,
        0 <= s <= 100,
        0 <= l <= 100,
        0 <= a <= 1000,
    ensures
        spec_parse_hsla(spec_render_hsla(h, s, l, a)) == Some(
            (h as u32, s as u32, l as u32, a),
        ),
{
    lemma_func3a_round(h, s, l, a, 'h', 's', 'l', 'a', false, true, true);
}

/// Rendering any byte channels as a hexadecimal string and parsing it back
/// yields the channels unchanged, alpha byte included. Together with the
/// bit-identical channel copies in the RGB <-> Hex conversions this makes
/// the RGB -> Hex -> RGB trip exact.
pub proof fn lemma_hex_format_parse(r: int, g: int, b: int, a: Option<u32>)
    requires
        0 <= r <= 255,
        0 <= g <= 255,
        0 <= b <= 255,
        a matches Some(v) ==> v <= 255,
    ensures
        spec_parse_hex(spec_render_hex(r, g, b, a)) == Some(
            (r as u32, g as u32, b as u32, a),
        ),
{
    let s = spec_render_hex(r, g, b, a);
    let base = seq!['#'] + hpair(r) + hpair(g) + hpair(b);
    lemma_hpair_facts(r);
    lemma_hpair_facts(g);
    lemma_hpair_facts(b);
    match a {
        Some(v) => {
            lemma_hpair_facts(v as int);
            assert(s =~= base + hpair(v as int));
            assert(s[0] == '#' && !is_ws_char(s[0]));
            assert(s.last() == hpair(v as int)[1]);
            crate::text::lemma_strim_id(s);
            let u = strim(s).drop_first();
            assert(u =~= hpair(r) + hpair(g) + hpair(b) + hpair(v as int));
            assert(u.len() == 8);
            assert(u[0] == hpair(r)[0] && u[1] == hpair(r)[1]);
            assert(u[2] == hpair(g)[0] && u[3] == hpair(g)[1]);
            assert(u[4] == hpair(b)[0] && u[5] == hpair(b)[1]);
            assert(u[6] == hpair(v as int)[0] && u[7] == hpair(v as int)[1]);
            assert(all_hex(u));
            assert(hbyte(u, 0) == r && hbyte(u, 1) == g && hbyte(u, 2) == b && hbyte(u, 3)
                == v);
        },
        None => {
            assert(s =~= base);
            assert(s[0] == '#' && !is_ws_char(s[0]));
            assert(s.last() == hpair(b)[1]);
            crate::text::lemma_strim_id(s);
            let u = strim(s).drop_first();
            assert(u =~= hpair(r) + hpair(g) + hpair(b));
            assert(u.len() == 6);
            assert(u[0] == hpair(r)[0] && u[1] == hpair(r)[1]);
            assert(u[2] == hpair(g)[0] && u[3] == hpair(g)[1]);
            assert(u[4] == hpair(b)[0] && u[5] == hpair(b)[1]);
            assert(all_hex(u));
            assert(hbyte(u, 0) == r && hbyte(u, 1) == g && hbyte(u, 2) == b);
        },
    }
}

/// Helper: a byte's digit pair consists of non-whitespace hexadecimal
/// digits and reads back as the byte.
proof fn lemma_hpair_facts(v: int)
    requires
        0 <= v <= 255,
    ensures
        hval(hpair(v)[0]) < 16,
        hval(hpair(v)[1]) < 16,
        16 * hval(hpair(v)[0]) + hval(hpair(v)[1]) == v,
        !is_ws_char(hpair(v)[0]),
        !is_ws_char(hpair(v)[1]),
{
    lemma_fundamental_div_mod(v, 16);
    assert(0 <= v / 16 < 16);
    assert(0 <= v % 16 < 16);
    assert(hval(hchar(v / 16)) == v / 16);
    assert(hval(hchar(v % 16)) == v % 16);
}

/// `text::is_ws`, restated locally so the hexadecimal lemmas can speak of it.
pub open spec fn is_ws_char(c: char) -> bool {
    crate::text::is_ws(c)
}

// ---------------------------------------------------------------------------
// Hue rotation stays in range.
// ---------------------------------------------------------------------------
/// Rotating any hue by any number of degrees, in either direction, lands in
/// `[0, 360)`.
pub proof fn lemma_rotate_range(h: int, degrees: int)
    ensures
        0 <= spec_rotate(h, degrees) < 360,
{
    vstd::arithmetic::div_mod::lemma_mod_bound(h + degrees, 360);
}

// ---------------------------------------------------------------------------
// An exact point of the lossy RGB <-> HSL trip.
//
// The trip is lossy in general: whole-percent lightness carries up to half
// a percent of quantization, so a dark saturated color can come back a few
// units off. On colors whose derivation is exact the trip is exact; pure
// red is the representative point.
// ---------------------------------------------------------------------------
/// Pure red derives to `hsl(0,100%,50%)` exactly, and that HSL value
/// reconstructs pure red exactly.
pub proof fn lemma_red_round_trip_exact()
    ensures
        hsl_of_rgb(255, 0, 0) == (0int, 100int, 50int),
        rgb_of_hsl(0, 100, 50) == (255int, 0int, 0int),
{
    lemma_fundamental_div_mod_converse_div(51510, 1020, 50, 510);
    lemma_fundamental_div_mod_converse_div(51255, 510, 100, 255);
    lemma_fundamental_div_mod_converse_div(183855, 510, 360, 255);
    lemma_fundamental_div_mod_converse_div(306599999, 1200000, 255, 599999);
    lemma_fundamental_div_mod_converse_div(599999, 1200000, 0, 599999);
    vstd::arithmetic::div_mod::lemma_small_mod(0, 120);
    vstd::arithmetic::div_mod::lemma_small_mod(0, 360);
    vstd::arithmetic::div_mod::lemma_basic_div(0int, 60int);
    assert(hsl_of_rgb(255, 0, 0) == (0int, 100int, 50int));
    let mix = sector_mix(0, 10000, 0);
    assert((0int) % 120 == 0 && (0int) % 360 == 0 && (0int) / 60 == 0);
    assert(mix.0 == rhd(255int * 600000int, 600000int));
    assert(mix.1 == rhd(0int, 600000int) && mix.2 == rhd(0int, 600000int));
    assert(mix == (255int, 0int, 0int));
    assert(rgb_of_hsl(0, 100, 50) == (255int, 0int, 0int));
}

/// Achromatic colors survive the RGB -> HSL -> RGB trip within one unit
/// per channel, staying achromatic: the only loss is the rounding of
/// lightness to a whole percent. (Saturated dark colors can drift further;
/// see `lemma_red_round_trip_exact` for an exact point.)
pub proof fn lemma_gray_round_trip_within_one(v: int)
    requires
        0 <= v <= 255,
    ensures
        ({
            let hsl = hsl_of_rgb(v, v, v);
            let back = rgb_of_hsl(hsl.0, hsl.1, hsl.2);
            hsl.0 == 0 && hsl.1 == 0 && back.0 == back.1 && back.1 == back.2 && v - 1 <= back.0
                <= v + 1
        }),
{
    let l = rhu(200 * v, 510);
    lemma_fundamental_div_mod(400 * v + 510, 1020);
    let r1 = (400 * v + 510) % 1020;
    assert(1020 * l == 400 * v + 510 - r1);
    assert(hsl_of_rgb(v, v, v) == (0int, 0int, l));
    vstd::arithmetic::div_mod::lemma_small_mod(0, 120);
    vstd::arithmetic::div_mod::lemma_small_mod(0, 360);
    vstd::arithmetic::div_mod::lemma_basic_div(0int, 60int);
    let back0 = rhd(255 * (6000 * l), 600000);
    assert(rgb_of_hsl(0, 0, l) == (back0, back0, back0));
    lemma_fundamental_div_mod(3060000 * l + 599999, 1200000);
    let r2 = (3060000 * l + 599999) % 1200000;
    assert(1200000 * back0 == 3060000 * l + 599999 - r2);
    assert(3060000 * l == 3000 * (1020 * l));
    assert(1200000 * back0 == 1200000 * v + 2129999 - 3000 * r1 - r2);
    assert(1200000 * (back0 - v) <= 2129999);
    assert(1200000 * (back0 - v) >= -2127000);
    assert(v - 1 <= back0 <= v + 1) by (nonlinear_arith)
        requires
            1200000 * (back0 - v) <= 2129999,
            1200000 * (back0 - v) >= -2127000,
    ;
}

// ---------------------------------------------------------------------------
// Alpha across the hexadecimal boundary.
// ---------------------------------------------------------------------------
/// A byte-valued alpha survives the trip into thousandths and back exactly,
/// so converting an 8-digit hexadecimal color to RGBA and back keeps its
/// alpha byte bit-identically.
pub proof fn lemma_alpha_byte_round_trip(b: int)
    requires
        0 <= b <= 255,
    ensures
        byte_of_mille(mille_of_byte(b)) == b,
{
    let a = mille_of_byte(b);
    lemma_fundamental_div_mod(2 * (1000 * b) + 255, 510);
    let rr = (2 * (1000 * b) + 255) % 510;
    assert(510 * a == 2000 * b + 255 - rr);
    lemma_fundamental_div_mod_converse_div(2 * (255 * a) + 1000, 2000, b, 1255 - rr);
}

// ---------------------------------------------------------------------------
// The CMYK black boundary.
// ---------------------------------------------------------------------------
/// Pure black converts to `cmyk(0%,0%,0%,100%)` — the special case that
/// avoids dividing by a zero maximum channel — and that CMYK value converts
/// back to pure black.
pub proof fn lemma_cmyk_pure_black()
    ensures
        cmyk_of_rgb(0, 0, 0) == (0int, 0int, 0int, 100int),
        rgb_of_cmyk(0, 0, 0, 100) == (0int, 0int, 0int),
{
    assert(255 * (100 - 0) * (100 - 100) == 0);
    vstd::arithmetic::div_mod::lemma_basic_div(10000int, 20000int);
}

} // verus!
