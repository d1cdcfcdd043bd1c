use vstd::prelude::*;

use crate::cmyk::CMYK;
use crate::error::ColorError;
use crate::hex::Hex;
use crate::hsl::HSL;
use crate::hsv::HSV;
use crate::math::{
    byte_of_mille, cmyk_of_rgb, darkened, hsl_to_rgb, hsv_of_rgb, lightened, mille_to_byte,
    rgb_of_hsl, rgb_to_cmyk, rgb_to_hsv, spec_rotate,
};
use crate::rgb::RGB;
use crate::rgba::RGBA;
use crate::text::{
    body3, copy_str, parse_func3a, push_alpha, push_dec, spec_alpha_str, spec_func3a,
    vals4_string,
};
use vstd::arithmetic::div_mod::{
    lemma_add_mod_noop, lemma_fundamental_div_mod, lemma_mod_multiples_vanish,
};

verus! {

/// The grammar of `hsla(h,s%,l%,a)` strings: the parsed channels, alpha in
/// thousandths (possibly above 1000, which the constructor rejects), or
/// `None` where the string does not match.
pub open spec fn spec_parse_hsla(s: Seq<char>) -> Option<(u32, u32, u32, int)> {
    spec_func3a(s, 'h', 's', 'l', 'a', false, true, true)
}

/// The canonical rendering `hsla(h,s%,l%,a)`; the alpha shows at most three
/// decimal places.
pub open spec fn spec_render_hsla(h: int, s: int, l: int, a: int) -> Seq<char> {
    seq!['h', 's', 'l', 'a', '('] + body3(h, s, l, false, true, true) + seq![',']
        + spec_alpha_str(a) + seq![')']
}

/// A color in the HSLA encoding: hue in degrees (`0..=360`), saturation and
/// lightness in integer percent (`0..=100`), and an alpha in thousandths of
/// full opacity (`0..=1000`). No out-of-range value can exist: every
/// constructor validates or clamps.
#[derive(Debug, Clone, Copy, PartialEq, Eq, Structural)]
pub struct HSLA {
    pub(crate) h: u32,
    pub(crate) s: u32,
    pub(crate) l: u32,
    pub(crate) a: u32,
}

impl View for HSLA {
    type V = (u32, u32, u32, u32);

    /// `(hue, saturation, lightness, alpha thousandths)`.
    closed spec fn view(&self) -> (u32, u32, u32, u32) {
        (self.h, self.s, self.l, self.a)
    }
}

impl HSLA {
    /// Channel ranges; holds for every value of the type.
    #[verifier::type_invariant]
    pub open spec fn wf(self) -> bool {
        self@.0 <= 360 && self@.1 <= 100 && self@.2 <= 100 && self@.3 <= 1000
    }

    pub(crate) fn from_channels(h: u32, s: u32, l: u32, a: u32) -> (c: HSLA)
        requires
            h <= 360,
            s <= 100,
            l <= 100,
            a <= 1000,
        ensures
            c@ == (h, s, l, a),
    {
        HSLA { h, s, l, a }
    }

    /// Validating constructor: accepts exactly the tuples with hue at most
    /// 360, saturation and lightness at most 100 and alpha at most 1000
    /// thousandths, and reports a value error otherwise.
    pub fn try_new(h: u32, s: u32, l: u32, a: u32) -> (res: Result<HSLA, ColorError>)
        ensures
            h <= 360 && s <= 100 && l <= 100 && a <= 1000 ==> (res matches Ok(c) && c@ == (
                h,
                s,
                l,
                a,
            )),
            !(h <= 360 && s <= 100 && l <= 100 && a <= 1000) ==> (res matches Err(e)
                && e is ValueErr),
    {
        if h <= 360 && s <= 100 && l <= 100 && a <= 1000 {
            Ok(HSLA { h, s, l, a })
        } else {
            Err(ColorError::ValueErr(vals4_string(h, s, l, a)))
        }
    }

    /// Parses `hsla(h,s%,l%,a)` (case-insensitive, optional whitespace,
    /// percent signs optional; the alpha is a decimal with up to three
    /// places): a string outside the grammar is a format error carrying the
    /// input; one whose fields are numeric but out of range is a value
    /// error.
    pub fn try_parse(s: &str) -> (res: Result<HSLA, ColorError>)
        ensures
            match spec_parse_hsla(s@) {
                Some(t) => if t.0 <= 360 && t.1 <= 100 && t.2 <= 100 && t.3 <= 1000 {
                    res matches Ok(c) && c@ == (t.0, t.1, t.2, t.3 as u32)
                } else {
                    res matches Err(e) && e is ValueErr
                },
                None => res matches Err(e) && e matches ColorError::FormatErr(p) && p@ == s@,
            },
    {
        match parse_func3a(s, 'h', 's', 'l', 'a', false, true, true) {
            Some((h, sat, l, a)) => Self::try_new(h, sat, l, a),
            None => Err(ColorError::FormatErr(copy_str(s))),
        }
    }

    /// Renders the canonical form `hsla(h,s%,l%,a)`.
    pub fn render(&self) -> (out: String)
        ensures
            out@ == spec_render_hsla(
                self@.0 as int,
                self@.1 as int,
                self@.2 as int,
                self@.3 as int,
            ),
    {
        proof {
            use_type_invariant(self);
        }
        let mut out = String::new();
        out.append("hsla(");
        push_dec(&mut out, self.h);
        out.append(",");
        push_dec(&mut out, self.s);
        out.append("%,");
        push_dec(&mut out, self.l);
        out.append("%,");
        push_alpha(&mut out, self.a);
        out.append(")");
        proof {
            reveal_strlit("hsla(");
            reveal_strlit(",");
            reveal_strlit("%,");
            reveal_strlit(")");
            assert(out@ =~= spec_render_hsla(
                self@.0 as int,
                self@.1 as int,
                self@.2 as int,
                self@.3 as int,
            ));
        }
        out
    }

    /// The hue channel, in degrees.
    pub fn hue(&self) -> (r: u32)
        ensures
            r == self@.0,
            r <= 360,
    {
        proof {
            use_type_invariant(self);
        }
        self.h
    }

    /// The saturation channel, in percent.
    pub fn saturation(&self) -> (r: u32)
        ensures
            r == self@.1,
            r <= 100,
    {
        proof {
            use_type_invariant(self);
        }
        self.s
    }

    /// The lightness channel, in percent.
    pub fn lightness(&self) -> (r: u32)
        ensures
            r == self@.2,
            r <= 100,
    {
        proof {
            use_type_invariant(self);
        }
        self.l
    }

    /// The alpha channel, in thousandths of full opacity.
    pub fn alpha(&self) -> (r: u32)
        ensures
            r == self@.3,
            r <= 1000,
    {
        proof {
            use_type_invariant(self);
        }
        self.a
    }

    /// Replaces the hue, clamping the argument to `0..=360`.
    pub fn set_hue(&mut self, hue: u32)
        ensures
            final(self)@ == (
                if hue <= 360 {
                    hue
                } else {
                    360u32
                },
                old(self)@.1,
                old(self)@.2,
                old(self)@.3,
            ),
    {
        proof {
            use_type_invariant(&*self);
        }
        self.h = if hue <= 360 {
            hue
        } else {
            360
        };
    }

    /// Replaces the saturation, clamping the argument to `0..=100`.
    pub fn set_saturation(&mut self, saturation: u32)
        ensures
            final(self)@ == (
                old(self)@.0,
                if saturation <= 100 {
                    saturation
                } else {
                    100u32
                },
                old(self)@.2,
                old(self)@.3,
            ),
    {
        proof {
            use_type_invariant(&*self);
        }
        self.s = if saturation <= 100 {
            saturation
        } else {
            100
        };
    }

    /// Replaces the lightness, clamping the argument to `0..=100`.
    pub fn set_lightness(&mut self, lightness: u32)
        ensures
            final(self)@ == (
                old(self)@.0,
                old(self)@.1,
                if lightness <= 100 {
                    lightness
                } else {
                    100u32
                },
                old(self)@.3,
            ),
    {
        proof {
            use_type_invariant(&*self);
        }
        self.l = if lightness <= 100 {
            lightness
        } else {
            100
        };
    }

    /// Replaces the alpha, clamping the argument to `0..=1000` thousandths.
    pub fn set_alpha(&mut self, alpha: u32)
        ensures
            final(self)@ == (
                old(self)@.0,
                old(self)@.1,
                old(self)@.2,
                if alpha <= 1000 {
                    alpha
                } else {
                    1000u32
                },
            ),
    {
        proof {
            use_type_invariant(&*self);
        }
        self.a = if alpha <= 1000 {
            alpha
        } else {
            1000
        };
    }

    /// Rotates the hue by `degrees` (either sign), wrapping into `[0, 360)`.
    pub fn rotate(&mut self, degrees: i32)
        ensures
            final(self)@.0 == spec_rotate(old(self)@.0 as int, degrees as int),
            final(self)@.1 == old(self)@.1,
            final(self)@.2 == old(self)@.2,
            final(self)@.3 == old(self)@.3,
    {
        proof {
            use_type_invariant(&*self);
        }
        let h: u32 = self.h;
        let nh: u32 = if degrees >= 0 {
            let d: u32 = (degrees as u32) % 360;
            proof {
                lemma_add_mod_noop(h as int, degrees as int, 360);
            }
            ((h % 360) + d) % 360
        } else {
            let nd64: u64 = (-(degrees as i64)) as u64;
            let nd: u32 = (nd64 % 360) as u32;
            proof {
                let hi = h as int;
                let ni = nd64 as int;
                lemma_fundamental_div_mod(hi, 360);
                lemma_fundamental_div_mod(ni, 360);
                assert((h as int % 360) + 360 - nd as int == (hi - ni) + 360 * (1 + ni / 360
                    - hi / 360));
                lemma_mod_multiples_vanish(1 + ni / 360 - hi / 360, hi - ni, 360);
            }
            ((h % 360) + 360 - nd) % 360
        };
        self.h = nh;
    }

    /// Darkens the color: lightness shrinks by `l * ratio / 100`, saturating
    /// at zero. `ratio` is in hundredths.
    pub fn darken(&mut self, ratio: u32)
        ensures
            final(self)@ == (
                old(self)@.0,
                old(self)@.1,
                darkened(old(self)@.2 as int, ratio as int) as u32,
                old(self)@.3,
            ),
    {
        proof {
            use_type_invariant(&*self);
        }
        let l: u64 = self.l as u64;
        proof {
            assert((l as int) * (ratio as int) <= 100 * 0xffff_ffff) by (nonlinear_arith)
                requires
                    0 <= l as int <= 100,
                    0 <= ratio as int <= 0xffff_ffff,
            ;
        }
        let delta: u64 = (l * (ratio as u64)) / 100;
        self.l = if delta >= l {
            0
        } else {
            (l - delta) as u32
        };
    }

    /// Lightens the color: lightness grows by `l * ratio / 100`, clamped to
    /// 100. `ratio` is in hundredths.
    pub fn lighten(&mut self, ratio: u32)
        ensures
            final(self)@ == (
                old(self)@.0,
                old(self)@.1,
                lightened(old(self)@.2 as int, ratio as int) as u32,
                old(self)@.3,
            ),
    {
        proof {
            use_type_invariant(&*self);
        }
        let l: u64 = self.l as u64;
        proof {
            assert((l as int) * (ratio as int) <= 100 * 0xffff_ffff) by (nonlinear_arith)
                requires
                    0 <= l as int <= 100,
                    0 <= ratio as int <= 0xffff_ffff,
            ;
        }
        let delta: u64 = (l * (ratio as u64)) / 100;
        self.l = if l + delta >= 100 {
            100
        } else {
            (l + delta) as u32
        };
    }

    /// Converts to HSL by dropping the alpha; the color channels are kept
    /// exactly.
    pub fn to_hsl(&self) -> (c: HSL)
        ensures
            c@ == (self@.0, self@.1, self@.2),
    {
        proof {
            use_type_invariant(self);
        }
        HSL::from_channels(self.h, self.s, self.l)
    }

    /// Converts to RGB by the standard reconstruction, discarding alpha.
    pub fn to_rgb(&self) -> (c: RGB)
        ensures
            (c@.0 as int, c@.1 as int, c@.2 as int) == rgb_of_hsl(
                self@.0 as int,
                self@.1 as int,
                self@.2 as int,
            ),
    {
        proof {
            use_type_invariant(self);
        }
        let t = hsl_to_rgb(self.h, self.s, self.l);
        RGB::from_channels(t.0, t.1, t.2)
    }

    /// Converts to RGBA: the color part goes through the HSL-to-RGB
    /// reconstruction, the alpha is kept.
    pub fn to_rgba(&self) -> (c: RGBA)
        ensures
            ({
                let rgb = rgb_of_hsl(self@.0 as int, self@.1 as int, self@.2 as int);
                (c@.0 as int, c@.1 as int, c@.2 as int) == rgb && c@.3 == self@.3
            }),
    {
        proof {
            use_type_invariant(self);
        }
        let t = hsl_to_rgb(self.h, self.s, self.l);
        RGBA::from_channels(t.0, t.1, t.2, self.a)
    }

    /// Converts to HSV, routing through RGB (alpha is discarded).
    pub fn to_hsv(&self) -> (c: HSV)
        ensures
            ({
                let rgb = rgb_of_hsl(self@.0 as int, self@.1 as int, self@.2 as int);
                (c@.0 as int, c@.1 as int, c@.2 as int) == hsv_of_rgb(rgb.0, rgb.1, rgb.2)
            }),
    {
        proof {
            use_type_invariant(self);
        }
        let t = hsl_to_rgb(self.h, self.s, self.l);
        let u = rgb_to_hsv(t.0, t.1, t.2);
        HSV::from_channels(u.0, u.1, u.2)
    }

    /// Converts to CMYK, routing through RGB (alpha is discarded).
    pub fn to_cmyk(&self) -> (c: CMYK)
        ensures
            ({
                let rgb = rgb_of_hsl(self@.0 as int, self@.1 as int, self@.2 as int);
                (c@.0 as int, c@.1 as int, c@.2 as int, c@.3 as int) == cmyk_of_rgb(
                    rgb.0,
                    rgb.1,
                    rgb.2,
                )
            }),
    {
        proof {
            use_type_invariant(self);
        }
        let t = hsl_to_rgb(self.h, self.s, self.l);
        let u = rgb_to_cmyk(t.0, t.1, t.2);
        CMYK::from_channels(u.0, u.1, u.2, u.3)
    }

    /// Converts to the 8-digit hexadecimal form, routing through RGB; the
    /// alpha becomes the nearest byte, ties up.
    pub fn to_hex(&self) -> (c: Hex)
        ensures
            ({
                let rgb = rgb_of_hsl(self@.0 as int, self@.1 as int, self@.2 as int);
                (c@.0 as int, c@.1 as int, c@.2 as int) == rgb && (c@.3 matches Some(v) && v as int
                    == byte_of_mille(self@.3 as int))
            }),
    {
        proof {
            use_type_invariant(self);
        }
        let t = hsl_to_rgb(self.h, self.s, self.l);
        let ab: u32 = mille_to_byte(self.a);
        Hex::from_channels(t.0, t.1, t.2, Some(ab))
    }
}

} // verus!
