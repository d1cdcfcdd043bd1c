use vstd::prelude::*;

use crate::cmyk::CMYK;
use crate::error::ColorError;
use crate::hex::Hex;
use crate::hsla::HSLA;
use crate::hsv::HSV;
use crate::rgba::RGBA;
use crate::math::{
    cmyk_of_rgb, darkened, hsl_to_rgb, hsv_of_rgb, lightened, rgb_of_hsl, rgb_to_cmyk, rgb_to_hsv,
    spec_rotate,
};
use crate::rgb::RGB;
use crate::text::{body3, copy_str, parse_func3, push_dec, spec_func3, vals3_string};
use vstd::arithmetic::div_mod::{
    lemma_add_mod_noop, lemma_fundamental_div_mod, lemma_mod_multiples_vanish,
};

verus! {

/// The grammar of `hsl(h,s%,l%)` strings: the parsed channel triple, or
/// `None` where the string does not match. The percent signs on the last two
/// fields are optional on input.
pub open spec fn spec_parse_hsl(s: Seq<char>) -> Option<(u32, u32, u32)> {
    spec_func3(s, 'h', 's', 'l', false, true, true)
}

/// The canonical rendering `hsl(h,s%,l%)`.
pub open spec fn spec_render_hsl(h: int, s: int, l: int) -> Seq<char> {
    seq!['h', 's', 'l', '('] + body3(h, s, l, false, true, true) + seq![')']
}

/// A color in the HSL encoding: hue in degrees (`0..=360`), saturation and
/// lightness in integer percent (`0..=100`). No out-of-range value can exist:
/// every constructor validates or clamps.
#[derive(Debug, Clone, Copy, PartialEq, Eq, Structural)]
pub struct HSL {
    pub(crate) h: u32,
    pub(crate) s: u32,
    pub(crate) l: u32,
}

impl View for HSL {
    type V = (u32, u32, u32);

    /// `(hue, saturation, lightness)`.
    closed spec fn view(&self) -> (u32, u32, u32) {
        (self.h, self.s, self.l)
    }
}

impl HSL {
    /// Channel ranges; holds for every value of the type.
    #[verifier::type_invariant]
    pub open spec fn wf(self) -> bool {
        self@.0 <= 360 && self@.1 <= 100 && self@.2 <= 100
    }

    pub(crate) fn from_channels(h: u32, s: u32, l: u32) -> (c: HSL)
        requires
            h <= 360,
            s <= 100,
            l <= 100,
        ensures
            c@ == (h, s, l),
    {
        HSL { h, s, l }
    }

    /// Validating constructor: accepts exactly the triples with hue at most
    /// 360 and saturation and lightness at most 100, and reports a value
    /// error otherwise.
    pub fn try_new(h: u32, s: u32, l: u32) -> (res: Result<HSL, ColorError>)
        ensures
            h <= 360 && s <= 100 && l <= 100 ==> (res matches Ok(c) && c@ == (h, s, l)),
            !(h <= 360 && s <= 100 && l <= 100) ==> (res matches Err(e) && e is ValueErr),
    {
        if h <= 360 && s <= 100 && l <= 100 {
            Ok(HSL { h, s, l })
        } else {
            Err(ColorError::ValueErr(vals3_string(h, s, l)))
        }
    }

    /// Parses `hsl(h,s%,l%)` (case-insensitive, optional whitespace, percent
    /// signs optional): a string outside the grammar is a format error
    /// carrying the input; one whose fields are numeric but out of range is
    /// a value error.
    pub fn try_parse(s: &str) -> (res: Result<HSL, ColorError>)
        ensures
            match spec_parse_hsl(s@) {
                Some(v) => if v.0 <= 360 && v.1 <= 100 && v.2 <= 100 {
                    res matches Ok(c) && c@ == v
                } else {
                    res matches Err(e) && e is ValueErr
                },
                None => res matches Err(e) && e matches ColorError::FormatErr(p) && p@ == s@,
            },
    {
        match parse_func3(s, 'h', 's', 'l', false, true, true) {
            Some((h, sat, l)) => Self::try_new(h, sat, l),
            None => Err(ColorError::FormatErr(copy_str(s))),
        }
    }

    /// Renders the canonical form `hsl(h,s%,l%)`.
    pub fn render(&self) -> (out: String)
        ensures
            out@ == spec_render_hsl(self@.0 as int, self@.1 as int, self@.2 as int),
    {
        proof {
            use_type_invariant(self);
        }
        let mut out = String::new();
        out.append("hsl(");
        push_dec(&mut out, self.h);
        out.append(",");
        push_dec(&mut out, self.s);
        out.append("%,");
        push_dec(&mut out, self.l);
        out.append("%)");
        proof {
            reveal_strlit("hsl(");
            reveal_strlit(",");
            reveal_strlit("%,");
            reveal_strlit("%)");
            assert(out@ =~= spec_render_hsl(self@.0 as int, self@.1 as int, self@.2 as int));
        }
        out
    }

    /// Converts to RGB by the standard reconstruction; see `rgb_of_hsl`.
    pub fn to_rgb(&self) -> (c: RGB)
        ensures
            (c@.0 as int, c@.1 as int, c@.2 as int) == rgb_of_hsl(
                self@.0 as int,
                self@.1 as int,
                self@.2 as int,
            ),
    {
        proof {
            use_type_invariant(self);
        }
        let t = hsl_to_rgb(self.h, self.s, self.l);
        RGB::from_channels(t.0, t.1, t.2)
    }

    /// Converts to HSV, routing through RGB.
    pub fn to_hsv(&self) -> (c: HSV)
        ensures
            ({
                let rgb = rgb_of_hsl(self@.0 as int, self@.1 as int, self@.2 as int);
                (c@.0 as int, c@.1 as int, c@.2 as int) == hsv_of_rgb(rgb.0, rgb.1, rgb.2)
            }),
    {
        proof {
            use_type_invariant(self);
        }
        let t = hsl_to_rgb(self.h, self.s, self.l);
        let u = rgb_to_hsv(t.0, t.1, t.2);
        HSV::from_channels(u.0, u.1, u.2)
    }

    /// Converts to CMYK, routing through RGB.
    pub fn to_cmyk(&self) -> (c: CMYK)
        ensures
            ({
                let rgb = rgb_of_hsl(self@.0 as int, self@.1 as int, self@.2 as int);
                (c@.0 as int, c@.1 as int, c@.2 as int, c@.3 as int) == cmyk_of_rgb(
                    rgb.0,
                    rgb.1,
                    rgb.2,
                )
            }),
    {
        proof {
            use_type_invariant(self);
        }
        let t = hsl_to_rgb(self.h, self.s, self.l);
        let u = rgb_to_cmyk(t.0, t.1, t.2);
        CMYK::from_channels(u.0, u.1, u.2, u.3)
    }

    /// Converts to the 6-digit hexadecimal form, routing through RGB.
    pub fn to_hex(&self) -> (c: Hex)
        ensures
            ({
                let rgb = rgb_of_hsl(self@.0 as int, self@.1 as int, self@.2 as int);
                c@ == (rgb.0 as u32, rgb.1 as u32, rgb.2 as u32, None::<u32>)
            }),
    {
        proof {
            use_type_invariant(self);
        }
        let t = hsl_to_rgb(self.h, self.s, self.l);
        Hex::from_channels(t.0, t.1, t.2, None)
    }

    /// Converts to HSLA: the channels are kept and the alpha defaults to
    /// fully opaque.
    pub fn to_hsla(&self) -> (c: HSLA)
        ensures
            c@ == (self@.0, self@.1, self@.2, 1000u32),
    {
        proof {
            use_type_invariant(self);
        }
        HSLA::from_channels(self.h, self.s, self.l, 1000)
    }

    /// Converts to RGBA, routing through RGB; the alpha defaults to fully
    /// opaque.
    pub fn to_rgba(&self) -> (c: RGBA)
        ensures
            ({
                let rgb = rgb_of_hsl(self@.0 as int, self@.1 as int, self@.2 as int);
                (c@.0 as int, c@.1 as int, c@.2 as int) == rgb && c@.3 == 1000
            }),
    {
        proof {
            use_type_invariant(self);
        }
        let t = hsl_to_rgb(self.h, self.s, self.l);
        RGBA::from_channels(t.0, t.1, t.2, 1000)
    }

    /// The hue channel, in degrees.
    pub fn hue(&self) -> (r: u32)
        ensures
            r == self@.0,
            r <= 360,
    {
        proof {
            use_type_invariant(self);
        }
        self.h
    }

    /// Replaces the hue, clamping the argument to `0..=360`.
    pub fn set_hue(&mut self, hue: u32)
        ensures
            final(self)@ == (if hue <= 360 { hue } else { 360u32 }, old(self)@.1, old(self)@.2),
    {
        proof {
            use_type_invariant(&*self);
        }
        self.h = if hue <= 360 {
            hue
        } else {
            360
        };
    }

    /// The saturation channel, in percent.
    pub fn saturation(&self) -> (r: u32)
        ensures
            r == self@.1,
            r <= 100,
    {
        proof {
            use_type_invariant(self);
        }
        self.s
    }

    /// Replaces the saturation, clamping the argument to `0..=100`.
    pub fn set_saturation(&mut self, saturation: u32)
        ensures
            final(self)@ == (
                old(self)@.0,
                if saturation <= 100 {
                    saturation
                } else {
                    100u32
                },
                old(self)@.2,
            ),
    {
        proof {
            use_type_invariant(&*self);
        }
        self.s = if saturation <= 100 {
            saturation
        } else {
            100
        };
    }

    /// The lightness channel, in percent.
    pub fn lightness(&self) -> (r: u32)
        ensures
            r == self@.2,
            r <= 100,
    {
        proof {
            use_type_invariant(self);
        }
        self.l
    }

    /// Replaces the lightness, clamping the argument to `0..=100`.
    pub fn set_lightness(&mut self, lightness: u32)
        ensures
            final(self)@ == (
                old(self)@.0,
                old(self)@.1,
                if lightness <= 100 {
                    lightness
                } else {
                    100u32
                },
            ),
    {
        proof {
            use_type_invariant(&*self);
        }
        self.l = if lightness <= 100 {
            lightness
        } else {
            100
        };
    }

    /// Rotates the hue by `degrees` (either sign), wrapping into `[0, 360)`.
    pub fn rotate(&mut self, degrees: i32)
        ensures
            final(self)@.0 == spec_rotate(old(self)@.0 as int, degrees as int),
            final(self)@.1 == old(self)@.1,
            final(self)@.2 == old(self)@.2,
    {
        proof {
            use_type_invariant(&*self);
        }
        let h: u32 = self.h;
        let nh: u32 = if degrees >= 0 {
            let d: u32 = (degrees as u32) % 360;
            proof {
                lemma_add_mod_noop(h as int, degrees as int, 360);
            }
            ((h % 360) + d) % 360
        } else {
            let nd64: u64 = (-(degrees as i64)) as u64;
            let nd: u32 = (nd64 % 360) as u32;
            proof {
                let hi = h as int;
                let ni = nd64 as int;
                lemma_fundamental_div_mod(hi, 360);
                lemma_fundamental_div_mod(ni, 360);
                assert((h as int % 360) + 360 - nd as int == (hi - ni) + 360 * (1 + ni / 360
                    - hi / 360));
                lemma_mod_multiples_vanish(1 + ni / 360 - hi / 360, hi - ni, 360);
            }
            ((h % 360) + 360 - nd) % 360
        };
        self.h = nh;
    }

    /// Darkens the color: lightness shrinks by `l * ratio / 100`, saturating
    /// at zero. `ratio` is in hundredths (20 darkens by a fifth); values
    /// above 100 are accepted and simply drive the lightness to zero.
    pub fn darken(&mut self, ratio: u32)
        ensures
            final(self)@ == (old(self)@.0, old(self)@.1, darkened(old(self)@.2 as int, ratio as int) as u32),
    {
        proof {
            use_type_invariant(&*self);
        }
        let l: u64 = self.l as u64;
        proof {
            assert((l as int) * (ratio as int) <= 100 * 0xffff_ffff) by (nonlinear_arith)
                requires
                    0 <= l as int <= 100,
                    0 <= ratio as int <= 0xffff_ffff,
            ;
        }
        let delta: u64 = (l * (ratio as u64)) / 100;
        self.l = if delta >= l {
            0
        } else {
            (l - delta) as u32
        };
    }

    /// Lightens the color: lightness grows by `l * ratio / 100`, clamped to
    /// 100. `ratio` is in hundredths (20 lightens by a fifth).
    pub fn lighten(&mut self, ratio: u32)
        ensures
            final(self)@ == (old(self)@.0, old(self)@.1, lightened(old(self)@.2 as int, ratio as int) as u32),
    {
        proof {
            use_type_invariant(&*self);
        }
        let l: u64 = self.l as u64;
        proof {
            assert((l as int) * (ratio as int) <= 100 * 0xffff_ffff) by (nonlinear_arith)
                requires
                    0 <= l as int <= 100,
                    0 <= ratio as int <= 0xffff_ffff,
            ;
        }
        let delta: u64 = (l * (ratio as u64)) / 100;
        self.l = if l + delta >= 100 {
            100
        } else {
            (l + delta) as u32
        };
    }
}

} // verus!
