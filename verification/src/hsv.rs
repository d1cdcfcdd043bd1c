use vstd::prelude::*;

use crate::cmyk::CMYK;
use crate::error::ColorError;
use crate::hex::Hex;
use crate::hsl::HSL;
use crate::hsla::HSLA;
use crate::rgba::RGBA;
use crate::math::{
    cmyk_of_rgb, darkened, hsl_of_rgb, hsv_to_rgb, lightened, rgb_of_hsv, rgb_to_cmyk, rgb_to_hsl,
    spec_rotate,
};
use crate::rgb::RGB;
use crate::text::{body3, copy_str, parse_func3, push_dec, spec_func3, vals3_string};
use vstd::arithmetic::div_mod::{
    lemma_add_mod_noop, lemma_fundamental_div_mod, lemma_mod_multiples_vanish,
};

verus! {

/// The grammar of `hsv(h,s%,v%)` strings: the parsed channel triple, or
/// `None` where the string does not match. The percent signs on the last two
/// fields are optional on input.
pub open spec fn spec_parse_hsv(s: Seq<char>) -> Option<(u32, u32, u32)> {
    spec_func3(s, 'h', 's', 'v', false, true, true)
}

/// The canonical rendering `hsv(h,s%,v%)`.
pub open spec fn spec_render_hsv(h: int, s: int, v: int) -> Seq<char> {
    seq!['h', 's', 'v', '('] + body3(h, s, v, false, true, true) + seq![')']
}

/// A color in the HSV encoding: hue in degrees (`0..=360`), saturation and
/// value in integer percent (`0..=100`). No out-of-range value can exist:
/// every constructor validates or clamps.
#[derive(Debug, Clone, Copy, PartialEq, Eq, Structural)]
pub struct HSV {
    pub(crate) h: u32,
    pub(crate) s: u32,
    pub(crate) v: u32,
}

impl View for HSV {
    type V = (u32, u32, u32);

    /// `(hue, saturation, value)`.
    closed spec fn view(&self) -> (u32, u32, u32) {
        (self.h, self.s, self.v)
    }
}

impl HSV {
    /// Channel ranges; holds for every value of the type.
    #[verifier::type_invariant]
    pub open spec fn wf(self) -> bool {
        self@.0 <= 360 && self@.1 <= 100 && self@.2 <= 100
    }

    pub(crate) fn from_channels(h: u32, s: u32, v: u32) -> (c: HSV)
        requires
            h <= 360,
            s <= 100,
            v <= 100,
        ensures
            c@ == (h, s, v),
    {
        HSV { h, s, v }
    }

    /// Validating constructor: accepts exactly the triples with hue at most
    /// 360 and saturation and value at most 100, and reports a value error
    /// otherwise.
    pub fn try_new(h: u32, s: u32, v: u32) -> (res: Result<HSV, ColorError>)
        ensures
            h <= 360 && s <= 100 && v <= 100 ==> (res matches Ok(c) && c@ == (h, s, v)),
            !(h <= 360 && s <= 100 && v <= 100) ==> (res matches Err(e) && e is ValueErr),
    {
        if h <= 360 && s <= 100 && v <= 100 {
            Ok(HSV { h, s, v })
        } else {
            Err(ColorError::ValueErr(vals3_string(h, s, v)))
        }
    }

    /// Parses `hsv(h,s%,v%)` (case-insensitive, optional whitespace, percent
    /// signs optional): a string outside the grammar is a format error
    /// carrying the input; one whose fields are numeric but out of range is
    /// a value error.
    pub fn try_parse(s: &str) -> (res: Result<HSV, ColorError>)
        ensures
            match spec_parse_hsv(s@) {
                Some(t) => if t.0 <= 360 && t.1 <= 100 && t.2 <= 100 {
                    res matches Ok(c) && c@ == t
                } else {
                    res matches Err(e) && e is ValueErr
                },
                None => res matches Err(e) && e matches ColorError::FormatErr(p) && p@ == s@,
            },
    {
        match parse_func3(s, 'h', 's', 'v', false, true, true) {
            Some((h, sat, v)) => Self::try_new(h, sat, v),
            None => Err(ColorError::FormatErr(copy_str(s))),
        }
    }

    /// Renders the canonical form `hsv(h,s%,v%)`.
    pub fn render(&self) -> (out: String)
        ensures
            out@ == spec_render_hsv(self@.0 as int, self@.1 as int, self@.2 as int),
    {
        proof {
            use_type_invariant(self);
        }
        let mut out = String::new();
        out.append("hsv(");
        push_dec(&mut out, self.h);
        out.append(",");
        push_dec(&mut out, self.s);
        out.append("%,");
        push_dec(&mut out, self.v);
        out.append("%)");
        proof {
            reveal_strlit("hsv(");
            reveal_strlit(",");
            reveal_strlit("%,");
            reveal_strlit("%)");
            assert(out@ =~= spec_render_hsv(self@.0 as int, self@.1 as int, self@.2 as int));
        }
        out
    }

    /// Converts to RGB by the standard reconstruction; see `rgb_of_hsv`.
    pub fn to_rgb(&self) -> (c: RGB)
        ensures
            (c@.0 as int, c@.1 as int, c@.2 as int) == rgb_of_hsv(
                self@.0 as int,
                self@.1 as int,
                self@.2 as int,
            ),
    {
        proof {
            use_type_invariant(self);
        }
        let t = hsv_to_rgb(self.h, self.s, self.v);
        RGB::from_channels(t.0, t.1, t.2)
    }

    /// Converts to HSL, routing through RGB.
    pub fn to_hsl(&self) -> (c: HSL)
        ensures
            ({
                let rgb = rgb_of_hsv(self@.0 as int, self@.1 as int, self@.2 as int);
                (c@.0 as int, c@.1 as int, c@.2 as int) == hsl_of_rgb(rgb.0, rgb.1, rgb.2)
            }),
    {
        proof {
            use_type_invariant(self);
        }
        let t = hsv_to_rgb(self.h, self.s, self.v);
        let u = rgb_to_hsl(t.0, t.1, t.2);
        HSL::from_channels(u.0, u.1, u.2)
    }

    /// Converts to CMYK, routing through RGB.
    pub fn to_cmyk(&self) -> (c: CMYK)
        ensures
            ({
                let rgb = rgb_of_hsv(self@.0 as int, self@.1 as int, self@.2 as int);
                (c@.0 as int, c@.1 as int, c@.2 as int, c@.3 as int) == cmyk_of_rgb(
                    rgb.0,
                    rgb.1,
                    rgb.2,
                )
            }),
    {
        proof {
            use_type_invariant(self);
        }
        let t = hsv_to_rgb(self.h, self.s, self.v);
        let u = rgb_to_cmyk(t.0, t.1, t.2);
        CMYK::from_channels(u.0, u.1, u.2, u.3)
    }

    /// Converts to the 6-digit hexadecimal form, routing through RGB.
    pub fn to_hex(&self) -> (c: Hex)
        ensures
            ({
                let rgb = rgb_of_hsv(self@.0 as int, self@.1 as int, self@.2 as int);
                c@ == (rgb.0 as u32, rgb.1 as u32, rgb.2 as u32, None::<u32>)
            }),
    {
        proof {
            use_type_invariant(self);
        }
        let t = hsv_to_rgb(self.h, self.s, self.v);
        Hex::from_channels(t.0, t.1, t.2, None)
    }

    /// Converts to RGBA, routing through RGB; the alpha defaults to fully
    /// opaque.
    pub fn to_rgba(&self) -> (c: RGBA)
        ensures
            ({
                let rgb = rgb_of_hsv(self@.0 as int, self@.1 as int, self@.2 as int);
                (c@.0 as int, c@.1 as int, c@.2 as int) == rgb && c@.3 == 1000
            }),
    {
        proof {
            use_type_invariant(self);
        }
        let t = hsv_to_rgb(self.h, self.s, self.v);
        RGBA::from_channels(t.0, t.1, t.2, 1000)
    }

    /// Converts to HSLA, routing through RGB; the alpha defaults to fully
    /// opaque.
    pub fn to_hsla(&self) -> (c: HSLA)
        ensures
            ({
                let rgb = rgb_of_hsv(self@.0 as int, self@.1 as int, self@.2 as int);
                (c@.0 as int, c@.1 as int, c@.2 as int) == hsl_of_rgb(rgb.0, rgb.1, rgb.2)
                    && c@.3 == 1000
            }),
    {
        proof {
            use_type_invariant(self);
        }
        let t = hsv_to_rgb(self.h, self.s, self.v);
        let u = rgb_to_hsl(t.0, t.1, t.2);
        HSLA::from_channels(u.0, u.1, u.2, 1000)
    }

    /// The hue channel, in degrees.
    pub fn hue(&self) -> (r: u32)
        ensures
            r == self@.0,
            r <= 360,
    {
        proof {
            use_type_invariant(self);
        }
        self.h
    }

    /// Replaces the hue, clamping the argument to `0..=360`.
    pub fn set_hue(&mut self, hue: u32)
        ensures
            final(self)@ == (if hue <= 360 { hue } else { 360u32 }, old(self)@.1, old(self)@.2),
    {
        proof {
            use_type_invariant(&*self);
        }
        self.h = if hue <= 360 {
            hue
        } else {
            360
        };
    }

    /// The saturation channel, in percent.
    pub fn saturation(&self) -> (r: u32)
        ensures
            r == self@.1,
            r <= 100,
    {
        proof {
            use_type_invariant(self);
        }
        self.s
    }

    /// Replaces the saturation, clamping the argument to `0..=100`.
    pub fn set_saturation(&mut self, saturation: u32)
        ensures
            final(self)@ == (
                old(self)@.0,
                if saturation <= 100 {
                    saturation
                } else {
                    100u32
                },
                old(self)@.2,
            ),
    {
        proof {
            use_type_invariant(&*self);
        }
        self.s = if saturation <= 100 {
            saturation
        } else {
            100
        };
    }

    /// The value channel, in percent.
    pub fn value(&self) -> (r: u32)
        ensures
            r == self@.2,
            r <= 100,
    {
        proof {
            use_type_invariant(self);
        }
        self.v
    }

    /// Replaces the value, clamping the argument to `0..=100`.
    pub fn set_value(&mut self, value: u32)
        ensures
            final(self)@ == (
                old(self)@.0,
                old(self)@.1,
                if value <= 100 {
                    value
                } else {
                    100u32
                },
            ),
    {
        proof {
            use_type_invariant(&*self);
        }
        self.v = if value <= 100 {
            value
        } else {
            100
        };
    }

    /// Rotates the hue by `degrees` (either sign), wrapping into `[0, 360)`.
    pub fn rotate(&mut self, degrees: i32)
        ensures
            final(self)@.0 == spec_rotate(old(self)@.0 as int, degrees as int),
            final(self)@.1 == old(self)@.1,
            final(self)@.2 == old(self)@.2,
    {
        proof {
            use_type_invariant(&*self);
        }
        let h: u32 = self.h;
        let nh: u32 = if degrees >= 0 {
            let d: u32 = (degrees as u32) % 360;
            proof {
                lemma_add_mod_noop(h as int, degrees as int, 360);
            }
            ((h % 360) + d) % 360
        } else {
            let nd64: u64 = (-(degrees as i64)) as u64;
            let nd: u32 = (nd64 % 360) as u32;
            proof {
                let hi = h as int;
                let ni = nd64 as int;
                lemma_fundamental_div_mod(hi, 360);
                lemma_fundamental_div_mod(ni, 360);
                assert((h as int % 360) + 360 - nd as int == (hi - ni) + 360 * (1 + ni / 360
                    - hi / 360));
                lemma_mod_multiples_vanish(1 + ni / 360 - hi / 360, hi - ni, 360);
            }
            ((h % 360) + 360 - nd) % 360
        };
        self.h = nh;
    }

    /// Darkens the color: the value channel shrinks by `v * ratio / 100`,
    /// saturating at zero. `ratio` is in hundredths.
    pub fn darken(&mut self, ratio: u32)
        ensures
            final(self)@ == (old(self)@.0, old(self)@.1, darkened(old(self)@.2 as int, ratio as int) as u32),
    {
        proof {
            use_type_invariant(&*self);
        }
        let v: u64 = self.v as u64;
        proof {
            assert((v as int) * (ratio as int) <= 100 * 0xffff_ffff) by (nonlinear_arith)
                requires
                    0 <= v as int <= 100,
                    0 <= ratio as int <= 0xffff_ffff,
            ;
        }
        let delta: u64 = (v * (ratio as u64)) / 100;
        self.v = if delta >= v {
            0
        } else {
            (v - delta) as u32
        };
    }

    /// Lightens the color: the value channel grows by `v * ratio / 100`,
    /// clamped to 100. `ratio` is in hundredths.
    pub fn lighten(&mut self, ratio: u32)
        ensures
            final(self)@ == (old(self)@.0, old(self)@.1, lightened(old(self)@.2 as int, ratio as int) as u32),
    {
        proof {
            use_type_invariant(&*self);
        }
        let v: u64 = self.v as u64;
        proof {
            assert((v as int) * (ratio as int) <= 100 * 0xffff_ffff) by (nonlinear_arith)
                requires
                    0 <= v as int <= 100,
                    0 <= ratio as int <= 0xffff_ffff,
            ;
        }
        let delta: u64 = (v * (ratio as u64)) / 100;
        self.v = if v + delta >= 100 {
            100
        } else {
            (v + delta) as u32
        };
    }
}

} // verus!
