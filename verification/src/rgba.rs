use vstd::prelude::*;

use crate::cmyk::CMYK;
use crate::error::ColorError;
use crate::hex::Hex;
use crate::hsl::HSL;
use crate::hsla::HSLA;
use crate::hsv::HSV;
use crate::math::{
    byte_of_mille, cmyk_of_rgb, hsl_of_rgb, hsv_of_rgb, mille_to_byte, rgb_to_cmyk, rgb_to_hsl,
    rgb_to_hsv,
};
use crate::rgb::RGB;
use crate::text::{
    body3, copy_str, parse_func3a, push_alpha, push_dec, spec_alpha_str, spec_func3a,
    vals4_string,
};

verus! {

/// The grammar of `rgba(r,g,b,a)` strings: the parsed channels, alpha in
/// thousandths (possibly above 1000, which the constructor rejects), or
/// `None` where the string does not match.
pub open spec fn spec_parse_rgba(s: Seq<char>) -> Option<(u32, u32, u32, int)> {
    spec_func3a(s, 'r', 'g', 'b', 'a', false, false, false)
}

/// The canonical rendering `rgba(r,g,b,a)`; the alpha shows at most three
/// decimal places.
pub open spec fn spec_render_rgba(r: int, g: int, b: int, a: int) -> Seq<char> {
    seq!['r', 'g', 'b', 'a', '('] + body3(r, g, b, false, false, false) + seq![',']
        + spec_alpha_str(a) + seq![')']
}

/// A color in the RGBA encoding: three channels in `0..=255` and an alpha
/// in thousandths of full opacity (`0..=1000`; 1000 is opaque). No
/// out-of-range value can exist: every constructor validates or clamps.
#[derive(Debug, Clone, Copy, PartialEq, Eq, Structural)]
pub struct RGBA {
    pub(crate) r: u32,
    pub(crate) g: u32,
    pub(crate) b: u32,
    pub(crate) a: u32,
}

impl View for RGBA {
    type V = (u32, u32, u32, u32);

    /// `(red, green, blue, alpha thousandths)`.
    closed spec fn view(&self) -> (u32, u32, u32, u32) {
        (self.r, self.g, self.b, self.a)
    }
}

impl RGBA {
    /// Channel ranges; holds for every value of the type.
    #[verifier::type_invariant]
    pub open spec fn wf(self) -> bool {
        self@.0 <= 255 && self@.1 <= 255 && self@.2 <= 255 && self@.3 <= 1000
    }

    pub(crate) fn from_channels(r: u32, g: u32, b: u32, a: u32) -> (c: RGBA)
        requires
            r <= 255,
            g <= 255,
            b <= 255,
            a <= 1000,
        ensures
            c@ == (r, g, b, a),
    {
        RGBA { r, g, b, a }
    }

    /// Validating constructor: accepts exactly byte channels with an alpha
    /// of at most 1000 thousandths, and reports a value error otherwise.
    pub fn try_new(r: u32, g: u32, b: u32, a: u32) -> (res: Result<RGBA, ColorError>)
        ensures
            r <= 255 && g <= 255 && b <= 255 && a <= 1000 ==> (res matches Ok(c) && c@ == (
                r,
                g,
                b,
                a,
            )),
            !(r <= 255 && g <= 255 && b <= 255 && a <= 1000) ==> (res matches Err(e)
                && e is ValueErr),
    {
        if r <= 255 && g <= 255 && b <= 255 && a <= 1000 {
            Ok(RGBA { r, g, b, a })
        } else {
            Err(ColorError::ValueErr(vals4_string(r, g, b, a)))
        }
    }

    /// Parses `rgba(r,g,b,a)` (case-insensitive, optional whitespace; the
    /// alpha is a decimal with up to three places): a string outside the
    /// grammar is a format error carrying the input; one whose fields are
    /// numeric but out of range is a value error.
    pub fn try_parse(s: &str) -> (res: Result<RGBA, ColorError>)
        ensures
            match spec_parse_rgba(s@) {
                Some(t) => if t.0 <= 255 && t.1 <= 255 && t.2 <= 255 && t.3 <= 1000 {
                    res matches Ok(c) && c@ == (t.0, t.1, t.2, t.3 as u32)
                } else {
                    res matches Err(e) && e is ValueErr
                },
                None => res matches Err(e) && e matches ColorError::FormatErr(p) && p@ == s@,
            },
    {
        match parse_func3a(s, 'r', 'g', 'b', 'a', false, false, false) {
            Some((r, g, b, a)) => Self::try_new(r, g, b, a),
            None => Err(ColorError::FormatErr(copy_str(s))),
        }
    }

    /// Renders the canonical form `rgba(r,g,b,a)`.
    pub fn render(&self) -> (out: String)
        ensures
            out@ == spec_render_rgba(
                self@.0 as int,
                self@.1 as int,
                self@.2 as int,
                self@.3 as int,
            ),
    {
        proof {
            use_type_invariant(self);
        }
        let mut out = String::new();
        out.append("rgba(");
        push_dec(&mut out, self.r);
        out.append(",");
        push_dec(&mut out, self.g);
        out.append(",");
        push_dec(&mut out, self.b);
        out.append(",");
        push_alpha(&mut out, self.a);
        out.append(")");
        proof {
            reveal_strlit("rgba(");
            reveal_strlit(",");
            reveal_strlit(")");
            assert(out@ =~= spec_render_rgba(
                self@.0 as int,
                self@.1 as int,
                self@.2 as int,
                self@.3 as int,
            ));
        }
        out
    }

    /// The red channel.
    pub fn red(&self) -> (v: u32)
        ensures
            v == self@.0,
            v <= 255,
    {
        proof {
            use_type_invariant(self);
        }
        self.r
    }

    /// The green channel.
    pub fn green(&self) -> (v: u32)
        ensures
            v == self@.1,
            v <= 255,
    {
        proof {
            use_type_invariant(self);
        }
        self.g
    }

    /// The blue channel.
    pub fn blue(&self) -> (v: u32)
        ensures
            v == self@.2,
            v <= 255,
    {
        proof {
            use_type_invariant(self);
        }
        self.b
    }

    /// The alpha channel, in thousandths of full opacity.
    pub fn alpha(&self) -> (v: u32)
        ensures
            v == self@.3,
            v <= 1000,
    {
        proof {
            use_type_invariant(self);
        }
        self.a
    }

    /// Replaces the alpha, clamping the argument to `0..=1000` thousandths.
    pub fn set_alpha(&mut self, alpha: u32)
        ensures
            final(self)@ == (
                old(self)@.0,
                old(self)@.1,
                old(self)@.2,
                if alpha <= 1000 {
                    alpha
                } else {
                    1000u32
                },
            ),
    {
        proof {
            use_type_invariant(&*self);
        }
        self.a = if alpha <= 1000 {
            alpha
        } else {
            1000
        };
    }

    /// Converts to RGB, discarding alpha.
    pub fn to_rgb(&self) -> (c: RGB)
        ensures
            c@ == (self@.0, self@.1, self@.2),
    {
        proof {
            use_type_invariant(self);
        }
        RGB::from_channels(self.r, self.g, self.b)
    }

    /// Converts to HSL, routing through RGB (alpha is discarded).
    pub fn to_hsl(&self) -> (c: HSL)
        ensures
            (c@.0 as int, c@.1 as int, c@.2 as int) == hsl_of_rgb(
                self@.0 as int,
                self@.1 as int,
                self@.2 as int,
            ),
    {
        proof {
            use_type_invariant(self);
        }
        let t = rgb_to_hsl(self.r, self.g, self.b);
        HSL::from_channels(t.0, t.1, t.2)
    }

    /// Converts to HSLA: the color part goes through the RGB-to-HSL
    /// derivation, the alpha is kept.
    pub fn to_hsla(&self) -> (c: HSLA)
        ensures
            ({
                let hsl = hsl_of_rgb(self@.0 as int, self@.1 as int, self@.2 as int);
                (c@.0 as int, c@.1 as int, c@.2 as int) == hsl && c@.3 == self@.3
            }),
    {
        proof {
            use_type_invariant(self);
        }
        let t = rgb_to_hsl(self.r, self.g, self.b);
        HSLA::from_channels(t.0, t.1, t.2, self.a)
    }

    /// Converts to HSV, routing through RGB (alpha is discarded).
    pub fn to_hsv(&self) -> (c: HSV)
        ensures
            (c@.0 as int, c@.1 as int, c@.2 as int) == hsv_of_rgb(
                self@.0 as int,
                self@.1 as int,
                self@.2 as int,
            ),
    {
        proof {
            use_type_invariant(self);
        }
        let t = rgb_to_hsv(self.r, self.g, self.b);
        HSV::from_channels(t.0, t.1, t.2)
    }

    /// Converts to CMYK, routing through RGB (alpha is discarded).
    pub fn to_cmyk(&self) -> (c: CMYK)
        ensures
            (c@.0 as int, c@.1 as int, c@.2 as int, c@.3 as int) == cmyk_of_rgb(
                self@.0 as int,
                self@.1 as int,
                self@.2 as int,
            ),
    {
        proof {
            use_type_invariant(self);
        }
        let t = rgb_to_cmyk(self.r, self.g, self.b);
        CMYK::from_channels(t.0, t.1, t.2, t.3)
    }

    /// Converts to the 8-digit hexadecimal form: the channels are kept
    /// bit-identically and the alpha becomes the nearest byte, ties up.
    pub fn to_hex(&self) -> (c: Hex)
        ensures
            c@.0 == self@.0 && c@.1 == self@.1 && c@.2 == self@.2,
            c@.3 matches Some(v) && v as int == byte_of_mille(self@.3 as int),
    {
        proof {
            use_type_invariant(self);
        }
        let ab: u32 = mille_to_byte(self.a);
        Hex::from_channels(self.r, self.g, self.b, Some(ab))
    }
}

} // verus!
