use vstd::prelude::*;

use crate::error::ColorError;
use crate::hex::Hex;
use crate::hsl::HSL;
use crate::hsla::HSLA;
use crate::hsv::HSV;
use crate::rgba::RGBA;
use crate::math::{cmyk_to_rgb, hsl_of_rgb, hsv_of_rgb, rgb_of_cmyk, rgb_to_hsl, rgb_to_hsv};
use crate::rgb::RGB;
use crate::text::{body4, copy_str, parse_func4, push_dec, spec_func4, vals4_string};

verus! {

/// The grammar of `cmyk(c%,m%,y%,k%)` strings: the parsed channel tuple, or
/// `None` where the string does not match. The percent signs are optional
/// on input.
pub open spec fn spec_parse_cmyk(s: Seq<char>) -> Option<(u32, u32, u32, u32)> {
    spec_func4(s, 'c', 'm', 'y', 'k', true)
}

/// The canonical rendering `cmyk(c%,m%,y%,k%)`.
pub open spec fn spec_render_cmyk(c: int, m: int, y: int, k: int) -> Seq<char> {
    seq!['c', 'm', 'y', 'k', '('] + body4(c, m, y, k, true) + seq![')']
}

/// A color in the CMYK encoding: four channels in integer percent
/// (`0..=100`). No out-of-range value can exist: every constructor
/// validates or clamps.
#[derive(Debug, Clone, Copy, PartialEq, Eq, Structural)]
pub struct CMYK {
    pub(crate) c: u32,
    pub(crate) m: u32,
    pub(crate) y: u32,
    pub(crate) k: u32,
}

impl View for CMYK {
    type V = (u32, u32, u32, u32);

    /// `(cyan, magenta, yellow, key)`.
    closed spec fn view(&self) -> (u32, u32, u32, u32) {
        (self.c, self.m, self.y, self.k)
    }
}

impl CMYK {
    /// Channel ranges; holds for every value of the type.
    #[verifier::type_invariant]
    pub open spec fn wf(self) -> bool {
        self@.0 <= 100 && self@.1 <= 100 && self@.2 <= 100 && self@.3 <= 100
    }

    pub(crate) fn from_channels(c: u32, m: u32, y: u32, k: u32) -> (out: CMYK)
        requires
            c <= 100,
            m <= 100,
            y <= 100,
            k <= 100,
        ensures
            out@ == (c, m, y, k),
    {
        CMYK { c, m, y, k }
    }

    /// Validating constructor: accepts exactly the tuples with every channel
    /// at most 100, and reports a value error otherwise.
    pub fn try_new(c: u32, m: u32, y: u32, k: u32) -> (res: Result<CMYK, ColorError>)
        ensures
            c <= 100 && m <= 100 && y <= 100 && k <= 100 ==> (res matches Ok(out) && out@ == (
                c,
                m,
                y,
                k,
            )),
            !(c <= 100 && m <= 100 && y <= 100 && k <= 100) ==> (res matches Err(e)
                && e is ValueErr),
    {
        if c <= 100 && m <= 100 && y <= 100 && k <= 100 {
            Ok(CMYK { c, m, y, k })
        } else {
            Err(ColorError::ValueErr(vals4_string(c, m, y, k)))
        }
    }

    /// Parses `cmyk(c%,m%,y%,k%)` (case-insensitive, optional whitespace,
    /// percent signs optional): a string outside the grammar is a format
    /// error carrying the input; one whose fields are numeric but out of
    /// range is a value error.
    pub fn try_parse(s: &str) -> (res: Result<CMYK, ColorError>)
        ensures
            match spec_parse_cmyk(s@) {
                Some(t) => if t.0 <= 100 && t.1 <= 100 && t.2 <= 100 && t.3 <= 100 {
                    res matches Ok(out) && out@ == t
                } else {
                    res matches Err(e) && e is ValueErr
                },
                None => res matches Err(e) && e matches ColorError::FormatErr(p) && p@ == s@,
            },
    {
        match parse_func4(s, 'c', 'm', 'y', 'k', true) {
            Some((c, m, y, k)) => Self::try_new(c, m, y, k),
            None => Err(ColorError::FormatErr(copy_str(s))),
        }
    }

    /// Renders the canonical form `cmyk(c%,m%,y%,k%)`.
    pub fn render(&self) -> (out: String)
        ensures
            out@ == spec_render_cmyk(
                self@.0 as int,
                self@.1 as int,
                self@.2 as int,
                self@.3 as int,
            ),
    {
        proof {
            use_type_invariant(self);
        }
        let mut out = String::new();
        out.append("cmyk(");
        push_dec(&mut out, self.c);
        out.append("%,");
        push_dec(&mut out, self.m);
        out.append("%,");
        push_dec(&mut out, self.y);
        out.append("%,");
        push_dec(&mut out, self.k);
        out.append("%)");
        proof {
            reveal_strlit("cmyk(");
            reveal_strlit("%,");
            reveal_strlit("%)");
            assert(out@ =~= spec_render_cmyk(
                self@.0 as int,
                self@.1 as int,
                self@.2 as int,
                self@.3 as int,
            ));
        }
        out
    }

    /// The cyan channel, in percent.
    pub fn cyan(&self) -> (r: u32)
        ensures
            r == self@.0,
            r <= 100,
    {
        proof {
            use_type_invariant(self);
        }
        self.c
    }

    /// The magenta channel, in percent.
    pub fn magenta(&self) -> (r: u32)
        ensures
            r == self@.1,
            r <= 100,
    {
        proof {
            use_type_invariant(self);
        }
        self.m
    }

    /// The yellow channel, in percent.
    pub fn yellow(&self) -> (r: u32)
        ensures
            r == self@.2,
            r <= 100,
    {
        proof {
            use_type_invariant(self);
        }
        self.y
    }

    /// The key (black) channel, in percent.
    pub fn key(&self) -> (r: u32)
        ensures
            r == self@.3,
            r <= 100,
    {
        proof {
            use_type_invariant(self);
        }
        self.k
    }

    /// Converts to RGB; see `rgb_of_cmyk`.
    pub fn to_rgb(&self) -> (out: RGB)
        ensures
            (out@.0 as int, out@.1 as int, out@.2 as int) == rgb_of_cmyk(
                self@.0 as int,
                self@.1 as int,
                self@.2 as int,
                self@.3 as int,
            ),
    {
        proof {
            use_type_invariant(self);
        }
        let t = cmyk_to_rgb(self.c, self.m, self.y, self.k);
        RGB::from_channels(t.0, t.1, t.2)
    }

    /// Converts to HSL, routing through RGB.
    pub fn to_hsl(&self) -> (out: HSL)
        ensures
            ({
                let rgb = rgb_of_cmyk(self@.0 as int, self@.1 as int, self@.2 as int, self@.3 as int);
                (out@.0 as int, out@.1 as int, out@.2 as int) == hsl_of_rgb(rgb.0, rgb.1, rgb.2)
            }),
    {
        proof {
            use_type_invariant(self);
        }
        let t = cmyk_to_rgb(self.c, self.m, self.y, self.k);
        let u = rgb_to_hsl(t.0, t.1, t.2);
        HSL::from_channels(u.0, u.1, u.2)
    }

    /// Converts to the 6-digit hexadecimal form, routing through RGB.
    pub fn to_hex(&self) -> (out: Hex)
        ensures
            ({
                let rgb = rgb_of_cmyk(self@.0 as int, self@.1 as int, self@.2 as int, self@.3 as int);
                out@ == (rgb.0 as u32, rgb.1 as u32, rgb.2 as u32, None::<u32>)
            }),
    {
        proof {
            use_type_invariant(self);
        }
        let t = cmyk_to_rgb(self.c, self.m, self.y, self.k);
        Hex::from_channels(t.0, t.1, t.2, None)
    }

    /// Converts to RGBA, routing through RGB; the alpha defaults to fully
    /// opaque.
    pub fn to_rgba(&self) -> (out: RGBA)
        ensures
            ({
                let rgb = rgb_of_cmyk(self@.0 as int, self@.1 as int, self@.2 as int, self@.3 as int);
                (out@.0 as int, out@.1 as int, out@.2 as int) == rgb && out@.3 == 1000
            }),
    {
        proof {
            use_type_invariant(self);
        }
        let t = cmyk_to_rgb(self.c, self.m, self.y, self.k);
        RGBA::from_channels(t.0, t.1, t.2, 1000)
    }

    /// Converts to HSLA, routing through RGB; the alpha defaults to fully
    /// opaque.
    pub fn to_hsla(&self) -> (out: HSLA)
        ensures
            ({
                let rgb = rgb_of_cmyk(self@.0 as int, self@.1 as int, self@.2 as int, self@.3 as int);
                (out@.0 as int, out@.1 as int, out@.2 as int) == hsl_of_rgb(rgb.0, rgb.1, rgb.2)
                    && out@.3 == 1000
            }),
    {
        proof {
            use_type_invariant(self);
        }
        let t = cmyk_to_rgb(self.c, self.m, self.y, self.k);
        let u = rgb_to_hsl(t.0, t.1, t.2);
        HSLA::from_channels(u.0, u.1, u.2, 1000)
    }

    /// Converts to HSV, routing through RGB.
    pub fn to_hsv(&self) -> (out: HSV)
        ensures
            ({
                let rgb = rgb_of_cmyk(self@.0 as int, self@.1 as int, self@.2 as int, self@.3 as int);
                (out@.0 as int, out@.1 as int, out@.2 as int) == hsv_of_rgb(rgb.0, rgb.1, rgb.2)
            }),
    {
        proof {
            use_type_invariant(self);
        }
        let t = cmyk_to_rgb(self.c, self.m, self.y, self.k);
        let u = rgb_to_hsv(t.0, t.1, t.2);
        HSV::from_channels(u.0, u.1, u.2)
    }
}

} // verus!
