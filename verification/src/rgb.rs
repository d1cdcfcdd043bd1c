use vstd::prelude::*;

use crate::cmyk::CMYK;
use crate::error::ColorError;
use crate::hex::Hex;
use crate::hsl::HSL;
use crate::hsla::HSLA;
use crate::hsv::HSV;
use crate::rgba::RGBA;
use crate::math::{cmyk_of_rgb, hsl_of_rgb, hsv_of_rgb, rgb_to_cmyk, rgb_to_hsl, rgb_to_hsv};
use crate::text::{
    body3, parse_func3, push_dec, spec_func3, vals3_string, copy_str,
};

verus! {

/// A color in the RGB encoding: three channels in `0..=255`. This is the
/// pivot representation: every other encoding converts to and from it.
#[derive(Debug, Clone, Copy, PartialEq, Eq, Structural)]
pub struct RGB {
    pub(crate) r: u32,
    pub(crate) g: u32,
    pub(crate) b: u32,
}

impl View for RGB {
    type V = (u32, u32, u32);

    /// `(red, green, blue)`.
    closed spec fn view(&self) -> (u32, u32, u32) {
        (self.r, self.g, self.b)
    }
}

/// The grammar of `rgb(r,g,b)` strings: the parsed channel triple, or `None`
/// where the string does not match.
pub open spec fn spec_parse_rgb(s: Seq<char>) -> Option<(u32, u32, u32)> {
    spec_func3(s, 'r', 'g', 'b', false, false, false)
}

/// The canonical rendering `rgb(r,g,b)`.
pub open spec fn spec_render_rgb(r: int, g: int, b: int) -> Seq<char> {
    seq!['r', 'g', 'b', '('] + body3(r, g, b, false, false, false) + seq![')']
}

impl RGB {
    /// Channel ranges; holds for every value of the type.
    #[verifier::type_invariant]
    pub open spec fn wf(self) -> bool {
        self@.0 <= 255 && self@.1 <= 255 && self@.2 <= 255
    }

    pub(crate) fn from_channels(r: u32, g: u32, b: u32) -> (c: RGB)
        requires
            r <= 255,
            g <= 255,
            b <= 255,
        ensures
            c@ == (r, g, b),
    {
        RGB { r, g, b }
    }

    /// Validating constructor: accepts exactly the channel triples with every
    /// channel at most 255, and reports a value error otherwise.
    pub fn try_new(r: u32, g: u32, b: u32) -> (res: Result<RGB, ColorError>)
        ensures
            r <= 255 && g <= 255 && b <= 255 ==> (res matches Ok(c) && c@ == (r, g, b)),
            !(r <= 255 && g <= 255 && b <= 255) ==> (res matches Err(e) && e is ValueErr),
    {
        if r <= 255 && g <= 255 && b <= 255 {
            Ok(RGB { r, g, b })
        } else {
            Err(ColorError::ValueErr(vals3_string(r, g, b)))
        }
    }

    /// Parses `rgb(r,g,b)` (case-insensitive, optional whitespace): a string
    /// outside the grammar is a format error carrying the input; one whose
    /// fields are numeric but out of range is a value error.
    pub fn try_parse(s: &str) -> (res: Result<RGB, ColorError>)
        ensures
            match spec_parse_rgb(s@) {
                Some(v) => if v.0 <= 255 && v.1 <= 255 && v.2 <= 255 {
                    res matches Ok(c) && c@ == v
                } else {
                    res matches Err(e) && e is ValueErr
                },
                None => res matches Err(e) && e matches ColorError::FormatErr(p) && p@ == s@,
            },
    {
        match parse_func3(s, 'r', 'g', 'b', false, false, false) {
            Some((r, g, b)) => Self::try_new(r, g, b),
            None => Err(ColorError::FormatErr(copy_str(s))),
        }
    }

    /// Renders the canonical form `rgb(r,g,b)`.
    pub fn render(&self) -> (out: String)
        ensures
            out@ == spec_render_rgb(self@.0 as int, self@.1 as int, self@.2 as int),
    {
        proof {
            use_type_invariant(self);
        }
        let mut out = String::new();
        out.append("rgb(");
        push_dec(&mut out, self.r);
        out.append(",");
        push_dec(&mut out, self.g);
        out.append(",");
        push_dec(&mut out, self.b);
        out.append(")");
        proof {
            reveal_strlit("rgb(");
            reveal_strlit(",");
            reveal_strlit(")");
            assert(out@ =~= spec_render_rgb(self@.0 as int, self@.1 as int, self@.2 as int));
        }
        out
    }

    /// The red channel.
    pub fn red(&self) -> (v: u32)
        ensures
            v == self@.0,
            v <= 255,
    {
        proof {
            use_type_invariant(self);
        }
        self.r
    }

    /// The green channel.
    pub fn green(&self) -> (v: u32)
        ensures
            v == self@.1,
            v <= 255,
    {
        proof {
            use_type_invariant(self);
        }
        self.g
    }

    /// The blue channel.
    pub fn blue(&self) -> (v: u32)
        ensures
            v == self@.2,
            v <= 255,
    {
        proof {
            use_type_invariant(self);
        }
        self.b
    }

    /// Replaces the red channel, clamping the argument to `0..=255`.
    pub fn set_red(&mut self, v: u32)
        ensures
            final(self)@ == (if v <= 255 { v } else { 255u32 }, old(self)@.1, old(self)@.2),
    {
        proof {
            use_type_invariant(&*self);
        }
        self.r = if v <= 255 {
            v
        } else {
            255
        };
    }

    /// Replaces the green channel, clamping the argument to `0..=255`.
    pub fn set_green(&mut self, v: u32)
        ensures
            final(self)@ == (old(self)@.0, if v <= 255 { v } else { 255u32 }, old(self)@.2),
    {
        proof {
            use_type_invariant(&*self);
        }
        self.g = if v <= 255 {
            v
        } else {
            255
        };
    }

    /// Replaces the blue channel, clamping the argument to `0..=255`.
    pub fn set_blue(&mut self, v: u32)
        ensures
            final(self)@ == (old(self)@.0, old(self)@.1, if v <= 255 { v } else { 255u32 }),
    {
        proof {
            use_type_invariant(&*self);
        }
        self.b = if v <= 255 {
            v
        } else {
            255
        };
    }

    /// Converts to HSL by the standard derivation; see `hsl_of_rgb`.
    pub fn to_hsl(&self) -> (c: HSL)
        ensures
            (c@.0 as int, c@.1 as int, c@.2 as int) == hsl_of_rgb(
                self@.0 as int,
                self@.1 as int,
                self@.2 as int,
            ),
    {
        proof {
            use_type_invariant(self);
        }
        let t = rgb_to_hsl(self.r, self.g, self.b);
        HSL::from_channels(t.0, t.1, t.2)
    }

    /// Converts to HSV by the standard derivation; see `hsv_of_rgb`.
    pub fn to_hsv(&self) -> (c: HSV)
        ensures
            (c@.0 as int, c@.1 as int, c@.2 as int) == hsv_of_rgb(
                self@.0 as int,
                self@.1 as int,
                self@.2 as int,
            ),
    {
        proof {
            use_type_invariant(self);
        }
        let t = rgb_to_hsv(self.r, self.g, self.b);
        HSV::from_channels(t.0, t.1, t.2)
    }

    /// Converts to CMYK; see `cmyk_of_rgb`.
    pub fn to_cmyk(&self) -> (c: CMYK)
        ensures
            (c@.0 as int, c@.1 as int, c@.2 as int, c@.3 as int) == cmyk_of_rgb(
                self@.0 as int,
                self@.1 as int,
                self@.2 as int,
            ),
    {
        proof {
            use_type_invariant(self);
        }
        let t = rgb_to_cmyk(self.r, self.g, self.b);
        CMYK::from_channels(t.0, t.1, t.2, t.3)
    }

    /// Converts to RGBA: the channels are kept and the alpha defaults to
    /// fully opaque.
    pub fn to_rgba(&self) -> (c: RGBA)
        ensures
            c@ == (self@.0, self@.1, self@.2, 1000u32),
    {
        proof {
            use_type_invariant(self);
        }
        RGBA::from_channels(self.r, self.g, self.b, 1000)
    }

    /// Converts to HSLA: the color part goes through the RGB-to-HSL
    /// derivation and the alpha defaults to fully opaque.
    pub fn to_hsla(&self) -> (c: HSLA)
        ensures
            ({
                let hsl = hsl_of_rgb(self@.0 as int, self@.1 as int, self@.2 as int);
                (c@.0 as int, c@.1 as int, c@.2 as int) == hsl && c@.3 == 1000
            }),
    {
        proof {
            use_type_invariant(self);
        }
        let t = rgb_to_hsl(self.r, self.g, self.b);
        HSLA::from_channels(t.0, t.1, t.2, 1000)
    }

    /// Converts to the 6-digit hexadecimal form: the channels are kept
    /// bit-identically and no alpha byte is attached.
    pub fn to_hex(&self) -> (c: Hex)
        ensures
            c@ == (self@.0, self@.1, self@.2, None::<u32>),
    {
        proof {
            use_type_invariant(self);
        }
        Hex::from_channels(self.r, self.g, self.b, None)
    }
}

} // verus!
