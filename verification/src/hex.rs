use vstd::prelude::*;

use crate::cmyk::CMYK;
use crate::error::ColorError;
use crate::hsl::HSL;
use crate::hsv::HSV;
use crate::hsla::HSLA;
use crate::math::{
    byte_to_mille, cmyk_of_rgb, hsl_of_rgb, hsv_of_rgb, mille_of_byte, rgb_to_cmyk, rgb_to_hsl,
    rgb_to_hsv,
};
use crate::rgba::RGBA;
use crate::rgb::RGB;
use crate::text::{
    all_hex, copy_str, hbyte, hpair, hval, hval_exec, push_hex_byte, strim, to_chars, trim_range,
    vals4_string,
};

verus! {

/// The grammar of hexadecimal color strings: trimmed, an optional leading
/// `#`, then exactly 6 digits (opaque) or 8 digits (the last pair is alpha),
/// either case. The parsed value is `(r, g, b, alpha byte)`.
pub open spec fn spec_parse_hex(s: Seq<char>) -> Option<(u32, u32, u32, Option<u32>)> {
    let t = strim(s);
    let u = if t.len() > 0 && t[0] == '#' {
        t.drop_first()
    } else {
        t
    };
    if u.len() == 6 && all_hex(u) {
        Some((hbyte(u, 0), hbyte(u, 1), hbyte(u, 2), None))
    } else if u.len() == 8 && all_hex(u) {
        Some((hbyte(u, 0), hbyte(u, 1), hbyte(u, 2), Some(hbyte(u, 3))))
    } else {
        None
    }
}

/// The canonical rendering: `#rrggbb`, or `#rrggbbaa` where an alpha byte
/// is present, in lower case.
pub open spec fn spec_render_hex(r: int, g: int, b: int, a: Option<u32>) -> Seq<char> {
    let base = seq!['#'] + hpair(r) + hpair(g) + hpair(b);
    match a {
        Some(v) => base + hpair(v as int),
        None => base,
    }
}

/// A color in hexadecimal string form: three byte channels, and an optional
/// alpha byte (present exactly for the 8-digit form). No out-of-range value
/// can exist: every constructor validates.
#[derive(Debug, Clone, Copy, PartialEq, Eq, Structural)]
pub struct Hex {
    pub(crate) r: u32,
    pub(crate) g: u32,
    pub(crate) b: u32,
    pub(crate) a: Option<u32>,
}

impl View for Hex {
    type V = (u32, u32, u32, Option<u32>);

    /// `(red, green, blue, alpha byte)`.
    closed spec fn view(&self) -> (u32, u32, u32, Option<u32>) {
        (self.r, self.g, self.b, self.a)
    }
}

impl Hex {
    /// Channel ranges; holds for every value of the type.
    #[verifier::type_invariant]
    pub open spec fn wf(self) -> bool {
        self@.0 <= 255 && self@.1 <= 255 && self@.2 <= 255 && (self@.3 matches Some(v) ==> v
            <= 255)
    }

    pub(crate) fn from_channels(r: u32, g: u32, b: u32, a: Option<u32>) -> (c: Hex)
        requires
            r <= 255,
            g <= 255,
            b <= 255,
            a matches Some(v) ==> v <= 255,
        ensures
            c@ == (r, g, b, a),
    {
        Hex { r, g, b, a }
    }

    /// Validating constructor: accepts exactly byte-valued channels (and an
    /// optional byte-valued alpha), and reports a value error otherwise.
    pub fn try_new(r: u32, g: u32, b: u32, a: Option<u32>) -> (res: Result<Hex, ColorError>)
        ensures
            r <= 255 && g <= 255 && b <= 255 && (a matches Some(v) ==> v <= 255) ==> (
            res matches Ok(c) && c@ == (r, g, b, a)),
            !(r <= 255 && g <= 255 && b <= 255 && (a matches Some(v) ==> v <= 255)) ==> (
            res matches Err(e) && e is ValueErr),
    {
        let aok: bool = match a {
            Some(v) => v <= 255,
            None => true,
        };
        if r <= 255 && g <= 255 && b <= 255 && aok {
            Ok(Hex { r, g, b, a })
        } else {
            let av: u32 = match a {
                Some(v) => v,
                None => 0,
            };
            Err(ColorError::ValueErr(vals4_string(r, g, b, av)))
        }
    }

    /// Parses `#rrggbb` / `#rrggbbaa` (either case, `#` optional, optional
    /// whitespace): any string outside the grammar is a format error
    /// carrying the input. A hexadecimal string has no out-of-range values.
    pub fn try_parse(s: &str) -> (res: Result<Hex, ColorError>)
        ensures
            match spec_parse_hex(s@) {
                Some(t) => res matches Ok(c) && c@ == t,
                None => res matches Err(e) && e matches ColorError::FormatErr(p) && p@ == s@,
            },
    {
        let cs = to_chars(s);
        let n: usize = cs.len();
        let (t0, t1) = trim_range(&cs, 0, n);
        proof {
            assert(cs@.subrange(0, n as int) =~= s@);
        }
        let ghost t = strim(s@);
        let a0: usize = if t1 > t0 && cs[t0] == '#' {
            t0 + 1
        } else {
            t0
        };
        let ghost u = cs@.subrange(a0 as int, t1 as int);
        proof {
            if t.len() > 0 && t[0] == '#' {
                assert(t[0] == cs@[t0 as int]);
                assert(t.drop_first() =~= cs@.subrange(t0 + 1, t1 as int));
            }
            if t.len() > 0 {
                assert(t[0] == cs@[t0 as int]);
            }
        }
        let len: usize = t1 - a0;
        if len != 6 && len != 8 {
            return Err(ColorError::FormatErr(copy_str(s)));
        }
        let h0: u32 = hval_exec(cs[a0]);
        let h1: u32 = hval_exec(cs[a0 + 1]);
        let h2: u32 = hval_exec(cs[a0 + 2]);
        let h3: u32 = hval_exec(cs[a0 + 3]);
        let h4: u32 = hval_exec(cs[a0 + 4]);
        let h5: u32 = hval_exec(cs[a0 + 5]);
        proof {
            assert(u[0] == cs@[a0 as int]);
            assert(u[1] == cs@[a0 + 1]);
            assert(u[2] == cs@[a0 + 2]);
            assert(u[3] == cs@[a0 + 3]);
            assert(u[4] == cs@[a0 + 4]);
            assert(u[5] == cs@[a0 + 5]);
        }
        if len == 6 {
            if h0 < 16 && h1 < 16 && h2 < 16 && h3 < 16 && h4 < 16 && h5 < 16 {
                proof {
                    assert forall|i: int| 0 <= i < u.len() implies hval(#[trigger] u[i])
                        < 16 by {
                        assert(u[i] == cs@[a0 + i]);
                    }
                }
                Ok(Hex {
                    r: 16 * h0 + h1,
                    g: 16 * h2 + h3,
                    b: 16 * h4 + h5,
                    a: None,
                })
            } else {
                Err(ColorError::FormatErr(copy_str(s)))
            }
        } else {
            let h6: u32 = hval_exec(cs[a0 + 6]);
            let h7: u32 = hval_exec(cs[a0 + 7]);
            proof {
                assert(u[6] == cs@[a0 + 6]);
                assert(u[7] == cs@[a0 + 7]);
            }
            if h0 < 16 && h1 < 16 && h2 < 16 && h3 < 16 && h4 < 16 && h5 < 16 && h6 < 16 && h7
                < 16 {
                proof {
                    assert forall|i: int| 0 <= i < u.len() implies hval(#[trigger] u[i])
                        < 16 by {
                        assert(u[i] == cs@[a0 + i]);
                    }
                }
                Ok(Hex {
                    r: 16 * h0 + h1,
                    g: 16 * h2 + h3,
                    b: 16 * h4 + h5,
                    a: Some(16 * h6 + h7),
                })
            } else {
                Err(ColorError::FormatErr(copy_str(s)))
            }
        }
    }

    /// Renders the canonical lower-case form, `#` included; eight digits
    /// exactly where an alpha byte is present.
    pub fn render(&self) -> (out: String)
        ensures
            out@ == spec_render_hex(self@.0 as int, self@.1 as int, self@.2 as int, self@.3),
    {
        proof {
            use_type_invariant(self);
        }
        let mut out = String::new();
        out.append("#");
        push_hex_byte(&mut out, self.r);
        push_hex_byte(&mut out, self.g);
        push_hex_byte(&mut out, self.b);
        match self.a {
            Some(v) => {
                push_hex_byte(&mut out, v);
            },
            None => {},
        }
        proof {
            reveal_strlit("#");
            assert(out@ =~= spec_render_hex(
                self@.0 as int,
                self@.1 as int,
                self@.2 as int,
                self@.3,
            ));
        }
        out
    }

    /// The red channel.
    pub fn red(&self) -> (v: u32)
        ensures
            v == self@.0,
            v <= 255,
    {
        proof {
            use_type_invariant(self);
        }
        self.r
    }

    /// The green channel.
    pub fn green(&self) -> (v: u32)
        ensures
            v == self@.1,
            v <= 255,
    {
        proof {
            use_type_invariant(self);
        }
        self.g
    }

    /// The blue channel.
    pub fn blue(&self) -> (v: u32)
        ensures
            v == self@.2,
            v <= 255,
    {
        proof {
            use_type_invariant(self);
        }
        self.b
    }

    /// The alpha byte, where the color was built from an 8-digit form.
    pub fn alpha(&self) -> (v: Option<u32>)
        ensures
            v == self@.3,
            v matches Some(x) ==> x <= 255,
    {
        proof {
            use_type_invariant(self);
        }
        self.a
    }

    /// Converts to RGB, discarding alpha.
    pub fn to_rgb(&self) -> (c: RGB)
        ensures
            c@ == (self@.0, self@.1, self@.2),
    {
        proof {
            use_type_invariant(self);
        }
        RGB::from_channels(self.r, self.g, self.b)
    }

    /// Converts to RGBA: the channels are kept; an alpha byte becomes the
    /// nearest thousandths, ties up, and a missing one defaults to fully
    /// opaque.
    pub fn to_rgba(&self) -> (c: RGBA)
        ensures
            c@.0 == self@.0 && c@.1 == self@.1 && c@.2 == self@.2,
            c@.3 as int == (match self@.3 {
                Some(v) => mille_of_byte(v as int),
                None => 1000,
            }),
    {
        proof {
            use_type_invariant(self);
        }
        let am: u32 = match self.a {
            Some(v) => byte_to_mille(v),
            None => 1000,
        };
        RGBA::from_channels(self.r, self.g, self.b, am)
    }

    /// Converts to HSLA, routing through RGB; an alpha byte becomes the
    /// nearest thousandths, ties up, and a missing one defaults to fully
    /// opaque.
    pub fn to_hsla(&self) -> (c: HSLA)
        ensures
            ({
                let hsl = hsl_of_rgb(self@.0 as int, self@.1 as int, self@.2 as int);
                (c@.0 as int, c@.1 as int, c@.2 as int) == hsl
            }),
            c@.3 as int == (match self@.3 {
                Some(v) => mille_of_byte(v as int),
                None => 1000,
            }),
    {
        proof {
            use_type_invariant(self);
        }
        let am: u32 = match self.a {
            Some(v) => byte_to_mille(v),
            None => 1000,
        };
        let t = rgb_to_hsl(self.r, self.g, self.b);
        HSLA::from_channels(t.0, t.1, t.2, am)
    }

    /// Converts to HSL, routing through RGB (alpha is discarded).
    pub fn to_hsl(&self) -> (c: HSL)
        ensures
            (c@.0 as int, c@.1 as int, c@.2 as int) == hsl_of_rgb(
                self@.0 as int,
                self@.1 as int,
                self@.2 as int,
            ),
    {
        proof {
            use_type_invariant(self);
        }
        let t = rgb_to_hsl(self.r, self.g, self.b);
        HSL::from_channels(t.0, t.1, t.2)
    }

    /// Converts to HSV, routing through RGB (alpha is discarded).
    pub fn to_hsv(&self) -> (c: HSV)
        ensures
            (c@.0 as int, c@.1 as int, c@.2 as int) == hsv_of_rgb(
                self@.0 as int,
                self@.1 as int,
                self@.2 as int,
            ),
    {
        proof {
            use_type_invariant(self);
        }
        let t = rgb_to_hsv(self.r, self.g, self.b);
        HSV::from_channels(t.0, t.1, t.2)
    }

    /// Converts to CMYK, routing through RGB (alpha is discarded).
    pub fn to_cmyk(&self) -> (c: CMYK)
        ensures
            (c@.0 as int, c@.1 as int, c@.2 as int, c@.3 as int) == cmyk_of_rgb(
                self@.0 as int,
                self@.1 as int,
                self@.2 as int,
            ),
    {
        proof {
            use_type_invariant(self);
        }
        let t = rgb_to_cmyk(self.r, self.g, self.b);
        CMYK::from_channels(t.0, t.1, t.2, t.3)
    }
}

} // verus!
