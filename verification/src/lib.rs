//! Color-model conversion library.
//!
//! Colors are represented in several standard encodings — RGB, RGBA, HSL,
//! HSLA, HSV, CMYK and hexadecimal string form — with validated integer
//! channels, bidirectional conversion between every pair (RGB is the pivot),
//! parsing from and formatting to each type's canonical textual form, and a
//! few cosmetic mutators (lighten, darken, rotate hue, channel setters).
//!
//! All channel arithmetic is exact integer arithmetic; fractional results
//! are rounded to the nearest representable value at each boundary, with the
//! tie-breaking direction fixed per conversion and stated in its contract.

mod cmyk;
mod error;
mod hex;
mod hsl;
mod hsla;
mod hsv;
pub mod laws;
pub mod math;
mod rgb;
mod rgba;
pub mod text;

pub use cmyk::{spec_parse_cmyk, spec_render_cmyk, CMYK};
pub use error::ColorError;
pub use hex::{spec_parse_hex, spec_render_hex, Hex};
pub use hsl::{spec_parse_hsl, spec_render_hsl, HSL};
pub use hsla::{spec_parse_hsla, spec_render_hsla, HSLA};
pub use hsv::{spec_parse_hsv, spec_render_hsv, HSV};
pub use rgb::{spec_parse_rgb, spec_render_rgb, RGB};
pub use rgba::{spec_parse_rgba, spec_render_rgba, RGBA};
