use vstd::prelude::*;

verus! {

/// The one error type shared by every parsing and construction entry point.
///
/// Mutators and pure conversions never fail; only parsers and validating
/// constructors return an error, and always one of these two kinds.
#[derive(Debug, Clone, PartialEq, Eq)]
pub enum ColorError {
    /// The input string does not match the expected textual grammar
    /// (wrong prefix or suffix, wrong field count, non-numeric field).
    /// Carries the offending input.
    FormatErr(String),
    /// The input fields parse numerically but fall outside the valid range
    /// for that channel. Carries a rendering of the offending values.
    ValueErr(String),
}

} // verus!
