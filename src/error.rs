use vstd::prelude::*;

verus! {

/// Why a decode or encode call failed.
#[derive(Clone, Copy, Debug, PartialEq, Eq, Structural)]
pub enum NtrError {
    /// The input breaks the format's structure: a wrong tag or fixed constant,
    /// too few bytes, or a derived field that disagrees with the rest.
    Malformed,
    /// A field holds a value outside the set that the format allows.
    Unsupported,
    /// The in-memory value breaks a size or alignment rule of the format.
    Precondition,
}

} // verus!
