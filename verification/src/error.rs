//! The ways in which loading can fail once the text is at hand.

use vstd::prelude::*;

verus! {

/// Why a load did not produce a value.
#[derive(Clone, Copy, Debug, PartialEq, Eq, Structural)]
pub enum LoadError {
    /// The text is not well-formed in its own syntax.
    Parse,
    /// The text is well-formed but does not have the expected structure.
    Format,
}

} // verus!
