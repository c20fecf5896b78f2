use vstd::prelude::*;

verus! {

/// Why a table could not be decoded.
#[derive(Debug, Clone, Copy, PartialEq, Eq, Structural)]
pub enum Error {
    /// The buffer ends inside a declared field, or holds a format that is not known.
    MalformedTable,
}

} // verus!
