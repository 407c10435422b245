//! The phases in which a conformance suite opens an authority.

use vstd::prelude::*;

verus! {

/// Which handle to an authority a suite asks for.
#[derive(Clone, Copy, Debug, PartialEq, Eq, Structural)]
pub enum ConformanceOpen {
    /// The first handle, to an authority that holds nothing yet.
    Fresh,
    /// A second handle, which sees the writes of the first.
    Concurrent,
    /// A handle taken after the earlier ones were given up.
    Reopen,
}

} // verus!
