//! The error categories that callers of the store can observe.

use vstd::prelude::*;

verus! {

/// A storage fault.
///
/// The operation failed in a way that leaves the store untrustworthy; the
/// cause has been reported where it happened.
#[derive(Clone, Copy, Debug, PartialEq, Eq, Structural)]
pub struct Failed;

/// Why an update of a publication point did not happen.
#[derive(Clone, Copy, Debug, PartialEq, Eq, Structural)]
pub enum UpdateError {
    /// The caller rejected the new data; the old point stays as it was.
    Abort,
    /// A storage fault.
    Fatal,
}

impl From<Failed> for UpdateError {
    fn from(_f: Failed) -> (r: UpdateError)
        ensures
            r == UpdateError::Fatal,
    {
        UpdateError::Fatal
    }
}

impl vstd::std_specs::convert::FromSpecImpl<Failed> for UpdateError {
    open spec fn obeys_from_spec() -> bool {
        true
    }

    open spec fn from_spec(_f: Failed) -> UpdateError {
        UpdateError::Fatal
    }
}

} // verus!
