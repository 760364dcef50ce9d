use vstd::prelude::*;

verus! {

/// The failure taxonomy of the stream operations.
///
/// An `Interrupted` read is a transient condition: no bytes were transferred
/// and the operation should be attempted again immediately. Every other
/// failure of the underlying stream is `Failed` and is fatal to the call
/// that observes it.
#[derive(Clone, Copy, Debug, PartialEq, Eq, Structural)]
pub enum IoError {
    Interrupted,
    Failed,
}

} // verus!
