//! The layer's own error values. The surrounding process translates them
//! into the wrapped API's error codes.

use vstd::prelude::*;

verus! {

/// Why a layer operation was refused. No error is ever converted into a
/// successful result with substituted data.
#[derive(Clone, Copy, Debug, PartialEq, Eq, Structural)]
pub enum LayerError {
    /// A handle was not found in the registry: it was never created by this
    /// layer or was already destroyed.
    HandleInvalid,
    /// God action-set or god-state construction failed partway; the parent
    /// creation fails as a whole.
    BuildFailed,
    /// A session's action sets were already attached; attaching twice is not
    /// supported.
    ActionsetsAlreadyAttached,
    /// A freshly read state value does not match the kind of the cached cell
    /// it would overwrite.
    TypeMismatch,
}

} // verus!
