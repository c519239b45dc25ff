use vstd::prelude::*;

verus! {

/// What went wrong, as far as the callers of the library need to tell.
#[derive(Debug, Clone, Copy, PartialEq, Eq, Structural)]
pub enum ErrorKind {
    /// Malformed input or an input whose parts do not fit together.
    InvalidStructure,
    /// A search handle that is not open.
    InvalidHandle,
    /// An identifier that is already taken in the store.
    ItemAlreadyExists,
    /// An identifier that the store does not hold.
    ItemNotFound,
    /// A link secret with that name already exists.
    MasterSecretDuplicateName,
    /// No link secret with that name exists.
    MasterSecretNotFound,
    /// A revocable credential came without its revocation registry definition.
    RevocationRegistryNotFound,
    /// A timestamp that no revocation state is known for.
    InvalidUserRevocId,
    /// The credentials cannot satisfy what the proof request asks.
    ProofRejected,
    /// The process has given out every search handle it can.
    InvalidState,
}

} // verus!
