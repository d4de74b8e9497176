use vstd::prelude::*;

verus! {

/// Every failure the library reports, as a typed value returned to the
/// caller; nothing is retried or recovered silently.
#[derive(Debug)]
pub enum AbiError {
    /// The interface description could not be read from its source.
    /// Produced only by an external loader; the encoder never returns it.
    ResourceUnavailable,
    /// The description's structure violates the expected shape: the declared
    /// parameter at a supplied argument's position is missing.
    MalformedDescription,
    /// No entry in the description matches the requested function name.
    FunctionNotFound(String),
    /// A supplied argument's canonical type differs from the declared
    /// parameter type at the same position.
    TypeMismatch { expected: String, found: String, position: usize },
    /// A raw byte slice handed to a value constructor exceeds the type's
    /// fixed width.
    OversizedInput,
}

} // verus!
