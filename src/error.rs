use vstd::prelude::*;

verus! {

/// The ways an operation on a circuit can fail. Every failing operation
/// leaves the circuit exactly as it was.
#[derive(Clone, Copy, Debug, PartialEq, Eq, Structural)]
pub enum CircuitError {
    /// A path or index does not resolve to a node.
    NotFound,
    /// The operation reaches a poisoned leaf, or would break the nesting rules.
    InvalidTopology,
    /// A numeric parameter was set on a node that has none.
    TypeMismatch,
    /// A generator index is past the end of the generator.
    IndexOutOfRange,
    /// The shared circuit state was left inconsistent by an earlier failure.
    CorruptedState,
    /// An exact intermediate value does not fit the machine integers.
    Overflow,
}

} // verus!
