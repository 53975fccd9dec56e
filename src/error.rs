use vstd::prelude::*;

verus! {

/// Why an evaluation stopped. The first error aborts the whole call.
#[derive(Debug, Clone, Copy, PartialEq, Eq, Structural)]
pub enum Error {
    /// A division whose divisor was zero.
    DivisionByZero,
    /// An operator found fewer values on the stack than it needs.
    StackUnderflow,
    /// A token that is no number, operator, definition marker or visible word.
    UnknownWord,
    /// A malformed definition: no closing `;`, an empty body, or a name that
    /// starts with a digit.
    InvalidWord,
}

} // verus!
