use vstd::prelude::*;

verus! {

/// What can go wrong in this library.
#[derive(Debug)]
pub enum Error {
    /// cql2-text that does not parse, with the input.
    InvalidCql2Text(String),
    /// cql2-json that does not describe an expression, with what was wrong.
    InvalidJson(String),
    /// An operator or constructor with the wrong number of arguments.
    InvalidNumberOfArguments { name: String, actual: usize, expected: usize },
    /// A named constructor (`date`, `timestamp`) without its argument.
    MissingArgument(String),
    /// A literal that is no number.
    ParseNumber(String),
    /// A literal that is no boolean.
    ParseBool(String),
    /// A text that is no timestamp.
    ParseTimestamp(String),
    /// An expression that cannot stand where a value of another kind is needed.
    Coercion(String),
    /// An operator that the target does not know.
    OpNotImplemented(String),
    /// `matches` on an expression that did not reduce to a boolean.
    NonReduced,
    /// An operation that could not be carried out, such as an unusable name mapping.
    OperationError,
    /// A file that could not be read, with the reason.
    Io(String),
}

} // verus!
