use vstd::prelude::*;

verus! {

/// The fatal error taxonomy of the template system.
///
/// Everything here aborts the operation that raised it; the one
/// recoverable, caller-inspectable error lives in `ip::IPError`.
#[derive(Copy, Clone, Debug, PartialEq, Eq, Structural)]
pub enum ConfError {
    /// Malformed schema annotation, numeric bound, type tag or address text.
    ParseError,
    /// A supplied value fails its value kind's own check.
    ValidationError,
    /// A reference to a name absent from the schema, or a bad list path.
    KeyError,
    /// Compilation reached a required placeholder that is still unset.
    MissingValue,
}

} // verus!
