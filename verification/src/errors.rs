use vstd::prelude::*;

verus! {

/// The ways a param-tree operation can fail.  Every failing precondition is
/// checked before any mutation, so a failed operation never leaves a node
/// partially updated.
#[derive(Clone, Copy, Debug, PartialEq, Eq, Structural)]
pub enum ParamError {
    /// The operation is not valid for the node's current variant.
    TypeKind,
    /// A list index was at or past the end of the list.
    IndexOutOfRange,
    /// No struct entry matches the given key.
    KeyNotFound,
    /// More than one struct entry matches the key of a keyed assignment.
    AmbiguousKey,
    /// Strict mode is on and the label is absent from the registry.
    UnresolvedLabel,
    /// A label source could not be parsed.
    Source,
}

impl ParamError {
    /// A short description of the failure.
    pub fn message(&self) -> (r: &'static str)
        ensures
            *self is TypeKind ==> r@ == "operation not valid for this param type"@,
            *self is IndexOutOfRange ==> r@ == "index out of bounds"@,
            *self is KeyNotFound ==> r@ == "hash not found in child params"@,
            *self is AmbiguousKey ==> r@ == "more than one match was found for this hash"@,
            *self is UnresolvedLabel ==> r@ == "label is not in the registry and strict conversion is on"@,
            *self is Source ==> r@ == "label source could not be parsed"@,
    {
        match self {
            ParamError::TypeKind => "operation not valid for this param type",
            ParamError::IndexOutOfRange => "index out of bounds",
            ParamError::KeyNotFound => "hash not found in child params",
            ParamError::AmbiguousKey => "more than one match was found for this hash",
            ParamError::UnresolvedLabel => "label is not in the registry and strict conversion is on",
            ParamError::Source => "label source could not be parsed",
        }
    }
}

} // verus!
