//! The types the surface syntax can name in annotations. Annotations are
//! parsed and carried as inert payload; nothing downstream consumes them
//! yet.

use vstd::prelude::*;

verus! {

/// A type as written in a source annotation.
#[derive(Clone, Debug, PartialEq, Eq)]
pub enum Type {
    ToInfer,
    Bool,
    Float,
    Integer,
    String,
    User(std::string::String),
    Char,
    Struct,
    Lambda,
    Void,
}

impl Default for Type {
    /// A type not yet written down is still to be inferred.
    fn default() -> (r: Self)
        ensures
            r is ToInfer,
    {
        Type::ToInfer
    }
}

} // verus!
