//! A structural model of declared field types, as far as the synthesis reads
//! them: whether a type is the optional wrapper around one inner type.

use vstd::prelude::*;

verus! {

/// A declared type.
#[derive(Debug, PartialEq, Eq)]
pub enum TypeExpr {
    /// A path type such as `u8`, `Vec<String>` or `std::option::Option<u8>`.
    Path {
        /// The type as it was written. Carried along, never looked into.
        source: String,
        /// The segments of the path, in order.
        segments: Vec<PathSegment>,
    },
    /// Any other type: a reference, a tuple, an array and so on.
    Other {
        /// The type as it was written. Carried along, never looked into.
        source: String,
    },
}

/// One segment of a path type: `Option<u8>` in `std::option::Option<u8>`.
#[derive(Debug, PartialEq, Eq)]
pub struct PathSegment {
    /// The identifier of the segment, without its arguments.
    pub ident: String,
    /// What follows the identifier.
    pub arguments: PathArguments,
}

/// The arguments of a path segment.
#[derive(Debug, PartialEq, Eq)]
pub enum PathArguments {
    /// No arguments, as in `u8`.
    Absent,
    /// Arguments in angle brackets, as in `Option<u8>`.
    AngleBracketed { args: Vec<GenericArgument> },
    /// Arguments in round brackets, as in `Fn(u8) -> u8`.
    Parenthesized,
}

/// One argument between angle brackets.
#[derive(Debug, PartialEq, Eq)]
pub enum GenericArgument {
    /// A type, as the `u8` in `Option<u8>`.
    Type(TypeExpr),
    /// A lifetime, a constant or a binding.
    Other,
}

/// The single type argument of a segment, if that is all the segment is
/// applied to.
pub open spec fn sole_type_argument(arguments: PathArguments) -> Option<TypeExpr> {
    match arguments {
        PathArguments::AngleBracketed { args } => if args@.len() == 1 {
            match args@[0] {
                GenericArgument::Type(inner) => Some(inner),
                GenericArgument::Other => None,
            }
        } else {
            None
        },
        _ => None,
    }
}

/// The type inside the optional wrapper, when `ty` is the wrapper applied to
/// exactly one type: a path that ends in the segment `Option` with one type
/// between its angle brackets. One layer is peeled: for
/// `Option<Option<u8>>` the result is `Option<u8>`.
pub open spec fn option_inner(ty: TypeExpr) -> Option<TypeExpr> {
    match ty {
        TypeExpr::Path { segments, .. } => {
            if segments@.len() > 0 && segments@.last().ident@ == "Option"@ {
                sole_type_argument(segments@.last().arguments)
            } else {
                None
            }
        },
        TypeExpr::Other { .. } => None,
    }
}

/// Whether a field of this declared type may be left unset.
pub open spec fn is_optional(ty: TypeExpr) -> bool {
    option_inner(ty) is Some
}

/// The type that a setter accepts for a field declared as `ty`.
pub open spec fn effective_type(ty: TypeExpr) -> TypeExpr {
    match option_inner(ty) {
        Some(inner) => inner,
        None => ty,
    }
}

/// Peels one layer of the optional wrapper off a declared type.
///
/// The wrapper is recognised by shape alone: the type must be a path whose
/// last segment is named `Option` and is applied to exactly one type. A
/// path that merely passes through such a segment is no wrapper.
pub fn extract_from_option_type(ty: &TypeExpr) -> (inner: Option<&TypeExpr>)
    ensures
        match inner {
            Some(t) => option_inner(*ty) == Some(*t),
            None => option_inner(*ty) is None,
        },
{
    match ty {
        TypeExpr::Path { segments, .. } => {
            if segments.len() == 0 {
                return None;
            }
            let last = &segments[segments.len() - 1];
            if last.ident != String::from_str("Option") {
                return None;
            }
            match &last.arguments {
                PathArguments::AngleBracketed { args } => {
                    if args.len() != 1 {
                        return None;
                    }
                    match &args[0] {
                        GenericArgument::Type(inner) => Some(inner),
                        GenericArgument::Other => None,
                    }
                },
                _ => None,
            }
        },
        TypeExpr::Other { .. } => None,
    }
}

} // verus!
