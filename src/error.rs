//! Why a derive macro refused a declaration.
use vstd::prelude::*;

verus! {

/// A fatal, user-facing error: generation stops at the first one. Each
/// variant names what the user has to look at.
#[derive(Clone, Debug, PartialEq, Eq)]
pub enum DeriveError {
    /// The macro needs a struct with named fields.
    NotNamedStruct,
    /// The macro needs an enum.
    NotEnum,
    /// The enum declares no variant.
    NoVariants,
    /// A field of a struct with named fields has no name.
    UnnamedField,
    /// A keyword was given twice in one annotation scope.
    Duplicate { key: String },
    /// A keyword that this annotation does not know.
    Unrecognized { key: String },
    /// The keyword takes a string literal.
    ExpectedString { key: String },
    /// The keyword takes a path.
    ExpectedPath { key: String },
    /// A second one of `map`, `map_field` and `map_struct`.
    ConflictingMap { key: String },
    /// A type-level `convert` item other than `from(..)`, `into(..)` or `from_into(..)`.
    ExpectedDirection { key: String },
    /// An item of `from(..)`, `into(..)` or `from_into(..)` that is not a type name.
    ExpectedTypeName { key: String },
    /// `from()`, `into()` or `from_into()` without a type.
    EmptyTargetList { key: String },
    /// A direction list that does not stand first in a field annotation.
    TargetNotFirst { key: String },
    /// A field annotation `convert()` without arguments.
    EmptyArguments { field: String },
    /// The struct declares no conversion at all.
    NoConversions,
    /// A `generate` item that is not `Target(field = value, ...)`.
    MalformedGenerate { key: String },
    /// A field speaks of a conversion that the struct does not declare.
    MissingConversion { field: String, from: String, to: String },
    /// `generate` names a target that the struct does not convert into.
    MissingGenerateTarget { target: String },
    /// The enum has no integer representation annotation.
    MissingRepr,
    /// The representation annotation does not name one integer type.
    ExpectedReprType,
    /// A variant without explicit discriminant, and `implicit` was not given.
    MissingDiscriminant { variant: String },
    /// The discriminant that follows the previous one does not fit.
    DiscriminantOverflow { variant: String },
    /// A variant whose discriminant an earlier variant already has.
    DuplicateDiscriminant { variant: String },
    /// A second variant marked `default`.
    DuplicateDefault { variant: String },
    /// `rename_all` names no known case rule.
    InvalidCaseRule { rule: String },
    /// `nest` on a unit variant.
    NestUnitVariant { variant: String },
    /// `nest` on a variant without fields.
    NestNoFields { variant: String },
    /// `nest` on a variant with more than one field.
    NestMultipleFields { variant: String },
}

} // verus!
