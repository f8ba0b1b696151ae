//! The engine behind a family of derive macros: bidirectional conversions
//! between record types, conversions between an enum and its integer
//! representation, and stable names for enum variants.
//!
//! The engine works on a plain model of an already-parsed type declaration
//! (`model`) and produces a plain description of the code to generate.
//! Turning tokens into the model and the description back into tokens is left
//! to the macro plumbing around it.
pub mod text;

pub mod model;
pub mod error;
pub mod convert;
pub mod enum_repr;
pub mod names;
pub mod enum_array;
pub mod vec_into;

pub use model::{Attribute, Body, DeriveInput, Field, Fields, ListItem, Meta, MetaValue, Variant};
pub use error::DeriveError;
pub use text::{decimal, unraw, CaseRule};
pub use convert::{derive_convert, Conversion, ConversionImpl, FieldArg, FieldInit, FieldMap, FieldValue, GenerateArg, Strategy};
pub use enum_repr::{derive_enum_repr, EnumRepr, ReprEntry, ReprOptions, ReprPlan, TryFromEnumReprError};
pub use names::{derive_enum_name, derive_variant_name, EnumName, NameArm, NameOptions, NamePlan, VariantName};
pub use enum_array::{derive_enum_array, ArrayPlan};
pub use vec_into::{convert_all, VecInto};
