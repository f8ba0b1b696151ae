//! The declaration a derive macro is invoked on, as plain values.
use vstd::prelude::*;

verus! {

/// A value written after `=` inside an annotation.
#[derive(Clone, Debug, PartialEq, Eq)]
pub enum MetaValue {
    /// A string literal, holding its contents.
    Str(String),
    /// A path, such as `helper` or `crate::helper`.
    Path(String),
    /// Any other expression, as source text.
    Expr(String),
}

/// One item inside a list such as `from(A, B)` or `B(field = value)`.
#[derive(Clone, Debug, PartialEq, Eq)]
pub enum ListItem {
    /// A bare word, most often a type name.
    Word(String),
    /// `key = value`.
    Assign(String, MetaValue),
}

/// One item of an annotation's argument list.
#[derive(Clone, Debug, PartialEq, Eq)]
pub enum Meta {
    /// A bare word: `ignore`, or a type name inside a list.
    Word(String),
    /// `key = value`.
    Assign(String, MetaValue),
    /// `key(item, ...)`.
    List(String, Vec<ListItem>),
}

/// An annotation `#[name(args...)]`.
#[derive(Clone, Debug, PartialEq, Eq)]
pub struct Attribute {
    pub name: String,
    pub args: Vec<Meta>,
}

/// A field of a struct or of an enum variant.
#[derive(Clone, Debug, PartialEq, Eq)]
pub struct Field {
    /// The field's name; `None` for a positional field.
    pub name: Option<String>,
    /// The last segment of the field's type when that type is a path
    /// (`Vec` for `std::vec::Vec<u8>`); `None` for any other type.
    pub ty_name: Option<String>,
    pub attrs: Vec<Attribute>,
}

/// The fields of a struct or of an enum variant.
#[derive(Clone, Debug, PartialEq, Eq)]
pub enum Fields {
    Unit,
    Named(Vec<Field>),
    Unnamed(Vec<Field>),
}

/// A variant of an enum.
#[derive(Clone, Debug, PartialEq, Eq)]
pub struct Variant {
    pub name: String,
    pub fields: Fields,
    /// The explicit discriminant written as `= n`, if any.
    pub discriminant: Option<i128>,
    pub attrs: Vec<Attribute>,
}

/// What the declaration declares.
#[derive(Clone, Debug, PartialEq, Eq)]
pub enum Body {
    Struct(Fields),
    Enum(Vec<Variant>),
    Union,
}

/// A type declaration together with its annotations.
#[derive(Clone, Debug, PartialEq, Eq)]
pub struct DeriveInput {
    pub name: String,
    pub attrs: Vec<Attribute>,
    pub body: Body,
}

impl Meta {
    /// The key of the item: the word itself, or the name before `=` or `(`.
    pub open spec fn key(self) -> String {
        match self {
            Meta::Word(k) => k,
            Meta::Assign(k, _) => k,
            Meta::List(k, _) => k,
        }
    }

    pub fn key_ref(&self) -> (r: &String)
        ensures
            *r == self.key(),
    {
        match self {
            Meta::Word(k) => k,
            Meta::Assign(k, _) => k,
            Meta::List(k, _) => k,
        }
    }
}

impl MetaValue {
    pub fn duplicate(&self) -> (r: MetaValue)
        ensures
            r == *self,
    {
        match self {
            MetaValue::Str(s) => MetaValue::Str(s.clone()),
            MetaValue::Path(s) => MetaValue::Path(s.clone()),
            MetaValue::Expr(s) => MetaValue::Expr(s.clone()),
        }
    }
}

} // verus!
