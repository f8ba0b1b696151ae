//! The variant-name generator: a `&'static str` for each variant of an enum,
//! derived from its name or given outright, or taken from the one value the
//! variant holds.
use crate::error::DeriveError;
use crate::model::{Attribute, Body, DeriveInput, Field, Fields, Meta, MetaValue, Variant};
use crate::text::{cased, dup_opt_string, same_text, to_case, unraw, unraw_of, CaseRule};
use vstd::prelude::*;

verus! {

/// A value with a static name, given by `#[derive(VariantName)]`.
pub trait VariantName {
    fn variant_name(&self) -> &'static str;
}

/// A value with a static name, given by `#[derive(EnumName)]`.
pub trait EnumName {
    fn enum_name(&self) -> &'static str;
}

/// The type-level options of the generator.
#[derive(Clone, Debug, PartialEq, Eq)]
pub struct NameOptions {
    pub rename_all: Option<CaseRule>,
    pub prefix: Option<String>,
    pub suffix: Option<String>,
    /// Emit a plain `const fn` instead of implementing the lookup trait.
    pub without_trait: bool,
}

pub open spec fn no_name_options() -> NameOptions {
    NameOptions { rename_all: None, prefix: None, suffix: None, without_trait: false }
}

/// One item of a type-level annotation.
pub open spec fn type_step(o: NameOptions, m: Meta) -> Result<NameOptions, DeriveError> {
    match m {
        Meta::Assign(k, v) => if k@ == "rename_all"@ {
            if o.rename_all is Some {
                Err(DeriveError::Duplicate { key: k })
            } else {
                match v {
                    MetaValue::Str(s) => match CaseRule::spec_from_name(s@) {
                        Some(rule) => Ok(NameOptions { rename_all: Some(rule), ..o }),
                        None => Err(DeriveError::InvalidCaseRule { rule: s }),
                    },
                    _ => Err(DeriveError::ExpectedString { key: k }),
                }
            }
        } else if k@ == "prefix"@ {
            if o.prefix is Some {
                Err(DeriveError::Duplicate { key: k })
            } else {
                match v {
                    MetaValue::Str(s) => Ok(NameOptions { prefix: Some(s), ..o }),
                    _ => Err(DeriveError::ExpectedString { key: k }),
                }
            }
        } else if k@ == "suffix"@ {
            if o.suffix is Some {
                Err(DeriveError::Duplicate { key: k })
            } else {
                match v {
                    MetaValue::Str(s) => Ok(NameOptions { suffix: Some(s), ..o }),
                    _ => Err(DeriveError::ExpectedString { key: k }),
                }
            }
        } else {
            Err(DeriveError::Unrecognized { key: k })
        },
        Meta::Word(k) => if k@ == "without_trait"@ {
            if o.without_trait {
                Err(DeriveError::Duplicate { key: k })
            } else {
                Ok(NameOptions { without_trait: true, ..o })
            }
        } else {
            Err(DeriveError::Unrecognized { key: k })
        },
        Meta::List(k, _) => Err(DeriveError::Unrecognized { key: k }),
    }
}

/// The items of the type-level annotations named `attr`, read from the front.
pub open spec fn type_options(o: NameOptions, attrs: Seq<Attribute>, attr: Seq<char>) -> Result<
    NameOptions,
    DeriveError,
>
    decreases attrs.len(),
{
    if attrs.len() == 0 {
        Ok(o)
    } else {
        let next = if attrs[0].name@ == attr {
            type_items(o, attrs[0].args@)
        } else {
            Ok(o)
        };
        match next {
            Err(e) => Err(e),
            Ok(p) => type_options(p, attrs.subrange(1, attrs.len() as int), attr),
        }
    }
}

pub open spec fn type_items(o: NameOptions, ms: Seq<Meta>) -> Result<NameOptions, DeriveError>
    decreases ms.len(),
{
    if ms.len() == 0 {
        Ok(o)
    } else {
        match type_step(o, ms[0]) {
            Err(e) => Err(e),
            Ok(p) => type_items(p, ms.subrange(1, ms.len() as int)),
        }
    }
}

fn apply_type_item(o: NameOptions, m: &Meta) -> (r: Result<NameOptions, DeriveError>)
    ensures
        r == type_step(o, *m),
{
    match m {
        Meta::Assign(k, v) => {
            if same_text(k, "rename_all") {
                if o.rename_all.is_some() {
                    return Err(DeriveError::Duplicate { key: k.clone() });
                }
                match v {
                    MetaValue::Str(s) => match CaseRule::from_name(s) {
                        Some(rule) => Ok(NameOptions { rename_all: Some(rule), ..o }),
                        None => Err(DeriveError::InvalidCaseRule { rule: s.clone() }),
                    },
                    _ => Err(DeriveError::ExpectedString { key: k.clone() }),
                }
            } else if same_text(k, "prefix") {
                if o.prefix.is_some() {
                    return Err(DeriveError::Duplicate { key: k.clone() });
                }
                match v {
                    MetaValue::Str(s) => Ok(NameOptions { prefix: Some(s.clone()), ..o }),
                    _ => Err(DeriveError::ExpectedString { key: k.clone() }),
                }
            } else if same_text(k, "suffix") {
                if o.suffix.is_some() {
                    return Err(DeriveError::Duplicate { key: k.clone() });
                }
                match v {
                    MetaValue::Str(s) => Ok(NameOptions { suffix: Some(s.clone()), ..o }),
                    _ => Err(DeriveError::ExpectedString { key: k.clone() }),
                }
            } else {
                Err(DeriveError::Unrecognized { key: k.clone() })
            }
        },
        Meta::Word(k) => {
            if same_text(k, "without_trait") {
                if o.without_trait {
                    Err(DeriveError::Duplicate { key: k.clone() })
                } else {
                    Ok(NameOptions { without_trait: true, ..o })
                }
            } else {
                Err(DeriveError::Unrecognized { key: k.clone() })
            }
        },
        Meta::List(k, _) => Err(DeriveError::Unrecognized { key: k.clone() }),
    }
}

fn read_type_items(o: NameOptions, ms: &Vec<Meta>) -> (r: Result<NameOptions, DeriveError>)
    ensures
        r == type_items(o, ms@),
{
    let mut acc = o;
    let mut i: usize = 0;
    assert(ms@.subrange(0, ms@.len() as int) =~= ms@);
    while i < ms.len()
        invariant
            i <= ms@.len(),
            type_items(acc, ms@.subrange(i as int, ms@.len() as int)) == type_items(o, ms@),
        decreases ms@.len() - i,
    {
        let ghost rest = ms@.subrange(i as int, ms@.len() as int);
        assert(rest.subrange(1, rest.len() as int) =~= ms@.subrange(i + 1, ms@.len() as int));
        assert(rest[0] == ms@[i as int]);
        match apply_type_item(acc, &ms[i]) {
            Err(e) => {
                return Err(e);
            },
            Ok(p) => {
                acc = p;
            },
        }
        i = i + 1;
    }
    assert(ms@.subrange(i as int, ms@.len() as int).len() == 0);
    Ok(acc)
}

fn read_type_options(attrs: &Vec<Attribute>, attr: &str) -> (r: Result<NameOptions, DeriveError>)
    ensures
        r == type_options(no_name_options(), attrs@, attr@),
{
    let mut acc = NameOptions { rename_all: None, prefix: None, suffix: None, without_trait: false };
    let mut i: usize = 0;
    assert(attrs@.subrange(0, attrs@.len() as int) =~= attrs@);
    while i < attrs.len()
        invariant
            i <= attrs@.len(),
            type_options(acc, attrs@.subrange(i as int, attrs@.len() as int), attr@)
                == type_options(no_name_options(), attrs@, attr@),
        decreases attrs@.len() - i,
    {
        let ghost rest = attrs@.subrange(i as int, attrs@.len() as int);
        assert(rest.subrange(1, rest.len() as int) =~= attrs@.subrange(
            i + 1,
            attrs@.len() as int,
        ));
        assert(rest[0] == attrs@[i as int]);
        if same_text(&attrs[i].name, attr) {
            match read_type_items(acc, &attrs[i].args) {
                Err(e) => {
                    return Err(e);
                },
                Ok(p) => {
                    acc = p;
                },
            }
        }
        i = i + 1;
    }
    assert(attrs@.subrange(i as int, attrs@.len() as int).len() == 0);
    Ok(acc)
}

/// One item of a variant's annotation, on the explicit name and the `nest` flag so far.
pub open spec fn variant_step(st: (Option<String>, bool), m: Meta) -> Result<
    (Option<String>, bool),
    DeriveError,
> {
    match m {
        Meta::Assign(k, v) => if k@ == "rename"@ {
            if st.0 is Some {
                Err(DeriveError::Duplicate { key: k })
            } else {
                match v {
                    MetaValue::Str(s) => Ok((Some(s), st.1)),
                    _ => Err(DeriveError::ExpectedString { key: k }),
                }
            }
        } else {
            Err(DeriveError::Unrecognized { key: k })
        },
        Meta::Word(k) => if k@ == "nest"@ {
            if st.1 {
                Err(DeriveError::Duplicate { key: k })
            } else {
                Ok((st.0, true))
            }
        } else {
            Err(DeriveError::Unrecognized { key: k })
        },
        Meta::List(k, _) => Err(DeriveError::Unrecognized { key: k }),
    }
}

pub open spec fn variant_items(st: (Option<String>, bool), ms: Seq<Meta>) -> Result<
    (Option<String>, bool),
    DeriveError,
>
    decreases ms.len(),
{
    if ms.len() == 0 {
        Ok(st)
    } else {
        match variant_step(st, ms[0]) {
            Err(e) => Err(e),
            Ok(p) => variant_items(p, ms.subrange(1, ms.len() as int)),
        }
    }
}

/// The explicit name and the `nest` flag that a variant's annotations named `attr` give.
pub open spec fn variant_options(
    st: (Option<String>, bool),
    attrs: Seq<Attribute>,
    attr: Seq<char>,
) -> Result<(Option<String>, bool), DeriveError>
    decreases attrs.len(),
{
    if attrs.len() == 0 {
        Ok(st)
    } else {
        let next = if attrs[0].name@ == attr {
            variant_items(st, attrs[0].args@)
        } else {
            Ok(st)
        };
        match next {
            Err(e) => Err(e),
            Ok(p) => variant_options(p, attrs.subrange(1, attrs.len() as int), attr),
        }
    }
}

fn read_variant_items(st: (Option<String>, bool), ms: &Vec<Meta>) -> (r: Result<
    (Option<String>, bool),
    DeriveError,
>)
    ensures
        r == variant_items(st, ms@),
{
    let mut acc = st;
    let mut i: usize = 0;
    assert(ms@.subrange(0, ms@.len() as int) =~= ms@);
    while i < ms.len()
        invariant
            i <= ms@.len(),
            variant_items(acc, ms@.subrange(i as int, ms@.len() as int)) == variant_items(st, ms@),
        decreases ms@.len() - i,
    {
        let ghost rest = ms@.subrange(i as int, ms@.len() as int);
        assert(rest.subrange(1, rest.len() as int) =~= ms@.subrange(i + 1, ms@.len() as int));
        assert(rest[0] == ms@[i as int]);
        match &ms[i] {
            Meta::Assign(k, v) => {
                if same_text(k, "rename") {
                    if acc.0.is_some() {
                        return Err(DeriveError::Duplicate { key: k.clone() });
                    }
                    match v {
                        MetaValue::Str(s) => {
                            acc = (Some(s.clone()), acc.1);
                        },
                        _ => {
                            return Err(DeriveError::ExpectedString { key: k.clone() });
                        },
                    }
                } else {
                    return Err(DeriveError::Unrecognized { key: k.clone() });
                }
            },
            Meta::Word(k) => {
                if same_text(k, "nest") {
                    if acc.1 {
                        return Err(DeriveError::Duplicate { key: k.clone() });
                    }
                    acc = (acc.0, true);
                } else {
                    return Err(DeriveError::Unrecognized { key: k.clone() });
                }
            },
            Meta::List(k, _) => {
                return Err(DeriveError::Unrecognized { key: k.clone() });
            },
        }
        i = i + 1;
    }
    assert(ms@.subrange(i as int, ms@.len() as int).len() == 0);
    Ok(acc)
}

fn read_variant_options(attrs: &Vec<Attribute>, attr: &str) -> (r: Result<
    (Option<String>, bool),
    DeriveError,
>)
    ensures
        r == variant_options((None, false), attrs@, attr@),
{
    let mut acc: (Option<String>, bool) = (None, false);
    let mut i: usize = 0;
    assert(attrs@.subrange(0, attrs@.len() as int) =~= attrs@);
    while i < attrs.len()
        invariant
            i <= attrs@.len(),
            variant_options(acc, attrs@.subrange(i as int, attrs@.len() as int), attr@)
                == variant_options((None, false), attrs@, attr@),
        decreases attrs@.len() - i,
    {
        let ghost rest = attrs@.subrange(i as int, attrs@.len() as int);
        assert(rest.subrange(1, rest.len() as int) =~= attrs@.subrange(
            i + 1,
            attrs@.len() as int,
        ));
        assert(rest[0] == attrs@[i as int]);
        if same_text(&attrs[i].name, attr) {
            match read_variant_items(acc, &attrs[i].args) {
                Err(e) => {
                    return Err(e);
                },
                Ok(p) => {
                    acc = p;
                },
            }
        }
        i = i + 1;
    }
    assert(attrs@.subrange(i as int, attrs@.len() as int).len() == 0);
    Ok(acc)
}

/// The name of a variant without an explicit one: its identifier without
/// `r#`, rewritten by the case rule if there is one, then prefixed and suffixed.
pub open spec fn derived_name(o: NameOptions, ident: Seq<char>) -> Seq<char> {
    let base = unraw_of(ident);
    let body = match o.rename_all {
        Some(rule) => cased(rule, base),
        None => base,
    };
    let pre = match o.prefix {
        Some(p) => p@,
        None => Seq::<char>::empty(),
    };
    let suf = match o.suffix {
        Some(s) => s@,
        None => Seq::<char>::empty(),
    };
    pre + body + suf
}

/// The name of a variant: the explicit one if given, else the derived one.
pub open spec fn name_of(o: NameOptions, ident: Seq<char>, rename: Option<String>) -> Seq<char> {
    match rename {
        Some(r) => r@,
        None => derived_name(o, ident),
    }
}

/// Computes the name of a variant, as `name_of` states it.
pub fn display_name(o: &NameOptions, ident: &String, rename: &Option<String>) -> (r: String)
    ensures
        r@ == name_of(*o, ident@, *rename),
{
    match rename {
        Some(r) => r.clone(),
        None => {
            let base = unraw(ident);
            let body = match o.rename_all {
                Some(rule) => to_case(&base, rule),
                None => base,
            };
            let mut out = String::new();
            if let Some(p) = &o.prefix {
                out.append(p.as_str());
            }
            out.append(body.as_str());
            if let Some(s) = &o.suffix {
                out.append(s.as_str());
            }
            assert(out@ =~= derived_name(*o, ident@));
            out
        },
    }
}

/// One arm of the generated name lookup.
#[derive(Clone, Debug, PartialEq, Eq)]
pub enum NameArm {
    /// The variant's name, as a literal.
    Name(String),
    /// The name that the variant's one field gives, through the same lookup;
    /// `field` is that field's name, `None` when it is positional.
    Nest { field: Option<String> },
}

pub enum ArmModel {
    Name(Seq<char>),
    Nest { field: Option<String> },
}

impl View for NameArm {
    type V = ArmModel;

    open spec fn view(&self) -> ArmModel {
        match self {
            NameArm::Name(s) => ArmModel::Name(s@),
            NameArm::Nest { field } => ArmModel::Nest { field: *field },
        }
    }
}

/// The arm that a variant gets.
pub open spec fn arm_of(o: NameOptions, v: Variant, attr: Seq<char>) -> Result<
    ArmModel,
    DeriveError,
> {
    match variant_options((None, false), v.attrs@, attr) {
        Err(e) => Err(e),
        Ok(st) => if st.1 {
            match v.fields {
                Fields::Unit => Err(DeriveError::NestUnitVariant { variant: v.name }),
                Fields::Named(fs) => nest_arm(fs@, v.name),
                Fields::Unnamed(fs) => nest_arm(fs@, v.name),
            }
        } else {
            Ok(ArmModel::Name(name_of(o, v.name@, st.0)))
        },
    }
}

pub open spec fn nest_arm(fs: Seq<Field>, variant: String) -> Result<ArmModel, DeriveError> {
    if fs.len() == 0 {
        Err(DeriveError::NestNoFields { variant })
    } else if fs.len() > 1 {
        Err(DeriveError::NestMultipleFields { variant })
    } else {
        Ok(ArmModel::Nest { field: fs[0].name })
    }
}

/// The arms of the variants, in declaration order.
pub open spec fn arms_of(acc: Seq<ArmModel>, vs: Seq<Variant>, o: NameOptions, attr: Seq<char>) -> Result<
    Seq<ArmModel>,
    DeriveError,
>
    decreases vs.len(),
{
    if vs.len() == 0 {
        Ok(acc)
    } else {
        match arm_of(o, vs[0], attr) {
            Err(e) => Err(e),
            Ok(a) => arms_of(acc.push(a), vs.subrange(1, vs.len() as int), o, attr),
        }
    }
}

/// The name lookup to generate: one arm per variant, in declaration order.
#[derive(Clone, Debug, PartialEq, Eq)]
pub struct NamePlan {
    pub without_trait: bool,
    pub arms: Vec<NameArm>,
}

/// What the name generator reading the annotations named `attr` makes of a declaration.
pub open spec fn names_spec(d: DeriveInput, attr: Seq<char>) -> Result<
    (bool, Seq<ArmModel>),
    DeriveError,
> {
    match d.body {
        Body::Enum(vs) => match type_options(no_name_options(), d.attrs@, attr) {
            Err(e) => Err(e),
            Ok(o) => match arms_of(seq![], vs@, o, attr) {
                Err(e) => Err(e),
                Ok(arms) => Ok((o.without_trait, arms)),
            },
        },
        _ => Err(DeriveError::NotEnum),
    }
}

fn nest_field(fs: &Vec<Field>, variant: &String) -> (r: Result<NameArm, DeriveError>)
    ensures
        match nest_arm(fs@, *variant) {
            Ok(a) => r is Ok && r->Ok_0@ == a,
            Err(e) => r == Err::<NameArm, DeriveError>(e),
        },
{
    if fs.len() == 0 {
        Err(DeriveError::NestNoFields { variant: variant.clone() })
    } else if fs.len() > 1 {
        Err(DeriveError::NestMultipleFields { variant: variant.clone() })
    } else {
        Ok(NameArm::Nest { field: dup_opt_string(&fs[0].name) })
    }
}

fn variant_arm(o: &NameOptions, v: &Variant, attr: &str) -> (r: Result<NameArm, DeriveError>)
    ensures
        match arm_of(*o, *v, attr@) {
            Ok(a) => r is Ok && r->Ok_0@ == a,
            Err(e) => r == Err::<NameArm, DeriveError>(e),
        },
{
    let (rename, nest) = match read_variant_options(&v.attrs, attr) {
        Err(e) => {
            return Err(e);
        },
        Ok(st) => st,
    };
    if nest {
        match &v.fields {
            Fields::Unit => Err(DeriveError::NestUnitVariant { variant: v.name.clone() }),
            Fields::Named(fs) => nest_field(fs, &v.name),
            Fields::Unnamed(fs) => nest_field(fs, &v.name),
        }
    } else {
        Ok(NameArm::Name(display_name(o, &v.name, &rename)))
    }
}

fn derive_names(input: &DeriveInput, attr: &str) -> (r: Result<NamePlan, DeriveError>)
    ensures
        match names_spec(*input, attr@) {
            Ok(p) => r is Ok && r->Ok_0.without_trait == p.0 && r->Ok_0.arms@.map_values(
                |a: NameArm| a@,
            ) == p.1,
            Err(e) => r == Err::<NamePlan, DeriveError>(e),
        },
{
    let vs = match &input.body {
        Body::Enum(vs) => vs,
        _ => {
            return Err(DeriveError::NotEnum);
        },
    };
    let o = match read_type_options(&input.attrs, attr) {
        Err(e) => {
            return Err(e);
        },
        Ok(o) => o,
    };
    let mut arms: Vec<NameArm> = Vec::new();
    let mut i: usize = 0;
    assert(vs@.subrange(0, vs@.len() as int) =~= vs@);
    assert(arms@.map_values(|a: NameArm| a@) =~= seq![]);
    while i < vs.len()
        invariant
            i <= vs@.len(),
            input.body == Body::Enum(*vs),
            type_options(no_name_options(), input.attrs@, attr@) == Ok::<
                NameOptions,
                DeriveError,
            >(o),
            arms_of(arms@.map_values(|a: NameArm| a@), vs@.subrange(i as int, vs@.len() as int), o, attr@)
                == arms_of(seq![], vs@, o, attr@),
        decreases vs@.len() - i,
    {
        let ghost rest = vs@.subrange(i as int, vs@.len() as int);
        assert(rest.subrange(1, rest.len() as int) =~= vs@.subrange(i + 1, vs@.len() as int));
        assert(rest[0] == vs@[i as int]);
        let ghost before = arms@.map_values(|a: NameArm| a@);
        match variant_arm(&o, &vs[i], attr) {
            Err(e) => {
                return Err(e);
            },
            Ok(a) => {
                arms.push(a);
                assert(arms@.map_values(|a: NameArm| a@) =~= before.push(arms@.last()@));
            },
        }
        i = i + 1;
    }
    assert(vs@.subrange(i as int, vs@.len() as int).len() == 0);
    Ok(NamePlan { without_trait: o.without_trait, arms })
}

/// Derives the `enum_name` lookup from the `enum_name` annotations.
pub fn derive_enum_name(input: &DeriveInput) -> (r: Result<NamePlan, DeriveError>)
    ensures
        match names_spec(*input, "enum_name"@) {
            Ok(p) => r is Ok && r->Ok_0.without_trait == p.0 && r->Ok_0.arms@.map_values(
                |a: NameArm| a@,
            ) == p.1,
            Err(e) => r == Err::<NamePlan, DeriveError>(e),
        },
{
    derive_names(input, "enum_name")
}

/// Derives the `variant_name` lookup from the `variant_name` annotations.
pub fn derive_variant_name(input: &DeriveInput) -> (r: Result<NamePlan, DeriveError>)
    ensures
        match names_spec(*input, "variant_name"@) {
            Ok(p) => r is Ok && r->Ok_0.without_trait == p.0 && r->Ok_0.arms@.map_values(
                |a: NameArm| a@,
            ) == p.1,
            Err(e) => r == Err::<NamePlan, DeriveError>(e),
        },
{
    derive_names(input, "variant_name")
}

proof fn lemma_arms_of(acc: Seq<ArmModel>, vs: Seq<Variant>, o: NameOptions, attr: Seq<char>)
    ensures
        arms_of(acc, vs, o, attr) matches Ok(arms) ==> arms.len() == acc.len() + vs.len() && (
        forall|k: int| 0 <= k < acc.len() ==> arms[k] == acc[k]) && (forall|k: int|
            0 <= k < vs.len() ==> arm_of(o, #[trigger] vs[k], attr) == Ok::<ArmModel, DeriveError>(
                arms[acc.len() + k],
            )),
    decreases vs.len(),
{
    if vs.len() > 0 {
        match arm_of(o, vs[0], attr) {
            Err(_) => {},
            Ok(a) => {
                let rest = vs.subrange(1, vs.len() as int);
                lemma_arms_of(acc.push(a), rest, o, attr);
                if arms_of(acc, vs, o, attr) is Ok {
                    let arms = arms_of(acc, vs, o, attr)->Ok_0;
                    assert forall|k: int| 0 <= k < vs.len() implies arm_of(
                        o,
                        #[trigger] vs[k],
                        attr,
                    ) == Ok::<ArmModel, DeriveError>(arms[acc.len() + k]) by {
                        if k > 0 {
                            assert(vs[k] == rest[k - 1]);
                        }
                    }
                }
            },
        }
    }
}

/// An explicit `rename` on a variant that is not nested gives exactly the
/// name written, whatever `rename_all`, `prefix` and `suffix` say.
pub proof fn lemma_rename_wins(d: DeriveInput, attr: Seq<char>, i: int, r: String)
    requires
        d.body matches Body::Enum(vs) && 0 <= i < vs@.len() && variant_options(
            (None, false),
            vs@[i].attrs@,
            attr,
        ) == Ok::<(Option<String>, bool), DeriveError>((Some(r), false)),
        names_spec(d, attr) is Ok,
    ensures
        names_spec(d, attr)->Ok_0.1[i] == ArmModel::Name(r@),
{
    let vs = d.body->Enum_0@;
    let o = type_options(no_name_options(), d.attrs@, attr)->Ok_0;
    lemma_arms_of(seq![], vs, o, attr);
    assert(arm_of(o, vs[i], attr) == Ok::<ArmModel, DeriveError>(ArmModel::Name(r@)));
}

} // verus!
