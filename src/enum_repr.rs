//! The enum-representation generator: conversions between an enum and the
//! integer type named in its `repr` annotation.
use crate::error::DeriveError;
use crate::model::{Attribute, Body, DeriveInput, Meta, Variant};
use crate::text::{decimal, decimal_of, same_text};
use vstd::prelude::*;

verus! {

/// An enum whose values convert to and from the integer type `T`.
pub trait EnumRepr<T: Copy>: TryFrom<T> + Into<T> {

}

/// The error of a conversion from an integer that no variant stands for.
#[derive(Clone, Debug, PartialEq, Eq)]
pub struct TryFromEnumReprError {
    /// The name of the enum.
    pub enum_name: String,
    /// The integer, in decimal.
    pub value: String,
}

impl TryFromEnumReprError {
    pub fn new(enum_name: String, value: String) -> (r: Self)
        ensures
            r.enum_name == enum_name,
            r.value == value,
    {
        Self { enum_name, value }
    }
}

/// The type-level options of the generator.
#[derive(Clone, Copy, Debug, PartialEq, Eq)]
pub struct ReprOptions {
    /// Also bridge serialisation through the integer.
    pub serde: bool,
    /// Variants may leave out their discriminant.
    pub implicit: bool,
}

/// What the type-level annotations have said so far: the integer type and the options.
pub struct ReprHeader {
    pub repr: Option<String>,
    pub options: ReprOptions,
}

/// One item of a type-level `enum_repr` annotation.
pub open spec fn option_step(o: ReprOptions, m: Meta) -> Result<ReprOptions, DeriveError> {
    match m {
        Meta::Word(k) => if k@ == "serde"@ {
            if o.serde {
                Err(DeriveError::Duplicate { key: k })
            } else {
                Ok(ReprOptions { serde: true, ..o })
            }
        } else if k@ == "implicit"@ {
            if o.implicit {
                Err(DeriveError::Duplicate { key: k })
            } else {
                Ok(ReprOptions { implicit: true, ..o })
            }
        } else {
            Err(DeriveError::Unrecognized { key: k })
        },
        _ => Err(DeriveError::Unrecognized { key: m.key() }),
    }
}

/// The items of type-level `enum_repr` annotations, read from the front.
pub open spec fn parse_options(o: ReprOptions, ms: Seq<Meta>) -> Result<ReprOptions, DeriveError>
    decreases ms.len(),
{
    if ms.len() == 0 {
        Ok(o)
    } else {
        match option_step(o, ms[0]) {
            Err(e) => Err(e),
            Ok(p) => parse_options(p, ms.subrange(1, ms.len() as int)),
        }
    }
}

/// One type-level annotation, applied to what the earlier ones said.
pub open spec fn header_step(h: ReprHeader, a: Attribute) -> Result<ReprHeader, DeriveError> {
    if a.name@ == "repr"@ {
        if a.args@.len() == 1 && a.args@[0] is Word {
            Ok(ReprHeader { repr: Some(a.args@[0].key()), ..h })
        } else {
            Err(DeriveError::ExpectedReprType)
        }
    } else if a.name@ == "enum_repr"@ {
        match parse_options(h.options, a.args@) {
            Err(e) => Err(e),
            Ok(o) => Ok(ReprHeader { options: o, ..h }),
        }
    } else {
        Ok(h)
    }
}

/// The type-level annotations, read from the front.
pub open spec fn parse_header(h: ReprHeader, attrs: Seq<Attribute>) -> Result<
    ReprHeader,
    DeriveError,
>
    decreases attrs.len(),
{
    if attrs.len() == 0 {
        Ok(h)
    } else {
        match header_step(h, attrs[0]) {
            Err(e) => Err(e),
            Ok(next) => parse_header(next, attrs.subrange(1, attrs.len() as int)),
        }
    }
}

fn read_options(o: ReprOptions, ms: &Vec<Meta>) -> (r: Result<ReprOptions, DeriveError>)
    ensures
        r == parse_options(o, ms@),
{
    let mut acc = o;
    let mut i: usize = 0;
    assert(ms@.subrange(0, ms@.len() as int) =~= ms@);
    while i < ms.len()
        invariant
            i <= ms@.len(),
            parse_options(acc, ms@.subrange(i as int, ms@.len() as int)) == parse_options(o, ms@),
        decreases ms@.len() - i,
    {
        let ghost rest = ms@.subrange(i as int, ms@.len() as int);
        assert(rest.subrange(1, rest.len() as int) =~= ms@.subrange(i + 1, ms@.len() as int));
        assert(rest[0] == ms@[i as int]);
        match &ms[i] {
            Meta::Word(k) => {
                if same_text(k, "serde") {
                    if acc.serde {
                        return Err(DeriveError::Duplicate { key: k.clone() });
                    }
                    acc = ReprOptions { serde: true, ..acc };
                } else if same_text(k, "implicit") {
                    if acc.implicit {
                        return Err(DeriveError::Duplicate { key: k.clone() });
                    }
                    acc = ReprOptions { implicit: true, ..acc };
                } else {
                    return Err(DeriveError::Unrecognized { key: k.clone() });
                }
            },
            other => {
                return Err(DeriveError::Unrecognized { key: other.key_ref().clone() });
            },
        }
        i = i + 1;
    }
    assert(ms@.subrange(i as int, ms@.len() as int).len() == 0);
    Ok(acc)
}

fn read_header(attrs: &Vec<Attribute>) -> (r: Result<(Option<String>, ReprOptions), DeriveError>)
    ensures
        match parse_header(
            ReprHeader { repr: None, options: ReprOptions { serde: false, implicit: false } },
            attrs@,
        ) {
            Ok(h) => r == Ok::<(Option<String>, ReprOptions), DeriveError>((h.repr, h.options)),
            Err(e) => r == Err::<(Option<String>, ReprOptions), DeriveError>(e),
        },
{
    let ghost h0 = ReprHeader {
        repr: None,
        options: ReprOptions { serde: false, implicit: false },
    };
    let mut repr: Option<String> = None;
    let mut options = ReprOptions { serde: false, implicit: false };
    let mut i: usize = 0;
    assert(attrs@.subrange(0, attrs@.len() as int) =~= attrs@);
    while i < attrs.len()
        invariant
            i <= attrs@.len(),
            h0 == (ReprHeader {
                repr: None,
                options: ReprOptions { serde: false, implicit: false },
            }),
            parse_header(
                ReprHeader { repr, options },
                attrs@.subrange(i as int, attrs@.len() as int),
            ) == parse_header(h0, attrs@),
        decreases attrs@.len() - i,
    {
        let ghost rest = attrs@.subrange(i as int, attrs@.len() as int);
        assert(rest.subrange(1, rest.len() as int) =~= attrs@.subrange(
            i + 1,
            attrs@.len() as int,
        ));
        assert(rest[0] == attrs@[i as int]);
        let a = &attrs[i];
        if same_text(&a.name, "repr") {
            if a.args.len() == 1 {
                match &a.args[0] {
                    Meta::Word(t) => {
                        repr = Some(t.clone());
                    },
                    _ => {
                        return Err(DeriveError::ExpectedReprType);
                    },
                }
            } else {
                return Err(DeriveError::ExpectedReprType);
            }
        } else if same_text(&a.name, "enum_repr") {
            match read_options(options, &a.args) {
                Err(e) => {
                    return Err(e);
                },
                Ok(o) => {
                    options = o;
                },
            }
        }
        i = i + 1;
    }
    assert(attrs@.subrange(i as int, attrs@.len() as int).len() == 0);
    Ok((repr, options))
}

/// One item of a variant's `enum_repr` annotation, given whether `default` was seen.
pub open spec fn mark_step(seen: bool, m: Meta) -> Result<bool, DeriveError> {
    match m {
        Meta::Word(k) => if k@ == "default"@ {
            if seen {
                Err(DeriveError::Duplicate { key: k })
            } else {
                Ok(true)
            }
        } else {
            Err(DeriveError::Unrecognized { key: k })
        },
        _ => Err(DeriveError::Unrecognized { key: m.key() }),
    }
}

pub open spec fn parse_marks(seen: bool, ms: Seq<Meta>) -> Result<bool, DeriveError>
    decreases ms.len(),
{
    if ms.len() == 0 {
        Ok(seen)
    } else {
        match mark_step(seen, ms[0]) {
            Err(e) => Err(e),
            Ok(s) => parse_marks(s, ms.subrange(1, ms.len() as int)),
        }
    }
}

/// Whether the annotations of a variant mark it as the fallback.
pub open spec fn variant_marks(seen: bool, attrs: Seq<Attribute>) -> Result<bool, DeriveError>
    decreases attrs.len(),
{
    if attrs.len() == 0 {
        Ok(seen)
    } else {
        let next = if attrs[0].name@ == "enum_repr"@ {
            parse_marks(seen, attrs[0].args@)
        } else {
            Ok(seen)
        };
        match next {
            Err(e) => Err(e),
            Ok(s) => variant_marks(s, attrs.subrange(1, attrs.len() as int)),
        }
    }
}

/// The marks of the variants, read from the front.
pub open spec fn marks_of(acc: Seq<bool>, vs: Seq<Variant>) -> Result<Seq<bool>, DeriveError>
    decreases vs.len(),
{
    if vs.len() == 0 {
        Ok(acc)
    } else {
        match variant_marks(false, vs[0].attrs@) {
            Err(e) => Err(e),
            Ok(b) => marks_of(acc.push(b), vs.subrange(1, vs.len() as int)),
        }
    }
}

fn read_marks(seen: bool, ms: &Vec<Meta>) -> (r: Result<bool, DeriveError>)
    ensures
        r == parse_marks(seen, ms@),
{
    let mut acc = seen;
    let mut i: usize = 0;
    assert(ms@.subrange(0, ms@.len() as int) =~= ms@);
    while i < ms.len()
        invariant
            i <= ms@.len(),
            parse_marks(acc, ms@.subrange(i as int, ms@.len() as int)) == parse_marks(seen, ms@),
        decreases ms@.len() - i,
    {
        let ghost rest = ms@.subrange(i as int, ms@.len() as int);
        assert(rest.subrange(1, rest.len() as int) =~= ms@.subrange(i + 1, ms@.len() as int));
        assert(rest[0] == ms@[i as int]);
        match &ms[i] {
            Meta::Word(k) => {
                if same_text(k, "default") {
                    if acc {
                        return Err(DeriveError::Duplicate { key: k.clone() });
                    }
                    acc = true;
                } else {
                    return Err(DeriveError::Unrecognized { key: k.clone() });
                }
            },
            other => {
                return Err(DeriveError::Unrecognized { key: other.key_ref().clone() });
            },
        }
        i = i + 1;
    }
    assert(ms@.subrange(i as int, ms@.len() as int).len() == 0);
    Ok(acc)
}

fn read_variant_marks(attrs: &Vec<Attribute>) -> (r: Result<bool, DeriveError>)
    ensures
        r == variant_marks(false, attrs@),
{
    let mut acc = false;
    let mut i: usize = 0;
    assert(attrs@.subrange(0, attrs@.len() as int) =~= attrs@);
    while i < attrs.len()
        invariant
            i <= attrs@.len(),
            variant_marks(acc, attrs@.subrange(i as int, attrs@.len() as int)) == variant_marks(
                false,
                attrs@,
            ),
        decreases attrs@.len() - i,
    {
        let ghost rest = attrs@.subrange(i as int, attrs@.len() as int);
        assert(rest.subrange(1, rest.len() as int) =~= attrs@.subrange(
            i + 1,
            attrs@.len() as int,
        ));
        assert(rest[0] == attrs@[i as int]);
        if same_text(&attrs[i].name, "enum_repr") {
            match read_marks(acc, &attrs[i].args) {
                Err(e) => {
                    return Err(e);
                },
                Ok(b) => {
                    acc = b;
                },
            }
        }
        i = i + 1;
    }
    assert(attrs@.subrange(i as int, attrs@.len() as int).len() == 0);
    Ok(acc)
}

fn read_all_marks(vs: &Vec<Variant>) -> (r: Result<Vec<bool>, DeriveError>)
    ensures
        match marks_of(seq![], vs@) {
            Ok(bs) => r is Ok && r->Ok_0@ == bs,
            Err(e) => r == Err::<Vec<bool>, DeriveError>(e),
        },
{
    let mut out: Vec<bool> = Vec::new();
    let mut i: usize = 0;
    assert(vs@.subrange(0, vs@.len() as int) =~= vs@);
    while i < vs.len()
        invariant
            i <= vs@.len(),
            marks_of(out@, vs@.subrange(i as int, vs@.len() as int)) == marks_of(seq![], vs@),
        decreases vs@.len() - i,
    {
        let ghost rest = vs@.subrange(i as int, vs@.len() as int);
        assert(rest.subrange(1, rest.len() as int) =~= vs@.subrange(i + 1, vs@.len() as int));
        assert(rest[0] == vs@[i as int]);
        match read_variant_marks(&vs[i].attrs) {
            Err(e) => {
                return Err(e);
            },
            Ok(b) => {
                out.push(b);
            },
        }
        i = i + 1;
    }
    assert(vs@.subrange(i as int, vs@.len() as int).len() == 0);
    Ok(out)
}

/// The fallback variant: the one marked `default`, or an error naming the
/// second one so marked.
pub open spec fn default_of(found: Option<int>, marks: Seq<bool>, vs: Seq<Variant>, start: int) -> Result<
    Option<int>,
    DeriveError,
>
    decreases marks.len() - start,
{
    if start < 0 || start >= marks.len() {
        Ok(found)
    } else if marks[start] && found is Some {
        Err(DeriveError::DuplicateDefault { variant: vs[start].name })
    } else {
        default_of(
            if marks[start] {
                Some(start)
            } else {
                found
            },
            marks,
            vs,
            start + 1,
        )
    }
}

fn find_default(marks: &Vec<bool>, vs: &Vec<Variant>) -> (r: Result<Option<usize>, DeriveError>)
    requires
        marks@.len() == vs@.len(),
    ensures
        match default_of(None, marks@, vs@, 0) {
            Ok(d) => r is Ok && (match r->Ok_0 {
                Some(k) => d == Some(k as int),
                None => d is None,
            }),
            Err(e) => r == Err::<Option<usize>, DeriveError>(e),
        },
{
    let mut found: Option<usize> = None;
    let mut i: usize = 0;
    while i < marks.len()
        invariant
            i <= marks@.len(),
            marks@.len() == vs@.len(),
            default_of(
                match found {
                    Some(k) => Some(k as int),
                    None => None,
                },
                marks@,
                vs@,
                i as int,
            ) == default_of(None, marks@, vs@, 0),
        decreases marks@.len() - i,
    {
        if marks[i] {
            if found.is_some() {
                return Err(DeriveError::DuplicateDefault { variant: vs[i].name.clone() });
            }
            found = Some(i);
        }
        i = i + 1;
    }
    Ok(found)
}

/// The discriminant of the next variant, given those before it.
pub open spec fn discriminant_step(acc: Seq<i128>, v: Variant, implicit: bool) -> Result<
    i128,
    DeriveError,
> {
    match v.discriminant {
        Some(d) => Ok(d),
        None => if !implicit {
            Err(DeriveError::MissingDiscriminant { variant: v.name })
        } else if acc.len() == 0 {
            Ok(0)
        } else if acc.last() == i128::MAX {
            Err(DeriveError::DiscriminantOverflow { variant: v.name })
        } else {
            Ok((acc.last() + 1) as i128)
        },
    }
}

/// The discriminants of the variants, resolved from the front.
pub open spec fn discriminants(acc: Seq<i128>, vs: Seq<Variant>, implicit: bool) -> Result<
    Seq<i128>,
    DeriveError,
>
    decreases vs.len(),
{
    if vs.len() == 0 {
        Ok(acc)
    } else {
        match discriminant_step(acc, vs[0], implicit) {
            Err(e) => Err(e),
            Ok(d) => discriminants(acc.push(d), vs.subrange(1, vs.len() as int), implicit),
        }
    }
}

/// Resolves the discriminant of every variant in declaration order: an
/// explicit one is kept; a missing one is `0` for the first variant and one
/// more than the previous variant's otherwise, which only `implicit` allows.
pub fn resolve_discriminants(vs: &Vec<Variant>, implicit: bool) -> (r: Result<
    Vec<i128>,
    DeriveError,
>)
    ensures
        match discriminants(seq![], vs@, implicit) {
            Ok(ds) => r is Ok && r->Ok_0@ == ds,
            Err(e) => r == Err::<Vec<i128>, DeriveError>(e),
        },
        r is Ok ==> r->Ok_0@.len() == vs@.len(),
        r is Ok ==> forall|i: int|
            0 <= i < vs@.len() ==> match (#[trigger] vs@[i]).discriminant {
                Some(d) => r->Ok_0@[i] == d,
                None => if i == 0 {
                    r->Ok_0@[i] == 0
                } else {
                    r->Ok_0@[i] == r->Ok_0@[i - 1] + 1
                },
            },
        !implicit && (exists|i: int| 0 <= i < vs@.len() && vs@[i].discriminant is None) ==> r is Err,
        r is Err ==> (r->Err_0 is MissingDiscriminant || r->Err_0 is DiscriminantOverflow),
        r matches Err(DeriveError::MissingDiscriminant { variant }) ==> exists|i: int|
            0 <= i < vs@.len() && vs@[i].discriminant is None && vs@[i].name == variant && (
            forall|j: int| 0 <= j < i ==> vs@[j].discriminant is Some),
{
    let mut out: Vec<i128> = Vec::new();
    let mut i: usize = 0;
    assert(vs@.subrange(0, vs@.len() as int) =~= vs@);
    while i < vs.len()
        invariant
            i <= vs@.len(),
            out@.len() == i,
            discriminants(out@, vs@.subrange(i as int, vs@.len() as int), implicit)
                == discriminants(seq![], vs@, implicit),
            !implicit ==> forall|j: int| 0 <= j < i ==> vs@[j].discriminant is Some,
            forall|j: int|
                0 <= j < i ==> match (#[trigger] vs@[j]).discriminant {
                    Some(d) => out@[j] == d,
                    None => if j == 0 {
                        out@[j] == 0
                    } else {
                        out@[j] == out@[j - 1] + 1
                    },
                },
        decreases vs@.len() - i,
    {
        let ghost rest = vs@.subrange(i as int, vs@.len() as int);
        assert(rest.subrange(1, rest.len() as int) =~= vs@.subrange(i + 1, vs@.len() as int));
        assert(rest[0] == vs@[i as int]);
        let v = &vs[i];
        let d: i128 = match v.discriminant {
            Some(d) => d,
            None => {
                if !implicit {
                    return Err(DeriveError::MissingDiscriminant { variant: v.name.clone() });
                }
                if out.len() == 0 {
                    0
                } else {
                    let prev = out[out.len() - 1];
                    if prev == i128::MAX {
                        return Err(DeriveError::DiscriminantOverflow { variant: v.name.clone() });
                    }
                    prev + 1
                }
            },
        };
        out.push(d);
        i = i + 1;
    }
    assert(vs@.subrange(i as int, vs@.len() as int).len() == 0);
    Ok(out)
}

/// A variant and the integer that stands for it.
#[derive(Clone, Debug, PartialEq, Eq)]
pub struct ReprEntry {
    pub variant: String,
    pub discriminant: i128,
}

/// What to generate for an enum: the integer type, a discriminant for each
/// variant in declaration order, and the fallback variant, if any.
#[derive(Clone, Debug, PartialEq, Eq)]
pub struct ReprPlan {
    pub enum_name: String,
    pub repr: String,
    pub serde: bool,
    pub entries: Vec<ReprEntry>,
    /// The index of the variant marked `default`.
    pub default: Option<usize>,
}

pub struct ReprModel {
    pub enum_name: String,
    pub repr: String,
    pub serde: bool,
    pub entries: Seq<ReprEntry>,
    pub default: Option<int>,
}

impl View for ReprPlan {
    type V = ReprModel;

    open spec fn view(&self) -> ReprModel {
        ReprModel {
            enum_name: self.enum_name,
            repr: self.repr,
            serde: self.serde,
            entries: self.entries@,
            default: match self.default {
                Some(k) => Some(k as int),
                None => None,
            },
        }
    }
}

pub open spec fn entries_of(vs: Seq<Variant>, ds: Seq<i128>) -> Seq<ReprEntry> {
    Seq::new(vs.len(), |i: int| ReprEntry { variant: vs[i].name, discriminant: ds[i] })
}

/// The first index at or after `start` whose discriminant an earlier index has.
pub open spec fn first_duplicate(ds: Seq<i128>, start: int) -> Option<int>
    decreases ds.len() - start,
{
    if start < 0 || start >= ds.len() {
        None
    } else if exists|j: int| 0 <= j < start && ds[j] == ds[start] {
        Some(start)
    } else {
        first_duplicate(ds, start + 1)
    }
}

pub open spec fn empty_header() -> ReprHeader {
    ReprHeader { repr: None, options: ReprOptions { serde: false, implicit: false } }
}

/// What the enum-representation generator makes of a declaration.
pub open spec fn repr_spec(d: DeriveInput) -> Result<ReprModel, DeriveError> {
    match d.body {
        Body::Enum(vs) => if vs@.len() == 0 {
            Err(DeriveError::NoVariants)
        } else {
            match parse_header(empty_header(), d.attrs@) {
                Err(e) => Err(e),
                Ok(h) => match h.repr {
                    None => Err(DeriveError::MissingRepr),
                    Some(t) => match marks_of(seq![], vs@) {
                        Err(e) => Err(e),
                        Ok(ms) => match default_of(None, ms, vs@, 0) {
                            Err(e) => Err(e),
                            Ok(dflt) => match discriminants(seq![], vs@, h.options.implicit) {
                                Err(e) => Err(e),
                                Ok(ds) => match first_duplicate(ds, 0) {
                                    Some(i) => Err(
                                        DeriveError::DuplicateDiscriminant { variant: vs@[i].name },
                                    ),
                                    None => Ok(
                                        ReprModel {
                                            enum_name: d.name,
                                            repr: t,
                                            serde: h.options.serde,
                                            entries: entries_of(vs@, ds),
                                            default: dflt,
                                        },
                                    ),
                                },
                            },
                        },
                    },
                },
            }
        },
        _ => Err(DeriveError::NotEnum),
    }
}

/// The first entry at or after `start` that stands for `v`.
pub open spec fn first_match(es: Seq<ReprEntry>, v: i128, start: int) -> Option<int>
    decreases es.len() - start,
{
    if start < 0 || start >= es.len() {
        None
    } else if es[start].discriminant == v {
        Some(start)
    } else {
        first_match(es, v, start + 1)
    }
}

/// The variant that the integer `v` converts to: the first whose
/// discriminant it is, else the fallback; `None` when the conversion fails.
pub open spec fn variant_for(p: ReprModel, v: i128) -> Option<int> {
    match first_match(p.entries, v, 0) {
        Some(i) => Some(i),
        None => p.default,
    }
}

fn find_duplicate(ds: &Vec<i128>) -> (r: Option<usize>)
    ensures
        match first_duplicate(ds@, 0) {
            Some(i) => r is Some && r->Some_0 as int == i,
            None => r is None,
        },
{
    let mut i: usize = 0;
    while i < ds.len()
        invariant
            i <= ds@.len(),
            first_duplicate(ds@, i as int) == first_duplicate(ds@, 0),
        decreases ds@.len() - i,
    {
        let mut j: usize = 0;
        while j < i
            invariant
                j <= i < ds@.len(),
                first_duplicate(ds@, i as int) == first_duplicate(ds@, 0),
                forall|k: int| 0 <= k < j ==> ds@[k] != ds@[i as int],
            decreases i - j,
        {
            if ds[j] == ds[i] {
                assert(ds@[j as int] == ds@[i as int]);
                return Some(i);
            }
            j = j + 1;
        }
        i = i + 1;
    }
    None
}

/// Derives the integer conversions of an enum from its `repr`, `enum_repr`
/// and variant annotations. Each variant keeps its explicit discriminant; one
/// without takes `0` when it comes first and one more than the previous
/// variant's otherwise; no two variants share a discriminant.
pub fn derive_enum_repr(input: &DeriveInput) -> (r: Result<ReprPlan, DeriveError>)
    ensures
        match repr_spec(*input) {
            Ok(m) => r is Ok && r->Ok_0@ == m,
            Err(e) => r == Err::<ReprPlan, DeriveError>(e),
        },
        r matches Ok(p) ==> input.body is Enum && p.entries@.len() == input.body->Enum_0@.len(),
        r matches Ok(p) ==> forall|i: int|
            0 <= i < p.entries@.len() ==> {
                &&& p.entries@[i].variant == input.body->Enum_0@[i].name
                &&& match (#[trigger] input.body->Enum_0@[i]).discriminant {
                    Some(d) => p.entries@[i].discriminant == d,
                    None => if i == 0 {
                        p.entries@[i].discriminant == 0
                    } else {
                        p.entries@[i].discriminant == p.entries@[i - 1].discriminant + 1
                    },
                }
            },
        r matches Ok(p) ==> forall|a: int, b: int|
            0 <= a < b < p.entries@.len() ==> p.entries@[a].discriminant
                != p.entries@[b].discriminant,
{
    let vs = match &input.body {
        Body::Enum(vs) => vs,
        _ => {
            return Err(DeriveError::NotEnum);
        },
    };
    if vs.len() == 0 {
        return Err(DeriveError::NoVariants);
    }
    let (repr, options) = match read_header(&input.attrs) {
        Err(e) => {
            return Err(e);
        },
        Ok(h) => h,
    };
    let repr = match repr {
        None => {
            return Err(DeriveError::MissingRepr);
        },
        Some(t) => t,
    };
    let marks = match read_all_marks(vs) {
        Err(e) => {
            return Err(e);
        },
        Ok(m) => m,
    };
    proof {
        lemma_marks_len(seq![], vs@);
    }
    let default = match find_default(&marks, vs) {
        Err(e) => {
            return Err(e);
        },
        Ok(d) => d,
    };
    let ds = match resolve_discriminants(vs, options.implicit) {
        Err(e) => {
            return Err(e);
        },
        Ok(ds) => ds,
    };
    proof {
        lemma_discriminants_len(seq![], vs@, options.implicit);
        lemma_first_duplicate_range(ds@, 0);
    }
    if let Some(i) = find_duplicate(&ds) {
        return Err(DeriveError::DuplicateDiscriminant { variant: vs[i].name.clone() });
    }
    proof {
        lemma_no_duplicate(ds@, 0);
    }
    let mut entries: Vec<ReprEntry> = Vec::new();
    let mut i: usize = 0;
    while i < vs.len()
        invariant
            i <= vs@.len(),
            ds@.len() == vs@.len(),
            entries@ =~= entries_of(vs@, ds@).take(i as int),
        decreases vs@.len() - i,
    {
        entries.push(ReprEntry { variant: vs[i].name.clone(), discriminant: ds[i] });
        i = i + 1;
    }
    assert(entries_of(vs@, ds@).take(i as int) =~= entries_of(vs@, ds@));
    Ok(ReprPlan { enum_name: input.name.clone(), repr, serde: options.serde, entries, default })
}

proof fn lemma_discriminants_len(acc: Seq<i128>, vs: Seq<Variant>, implicit: bool)
    ensures
        discriminants(acc, vs, implicit) matches Ok(ds) ==> ds.len() == acc.len() + vs.len(),
    decreases vs.len(),
{
    if vs.len() > 0 {
        match discriminant_step(acc, vs[0], implicit) {
            Err(_) => {},
            Ok(d) => {
                lemma_discriminants_len(acc.push(d), vs.subrange(1, vs.len() as int), implicit);
            },
        }
    }
}

proof fn lemma_first_duplicate_range(ds: Seq<i128>, start: int)
    requires
        0 <= start,
    ensures
        first_duplicate(ds, start) matches Some(i) ==> start <= i < ds.len(),
    decreases ds.len() - start,
{
    if start < ds.len() {
        lemma_first_duplicate_range(ds, start + 1);
    }
}

proof fn lemma_no_duplicate(ds: Seq<i128>, start: int)
    requires
        0 <= start,
        first_duplicate(ds, start) is None,
        forall|a: int, b: int| 0 <= a < b < start && b < ds.len() ==> ds[a] != ds[b],
    ensures
        forall|a: int, b: int| 0 <= a < b < ds.len() ==> ds[a] != ds[b],
    decreases ds.len() - start,
{
    if start < ds.len() {
        assert(!exists|j: int| 0 <= j < start && ds[j] == ds[start]);
        lemma_no_duplicate(ds, start + 1);
    }
}

proof fn lemma_marks_len(acc: Seq<bool>, vs: Seq<Variant>)
    ensures
        marks_of(acc, vs) is Ok ==> marks_of(acc, vs)->Ok_0.len() == acc.len() + vs.len(),
    decreases vs.len(),
{
    if vs.len() > 0 {
        match variant_marks(false, vs[0].attrs@) {
            Err(_) => {},
            Ok(b) => {
                lemma_marks_len(acc.push(b), vs.subrange(1, vs.len() as int));
            },
        }
    }
}

impl ReprPlan {
    /// The integer that the variant at `variant` converts to.
    pub fn to_repr(&self, variant: usize) -> (r: i128)
        requires
            variant < self.entries@.len(),
        ensures
            r == self.entries@[variant as int].discriminant,
    {
        self.entries[variant].discriminant
    }

    /// The variant that an integer converts to: the first whose discriminant
    /// it is, else the fallback variant, else an error naming the enum and
    /// the integer.
    pub fn from_repr(&self, value: i128) -> (r: Result<usize, TryFromEnumReprError>)
        ensures
            match variant_for(self@, value) {
                Some(i) => r is Ok && r->Ok_0 as int == i,
                None => r is Err && r->Err_0.enum_name == self.enum_name && r->Err_0.value@
                    == decimal_of(value as int),
            },
    {
        let mut i: usize = 0;
        while i < self.entries.len()
            invariant
                i <= self.entries@.len(),
                first_match(self.entries@, value, i as int) == first_match(self.entries@, value, 0),
            decreases self.entries@.len() - i,
        {
            if self.entries[i].discriminant == value {
                return Ok(i);
            }
            i = i + 1;
        }
        match self.default {
            Some(k) => Ok(k),
            None => Err(TryFromEnumReprError::new(self.enum_name.clone(), decimal(value))),
        }
    }
}

proof fn lemma_first_match(es: Seq<ReprEntry>, v: i128, start: int)
    requires
        0 <= start,
    ensures
        match first_match(es, v, start) {
            Some(i) => start <= i < es.len() && es[i].discriminant == v && forall|j: int|
                start <= j < i ==> es[j].discriminant != v,
            None => forall|j: int| start <= j < es.len() ==> es[j].discriminant != v,
        },
    decreases es.len() - start,
{
    if start < es.len() && es[start].discriminant != v {
        lemma_first_match(es, v, start + 1);
    }
}

proof fn lemma_default_of(found: Option<int>, marks: Seq<bool>, vs: Seq<Variant>, start: int)
    requires
        0 <= start <= marks.len(),
        found is None ==> forall|j: int| 0 <= j < start ==> !marks[j],
        found matches Some(k) ==> 0 <= k < start && marks[k] && forall|j: int|
            0 <= j < start && j != k ==> !marks[j],
        forall|a: int, b: int| 0 <= a < b < marks.len() && marks[a] ==> !marks[b],
    ensures
        default_of(found, marks, vs, start) == Ok::<Option<int>, DeriveError>(
            if exists|k: int| 0 <= k < marks.len() && marks[k] {
                Some(choose|k: int| 0 <= k < marks.len() && marks[k])
            } else {
                None
            },
        ),
    decreases marks.len() - start,
{
    if start < marks.len() {
        if marks[start] && found is Some {
            let k = found->Some_0;
            assert(!marks[start]);
        }
        let next = if marks[start] {
            Some(start)
        } else {
            found
        };
        lemma_default_of(next, marks, vs, start + 1);
    } else {
        if exists|k: int| 0 <= k < marks.len() && marks[k] {
            let k = choose|k: int| 0 <= k < marks.len() && marks[k];
            if found is None {
                assert(!marks[k]);
            } else {
                let f = found->Some_0;
                if f != k {
                    if f < k {
                        assert(!marks[k]);
                    } else {
                        assert(!marks[f]);
                    }
                }
            }
        }
    }
}

/// With exactly one variant marked `default`, every integer that no
/// discriminant stands for converts to that variant.
pub proof fn lemma_default_fallback(d: DeriveInput, marks: Seq<bool>, k: int, v: i128)
    requires
        d.body is Enum,
        marks_of(seq![], d.body->Enum_0@) == Ok::<Seq<bool>, DeriveError>(marks),
        0 <= k < marks.len(),
        marks[k],
        forall|j: int| 0 <= j < marks.len() && j != k ==> !marks[j],
        repr_spec(d) is Ok,
        forall|i: int|
            0 <= i < repr_spec(d)->Ok_0.entries.len() ==> repr_spec(d)->Ok_0.entries[i].discriminant
                != v,
    ensures
        variant_for(repr_spec(d)->Ok_0, v) == Some(k),
{
    let vs = d.body->Enum_0@;
    lemma_default_of(None, marks, vs, 0);
    assert(exists|j: int| 0 <= j < marks.len() && marks[j]);
    lemma_first_match(repr_spec(d)->Ok_0.entries, v, 0);
}

/// With no variant marked `default`, an integer that no discriminant stands
/// for has no variant (the conversion fails), and the conversions round-trip:
/// an integer that converts to a variant is that variant's discriminant, and
/// each variant's discriminant converts back to that variant.
pub proof fn lemma_no_default(d: DeriveInput, marks: Seq<bool>, v: i128)
    requires
        d.body is Enum,
        marks_of(seq![], d.body->Enum_0@) == Ok::<Seq<bool>, DeriveError>(marks),
        forall|j: int| 0 <= j < marks.len() ==> !marks[j],
        repr_spec(d) is Ok,
    ensures
        (forall|i: int|
            0 <= i < repr_spec(d)->Ok_0.entries.len() ==> repr_spec(d)->Ok_0.entries[i].discriminant
                != v) ==> variant_for(repr_spec(d)->Ok_0, v) is None,
        variant_for(repr_spec(d)->Ok_0, v) matches Some(i) ==> 0 <= i < repr_spec(
            d,
        )->Ok_0.entries.len() && repr_spec(d)->Ok_0.entries[i].discriminant == v,
        forall|i: int|
            #![trigger repr_spec(d)->Ok_0.entries[i]]
            0 <= i < repr_spec(d)->Ok_0.entries.len() ==> variant_for(
                repr_spec(d)->Ok_0,
                repr_spec(d)->Ok_0.entries[i].discriminant,
            ) == Some(i),
{
    let vs = d.body->Enum_0@;
    let p = repr_spec(d)->Ok_0;
    let h = parse_header(empty_header(), d.attrs@)->Ok_0;
    let ds = discriminants(seq![], vs, h.options.implicit)->Ok_0;
    lemma_discriminants_len(seq![], vs, h.options.implicit);
    lemma_no_duplicate(ds, 0);
    assert(p.entries.len() == ds.len());
    lemma_default_of(None, marks, vs, 0);
    lemma_first_match(p.entries, v, 0);
    assert forall|i: int|
        #![trigger p.entries[i]]
        0 <= i < p.entries.len() implies variant_for(p, p.entries[i].discriminant) == Some(i) by {
        lemma_first_match(p.entries, p.entries[i].discriminant, 0);
        let k = first_match(p.entries, p.entries[i].discriminant, 0)->Some_0;
        if k != i {
            assert(p.entries[k].discriminant == ds[k]);
            assert(p.entries[i].discriminant == ds[i]);
            if k < i {
                assert(ds[k] != ds[i]);
            } else {
                assert(ds[i] != ds[k]);
            }
        }
    }
}

proof fn lemma_first_missing(acc: Seq<i128>, vs: Seq<Variant>, i: int)
    requires
        0 <= i < vs.len(),
        vs[i].discriminant is None,
        forall|j: int| 0 <= j < i ==> vs[j].discriminant is Some,
    ensures
        discriminants(acc, vs, false) == Err::<Seq<i128>, DeriveError>(
            DeriveError::MissingDiscriminant { variant: vs[i].name },
        ),
    decreases i,
{
    if i > 0 {
        let rest = vs.subrange(1, vs.len() as int);
        assert(vs[0].discriminant is Some);
        assert forall|j: int| 0 <= j < i - 1 implies rest[j].discriminant is Some by {
            assert(rest[j] == vs[j + 1]);
        }
        assert(rest[i - 1] == vs[i]);
        lemma_first_missing(acc.push(vs[0].discriminant->Some_0), rest, i - 1);
    }
}

/// Without `implicit`, a variant without explicit discriminant makes the
/// generation fail; once the integer type is named and the `default` marks
/// are sound, the error is the missing discriminant of the first such variant.
pub proof fn lemma_explicit_required(d: DeriveInput, i: int)
    requires
        d.body matches Body::Enum(vs) && 0 <= i < vs@.len() && vs@[i].discriminant is None && (
        forall|j: int| 0 <= j < i ==> vs@[j].discriminant is Some),
        parse_header(empty_header(), d.attrs@) matches Ok(h) && !h.options.implicit,
    ensures
        repr_spec(d) is Err,
        (parse_header(empty_header(), d.attrs@)->Ok_0.repr is Some && marks_of(
            seq![],
            d.body->Enum_0@,
        ) is Ok && default_of(None, marks_of(seq![], d.body->Enum_0@)->Ok_0, d.body->Enum_0@, 0) is Ok)
            ==> repr_spec(d)
            == Err::<ReprModel, DeriveError>(
            DeriveError::MissingDiscriminant { variant: d.body->Enum_0@[i].name },
        ),
{
    lemma_first_missing(seq![], d.body->Enum_0@, i);
}

} // verus!
