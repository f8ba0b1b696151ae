//! The struct-conversion generator: `From` implementations between a struct
//! with named fields and the types named in its `convert` annotations.
use crate::error::DeriveError;
use crate::model::{Attribute, Body, DeriveInput, Field, Fields, ListItem, Meta, MetaValue};
use crate::text::{dup_opt_string, same_string, same_text};
use vstd::prelude::*;

verus! {

/// A conversion to generate: `impl From<from> for to`.
#[derive(Clone, Debug, PartialEq, Eq)]
pub struct Conversion {
    pub from: String,
    pub to: String,
}

impl Conversion {
    /// Two conversions are the same when they join the same type names.
    pub open spec fn same(self, o: Conversion) -> bool {
        self.from@ == o.from@ && self.to@ == o.to@
    }

    pub fn same_as(&self, o: &Conversion) -> (r: bool)
        ensures
            r == self.same(*o),
    {
        same_string(&self.from, &o.from) && same_string(&self.to, &o.to)
    }

    pub fn duplicate(&self) -> (r: Conversion)
        ensures
            r == *self,
    {
        Conversion { from: self.from.clone(), to: self.to.clone() }
    }
}

/// How a field's value is computed when it is not left to the default.
#[derive(Clone, Debug, PartialEq, Eq)]
pub enum FieldMap {
    /// `map = expr`: the expression, evaluated with `value` bound to the source.
    Expr(MetaValue),
    /// `map_field = f`: `f` called on the source field.
    FieldFn(String),
    /// `map_struct = f`: `f` called on a reference to the whole source.
    StructFn(String),
}

impl FieldMap {
    pub fn duplicate(&self) -> (r: FieldMap)
        ensures
            r == *self,
    {
        match self {
            FieldMap::Expr(v) => FieldMap::Expr(v.duplicate()),
            FieldMap::FieldFn(p) => FieldMap::FieldFn(p.clone()),
            FieldMap::StructFn(p) => FieldMap::StructFn(p.clone()),
        }
    }
}

/// The options of one field for one scope: every conversion, or a chosen few.
#[derive(Clone, Debug, PartialEq, Eq)]
pub struct FieldArg {
    pub ignore: bool,
    pub map: Option<FieldMap>,
    pub rename: Option<String>,
}

/// The options of a field that its annotations leave untouched.
pub open spec fn no_options() -> FieldArg {
    FieldArg { ignore: false, map: None, rename: None }
}

/// `over` laid on `base`: either can ignore the field, and a mapping or a
/// rename of `over` wins over that of `base`.
pub open spec fn merged(base: FieldArg, over: FieldArg) -> FieldArg {
    FieldArg {
        ignore: base.ignore || over.ignore,
        map: if over.map is Some {
            over.map
        } else {
            base.map
        },
        rename: if over.rename is Some {
            over.rename
        } else {
            base.rename
        },
    }
}

impl FieldArg {
    pub fn none() -> (r: FieldArg)
        ensures
            r == no_options(),
    {
        FieldArg { ignore: false, map: None, rename: None }
    }

    pub fn duplicate(&self) -> (r: FieldArg)
        ensures
            r == *self,
    {
        let map = match &self.map {
            Some(m) => Some(m.duplicate()),
            None => None,
        };
        FieldArg { ignore: self.ignore, map, rename: dup_opt_string(&self.rename) }
    }

    /// Combines these options with those of a more specific scope.
    pub fn merge(&self, over: &FieldArg) -> (r: FieldArg)
        ensures
            r == merged(*self, *over),
    {
        let map = match &over.map {
            Some(m) => Some(m.duplicate()),
            None => match &self.map {
                Some(m) => Some(m.duplicate()),
                None => None,
            },
        };
        let rename = match &over.rename {
            Some(s) => Some(s.clone()),
            None => dup_opt_string(&self.rename),
        };
        FieldArg { ignore: self.ignore || over.ignore, map, rename }
    }
}

/// The keywords that open a list of conversion targets.
pub open spec fn is_direction(k: Seq<char>) -> bool {
    k == "from"@ || k == "into"@ || k == "from_into"@
}

fn direction_keyword(k: &String) -> (r: bool)
    ensures
        r == is_direction(k@),
{
    same_text(k, "from") || same_text(k, "into") || same_text(k, "from_into")
}

/// One option item of a field annotation, applied to the options read so far.
pub open spec fn option_step(a: FieldArg, m: Meta) -> Result<FieldArg, DeriveError> {
    match m {
        Meta::Word(k) => if k@ == "ignore"@ {
            if a.ignore {
                Err(DeriveError::Duplicate { key: k })
            } else {
                Ok(FieldArg { ignore: true, ..a })
            }
        } else {
            Err(DeriveError::Unrecognized { key: k })
        },
        Meta::Assign(k, v) => if k@ == "map"@ {
            if a.map is Some {
                Err(DeriveError::ConflictingMap { key: k })
            } else {
                Ok(FieldArg { map: Some(FieldMap::Expr(v)), ..a })
            }
        } else if k@ == "map_field"@ || k@ == "map_struct"@ {
            if a.map is Some {
                Err(DeriveError::ConflictingMap { key: k })
            } else {
                match v {
                    MetaValue::Path(p) => Ok(
                        FieldArg {
                            map: Some(
                                if k@ == "map_field"@ {
                                    FieldMap::FieldFn(p)
                                } else {
                                    FieldMap::StructFn(p)
                                },
                            ),
                            ..a
                        },
                    ),
                    _ => Err(DeriveError::ExpectedPath { key: k }),
                }
            }
        } else if k@ == "rename"@ {
            if a.rename is Some {
                Err(DeriveError::Duplicate { key: k })
            } else {
                match v {
                    MetaValue::Str(s) => Ok(FieldArg { rename: Some(s), ..a }),
                    _ => Err(DeriveError::ExpectedString { key: k }),
                }
            }
        } else {
            Err(DeriveError::Unrecognized { key: k })
        },
        Meta::List(k, _) => if is_direction(k@) {
            Err(DeriveError::TargetNotFirst { key: k })
        } else {
            Err(DeriveError::Unrecognized { key: k })
        },
    }
}

/// The options that a sequence of items gives, read from the front.
pub open spec fn parse_options(a: FieldArg, ms: Seq<Meta>) -> Result<FieldArg, DeriveError>
    decreases ms.len(),
{
    if ms.len() == 0 {
        Ok(a)
    } else {
        match option_step(a, ms[0]) {
            Err(e) => Err(e),
            Ok(b) => parse_options(b, ms.subrange(1, ms.len() as int)),
        }
    }
}

fn apply_option(a: FieldArg, m: &Meta) -> (r: Result<FieldArg, DeriveError>)
    ensures
        r == option_step(a, *m),
{
    match m {
        Meta::Word(k) => {
            if same_text(k, "ignore") {
                if a.ignore {
                    Err(DeriveError::Duplicate { key: k.clone() })
                } else {
                    Ok(FieldArg { ignore: true, ..a })
                }
            } else {
                Err(DeriveError::Unrecognized { key: k.clone() })
            }
        },
        Meta::Assign(k, v) => {
            if same_text(k, "map") {
                if a.map.is_some() {
                    Err(DeriveError::ConflictingMap { key: k.clone() })
                } else {
                    Ok(FieldArg { map: Some(FieldMap::Expr(v.duplicate())), ..a })
                }
            } else if same_text(k, "map_field") || same_text(k, "map_struct") {
                if a.map.is_some() {
                    Err(DeriveError::ConflictingMap { key: k.clone() })
                } else {
                    match v {
                        MetaValue::Path(p) => {
                            let map = if same_text(k, "map_field") {
                                FieldMap::FieldFn(p.clone())
                            } else {
                                FieldMap::StructFn(p.clone())
                            };
                            Ok(FieldArg { map: Some(map), ..a })
                        },
                        _ => Err(DeriveError::ExpectedPath { key: k.clone() }),
                    }
                }
            } else if same_text(k, "rename") {
                if a.rename.is_some() {
                    Err(DeriveError::Duplicate { key: k.clone() })
                } else {
                    match v {
                        MetaValue::Str(s) => Ok(FieldArg { rename: Some(s.clone()), ..a }),
                        _ => Err(DeriveError::ExpectedString { key: k.clone() }),
                    }
                }
            } else {
                Err(DeriveError::Unrecognized { key: k.clone() })
            }
        },
        Meta::List(k, _) => {
            if direction_keyword(k) {
                Err(DeriveError::TargetNotFirst { key: k.clone() })
            } else {
                Err(DeriveError::Unrecognized { key: k.clone() })
            }
        },
    }
}

/// Reads the option items `ms[start..]` on top of `a`.
fn read_options(a: FieldArg, ms: &Vec<Meta>, start: usize) -> (r: Result<FieldArg, DeriveError>)
    requires
        start <= ms@.len(),
    ensures
        r == parse_options(a, ms@.subrange(start as int, ms@.len() as int)),
{
    let mut acc = a;
    let mut i = start;
    while i < ms.len()
        invariant
            start <= i <= ms@.len(),
            parse_options(acc, ms@.subrange(i as int, ms@.len() as int)) == parse_options(
                a,
                ms@.subrange(start as int, ms@.len() as int),
            ),
        decreases ms@.len() - i,
    {
        let ghost rest = ms@.subrange(i as int, ms@.len() as int);
        assert(rest.subrange(1, rest.len() as int) =~= ms@.subrange(i + 1, ms@.len() as int));
        match apply_option(acc, &ms[i]) {
            Err(e) => {
                return Err(e);
            },
            Ok(b) => {
                acc = b;
            },
        }
        i = i + 1;
    }
    assert(ms@.subrange(i as int, ms@.len() as int).len() == 0);
    Ok(acc)
}

/// The conversions that `kw(ty)` declares on the type named `me`.
pub open spec fn conversions_of(kw: Seq<char>, ty: String, me: String) -> Seq<Conversion> {
    if kw == "from"@ {
        seq![Conversion { from: ty, to: me }]
    } else if kw == "into"@ {
        seq![Conversion { from: me, to: ty }]
    } else {
        seq![Conversion { from: ty, to: me }, Conversion { from: me, to: ty }]
    }
}

/// The conversions that the type names of a list `kw(items)` declare, in order.
pub open spec fn listed_conversions(kw: Seq<char>, items: Seq<ListItem>, me: String) -> Seq<
    Conversion,
>
    decreases items.len(),
{
    if items.len() == 0 {
        seq![]
    } else {
        let rest = listed_conversions(kw, items.drop_last(), me);
        match items.last() {
            ListItem::Word(ty) => rest + conversions_of(kw, ty, me),
            ListItem::Assign(_, _) => rest,
        }
    }
}

/// The `key = value` items of a list, as annotation items.
pub open spec fn listed_options(items: Seq<ListItem>) -> Seq<Meta>
    decreases items.len(),
{
    if items.len() == 0 {
        seq![]
    } else {
        let rest = listed_options(items.drop_last());
        match items.last() {
            ListItem::Word(_) => rest,
            ListItem::Assign(k, v) => rest.push(Meta::Assign(k, v)),
        }
    }
}

pub open spec fn all_words(items: Seq<ListItem>) -> bool {
    forall|i: int| 0 <= i < items.len() ==> items[i] is Word
}

pub open spec fn has_word(items: Seq<ListItem>) -> bool {
    exists|i: int| 0 <= i < items.len() && items[i] is Word
}

fn list_conversions(kw: &String, items: &Vec<ListItem>, me: &String) -> (r: Vec<Conversion>)
    ensures
        r@ == listed_conversions(kw@, items@, *me),
{
    let mut out: Vec<Conversion> = Vec::new();
    let mut i: usize = 0;
    while i < items.len()
        invariant
            i <= items@.len(),
            out@ == listed_conversions(kw@, items@.take(i as int), *me),
        decreases items@.len() - i,
    {
        assert(items@.take(i + 1).drop_last() =~= items@.take(i as int));
        match &items[i] {
            ListItem::Word(ty) => {
                if same_text(kw, "from") {
                    out.push(Conversion { from: ty.clone(), to: me.clone() });
                } else if same_text(kw, "into") {
                    out.push(Conversion { from: me.clone(), to: ty.clone() });
                } else {
                    out.push(Conversion { from: ty.clone(), to: me.clone() });
                    out.push(Conversion { from: me.clone(), to: ty.clone() });
                }
                assert(out@ =~= listed_conversions(kw@, items@.take(i + 1), *me));
            },
            ListItem::Assign(_, _) => {},
        }
        i = i + 1;
    }
    assert(items@.take(i as int) =~= items@);
    out
}

fn list_options(items: &Vec<ListItem>) -> (r: Vec<Meta>)
    ensures
        r@ == listed_options(items@),
{
    let mut out: Vec<Meta> = Vec::new();
    let mut i: usize = 0;
    while i < items.len()
        invariant
            i <= items@.len(),
            out@ == listed_options(items@.take(i as int)),
        decreases items@.len() - i,
    {
        assert(items@.take(i + 1).drop_last() =~= items@.take(i as int));
        match &items[i] {
            ListItem::Word(_) => {},
            ListItem::Assign(k, v) => {
                out.push(Meta::Assign(k.clone(), v.duplicate()));
            },
        }
        i = i + 1;
    }
    assert(items@.take(i as int) =~= items@);
    out
}

fn check_words(items: &Vec<ListItem>) -> (r: (bool, bool))
    ensures
        r.0 == all_words(items@),
        r.1 == has_word(items@),
{
    let mut all = true;
    let mut any = false;
    let mut i: usize = 0;
    while i < items.len()
        invariant
            i <= items@.len(),
            all == all_words(items@.take(i as int)),
            any == has_word(items@.take(i as int)),
        decreases items@.len() - i,
    {
        let w = match &items[i] {
            ListItem::Word(_) => true,
            ListItem::Assign(_, _) => false,
        };
        assert(forall|j: int| 0 <= j < i ==> items@.take(i + 1)[j] == items@.take(i as int)[j]);
        assert(items@.take(i + 1)[i as int] == items@[i as int]);
        all = all && w;
        any = any || w;
        i = i + 1;
    }
    assert(items@.take(i as int) =~= items@);
    (all, any)
}

pub open spec fn has_conversion(cs: Seq<Conversion>, c: Conversion) -> bool {
    exists|i: int| 0 <= i < cs.len() && cs[i].same(c)
}

fn contains_conversion(cs: &Vec<Conversion>, c: &Conversion) -> (r: bool)
    ensures
        r == has_conversion(cs@, *c),
{
    let mut i: usize = 0;
    while i < cs.len()
        invariant
            i <= cs@.len(),
            forall|j: int| 0 <= j < i ==> !cs@[j].same(*c),
        decreases cs@.len() - i,
    {
        if cs[i].same_as(c) {
            return true;
        }
        i = i + 1;
    }
    false
}

/// `cs` with each conversion of `new` added in turn, unless it is there already.
pub open spec fn add_conversions(cs: Seq<Conversion>, new: Seq<Conversion>) -> Seq<Conversion>
    decreases new.len(),
{
    if new.len() == 0 {
        cs
    } else {
        let next = if has_conversion(cs, new[0]) {
            cs
        } else {
            cs.push(new[0])
        };
        add_conversions(next, new.subrange(1, new.len() as int))
    }
}

fn push_new_conversions(cs: &mut Vec<Conversion>, new: &Vec<Conversion>)
    ensures
        final(cs)@ == add_conversions(old(cs)@, new@),
{
    let ghost start = cs@;
    let mut i: usize = 0;
    assert(new@.subrange(0, new@.len() as int) =~= new@);
    while i < new.len()
        invariant
            i <= new@.len(),
            start == old(cs)@,
            add_conversions(cs@, new@.subrange(i as int, new@.len() as int)) == add_conversions(
                start,
                new@,
            ),
        decreases new@.len() - i,
    {
        let ghost rest = new@.subrange(i as int, new@.len() as int);
        assert(rest.subrange(1, rest.len() as int) =~= new@.subrange(i + 1, new@.len() as int));
        if !contains_conversion(cs, &new[i]) {
            cs.push(new[i].duplicate());
        }
        i = i + 1;
    }
    assert(new@.subrange(i as int, new@.len() as int).len() == 0);
}

/// One item of a type-level `convert` annotation, applied to the conversions so far.
pub open spec fn type_convert_step(cs: Seq<Conversion>, m: Meta, me: String) -> Result<
    Seq<Conversion>,
    DeriveError,
> {
    match m {
        Meta::List(k, items) => if !is_direction(k@) {
            Err(DeriveError::ExpectedDirection { key: k })
        } else if items@.len() == 0 {
            Err(DeriveError::EmptyTargetList { key: k })
        } else if !all_words(items@) {
            Err(DeriveError::ExpectedTypeName { key: k })
        } else {
            Ok(add_conversions(cs, listed_conversions(k@, items@, me)))
        },
        _ => Err(DeriveError::ExpectedDirection { key: m.key() }),
    }
}

/// The items of type-level `convert` annotations, read from the front.
pub open spec fn type_converts(cs: Seq<Conversion>, ms: Seq<Meta>, me: String) -> Result<
    Seq<Conversion>,
    DeriveError,
>
    decreases ms.len(),
{
    if ms.len() == 0 {
        Ok(cs)
    } else {
        match type_convert_step(cs, ms[0], me) {
            Err(e) => Err(e),
            Ok(next) => type_converts(next, ms.subrange(1, ms.len() as int), me),
        }
    }
}

fn apply_type_convert(cs: &mut Vec<Conversion>, m: &Meta, me: &String) -> (r: Option<DeriveError>)
    ensures
        match type_convert_step(old(cs)@, *m, *me) {
            Ok(next) => r is None && final(cs)@ == next,
            Err(e) => r == Some(e) && final(cs)@ == old(cs)@,
        },
{
    match m {
        Meta::List(k, items) => {
            if !direction_keyword(k) {
                return Some(DeriveError::ExpectedDirection { key: k.clone() });
            }
            if items.len() == 0 {
                return Some(DeriveError::EmptyTargetList { key: k.clone() });
            }
            let (all, _) = check_words(items);
            if !all {
                return Some(DeriveError::ExpectedTypeName { key: k.clone() });
            }
            let new = list_conversions(k, items, me);
            push_new_conversions(cs, &new);
            None
        },
        other => Some(DeriveError::ExpectedDirection { key: other.key_ref().clone() }),
    }
}

fn read_type_converts(cs: &mut Vec<Conversion>, ms: &Vec<Meta>, me: &String) -> (r: Option<
    DeriveError,
>)
    ensures
        match type_converts(old(cs)@, ms@, *me) {
            Ok(all) => r is None && final(cs)@ == all,
            Err(e) => r == Some(e),
        },
{
    let ghost start = cs@;
    let mut i: usize = 0;
    assert(ms@.subrange(0, ms@.len() as int) =~= ms@);
    while i < ms.len()
        invariant
            i <= ms@.len(),
            start == old(cs)@,
            type_converts(cs@, ms@.subrange(i as int, ms@.len() as int), *me) == type_converts(
                start,
                ms@,
                *me,
            ),
        decreases ms@.len() - i,
    {
        let ghost rest = ms@.subrange(i as int, ms@.len() as int);
        assert(rest.subrange(1, rest.len() as int) =~= ms@.subrange(i + 1, ms@.len() as int));
        assert(rest[0] == ms@[i as int]);
        let ghost before = cs@;
        let e = apply_type_convert(cs, &ms[i], me);
        if e.is_some() {
            assert(type_converts(before, rest, *me) == Err::<Seq<Conversion>, DeriveError>(
                e->Some_0,
            ));
            return e;
        }
        i = i + 1;
    }
    assert(ms@.subrange(i as int, ms@.len() as int).len() == 0);
    None
}

/// `generate(Target(field = value, ...))`: a field of `Target` that the
/// struct does not have, set to `value` when converting into `Target`.
#[derive(Clone, Debug, PartialEq, Eq)]
pub struct GenerateArg {
    pub target: String,
    pub field: String,
    pub value: MetaValue,
}

pub open spec fn all_assigns(items: Seq<ListItem>) -> bool {
    forall|i: int| 0 <= i < items.len() ==> items[i] is Assign
}

/// The generated fields that the `key = value` items of `target(items)` declare.
pub open spec fn generates_of(target: String, items: Seq<ListItem>) -> Seq<GenerateArg>
    decreases items.len(),
{
    if items.len() == 0 {
        seq![]
    } else {
        let rest = generates_of(target, items.drop_last());
        match items.last() {
            ListItem::Assign(f, v) => rest.push(GenerateArg { target, field: f, value: v }),
            ListItem::Word(_) => rest,
        }
    }
}

/// One item of a `generate` annotation, applied to the generated fields so far.
pub open spec fn generate_step(gs: Seq<GenerateArg>, m: Meta) -> Result<
    Seq<GenerateArg>,
    DeriveError,
> {
    match m {
        Meta::List(t, items) => if items@.len() == 0 || !all_assigns(items@) {
            Err(DeriveError::MalformedGenerate { key: t })
        } else {
            Ok(gs + generates_of(t, items@))
        },
        _ => Err(DeriveError::MalformedGenerate { key: m.key() }),
    }
}

/// The items of `generate` annotations, read from the front.
pub open spec fn generates(gs: Seq<GenerateArg>, ms: Seq<Meta>) -> Result<
    Seq<GenerateArg>,
    DeriveError,
>
    decreases ms.len(),
{
    if ms.len() == 0 {
        Ok(gs)
    } else {
        match generate_step(gs, ms[0]) {
            Err(e) => Err(e),
            Ok(next) => generates(next, ms.subrange(1, ms.len() as int)),
        }
    }
}

fn apply_generate(gs: &mut Vec<GenerateArg>, m: &Meta) -> (r: Option<DeriveError>)
    ensures
        match generate_step(old(gs)@, *m) {
            Ok(next) => r is None && final(gs)@ == next,
            Err(e) => r == Some(e) && final(gs)@ == old(gs)@,
        },
{
    match m {
        Meta::List(t, items) => {
            let mut i: usize = 0;
            while i < items.len()
                invariant
                    i <= items@.len(),
                    gs@ == old(gs)@,
                    *m == Meta::List(*t, *items),
                    forall|j: int| 0 <= j < i ==> items@[j] is Assign,
                decreases items@.len() - i,
            {
                if let ListItem::Word(_) = &items[i] {
                    assert(!(items@[i as int] is Assign));
                    assert(!all_assigns(items@));
                    return Some(DeriveError::MalformedGenerate { key: t.clone() });
                }
                i = i + 1;
            }
            if items.len() == 0 {
                return Some(DeriveError::MalformedGenerate { key: t.clone() });
            }
            let ghost start = gs@;
            let mut i: usize = 0;
            while i < items.len()
                invariant
                    i <= items@.len(),
                    start == old(gs)@,
                    gs@ == start + generates_of(*t, items@.take(i as int)),
                decreases items@.len() - i,
            {
                assert(items@.take(i + 1).drop_last() =~= items@.take(i as int));
                if let ListItem::Assign(f, v) = &items[i] {
                    gs.push(GenerateArg { target: t.clone(), field: f.clone(), value: v.duplicate() });
                }
                assert(gs@ =~= start + generates_of(*t, items@.take(i + 1)));
                i = i + 1;
            }
            assert(items@.take(i as int) =~= items@);
            None
        },
        other => Some(DeriveError::MalformedGenerate { key: other.key_ref().clone() }),
    }
}

fn read_generates(gs: &mut Vec<GenerateArg>, ms: &Vec<Meta>) -> (r: Option<DeriveError>)
    ensures
        match generates(old(gs)@, ms@) {
            Ok(all) => r is None && final(gs)@ == all,
            Err(e) => r == Some(e),
        },
{
    let ghost start = gs@;
    let mut i: usize = 0;
    assert(ms@.subrange(0, ms@.len() as int) =~= ms@);
    while i < ms.len()
        invariant
            i <= ms@.len(),
            start == old(gs)@,
            generates(gs@, ms@.subrange(i as int, ms@.len() as int)) == generates(start, ms@),
        decreases ms@.len() - i,
    {
        let ghost rest = ms@.subrange(i as int, ms@.len() as int);
        assert(rest.subrange(1, rest.len() as int) =~= ms@.subrange(i + 1, ms@.len() as int));
        assert(rest[0] == ms@[i as int]);
        let ghost before = gs@;
        let e = apply_generate(gs, &ms[i]);
        if e.is_some() {
            assert(generates(before, rest) == Err::<Seq<GenerateArg>, DeriveError>(e->Some_0));
            return e;
        }
        i = i + 1;
    }
    assert(ms@.subrange(i as int, ms@.len() as int).len() == 0);
    None
}

/// One type-level annotation, applied to the conversions and generated fields so far.
pub open spec fn type_attr_step(
    acc: (Seq<Conversion>, Seq<GenerateArg>),
    a: Attribute,
    me: String,
) -> Result<(Seq<Conversion>, Seq<GenerateArg>), DeriveError> {
    if a.name@ == "convert"@ {
        match type_converts(acc.0, a.args@, me) {
            Err(e) => Err(e),
            Ok(cs) => Ok((cs, acc.1)),
        }
    } else if a.name@ == "generate"@ {
        match generates(acc.1, a.args@) {
            Err(e) => Err(e),
            Ok(gs) => Ok((acc.0, gs)),
        }
    } else {
        Ok(acc)
    }
}

/// The conversions and generated fields that the type-level annotations
/// declare, read from the front.
pub open spec fn type_attrs(
    acc: (Seq<Conversion>, Seq<GenerateArg>),
    attrs: Seq<Attribute>,
    me: String,
) -> Result<(Seq<Conversion>, Seq<GenerateArg>), DeriveError>
    decreases attrs.len(),
{
    if attrs.len() == 0 {
        Ok(acc)
    } else {
        match type_attr_step(acc, attrs[0], me) {
            Err(e) => Err(e),
            Ok(next) => type_attrs(next, attrs.subrange(1, attrs.len() as int), me),
        }
    }
}

fn read_type_attrs(attrs: &Vec<Attribute>, me: &String) -> (r: Result<
    (Vec<Conversion>, Vec<GenerateArg>),
    DeriveError,
>)
    ensures
        match type_attrs((seq![], seq![]), attrs@, *me) {
            Ok(acc) => r is Ok && r->Ok_0.0@ == acc.0 && r->Ok_0.1@ == acc.1,
            Err(e) => r == Err::<(Vec<Conversion>, Vec<GenerateArg>), DeriveError>(e),
        },
{
    let mut cs: Vec<Conversion> = Vec::new();
    let mut gs: Vec<GenerateArg> = Vec::new();
    let mut i: usize = 0;
    assert(attrs@.subrange(0, attrs@.len() as int) =~= attrs@);
    while i < attrs.len()
        invariant
            i <= attrs@.len(),
            type_attrs((cs@, gs@), attrs@.subrange(i as int, attrs@.len() as int), *me)
                == type_attrs((seq![], seq![]), attrs@, *me),
        decreases attrs@.len() - i,
    {
        let ghost rest = attrs@.subrange(i as int, attrs@.len() as int);
        assert(rest.subrange(1, rest.len() as int) =~= attrs@.subrange(i + 1, attrs@.len() as int));
        assert(rest[0] == attrs@[i as int]);
        let ghost before = (cs@, gs@);
        let a = &attrs[i];
        if same_text(&a.name, "convert") {
            let e = read_type_converts(&mut cs, &a.args, me);
            if let Some(e) = e {
                assert(type_attrs(before, rest, *me) == Err::<
                    (Seq<Conversion>, Seq<GenerateArg>),
                    DeriveError,
                >(e));
                return Err(e);
            }
        } else if same_text(&a.name, "generate") {
            let e = read_generates(&mut gs, &a.args);
            if let Some(e) = e {
                assert(type_attrs(before, rest, *me) == Err::<
                    (Seq<Conversion>, Seq<GenerateArg>),
                    DeriveError,
                >(e));
                return Err(e);
            }
        }
        i = i + 1;
    }
    assert(attrs@.subrange(i as int, attrs@.len() as int).len() == 0);
    Ok((cs, gs))
}

/// Reading `xs + ys` is reading `xs`, then `ys` on what `xs` gave.
proof fn lemma_parse_options_concat(a: FieldArg, xs: Seq<Meta>, ys: Seq<Meta>)
    ensures
        parse_options(a, xs + ys) == match parse_options(a, xs) {
            Err(e) => Err(e),
            Ok(b) => parse_options(b, ys),
        },
    decreases xs.len(),
{
    if xs.len() == 0 {
        assert(xs + ys =~= ys);
    } else {
        let zs = xs + ys;
        assert(zs[0] == xs[0]);
        assert(zs.subrange(1, zs.len() as int) =~= xs.subrange(1, xs.len() as int) + ys);
        match option_step(a, xs[0]) {
            Err(_) => {},
            Ok(b) => {
                lemma_parse_options_concat(b, xs.subrange(1, xs.len() as int), ys);
            },
        }
    }
}

/// A field of the struct with everything its annotations say about it.
#[derive(Debug)]
pub struct ConvertField {
    pub name: String,
    pub ty_name: Option<String>,
    /// The options that hold for every conversion.
    pub all: FieldArg,
    /// The options given for chosen conversions, in the order given.
    pub targets: Vec<(Conversion, FieldArg)>,
}

/// The mathematical content of a `ConvertField`.
pub struct FieldModel {
    pub name: String,
    pub ty_name: Option<String>,
    pub all: FieldArg,
    pub targets: Seq<(Conversion, FieldArg)>,
}

impl View for ConvertField {
    type V = FieldModel;

    open spec fn view(&self) -> FieldModel {
        FieldModel {
            name: self.name,
            ty_name: self.ty_name,
            all: self.all,
            targets: self.targets@,
        }
    }
}

pub open spec fn models(v: Seq<ConvertField>) -> Seq<FieldModel> {
    v.map_values(|f: ConvertField| f@)
}

/// Each of `cs` paired with the options `a`.
pub open spec fn scoped(cs: Seq<Conversion>, a: FieldArg) -> Seq<(Conversion, FieldArg)> {
    cs.map_values(|c: Conversion| (c, a))
}

/// A field annotation without a direction list: its options hold for every conversion.
pub open spec fn unscoped_step(
    st: (Option<FieldArg>, Seq<(Conversion, FieldArg)>),
    ms: Seq<Meta>,
) -> Result<(Option<FieldArg>, Seq<(Conversion, FieldArg)>), DeriveError> {
    match parse_options(no_options(), ms) {
        Err(e) => Err(e),
        Ok(arg) => Ok((Some(arg), st.1)),
    }
}

/// One annotation of the field `name`, applied to what its earlier ones said.
pub open spec fn field_attr_step(
    st: (Option<FieldArg>, Seq<(Conversion, FieldArg)>),
    a: Attribute,
    name: String,
    me: String,
) -> Result<(Option<FieldArg>, Seq<(Conversion, FieldArg)>), DeriveError> {
    if a.name@ != "convert"@ {
        Ok(st)
    } else if a.args@.len() == 0 {
        Err(DeriveError::EmptyArguments { field: name })
    } else {
        match a.args@[0] {
            Meta::List(k, items) => if is_direction(k@) {
                if !has_word(items@) {
                    Err(DeriveError::EmptyTargetList { key: k })
                } else {
                    match parse_options(
                        no_options(),
                        listed_options(items@) + a.args@.subrange(1, a.args@.len() as int),
                    ) {
                        Err(e) => Err(e),
                        Ok(arg) => Ok((st.0, st.1 + scoped(listed_conversions(k@, items@, me), arg))),
                    }
                }
            } else {
                unscoped_step(st, a.args@)
            },
            _ => unscoped_step(st, a.args@),
        }
    }
}

/// The annotations of the field `name`, read from the front.
pub open spec fn field_attrs(
    st: (Option<FieldArg>, Seq<(Conversion, FieldArg)>),
    attrs: Seq<Attribute>,
    name: String,
    me: String,
) -> Result<(Option<FieldArg>, Seq<(Conversion, FieldArg)>), DeriveError>
    decreases attrs.len(),
{
    if attrs.len() == 0 {
        Ok(st)
    } else {
        match field_attr_step(st, attrs[0], name, me) {
            Err(e) => Err(e),
            Ok(next) => field_attrs(next, attrs.subrange(1, attrs.len() as int), name, me),
        }
    }
}

/// What the annotations of a field of the struct `me` say about it.
pub open spec fn parse_field(f: Field, me: String) -> Result<FieldModel, DeriveError> {
    match f.name {
        None => Err(DeriveError::UnnamedField),
        Some(n) => match field_attrs((None, seq![]), f.attrs@, n, me) {
            Err(e) => Err(e),
            Ok(st) => Ok(
                FieldModel {
                    name: n,
                    ty_name: f.ty_name,
                    all: match st.0 {
                        Some(a) => a,
                        None => no_options(),
                    },
                    targets: st.1,
                },
            ),
        },
    }
}

/// The fields of the struct `me`, read from the front.
pub open spec fn parse_fields(acc: Seq<FieldModel>, fs: Seq<Field>, me: String) -> Result<
    Seq<FieldModel>,
    DeriveError,
>
    decreases fs.len(),
{
    if fs.len() == 0 {
        Ok(acc)
    } else {
        match parse_field(fs[0], me) {
            Err(e) => Err(e),
            Ok(m) => parse_fields(acc.push(m), fs.subrange(1, fs.len() as int), me),
        }
    }
}

fn push_scoped(ts: &mut Vec<(Conversion, FieldArg)>, cs: &Vec<Conversion>, arg: &FieldArg)
    ensures
        final(ts)@ == old(ts)@ + scoped(cs@, *arg),
{
    let ghost start = ts@;
    let mut i: usize = 0;
    while i < cs.len()
        invariant
            i <= cs@.len(),
            start == old(ts)@,
            ts@ =~= start + scoped(cs@.take(i as int), *arg),
        decreases cs@.len() - i,
    {
        ts.push((cs[i].duplicate(), arg.duplicate()));
        assert(scoped(cs@.take(i + 1), *arg) =~= scoped(cs@.take(i as int), *arg).push(
            (cs@[i as int], *arg),
        ));
        i = i + 1;
    }
    assert(cs@.take(i as int) =~= cs@);
}

fn apply_field_attr(
    all: &mut Option<FieldArg>,
    ts: &mut Vec<(Conversion, FieldArg)>,
    a: &Attribute,
    name: &String,
    me: &String,
) -> (r: Option<DeriveError>)
    ensures
        match field_attr_step((*old(all), old(ts)@), *a, *name, *me) {
            Ok(next) => r is None && *final(all) == next.0 && final(ts)@ == next.1,
            Err(e) => r == Some(e),
        },
{
    if !same_text(&a.name, "convert") {
        return None;
    }
    if a.args.len() == 0 {
        return Some(DeriveError::EmptyArguments { field: name.clone() });
    }
    let scope = match &a.args[0] {
        Meta::List(k, items) => {
            if direction_keyword(k) {
                Some((k, items))
            } else {
                None
            }
        },
        _ => None,
    };
    match scope {
        Some((k, items)) => {
            let (_, any) = check_words(items);
            if !any {
                return Some(DeriveError::EmptyTargetList { key: k.clone() });
            }
            let inner = list_options(items);
            proof {
                lemma_parse_options_concat(
                    no_options(),
                    inner@,
                    a.args@.subrange(1, a.args@.len() as int),
                );
                assert(inner@.subrange(0, inner@.len() as int) =~= inner@);
            }
            let arg = match read_options(FieldArg::none(), &inner, 0) {
                Err(e) => {
                    return Some(e);
                },
                Ok(b) => match read_options(b, &a.args, 1) {
                    Err(e) => {
                        return Some(e);
                    },
                    Ok(c) => c,
                },
            };
            let cs = list_conversions(k, items, me);
            push_scoped(ts, &cs, &arg);
            None
        },
        None => {
            assert(a.args@.subrange(0, a.args@.len() as int) =~= a.args@);
            match read_options(FieldArg::none(), &a.args, 0) {
                Err(e) => Some(e),
                Ok(arg) => {
                    *all = Some(arg);
                    None
                },
            }
        },
    }
}

fn read_field(f: &Field, me: &String) -> (r: Result<ConvertField, DeriveError>)
    ensures
        match parse_field(*f, *me) {
            Ok(m) => r is Ok && r->Ok_0@ == m,
            Err(e) => r == Err::<ConvertField, DeriveError>(e),
        },
{
    let name = match &f.name {
        None => {
            return Err(DeriveError::UnnamedField);
        },
        Some(n) => n,
    };
    let mut all: Option<FieldArg> = None;
    let mut ts: Vec<(Conversion, FieldArg)> = Vec::new();
    let mut i: usize = 0;
    assert(f.attrs@.subrange(0, f.attrs@.len() as int) =~= f.attrs@);
    while i < f.attrs.len()
        invariant
            i <= f.attrs@.len(),
            f.name == Some(*name),
            field_attrs((all, ts@), f.attrs@.subrange(i as int, f.attrs@.len() as int), *name, *me)
                == field_attrs((None, seq![]), f.attrs@, *name, *me),
        decreases f.attrs@.len() - i,
    {
        let ghost rest = f.attrs@.subrange(i as int, f.attrs@.len() as int);
        assert(rest.subrange(1, rest.len() as int) =~= f.attrs@.subrange(
            i + 1,
            f.attrs@.len() as int,
        ));
        assert(rest[0] == f.attrs@[i as int]);
        let ghost before = (all, ts@);
        let e = apply_field_attr(&mut all, &mut ts, &f.attrs[i], name, me);
        if let Some(e) = e {
            assert(field_attrs(before, rest, *name, *me) == Err::<
                (Option<FieldArg>, Seq<(Conversion, FieldArg)>),
                DeriveError,
            >(e));
            return Err(e);
        }
        i = i + 1;
    }
    assert(f.attrs@.subrange(i as int, f.attrs@.len() as int).len() == 0);
    let all = match all {
        Some(a) => a,
        None => FieldArg::none(),
    };
    Ok(ConvertField { name: name.clone(), ty_name: dup_opt_string(&f.ty_name), all, targets: ts })
}

fn read_fields(fs: &Vec<Field>, me: &String) -> (r: Result<Vec<ConvertField>, DeriveError>)
    ensures
        match parse_fields(seq![], fs@, *me) {
            Ok(ms) => r is Ok && models(r->Ok_0@) == ms,
            Err(e) => r == Err::<Vec<ConvertField>, DeriveError>(e),
        },
{
    let mut out: Vec<ConvertField> = Vec::new();
    let mut i: usize = 0;
    assert(fs@.subrange(0, fs@.len() as int) =~= fs@);
    assert(models(out@) =~= seq![]);
    while i < fs.len()
        invariant
            i <= fs@.len(),
            parse_fields(models(out@), fs@.subrange(i as int, fs@.len() as int), *me)
                == parse_fields(seq![], fs@, *me),
        decreases fs@.len() - i,
    {
        let ghost rest = fs@.subrange(i as int, fs@.len() as int);
        assert(rest.subrange(1, rest.len() as int) =~= fs@.subrange(i + 1, fs@.len() as int));
        assert(rest[0] == fs@[i as int]);
        let ghost before = models(out@);
        match read_field(&fs[i], me) {
            Err(e) => {
                return Err(e);
            },
            Ok(cf) => {
                out.push(cf);
                assert(models(out@) =~= before.push(out@.last()@));
            },
        }
        i = i + 1;
    }
    assert(fs@.subrange(i as int, fs@.len() as int).len() == 0);
    Ok(out)
}

/// The first scoped option set, in order, whose conversion the struct does not declare.
pub open spec fn missing_target(
    ts: Seq<(Conversion, FieldArg)>,
    cs: Seq<Conversion>,
    field: String,
) -> Option<DeriveError>
    decreases ts.len(),
{
    if ts.len() == 0 {
        None
    } else if !has_conversion(cs, ts[0].0) {
        Some(DeriveError::MissingConversion { field, from: ts[0].0.from, to: ts[0].0.to })
    } else {
        missing_target(ts.subrange(1, ts.len() as int), cs, field)
    }
}

/// The first field, in order, that speaks of an undeclared conversion.
pub open spec fn missing_in_fields(fs: Seq<FieldModel>, cs: Seq<Conversion>) -> Option<
    DeriveError,
>
    decreases fs.len(),
{
    if fs.len() == 0 {
        None
    } else {
        match missing_target(fs[0].targets, cs, fs[0].name) {
            Some(e) => Some(e),
            None => missing_in_fields(fs.subrange(1, fs.len() as int), cs),
        }
    }
}

/// Whether the struct `me` declares a conversion into `target`.
pub open spec fn converts_into(cs: Seq<Conversion>, me: String, target: String) -> bool {
    exists|i: int| 0 <= i < cs.len() && cs[i].from@ == me@ && cs[i].to@ == target@
}

/// The first generated field, in order, whose target the struct does not convert into.
pub open spec fn missing_generate(gs: Seq<GenerateArg>, cs: Seq<Conversion>, me: String) -> Option<
    DeriveError,
>
    decreases gs.len(),
{
    if gs.len() == 0 {
        None
    } else if !converts_into(cs, me, gs[0].target) {
        Some(DeriveError::MissingGenerateTarget { target: gs[0].target })
    } else {
        missing_generate(gs.subrange(1, gs.len() as int), cs, me)
    }
}

/// Why the field annotations do not fit the type-level ones, if they do not.
pub open spec fn validation_error(
    fs: Seq<FieldModel>,
    cs: Seq<Conversion>,
    gs: Seq<GenerateArg>,
    me: String,
) -> Option<DeriveError> {
    match missing_in_fields(fs, cs) {
        Some(e) => Some(e),
        None => missing_generate(gs, cs, me),
    }
}

fn check_targets(ts: &Vec<(Conversion, FieldArg)>, cs: &Vec<Conversion>, field: &String) -> (r:
    Option<DeriveError>)
    ensures
        r == missing_target(ts@, cs@, *field),
{
    let mut i: usize = 0;
    assert(ts@.subrange(0, ts@.len() as int) =~= ts@);
    while i < ts.len()
        invariant
            i <= ts@.len(),
            missing_target(ts@.subrange(i as int, ts@.len() as int), cs@, *field)
                == missing_target(ts@, cs@, *field),
        decreases ts@.len() - i,
    {
        let ghost rest = ts@.subrange(i as int, ts@.len() as int);
        assert(rest.subrange(1, rest.len() as int) =~= ts@.subrange(i + 1, ts@.len() as int));
        assert(rest[0] == ts@[i as int]);
        let c = &ts[i].0;
        if !contains_conversion(cs, c) {
            return Some(
                DeriveError::MissingConversion {
                    field: field.clone(),
                    from: c.from.clone(),
                    to: c.to.clone(),
                },
            );
        }
        i = i + 1;
    }
    assert(ts@.subrange(i as int, ts@.len() as int).len() == 0);
    None
}

fn has_into(cs: &Vec<Conversion>, me: &String, target: &String) -> (r: bool)
    ensures
        r == converts_into(cs@, *me, *target),
{
    let mut i: usize = 0;
    while i < cs.len()
        invariant
            i <= cs@.len(),
            forall|j: int| 0 <= j < i ==> !(cs@[j].from@ == me@ && cs@[j].to@ == target@),
        decreases cs@.len() - i,
    {
        if same_string(&cs[i].from, me) && same_string(&cs[i].to, target) {
            return true;
        }
        i = i + 1;
    }
    false
}

fn validate(fs: &Vec<ConvertField>, cs: &Vec<Conversion>, gs: &Vec<GenerateArg>, me: &String) -> (r:
    Option<DeriveError>)
    ensures
        r == validation_error(models(fs@), cs@, gs@, *me),
{
    let ghost ms = models(fs@);
    let mut i: usize = 0;
    assert(ms.subrange(0, ms.len() as int) =~= ms);
    while i < fs.len()
        invariant
            i <= fs@.len(),
            ms == models(fs@),
            missing_in_fields(ms.subrange(i as int, ms.len() as int), cs@) == missing_in_fields(
                ms,
                cs@,
            ),
        decreases fs@.len() - i,
    {
        let ghost rest = ms.subrange(i as int, ms.len() as int);
        assert(rest.subrange(1, rest.len() as int) =~= ms.subrange(i + 1, ms.len() as int));
        assert(rest[0] == fs@[i as int]@);
        let e = check_targets(&fs[i].targets, cs, &fs[i].name);
        if e.is_some() {
            return e;
        }
        i = i + 1;
    }
    assert(ms.subrange(i as int, ms.len() as int).len() == 0);
    let mut j: usize = 0;
    assert(gs@.subrange(0, gs@.len() as int) =~= gs@);
    while j < gs.len()
        invariant
            j <= gs@.len(),
            missing_in_fields(ms, cs@) is None,
            ms == models(fs@),
            missing_generate(gs@.subrange(j as int, gs@.len() as int), cs@, *me)
                == missing_generate(gs@, cs@, *me),
        decreases gs@.len() - j,
    {
        let ghost rest = gs@.subrange(j as int, gs@.len() as int);
        assert(rest.subrange(1, rest.len() as int) =~= gs@.subrange(j + 1, gs@.len() as int));
        assert(rest[0] == gs@[j as int]);
        if !has_into(cs, me, &gs[j].target) {
            return Some(DeriveError::MissingGenerateTarget { target: gs[j].target.clone() });
        }
        j = j + 1;
    }
    assert(gs@.subrange(j as int, gs@.len() as int).len() == 0);
    None
}

/// How a field's value is carried over when no mapping is given.
#[derive(Clone, Copy, Debug, PartialEq, Eq)]
pub enum Strategy {
    /// `value.field.into()`
    Direct,
    /// `value.field.map(Into::into)`
    EachOption,
    /// `value.field.into_iter().map(Into::into).collect()`
    EachElement,
}

/// The default strategy for a field whose type path ends in `ty`.
pub open spec fn strategy_of(ty: Option<String>) -> Strategy {
    match ty {
        Some(t) => if t@ == "Vec"@ {
            Strategy::EachElement
        } else if t@ == "Option"@ {
            Strategy::EachOption
        } else {
            Strategy::Direct
        },
        None => Strategy::Direct,
    }
}

fn default_strategy(ty: &Option<String>) -> (r: Strategy)
    ensures
        r == strategy_of(*ty),
{
    match ty {
        Some(t) => if same_text(t, "Vec") {
            Strategy::EachElement
        } else if same_text(t, "Option") {
            Strategy::EachOption
        } else {
            Strategy::Direct
        },
        None => Strategy::Direct,
    }
}

/// The expression that computes one field of the target, over the source `value`.
#[derive(Clone, Debug, PartialEq, Eq)]
pub enum FieldValue {
    /// An expression written by the user.
    Expr(MetaValue),
    /// `func(value.source)`
    CallField { func: String, source: String },
    /// `func(&value)`
    CallStruct { func: String },
    /// `value.source`, carried over by the strategy.
    Convert { source: String, strategy: Strategy },
}

/// `target: value` in the generated struct expression.
#[derive(Clone, Debug, PartialEq, Eq)]
pub struct FieldInit {
    pub target: String,
    pub value: FieldValue,
}

/// One `impl From<from> for to`, with the fields it sets in order.
#[derive(Clone, Debug, PartialEq, Eq)]
pub struct ConversionImpl {
    pub from: String,
    pub to: String,
    pub fields: Vec<FieldInit>,
}

pub struct ImplModel {
    pub from: String,
    pub to: String,
    pub fields: Seq<FieldInit>,
}

impl View for ConversionImpl {
    type V = ImplModel;

    open spec fn view(&self) -> ImplModel {
        ImplModel { from: self.from, to: self.to, fields: self.fields@ }
    }
}

/// The options given last for the conversion `c`, if any were.
pub open spec fn scoped_arg(ts: Seq<(Conversion, FieldArg)>, c: Conversion) -> Option<FieldArg>
    decreases ts.len(),
{
    if ts.len() == 0 {
        None
    } else if ts.last().0.same(c) {
        Some(ts.last().1)
    } else {
        scoped_arg(ts.drop_last(), c)
    }
}

/// The options of field `f` for the conversion `c`: those given for `c` laid
/// on those given for every conversion.
pub open spec fn arg_for(f: FieldModel, c: Conversion) -> FieldArg {
    match scoped_arg(f.targets, c) {
        Some(o) => merged(f.all, o),
        None => f.all,
    }
}

/// The field initialiser that field `f` of the struct `me` gives for `c`.
pub open spec fn field_init(f: FieldModel, c: Conversion, me: String) -> FieldInit {
    let a = arg_for(f, c);
    let renamed = match a.rename {
        Some(r) => r,
        None => f.name,
    };
    let target = if c.to@ == me@ {
        f.name
    } else {
        renamed
    };
    let source = if c.to@ == me@ {
        renamed
    } else {
        f.name
    };
    FieldInit {
        target,
        value: match a.map {
            Some(FieldMap::Expr(v)) => FieldValue::Expr(v),
            Some(FieldMap::FieldFn(p)) => FieldValue::CallField { func: p, source },
            Some(FieldMap::StructFn(p)) => FieldValue::CallStruct { func: p },
            None => FieldValue::Convert { source, strategy: strategy_of(f.ty_name) },
        },
    }
}

/// The initialisers of the fields not ignored for `c`, in declaration order.
pub open spec fn field_inits(fs: Seq<FieldModel>, c: Conversion, me: String) -> Seq<FieldInit>
    decreases fs.len(),
{
    if fs.len() == 0 {
        seq![]
    } else {
        let rest = field_inits(fs.drop_last(), c, me);
        if arg_for(fs.last(), c).ignore {
            rest
        } else {
            rest.push(field_init(fs.last(), c, me))
        }
    }
}

/// The initialisers that `generate` declares for the target `to`.
pub open spec fn generated_inits(gs: Seq<GenerateArg>, to: String) -> Seq<FieldInit>
    decreases gs.len(),
{
    if gs.len() == 0 {
        seq![]
    } else {
        let rest = generated_inits(gs.drop_last(), to);
        if gs.last().target@ == to@ {
            rest.push(FieldInit { target: gs.last().field, value: FieldValue::Expr(gs.last().value) })
        } else {
            rest
        }
    }
}

/// All initialisers of the implementation for `c`: generated fields first.
pub open spec fn impl_inits(
    fs: Seq<FieldModel>,
    gs: Seq<GenerateArg>,
    c: Conversion,
    me: String,
) -> Seq<FieldInit> {
    (if c.from@ == me@ {
        generated_inits(gs, c.to)
    } else {
        seq![]
    }) + field_inits(fs, c, me)
}

fn lookup_scoped<'a>(ts: &'a Vec<(Conversion, FieldArg)>, c: &Conversion) -> (r: Option<
    &'a FieldArg,
>)
    ensures
        match scoped_arg(ts@, *c) {
            Some(a) => r is Some && *r->Some_0 == a,
            None => r is None,
        },
{
    let mut j = ts.len();
    assert(ts@.take(j as int) =~= ts@);
    while j > 0
        invariant
            j <= ts@.len(),
            scoped_arg(ts@.take(j as int), *c) == scoped_arg(ts@, *c),
        decreases j,
    {
        assert(ts@.take(j as int).drop_last() =~= ts@.take(j - 1));
        assert(ts@.take(j as int).last() == ts@[j - 1]);
        if ts[j - 1].0.same_as(c) {
            return Some(&ts[j - 1].1);
        }
        j = j - 1;
    }
    None
}

fn arg_for_conversion(f: &ConvertField, c: &Conversion) -> (r: FieldArg)
    ensures
        r == arg_for(f@, *c),
{
    match lookup_scoped(&f.targets, c) {
        Some(o) => f.all.merge(o),
        None => f.all.duplicate(),
    }
}

fn init_of(f: &ConvertField, a: &FieldArg, c: &Conversion, me: &String) -> (r: FieldInit)
    requires
        *a == arg_for(f@, *c),
    ensures
        r == field_init(f@, *c, *me),
{
    let renamed = match &a.rename {
        Some(r) => r.clone(),
        None => f.name.clone(),
    };
    let into_me = same_string(&c.to, me);
    let (target, source) = if into_me {
        (f.name.clone(), renamed)
    } else {
        (renamed, f.name.clone())
    };
    let value = match &a.map {
        Some(FieldMap::Expr(v)) => FieldValue::Expr(v.duplicate()),
        Some(FieldMap::FieldFn(p)) => FieldValue::CallField { func: p.clone(), source },
        Some(FieldMap::StructFn(p)) => FieldValue::CallStruct { func: p.clone() },
        None => FieldValue::Convert { source, strategy: default_strategy(&f.ty_name) },
    };
    FieldInit { target, value }
}

fn emit_impl(
    fs: &Vec<ConvertField>,
    gs: &Vec<GenerateArg>,
    c: &Conversion,
    me: &String,
) -> (r: ConversionImpl)
    ensures
        r@ == (ImplModel { from: c.from, to: c.to, fields: impl_inits(models(fs@), gs@, *c, *me) }),
{
    let mut out: Vec<FieldInit> = Vec::new();
    let from_me = same_string(&c.from, me);
    if from_me {
        let mut i: usize = 0;
        while i < gs.len()
            invariant
                i <= gs@.len(),
                out@ == generated_inits(gs@.take(i as int), c.to),
            decreases gs@.len() - i,
        {
            assert(gs@.take(i + 1).drop_last() =~= gs@.take(i as int));
            let g = &gs[i];
            if same_string(&g.target, &c.to) {
                out.push(FieldInit { target: g.field.clone(), value: FieldValue::Expr(g.value.duplicate()) });
            }
            i = i + 1;
        }
        assert(gs@.take(i as int) =~= gs@);
    }
    let ghost head = out@;
    assert(head == (if c.from@ == me@ {
        generated_inits(gs@, c.to)
    } else {
        seq![]
    }));
    let ghost ms = models(fs@);
    let mut i: usize = 0;
    while i < fs.len()
        invariant
            i <= fs@.len(),
            ms == models(fs@),
            out@ == head + field_inits(ms.take(i as int), *c, *me),
        decreases fs@.len() - i,
    {
        assert(ms.take(i + 1).drop_last() =~= ms.take(i as int));
        assert(ms.take(i + 1).last() == fs@[i as int]@);
        let a = arg_for_conversion(&fs[i], c);
        if !a.ignore {
            let init = init_of(&fs[i], &a, c, me);
            out.push(init);
        }
        assert(out@ =~= head + field_inits(ms.take(i + 1), *c, *me));
        i = i + 1;
    }
    assert(ms.take(i as int) =~= ms);
    ConversionImpl { from: c.from.clone(), to: c.to.clone(), fields: out }
}

/// What the struct-conversion generator makes of a declaration.
pub open spec fn convert_spec(d: DeriveInput) -> Result<Seq<ImplModel>, DeriveError> {
    match d.body {
        Body::Struct(Fields::Named(fs)) => match type_attrs((seq![], seq![]), d.attrs@, d.name) {
            Err(e) => Err(e),
            Ok(acc) => if acc.0.len() == 0 {
                Err(DeriveError::NoConversions)
            } else {
                match parse_fields(seq![], fs@, d.name) {
                    Err(e) => Err(e),
                    Ok(ms) => match validation_error(ms, acc.0, acc.1, d.name) {
                        Some(e) => Err(e),
                        None => Ok(
                            acc.0.map_values(
                                |c: Conversion|
                                    ImplModel {
                                        from: c.from,
                                        to: c.to,
                                        fields: impl_inits(ms, acc.1, c, d.name),
                                    },
                            ),
                        ),
                    },
                }
            },
        },
        _ => Err(DeriveError::NotNamedStruct),
    }
}

/// Derives the `From` implementations that the `convert` and `generate`
/// annotations of a struct with named fields ask for, one per distinct
/// conversion, in the order first declared.
pub fn derive_convert(input: &DeriveInput) -> (r: Result<Vec<ConversionImpl>, DeriveError>)
    ensures
        match convert_spec(*input) {
            Ok(ims) => r is Ok && r->Ok_0@.map_values(|i: ConversionImpl| i@) == ims,
            Err(e) => r == Err::<Vec<ConversionImpl>, DeriveError>(e),
        },
{
    let fields = match &input.body {
        Body::Struct(Fields::Named(fs)) => fs,
        _ => {
            return Err(DeriveError::NotNamedStruct);
        },
    };
    let me = &input.name;
    let (cs, gs) = match read_type_attrs(&input.attrs, me) {
        Err(e) => {
            return Err(e);
        },
        Ok(p) => p,
    };
    if cs.len() == 0 {
        return Err(DeriveError::NoConversions);
    }
    let fs = match read_fields(fields, me) {
        Err(e) => {
            return Err(e);
        },
        Ok(fs) => fs,
    };
    if let Some(e) = validate(&fs, &cs, &gs, me) {
        return Err(e);
    }
    let ghost ms = models(fs@);
    let mut out: Vec<ConversionImpl> = Vec::new();
    let mut i: usize = 0;
    while i < cs.len()
        invariant
            i <= cs@.len(),
            ms == models(fs@),
            out@.len() == i,
            forall|j: int|
                0 <= j < i ==> (#[trigger] out@[j])@ == (ImplModel {
                    from: cs@[j].from,
                    to: cs@[j].to,
                    fields: impl_inits(ms, gs@, cs@[j], *me),
                }),
        decreases cs@.len() - i,
    {
        let im = emit_impl(&fs, &gs, &cs[i], me);
        out.push(im);
        i = i + 1;
    }
    assert(out@.map_values(|i: ConversionImpl| i@) =~= cs@.map_values(
        |c: Conversion| ImplModel { from: c.from, to: c.to, fields: impl_inits(ms, gs@, c, *me) },
    ));
    Ok(out)
}

/// The record that an implementation builds from the source record `src`
/// when each carried-over field keeps its value (a non-lossy conversion);
/// fields computed by user code are left out.
pub open spec fn carried<V>(inits: Seq<FieldInit>, src: Map<Seq<char>, V>) -> Map<Seq<char>, V>
    decreases inits.len(),
{
    if inits.len() == 0 {
        Map::empty()
    } else {
        let rest = carried(inits.drop_last(), src);
        match inits.last().value {
            FieldValue::Convert { source, .. } => rest.insert(inits.last().target@, src[source@]),
            _ => rest,
        }
    }
}

/// The name that field `f` has on the other side under options `a`.
pub open spec fn other_name(f: FieldModel, a: FieldArg) -> Seq<char> {
    match a.rename {
        Some(r) => r@,
        None => f.name@,
    }
}

proof fn lemma_field_inits_all(ms: Seq<FieldModel>, c: Conversion, me: String)
    requires
        forall|k: int| 0 <= k < ms.len() ==> !(#[trigger] arg_for(ms[k], c)).ignore,
    ensures
        field_inits(ms, c, me) =~= Seq::new(ms.len(), |k: int| field_init(ms[k], c, me)),
    decreases ms.len(),
{
    if ms.len() > 0 {
        let front = ms.drop_last();
        assert forall|k: int| 0 <= k < front.len() implies !(#[trigger] arg_for(front[k], c)).ignore by {
            assert(front[k] == ms[k]);
        }
        lemma_field_inits_all(front, c, me);
        assert(!arg_for(ms[ms.len() - 1], c).ignore);
    }
}

proof fn lemma_carried_skip<V>(xs: Seq<FieldInit>, ys: Seq<FieldInit>, src: Map<Seq<char>, V>)
    requires
        forall|k: int| 0 <= k < xs.len() ==> !(xs[k].value is Convert),
    ensures
        carried(xs + ys, src) == carried(ys, src),
    decreases xs.len() + ys.len(),
{
    if ys.len() == 0 {
        assert(xs + ys =~= xs);
        if xs.len() > 0 {
            lemma_carried_skip(xs.drop_last(), ys, src);
            assert(xs.drop_last() + ys =~= xs.drop_last());
        }
    } else {
        assert((xs + ys).drop_last() =~= xs + ys.drop_last());
        assert((xs + ys).last() == ys.last());
        lemma_carried_skip(xs, ys.drop_last(), src);
    }
}

proof fn lemma_carried<V>(inits: Seq<FieldInit>, src: Map<Seq<char>, V>)
    requires
        forall|k: int| 0 <= k < inits.len() ==> inits[k].value is Convert,
        forall|a: int, b: int|
            0 <= a < b < inits.len() ==> inits[a].target@ != inits[b].target@,
    ensures
        forall|k: int|
            0 <= k < inits.len() ==> carried(inits, src).contains_key(
                #[trigger] inits[k].target@,
            ) && carried(inits, src)[inits[k].target@] == src[inits[k].value->Convert_source@],
        forall|key: Seq<char>|
            #[trigger] carried(inits, src).contains_key(key) ==> exists|k: int|
                0 <= k < inits.len() && inits[k].target@ == key,
    decreases inits.len(),
{
    if inits.len() > 0 {
        let front = inits.drop_last();
        lemma_carried(front, src);
        let n = inits.len() - 1;
        assert forall|k: int|
            0 <= k < inits.len() implies carried(inits, src).contains_key(
            #[trigger] inits[k].target@,
        ) && carried(inits, src)[inits[k].target@] == src[inits[k].value->Convert_source@] by {
            if k < n {
                assert(front[k] == inits[k]);
            }
        }
        assert forall|key: Seq<char>| #[trigger]
            carried(inits, src).contains_key(key) implies exists|k: int|
            0 <= k < inits.len() && inits[k].target@ == key by {
            if key != inits[n].target@ {
                assert(carried(front, src).contains_key(key));
                let k = choose|k: int| 0 <= k < front.len() && front[k].target@ == key;
                assert(inits[k] == front[k]);
            }
        }
    }
}

/// Round trip: where a struct declares conversions into and from a type `b`
/// and every field is carried over in both directions (not ignored, no
/// mapping) under the same name on `b`, distinct for distinct fields, then
/// converting a record to `b` and back gives the record again, when every
/// carried-over value keeps its value.
pub proof fn lemma_round_trip<V>(
    d: DeriveInput,
    ms: Seq<FieldModel>,
    gs: Seq<GenerateArg>,
    into_b: Conversion,
    from_b: Conversion,
    r: Map<Seq<char>, V>,
)
    requires
        d.body matches Body::Struct(Fields::Named(fs)) && parse_fields(seq![], fs@, d.name) == Ok::<
            Seq<FieldModel>,
            DeriveError,
        >(ms),
        into_b.from@ == d.name@,
        from_b.to@ == d.name@,
        from_b.from@ == into_b.to@,
        into_b.to@ != d.name@,
        forall|k: int|
            0 <= k < ms.len() ==> {
                let ai = #[trigger] arg_for(ms[k], into_b);
                let af = arg_for(ms[k], from_b);
                !ai.ignore && !af.ignore && ai.map is None && af.map is None && other_name(
                    ms[k],
                    ai,
                ) == other_name(ms[k], af)
            },
        forall|a: int, b: int| 0 <= a < b < ms.len() ==> ms[a].name@ != ms[b].name@,
        forall|a: int, b: int|
            0 <= a < b < ms.len() ==> other_name(ms[a], arg_for(ms[a], into_b)) != other_name(
                ms[b],
                arg_for(ms[b], into_b),
            ),
        r.dom() == Set::new(|n: Seq<char>| exists|k: int| 0 <= k < ms.len() && ms[k].name@ == n),
    ensures
        carried(impl_inits(ms, gs, from_b, d.name), carried(impl_inits(ms, gs, into_b, d.name), r))
            == r,
{
    let me = d.name;
    assert forall|k: int| 0 <= k < ms.len() implies !(#[trigger] arg_for(ms[k], into_b)).ignore by {
        let _ = arg_for(ms[k], into_b);
    }
    assert forall|k: int| 0 <= k < ms.len() implies !(#[trigger] arg_for(ms[k], from_b)).ignore by {
        let _ = arg_for(ms[k], into_b);
    }
    lemma_field_inits_all(ms, into_b, me);
    lemma_field_inits_all(ms, from_b, me);
    let fi = field_inits(ms, into_b, me);
    let ff = field_inits(ms, from_b, me);
    let gen = generated_inits(gs, into_b.to);
    lemma_generated_inits_exprs(gs, into_b.to);
    assert(impl_inits(ms, gs, into_b, me) == gen + fi);
    assert(impl_inits(ms, gs, from_b, me) =~= ff);
    lemma_carried_skip(gen, fi, r);
    assert forall|k: int| 0 <= k < fi.len() implies fi[k].value is Convert by {
        let _ = arg_for(ms[k], into_b);
    }
    assert forall|a: int, b: int| 0 <= a < b < fi.len() implies fi[a].target@ != fi[b].target@ by {
        let _ = arg_for(ms[a], into_b);
        let _ = arg_for(ms[b], into_b);
    }
    lemma_carried(fi, r);
    let mid = carried(fi, r);
    assert forall|k: int| 0 <= k < ff.len() implies ff[k].value is Convert by {
        let _ = arg_for(ms[k], into_b);
    }
    assert forall|a: int, b: int| 0 <= a < b < ff.len() implies ff[a].target@ != ff[b].target@ by {
    }
    lemma_carried(ff, mid);
    let out = carried(ff, mid);
    assert forall|n: Seq<char>| #[trigger] out.contains_key(n) <==> r.contains_key(n) by {
        if out.contains_key(n) {
            let k = choose|k: int| 0 <= k < ff.len() && ff[k].target@ == n;
            assert(r.dom().contains(n));
        }
        if r.contains_key(n) {
            assert(r.dom().contains(n));
            let k = choose|k: int| 0 <= k < ms.len() && ms[k].name@ == n;
            assert(ff[k].target@ == n);
        }
    }
    assert forall|n: Seq<char>| out.contains_key(n) implies #[trigger] out[n] == r[n] by {
        let k = choose|k: int| 0 <= k < ff.len() && ff[k].target@ == n;
        let _ = arg_for(ms[k], into_b);
        assert(fi[k].target@ == ff[k].value->Convert_source@);
        assert(mid[fi[k].target@] == r[fi[k].value->Convert_source@]);
    }
    assert(out =~= r);
}

proof fn lemma_generated_inits_exprs(gs: Seq<GenerateArg>, to: String)
    ensures
        forall|k: int|
            0 <= k < generated_inits(gs, to).len() ==> !(generated_inits(gs, to)[k].value is Convert),
    decreases gs.len(),
{
    if gs.len() > 0 {
        lemma_generated_inits_exprs(gs.drop_last(), to);
    }
}

proof fn lemma_scoped_arg(ts: Seq<(Conversion, FieldArg)>, c: Conversion)
    ensures
        scoped_arg(ts, c) matches Some(a) ==> exists|i: int|
            0 <= i < ts.len() && ts[i].0.same(c) && ts[i].1 == a,
    decreases ts.len(),
{
    if ts.len() > 0 && !ts.last().0.same(c) {
        lemma_scoped_arg(ts.drop_last(), c);
        if scoped_arg(ts, c) is Some {
            let i = choose|i: int|
                0 <= i < ts.drop_last().len() && ts.drop_last()[i].0.same(c) && ts.drop_last()[i].1
                    == scoped_arg(ts, c)->Some_0;
            assert(ts[i] == ts.drop_last()[i]);
        }
    }
}

proof fn lemma_field_kept(ms: Seq<FieldModel>, c: Conversion, me: String, k: int)
    requires
        0 <= k < ms.len(),
        !arg_for(ms[k], c).ignore,
    ensures
        field_inits(ms, c, me).contains(field_init(ms[k], c, me)),
    decreases ms.len(),
{
    let rest = field_inits(ms.drop_last(), c, me);
    if k == ms.len() - 1 {
        assert(field_inits(ms, c, me) == rest.push(field_init(ms[k], c, me)));
        assert(field_inits(ms, c, me)[rest.len() as int] == field_init(ms[k], c, me));
    } else {
        assert(ms.drop_last()[k] == ms[k]);
        lemma_field_kept(ms.drop_last(), c, me, k);
        let j = choose|j: int| 0 <= j < rest.len() && rest[j] == field_init(ms[k], c, me);
        if !arg_for(ms.last(), c).ignore {
            assert(field_inits(ms, c, me)[j] == rest[j]);
        }
    }
}

/// An `ignore` given for chosen conversions removes the field from those
/// alone: in a conversion `c` for which neither the field's options for every
/// conversion nor any options given for `c` ignore it, the field is set.
pub proof fn lemma_scoped_ignore(ms: Seq<FieldModel>, c: Conversion, me: String, k: int)
    requires
        0 <= k < ms.len(),
        !ms[k].all.ignore,
        forall|i: int|
            0 <= i < ms[k].targets.len() && (#[trigger] ms[k].targets[i]).0.same(c)
                ==> !ms[k].targets[i].1.ignore,
    ensures
        field_inits(ms, c, me).contains(field_init(ms[k], c, me)),
{
    lemma_scoped_arg(ms[k].targets, c);
    lemma_field_kept(ms, c, me, k);
}

} // verus!
