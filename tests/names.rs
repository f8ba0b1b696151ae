use more_convert::names::display_name;
use more_convert::{
    derive_enum_name, derive_variant_name, Attribute, Body, CaseRule, DeriveError, DeriveInput,
    Field, Fields, Meta, MetaValue, NameArm, NameOptions, NamePlan, Variant,
};

fn s(x: &str) -> String {
    x.to_string()
}

fn assign(k: &str, v: &str) -> Meta {
    Meta::Assign(s(k), MetaValue::Str(s(v)))
}

fn attr(name: &str, args: Vec<Meta>) -> Attribute {
    Attribute { name: s(name), args }
}

fn unit(name: &str, attrs: Vec<Attribute>) -> Variant {
    Variant { name: s(name), fields: Fields::Unit, discriminant: None, attrs }
}

fn with_field(name: &str, named: bool, attrs: Vec<Attribute>) -> Variant {
    let f = Field { name: if named { Some(s("sample")) } else { None }, ty_name: Some(s("u8")), attrs: vec![] };
    Variant {
        name: s(name),
        fields: if named { Fields::Named(vec![f]) } else { Fields::Unnamed(vec![f]) },
        discriminant: None,
        attrs,
    }
}

fn enumeration(name: &str, attrs: Vec<Attribute>, variants: Vec<Variant>) -> DeriveInput {
    DeriveInput { name: s(name), attrs, body: Body::Enum(variants) }
}

/// The enum of the name tests: `InvalidCode`, `B`, and `He { sample: u8 }`
/// (`HE` when `upper_he`).
fn sample_enum(attr_name: &str, args: Vec<Meta>, upper_he: bool) -> DeriveInput {
    let attrs = if args.is_empty() { vec![] } else { vec![attr(attr_name, args)] };
    enumeration(
        "TestEnumName",
        attrs,
        vec![unit("InvalidCode", vec![]), unit("B", vec![]), with_field(if upper_he { "HE" } else { "He" }, true, vec![])],
    )
}

fn names(plan: &NamePlan) -> Vec<String> {
    plan.arms
        .iter()
        .map(|a| match a {
            NameArm::Name(n) => n.clone(),
            NameArm::Nest { .. } => s("<nested>"),
        })
        .collect()
}

fn all_args() -> Vec<Meta> {
    vec![assign("rename_all", "snake_case"), assign("prefix", "Prefix_"), assign("suffix", "_Suffix")]
}

#[test]
fn all_main() {
    let plan = derive_enum_name(&sample_enum("enum_name", all_args(), false)).unwrap();
    assert_eq!(names(&plan), vec![s("Prefix_invalid_code_Suffix"), s("Prefix_b_Suffix"), s("Prefix_he_Suffix")]);
}

#[test]
fn variant_name_all_main() {
    let plan = derive_variant_name(&sample_enum("variant_name", all_args(), false)).unwrap();
    assert_eq!(names(&plan), vec![s("Prefix_invalid_code_Suffix"), s("Prefix_b_Suffix"), s("Prefix_he_Suffix")]);
}

#[test]
fn enum_name_normal_main() {
    let plan = derive_enum_name(&sample_enum("enum_name", vec![], true)).unwrap();
    assert_eq!(names(&plan), vec![s("InvalidCode"), s("B"), s("HE")]);
    assert!(!plan.without_trait);
}

#[test]
fn variant_name_normal_main() {
    let plan = derive_variant_name(&sample_enum("variant_name", vec![], true)).unwrap();
    assert_eq!(names(&plan), vec![s("InvalidCode"), s("B"), s("HE")]);
}

#[test]
fn prefix_suffix_main() {
    let args = vec![assign("prefix", "Prefix_"), assign("suffix", "_Suffix")];
    let plan = derive_enum_name(&sample_enum("enum_name", args, false)).unwrap();
    assert_eq!(names(&plan), vec![s("Prefix_InvalidCode_Suffix"), s("Prefix_B_Suffix"), s("Prefix_He_Suffix")]);
}

#[test]
fn variant_name_prefix_suffix_main() {
    let args = vec![assign("prefix", "Prefix_"), assign("suffix", "_Suffix")];
    let plan = derive_variant_name(&sample_enum("variant_name", args, false)).unwrap();
    assert_eq!(names(&plan), vec![s("Prefix_InvalidCode_Suffix"), s("Prefix_B_Suffix"), s("Prefix_He_Suffix")]);
}

#[test]
fn without_trait_main() {
    let args = vec![assign("rename_all", "snake_case"), Meta::Word(s("without_trait"))];
    let plan = derive_enum_name(&sample_enum("enum_name", args, false)).unwrap();
    assert_eq!(names(&plan), vec![s("invalid_code"), s("b"), s("he")]);
    assert!(plan.without_trait);
}

#[test]
fn rename_all_main() {
    let args = vec![assign("rename_all", "snake_case")];
    let plan = derive_variant_name(&sample_enum("variant_name", args, false)).unwrap();
    assert_eq!(names(&plan), vec![s("invalid_code"), s("b"), s("he")]);
    assert!(!plan.without_trait);
}

fn nest_check(attr_name: &str, derive: fn(&DeriveInput) -> Result<NamePlan, DeriveError>) {
    let inner = enumeration("Inner", vec![attr(attr_name, vec![assign("prefix", "Inner")])], vec![unit("A", vec![]), unit("B", vec![])]);
    let outer = enumeration(
        "TestEnumName",
        vec![],
        vec![unit("InvalidCode", vec![]), with_field("Inner", false, vec![attr(attr_name, vec![Meta::Word(s("nest"))])])],
    );
    let outer_plan = derive(&outer).unwrap();
    assert_eq!(outer_plan.arms[0], NameArm::Name(s("InvalidCode")));
    assert_eq!(outer_plan.arms[1], NameArm::Nest { field: None });
    let inner_plan = derive(&inner).unwrap();
    assert_eq!(names(&inner_plan), vec![s("InnerA"), s("InnerB")]);
    // `TestEnumName::Inner(Inner::B)` resolves through the nested lookup.
    let resolved = match &outer_plan.arms[1] {
        NameArm::Nest { .. } => names(&inner_plan)[1].clone(),
        NameArm::Name(n) => n.clone(),
    };
    assert_eq!(resolved, "InnerB");
}

#[test]
fn nest_main() {
    nest_check("enum_name", derive_enum_name);
}

#[test]
fn variant_name_nest_main() {
    nest_check("variant_name", derive_variant_name);
}

#[test]
fn rename_takes_precedence() {
    let d = enumeration(
        "E",
        vec![attr("variant_name", all_args())],
        vec![unit("InvalidCode", vec![attr("variant_name", vec![assign("rename", "exactly this")])]), unit("Other", vec![])],
    );
    let plan = derive_variant_name(&d).unwrap();
    assert_eq!(names(&plan), vec![s("exactly this"), s("Prefix_other_Suffix")]);
}

#[test]
fn named_nest_binds_the_field() {
    let d = enumeration("E", vec![], vec![with_field("V", true, vec![attr("enum_name", vec![Meta::Word(s("nest"))])])]);
    assert_eq!(derive_enum_name(&d).unwrap().arms, vec![NameArm::Nest { field: Some(s("sample")) }]);
}

#[test]
fn raw_identifiers_lose_their_marker() {
    let d = enumeration("E", vec![attr("enum_name", vec![assign("rename_all", "UPPERCASE")])], vec![unit("r#type", vec![])]);
    assert_eq!(names(&derive_enum_name(&d).unwrap()), vec![s("TYPE")]);
}

#[test]
fn every_case_rule() {
    let cases = [
        ("lowercase", CaseRule::Lower, "invalid code"),
        ("UPPERCASE", CaseRule::Upper, "INVALID CODE"),
        ("PascalCase", CaseRule::Pascal, "InvalidCode"),
        ("camelCase", CaseRule::Camel, "invalidCode"),
        ("snake_case", CaseRule::Snake, "invalid_code"),
        ("SCREAMING_SNAKE_CASE", CaseRule::ScreamingSnake, "INVALID_CODE"),
        ("kebab-case", CaseRule::Kebab, "invalid-code"),
        ("SCREAMING-KEBAB-CASE", CaseRule::ScreamingKebab, "INVALID-CODE"),
    ];
    for (text, rule, expected) in cases {
        assert_eq!(CaseRule::from_name(&s(text)), Some(rule));
        let o = NameOptions { rename_all: Some(rule), prefix: None, suffix: None, without_trait: false };
        assert_eq!(display_name(&o, &s("InvalidCode"), &None), expected);
    }
    assert_eq!(CaseRule::from_name(&s("Title Case")), None);
}

#[test]
fn name_errors() {
    let st = DeriveInput { name: s("S"), attrs: vec![], body: Body::Struct(Fields::Unit) };
    assert_eq!(derive_enum_name(&st), Err(DeriveError::NotEnum));
    let bad_rule = enumeration("E", vec![attr("enum_name", vec![assign("rename_all", "Title Case")])], vec![]);
    assert_eq!(derive_enum_name(&bad_rule), Err(DeriveError::InvalidCaseRule { rule: s("Title Case") }));
    let dup = enumeration("E", vec![attr("enum_name", vec![assign("prefix", "a"), assign("prefix", "b")])], vec![]);
    assert_eq!(derive_enum_name(&dup), Err(DeriveError::Duplicate { key: s("prefix") }));
    let not_str = enumeration(
        "E",
        vec![attr("enum_name", vec![Meta::Assign(s("suffix"), MetaValue::Path(s("x")))])],
        vec![],
    );
    assert_eq!(derive_enum_name(&not_str), Err(DeriveError::ExpectedString { key: s("suffix") }));
    let unknown = enumeration("E", vec![attr("enum_name", vec![Meta::Word(s("nest"))])], vec![]);
    assert_eq!(derive_enum_name(&unknown), Err(DeriveError::Unrecognized { key: s("nest") }));
    let nest = |v: Variant| enumeration("E", vec![], vec![v]);
    let nested_attr = || vec![attr("enum_name", vec![Meta::Word(s("nest"))])];
    assert_eq!(
        derive_enum_name(&nest(unit("U", nested_attr()))),
        Err(DeriveError::NestUnitVariant { variant: s("U") })
    );
    let empty = Variant { name: s("V"), fields: Fields::Unnamed(vec![]), discriminant: None, attrs: nested_attr() };
    assert_eq!(derive_enum_name(&nest(empty)), Err(DeriveError::NestNoFields { variant: s("V") }));
    let f = Field { name: None, ty_name: None, attrs: vec![] };
    let two = Variant { name: s("W"), fields: Fields::Unnamed(vec![f.clone(), f]), discriminant: None, attrs: nested_attr() };
    assert_eq!(derive_enum_name(&nest(two)), Err(DeriveError::NestMultipleFields { variant: s("W") }));
}

#[test]
fn empty_enum_has_no_arms() {
    let plan = derive_variant_name(&enumeration("E", vec![], vec![])).unwrap();
    assert!(plan.arms.is_empty());
}
