use more_convert::{
    derive_convert, FieldArg, FieldMap, Attribute, Body, ConversionImpl, DeriveError, DeriveInput, Field, Fields,
    FieldValue, ListItem, Meta, MetaValue, Strategy,
};

fn s(x: &str) -> String {
    x.to_string()
}

fn word(x: &str) -> Meta {
    Meta::Word(s(x))
}

fn assign(k: &str, v: MetaValue) -> Meta {
    Meta::Assign(s(k), v)
}

fn list(k: &str, items: &[&str]) -> Meta {
    Meta::List(s(k), items.iter().map(|i| ListItem::Word(s(i))).collect())
}

fn attr(name: &str, args: Vec<Meta>) -> Attribute {
    Attribute { name: s(name), args }
}

fn field(name: &str, ty: &str, attrs: Vec<Attribute>) -> Field {
    Field { name: Some(s(name)), ty_name: Some(s(ty)), attrs }
}

fn strukt(name: &str, attrs: Vec<Attribute>, fields: Vec<Field>) -> DeriveInput {
    DeriveInput { name: s(name), attrs, body: Body::Struct(Fields::Named(fields)) }
}

/// A value of a field, as far as the tests need one.
#[derive(Clone, Debug, PartialEq)]
enum Val {
    Int(i64),
    Text(String),
    Opt(Option<i64>),
    List(Vec<i64>),
}

type Record = Vec<(String, Val)>;

fn get(r: &Record, name: &str) -> Val {
    r.iter().find(|(n, _)| n == name).map(|(_, v)| v.clone()).expect("field present")
}

fn int_of(r: &Record, name: &str) -> i64 {
    match get(r, name) {
        Val::Int(i) => i,
        other => panic!("not an integer: {:?}", other),
    }
}

/// Runs a generated conversion: carried-over fields keep their value (the
/// widening `into` between the field types), user code is run by `user`.
fn run(imp: &ConversionImpl, src: &Record, user: &dyn Fn(&FieldValue, &Record) -> Val) -> Record {
    imp.fields
        .iter()
        .map(|init| {
            let v = match &init.value {
                FieldValue::Convert { source, .. } => get(src, source),
                other => user(other, src),
            };
            (init.target.clone(), v)
        })
        .collect()
}

fn no_user(v: &FieldValue, _: &Record) -> Val {
    panic!("unexpected user code: {:?}", v)
}

fn find<'a>(imps: &'a [ConversionImpl], from: &str, to: &str) -> &'a ConversionImpl {
    imps.iter().find(|i| i.from == from && i.to == to).expect("conversion generated")
}

fn rec(items: &[(&str, Val)]) -> Record {
    items.iter().map(|(n, v)| (s(n), v.clone())).collect()
}

fn widening_struct(direction: &str) -> DeriveInput {
    strukt(
        "A",
        vec![attr("convert", vec![list(direction, &["B"])])],
        vec![field("normal", "u16", vec![]), field("opt", "Option", vec![]), field("vec", "Vec", vec![])],
    )
}

#[test]
fn normal() {
    let imps = derive_convert(&widening_struct("from")).unwrap();
    assert_eq!(imps.len(), 1);
    let imp = find(&imps, "B", "A");
    assert_eq!(
        imp.fields[1].value,
        FieldValue::Convert { source: s("opt"), strategy: Strategy::EachOption }
    );
    assert_eq!(
        imp.fields[2].value,
        FieldValue::Convert { source: s("vec"), strategy: Strategy::EachElement }
    );
    let b = rec(&[("normal", Val::Int(0)), ("opt", Val::Opt(Some(1))), ("vec", Val::List(vec![2, 3]))]);
    let a = run(imp, &b, &no_user);
    assert_eq!(get(&a, "normal"), Val::Int(0));
    assert_eq!(get(&a, "opt"), Val::Opt(Some(1)));
    assert_eq!(get(&a, "vec"), Val::List(vec![2, 3]));
}

#[test]
fn into_normal_main() {
    let imps = derive_convert(&widening_struct("into")).unwrap();
    let imp = find(&imps, "A", "B");
    assert_eq!(
        imp.fields[0].value,
        FieldValue::Convert { source: s("normal"), strategy: Strategy::Direct }
    );
    let a = rec(&[("normal", Val::Int(0)), ("opt", Val::Opt(Some(1))), ("vec", Val::List(vec![2, 3]))]);
    let b = run(imp, &a, &no_user);
    assert_eq!(get(&b, "normal"), Val::Int(0));
    assert_eq!(get(&b, "opt"), Val::Opt(Some(1)));
    assert_eq!(get(&b, "vec"), Val::List(vec![2, 3]));
}

#[test]
fn ignore_main() {
    let d = strukt(
        "A",
        vec![attr("convert", vec![list("from", &["B"])])],
        vec![
            field("sample", "u8", vec![]),
            field("hey", "u16", vec![attr("convert", vec![assign("map", MetaValue::Expr(s("Default::default()")))])]),
        ],
    );
    let imps = derive_convert(&d).unwrap();
    let user = |v: &FieldValue, _: &Record| match v {
        FieldValue::Expr(MetaValue::Expr(e)) if e == "Default::default()" => Val::Int(0),
        other => panic!("unexpected {:?}", other),
    };
    let a = run(find(&imps, "B", "A"), &rec(&[("sample", Val::Int(1))]), &user);
    assert_eq!(int_of(&a, "sample"), 1);
    assert_eq!(int_of(&a, "hey"), 0);
}

#[test]
fn into_ignore_main() {
    let d = strukt(
        "A",
        vec![attr("convert", vec![list("into", &["B"])])],
        vec![field("sample", "u8", vec![]), field("hey", "u16", vec![attr("convert", vec![word("ignore")])])],
    );
    let imps = derive_convert(&d).unwrap();
    let b = run(find(&imps, "A", "B"), &rec(&[("sample", Val::Int(1)), ("hey", Val::Int(2))]), &no_user);
    assert_eq!(int_of(&b, "sample"), 1);
    assert_eq!(b.len(), 1);
}

#[test]
fn from_into_ignore_main() {
    let d = strukt(
        "A",
        vec![attr("convert", vec![list("from_into", &["B"])])],
        vec![
            field("sample", "u8", vec![]),
            field(
                "hey",
                "u16",
                vec![
                    attr("convert", vec![list("from", &["B"]), assign("map", MetaValue::Expr(s("Default::default()")))]),
                    attr("convert", vec![list("into", &["B"]), word("ignore")]),
                ],
            ),
        ],
    );
    let imps = derive_convert(&d).unwrap();
    assert_eq!(imps.len(), 2);
    let user = |v: &FieldValue, _: &Record| match v {
        FieldValue::Expr(MetaValue::Expr(e)) if e == "Default::default()" => Val::Int(0),
        other => panic!("unexpected {:?}", other),
    };
    let a = run(find(&imps, "B", "A"), &rec(&[("sample", Val::Int(1))]), &user);
    assert_eq!(int_of(&a, "sample"), 1);
    assert_eq!(int_of(&a, "hey"), 0);
    let b = run(find(&imps, "A", "B"), &a, &no_user);
    assert_eq!(b, rec(&[("sample", Val::Int(1))]));
}

fn map_field(v: &Val) -> Val {
    match v {
        Val::Int(i) => Val::Text(i.to_string()),
        other => panic!("unexpected {:?}", other),
    }
}

fn map_struct(r: &Record) -> Val {
    Val::Text(int_of(r, "map_struct").to_string())
}

fn map_user(v: &FieldValue, src: &Record) -> Val {
    match v {
        FieldValue::Expr(MetaValue::Expr(e)) if e == "value.map.to_string()" => {
            Val::Text(int_of(src, "map").to_string())
        },
        FieldValue::CallField { func, source } if func == "map_field" => map_field(&get(src, source)),
        FieldValue::CallStruct { func } if func == "map_struct" => map_struct(src),
        other => panic!("unexpected {:?}", other),
    }
}

fn map_fields(scope: Option<&str>) -> Vec<Field> {
    let opts = |m: Meta| {
        let mut args = vec![];
        if let Some(k) = scope {
            args.push(list(k, &["B"]));
        }
        args.push(m);
        vec![attr("convert", args)]
    };
    vec![
        field("map", "String", opts(assign("map", MetaValue::Expr(s("value.map.to_string()"))))),
        field("map_field", "String", opts(assign("map_field", MetaValue::Path(s("map_field"))))),
        field("map_struct", "String", opts(assign("map_struct", MetaValue::Path(s("map_struct"))))),
    ]
}

#[test]
fn map_main() {
    let d = strukt("A", vec![attr("convert", vec![list("from", &["B"])])], map_fields(None));
    let imps = derive_convert(&d).unwrap();
    let imp = find(&imps, "B", "A");
    assert_eq!(imp.fields[1].value, FieldValue::CallField { func: s("map_field"), source: s("map_field") });
    let b = rec(&[("map", Val::Int(1)), ("map_field", Val::Int(2)), ("map_struct", Val::Int(3))]);
    let a = run(imp, &b, &map_user);
    assert_eq!(get(&a, "map"), Val::Text(s("1")));
    assert_eq!(get(&a, "map_field"), Val::Text(s("2")));
    assert_eq!(get(&a, "map_struct"), Val::Text(s("3")));
}

#[test]
fn into_map_main() {
    let d = strukt("A", vec![attr("convert", vec![list("into", &["B"])])], map_fields(None));
    let imps = derive_convert(&d).unwrap();
    let a = rec(&[("map", Val::Int(1)), ("map_field", Val::Int(2)), ("map_struct", Val::Int(3))]);
    let b = run(find(&imps, "A", "B"), &a, &map_user);
    assert_eq!(get(&b, "map"), Val::Text(s("1")));
    assert_eq!(get(&b, "map_field"), Val::Text(s("2")));
    assert_eq!(get(&b, "map_struct"), Val::Text(s("3")));
}

#[test]
fn from_into_map_main() {
    let mut fields = map_fields(Some("from"));
    let into_maps = [
        assign("map_struct", MetaValue::Path(s("map_struct_to_b"))),
        assign("map", MetaValue::Expr(s("value.map.parse().unwrap()"))),
        assign("map_field", MetaValue::Path(s("map_field_to_b"))),
    ];
    for (f, m) in fields.iter_mut().zip([&into_maps[1], &into_maps[2], &into_maps[0]]) {
        f.attrs.push(attr("convert", vec![list("into", &["B"]), m.clone()]));
    }
    let d = strukt("A", vec![attr("convert", vec![list("from_into", &["B"])])], fields);
    let imps = derive_convert(&d).unwrap();
    let into_b = find(&imps, "A", "B");
    assert_eq!(into_b.fields[1].value, FieldValue::CallField { func: s("map_field_to_b"), source: s("map_field") });
    assert_eq!(into_b.fields[2].value, FieldValue::CallStruct { func: s("map_struct_to_b") });
    let b = rec(&[("map", Val::Int(1)), ("map_field", Val::Int(2)), ("map_struct", Val::Int(3))]);
    let a = run(find(&imps, "B", "A"), &b, &map_user);
    assert_eq!(get(&a, "map"), Val::Text(s("1")));
    assert_eq!(get(&a, "map_field"), Val::Text(s("2")));
    assert_eq!(get(&a, "map_struct"), Val::Text(s("3")));
}

#[test]
fn rename_main() {
    let d = strukt(
        "A",
        vec![attr("convert", vec![list("from", &["B"])])],
        vec![field("hey", "String", vec![attr("convert", vec![assign("rename", MetaValue::Str(s("sample")))])])],
    );
    let imps = derive_convert(&d).unwrap();
    let a = run(find(&imps, "B", "A"), &rec(&[("sample", Val::Text(s("hello")))]), &no_user);
    assert_eq!(get(&a, "hey"), Val::Text(s("hello")));
}

#[test]
fn from_into_rename_main() {
    let d = strukt(
        "A",
        vec![attr("convert", vec![list("from_into", &["B"])])],
        vec![field(
            "hey",
            "String",
            vec![attr("convert", vec![list("from_into", &["B"]), assign("rename", MetaValue::Str(s("sample")))])],
        )],
    );
    let imps = derive_convert(&d).unwrap();
    let a = run(find(&imps, "B", "A"), &rec(&[("sample", Val::Text(s("hello")))]), &no_user);
    assert_eq!(get(&a, "hey"), Val::Text(s("hello")));
    let b = run(find(&imps, "A", "B"), &a, &no_user);
    assert_eq!(get(&b, "sample"), Val::Text(s("hello")));
}

#[test]
fn from_into_normal_main() {
    let d = strukt(
        "SampleA",
        vec![attr("convert", vec![list("from_into", &["SampleB"])])],
        vec![field("test", "String", vec![])],
    );
    let imps = derive_convert(&d).unwrap();
    let a = run(find(&imps, "SampleB", "SampleA"), &rec(&[("test", Val::Text(s("hello")))]), &no_user);
    assert_eq!(get(&a, "test"), Val::Text(s("hello")));
    let b = run(find(&imps, "SampleA", "SampleB"), &a, &no_user);
    assert_eq!(get(&b, "test"), Val::Text(s("hello")));
}

#[test]
fn multi_main() {
    let d = strukt(
        "A",
        vec![attr("convert", vec![list("from_into", &["B", "C", "D"])])],
        vec![field(
            "hey",
            "String",
            vec![attr("convert", vec![list("from_into", &["B", "C"]), assign("rename", MetaValue::Str(s("sample")))])],
        )],
    );
    let imps = derive_convert(&d).unwrap();
    assert_eq!(imps.len(), 6);
    let ab = run(find(&imps, "B", "A"), &rec(&[("sample", Val::Text(s("B")))]), &no_user);
    let ac = run(find(&imps, "C", "A"), &rec(&[("sample", Val::Text(s("C")))]), &no_user);
    let ad = run(find(&imps, "D", "A"), &rec(&[("hey", Val::Text(s("D")))]), &no_user);
    assert_eq!(get(&ab, "hey"), Val::Text(s("B")));
    assert_eq!(get(&ac, "hey"), Val::Text(s("C")));
    assert_eq!(get(&ad, "hey"), Val::Text(s("D")));
}

#[test]
fn into_multi_main() {
    let scoped = |t: &str| {
        attr(
            "convert",
            vec![Meta::List(
                s("into"),
                vec![ListItem::Word(s(t)), ListItem::Assign(s("rename"), MetaValue::Str(s("sample")))],
            )],
        )
    };
    let d = strukt(
        "A",
        vec![attr("convert", vec![list("into", &["B", "C", "D"])])],
        vec![field("hey", "String", vec![scoped("B"), scoped("C")])],
    );
    let imps = derive_convert(&d).unwrap();
    let ab = run(find(&imps, "A", "B"), &rec(&[("hey", Val::Text(s("B")))]), &no_user);
    let ac = run(find(&imps, "A", "C"), &rec(&[("hey", Val::Text(s("C")))]), &no_user);
    let ad = run(find(&imps, "A", "D"), &rec(&[("hey", Val::Text(s("D")))]), &no_user);
    assert_eq!(get(&ab, "sample"), Val::Text(s("B")));
    assert_eq!(get(&ac, "sample"), Val::Text(s("C")));
    assert_eq!(get(&ad, "hey"), Val::Text(s("D")));
}

#[test]
fn generate_main() {
    let d = strukt(
        "A",
        vec![
            attr("convert", vec![list("from_into", &["B"])]),
            attr(
                "generate",
                vec![Meta::List(
                    s("B"),
                    vec![ListItem::Assign(s("sample"), MetaValue::Expr(s("value.sample + 200")))],
                )],
            ),
        ],
        vec![field("sample", "u8", vec![attr("convert", vec![list("into", &["B"]), word("ignore")])])],
    );
    let imps = derive_convert(&d).unwrap();
    let user = |v: &FieldValue, src: &Record| match v {
        FieldValue::Expr(MetaValue::Expr(e)) if e == "value.sample + 200" => Val::Int(int_of(src, "sample") + 200),
        other => panic!("unexpected {:?}", other),
    };
    let b = run(find(&imps, "A", "B"), &rec(&[("sample", Val::Int(1))]), &user);
    assert_eq!(b, rec(&[("sample", Val::Int(201))]));
    assert_eq!(find(&imps, "B", "A").fields.len(), 1);
}

#[test]
fn into_generate_main() {
    let d = strukt(
        "A",
        vec![
            attr("convert", vec![list("into", &["B"])]),
            attr(
                "generate",
                vec![Meta::List(
                    s("B"),
                    vec![ListItem::Assign(s("hey"), MetaValue::Expr(s("value.sample.to_string()")))],
                )],
            ),
        ],
        vec![field("sample", "u8", vec![])],
    );
    let imps = derive_convert(&d).unwrap();
    let user = |v: &FieldValue, src: &Record| match v {
        FieldValue::Expr(MetaValue::Expr(e)) if e == "value.sample.to_string()" => {
            Val::Text(int_of(src, "sample").to_string())
        },
        other => panic!("unexpected {:?}", other),
    };
    let b = run(find(&imps, "A", "B"), &rec(&[("sample", Val::Int(1))]), &user);
    assert_eq!(get(&b, "sample"), Val::Int(1));
    assert_eq!(get(&b, "hey"), Val::Text(s("1")));
}

#[test]
fn scoped_ignore_keeps_other_directions() {
    let d = strukt(
        "A",
        vec![attr("convert", vec![list("from_into", &["B"]), list("into", &["C"])])],
        vec![
            field("kept", "u8", vec![]),
            field("hey", "u8", vec![attr("convert", vec![list("into", &["B"]), word("ignore")])]),
        ],
    );
    let imps = derive_convert(&d).unwrap();
    assert_eq!(imps.len(), 3);
    assert_eq!(find(&imps, "A", "B").fields.len(), 1);
    assert_eq!(find(&imps, "B", "A").fields.len(), 2);
    assert_eq!(find(&imps, "A", "C").fields.len(), 2);
    assert_eq!(find(&imps, "A", "C").fields[1].target, "hey");
}

#[test]
fn round_trip_through_renamed_fields() {
    let d = strukt(
        "A",
        vec![attr("convert", vec![list("from_into", &["B"])])],
        vec![
            field("x", "u8", vec![attr("convert", vec![assign("rename", MetaValue::Str(s("y")))])]),
            field("z", "Vec", vec![]),
        ],
    );
    let imps = derive_convert(&d).unwrap();
    let a = rec(&[("x", Val::Int(7)), ("z", Val::List(vec![1]))]);
    let b = run(find(&imps, "A", "B"), &a, &no_user);
    assert_eq!(b, rec(&[("y", Val::Int(7)), ("z", Val::List(vec![1]))]));
    assert_eq!(run(find(&imps, "B", "A"), &b, &no_user), a);
}

#[test]
fn duplicate_conversions_are_generated_once() {
    let d = strukt(
        "A",
        vec![attr("convert", vec![list("from_into", &["B"])]), attr("convert", vec![list("into", &["B"])])],
        vec![field("x", "u8", vec![])],
    );
    assert_eq!(derive_convert(&d).unwrap().len(), 2);
}

fn with_field_attr(args: Vec<Meta>) -> DeriveInput {
    strukt("A", vec![attr("convert", vec![list("into", &["B"])])], vec![field("x", "u8", vec![attr("convert", args)])])
}

#[test]
fn convert_errors() {
    let enum_input = DeriveInput { name: s("E"), attrs: vec![], body: Body::Enum(vec![]) };
    assert_eq!(derive_convert(&enum_input), Err(DeriveError::NotNamedStruct));
    assert_eq!(derive_convert(&strukt("A", vec![], vec![])), Err(DeriveError::NoConversions));
    let unnamed = strukt(
        "A",
        vec![attr("convert", vec![list("into", &["B"])])],
        vec![Field { name: None, ty_name: None, attrs: vec![] }],
    );
    assert_eq!(derive_convert(&unnamed), Err(DeriveError::UnnamedField));
    assert_eq!(
        derive_convert(&strukt("A", vec![attr("convert", vec![list("to", &["B"])])], vec![])),
        Err(DeriveError::ExpectedDirection { key: s("to") })
    );
    assert_eq!(
        derive_convert(&strukt("A", vec![attr("convert", vec![list("into", &[])])], vec![])),
        Err(DeriveError::EmptyTargetList { key: s("into") })
    );
    let typed = Meta::List(s("into"), vec![ListItem::Assign(s("x"), MetaValue::Expr(s("1")))]);
    assert_eq!(
        derive_convert(&strukt("A", vec![attr("convert", vec![typed])], vec![])),
        Err(DeriveError::ExpectedTypeName { key: s("into") })
    );
    assert_eq!(
        derive_convert(&with_field_attr(vec![word("ignore"), word("ignore")])),
        Err(DeriveError::Duplicate { key: s("ignore") })
    );
    assert_eq!(
        derive_convert(&with_field_attr(vec![word("skip")])),
        Err(DeriveError::Unrecognized { key: s("skip") })
    );
    assert_eq!(
        derive_convert(&with_field_attr(vec![assign("rename", MetaValue::Path(s("y")))])),
        Err(DeriveError::ExpectedString { key: s("rename") })
    );
    assert_eq!(
        derive_convert(&with_field_attr(vec![assign("map_field", MetaValue::Expr(s("1 + 1")))])),
        Err(DeriveError::ExpectedPath { key: s("map_field") })
    );
    assert_eq!(
        derive_convert(&with_field_attr(vec![
            assign("map", MetaValue::Expr(s("1"))),
            assign("map_struct", MetaValue::Path(s("f")))
        ])),
        Err(DeriveError::ConflictingMap { key: s("map_struct") })
    );
    assert_eq!(
        derive_convert(&with_field_attr(vec![word("ignore"), list("into", &["B"])])),
        Err(DeriveError::TargetNotFirst { key: s("into") })
    );
    assert_eq!(derive_convert(&with_field_attr(vec![])), Err(DeriveError::EmptyArguments { field: s("x") }));
    assert_eq!(
        derive_convert(&with_field_attr(vec![list("from", &["B"]), word("ignore")])),
        Err(DeriveError::MissingConversion { field: s("x"), from: s("B"), to: s("A") })
    );
    let bad_generate = strukt(
        "A",
        vec![attr("convert", vec![list("into", &["B"])]), attr("generate", vec![word("B")])],
        vec![],
    );
    assert_eq!(derive_convert(&bad_generate), Err(DeriveError::MalformedGenerate { key: s("B") }));
    let stray_generate = strukt(
        "A",
        vec![
            attr("convert", vec![list("from", &["B"])]),
            attr("generate", vec![Meta::List(s("B"), vec![ListItem::Assign(s("y"), MetaValue::Expr(s("1")))])]),
        ],
        vec![],
    );
    assert_eq!(derive_convert(&stray_generate), Err(DeriveError::MissingGenerateTarget { target: s("B") }));
}

#[test]
fn merge_lets_the_specific_scope_win() {
    let base = FieldArg { ignore: false, map: Some(FieldMap::FieldFn(s("f"))), rename: Some(s("a")) };
    let over = FieldArg { ignore: true, map: None, rename: Some(s("b")) };
    let m = base.merge(&over);
    assert_eq!(m, FieldArg { ignore: true, map: Some(FieldMap::FieldFn(s("f"))), rename: Some(s("b")) });
}

#[test]
fn rename() {
    rename_main();
}

#[test]
fn ignore() {
    ignore_main();
}

#[test]
fn map() {
    map_main();
}

#[test]
fn struct_without_fields_converts_to_an_empty_literal() {
    let d = strukt("A", vec![attr("convert", vec![list("into", &["B"])])], vec![]);
    let imps = derive_convert(&d).unwrap();
    assert_eq!(imps.len(), 1);
    assert!(imps[0].fields.is_empty());
}
