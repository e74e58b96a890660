use tc_ir::{
    decode_opdef, decode_scalar, decode_tcref, encode_opdef, encode_scalar, encode_tcref, subject_from_str,
    ErrorKind, Id, IdMap, IdRef, IfRef, Json, Link, Number, OpDef, OpRef, Scalar, Subject, TCRef, Value,
    While,
};

fn s(x: &str) -> Json {
    Json::Str(x.to_string())
}

fn obj(entries: Vec<(&str, Json)>) -> Json {
    Json::Obj(entries.into_iter().map(|(k, v)| (k.to_string(), v)).collect())
}

fn id(x: &str) -> Id {
    Id::parse(x).expect("id")
}

fn text(x: &str) -> Scalar {
    Scalar::Value(Value::String(x.to_string()))
}

#[test]
fn scalar_map_round_trip() {
    let mut encoding = IdMap::new();
    encoding.insert(id("signed"), Scalar::Value(Value::Number(Number::Bool(true)))).unwrap();
    encoding.insert(id("bits"), Scalar::from_u64(16)).unwrap();
    let mut map = IdMap::new();
    map.insert(id("encoding"), Scalar::IdMap(encoding)).unwrap();
    map.insert(id("dtype"), text("f32")).unwrap();
    let scalar = Scalar::IdMap(map);

    let wire = encode_scalar(&scalar);
    let keys: Vec<String> = match &wire {
        Json::Obj(entries) => entries.iter().map(|(k, _)| k.clone()).collect(),
        _ => panic!("expected an object"),
    };
    assert_eq!(keys, vec!["dtype".to_string(), "encoding".to_string()]);
    match &wire {
        Json::Obj(entries) => assert_eq!(
            entries[1].1,
            obj(vec![("bits", Json::UInt(16)), ("signed", Json::Bool(true))])
        ),
        _ => unreachable!(),
    }
    let decoded = decode_scalar(&wire).expect("decode");
    assert_eq!(decoded, scalar);
    assert_eq!(encode_scalar(&decoded), wire);
}

#[test]
fn opref_get_decodes_as_ref() {
    let wire = obj(vec![("/lib/acme/foo/1.0.0", Json::Arr(vec![Json::Null]))]);
    let decoded = decode_scalar(&wire).expect("decode");
    let expected = Scalar::from_ref(TCRef::Op(OpRef::Get((
        Subject::Link(Link::parse("/lib/acme/foo/1.0.0").unwrap()),
        Scalar::default_value(),
    ))));
    assert_eq!(decoded, expected);
    assert_eq!(encode_scalar(&decoded), wire);
}

#[test]
fn empty_sequence_is_a_link() {
    let wire = obj(vec![("/lib/acme/foo/1.0.0", Json::Arr(vec![]))]);
    let decoded = decode_scalar(&wire).expect("decode");
    assert_eq!(decoded, Scalar::Value(Value::Link(Link::parse("/lib/acme/foo/1.0.0").unwrap())));
    assert_eq!(encode_scalar(&decoded), wire);
}

#[test]
fn while_round_trip() {
    let r = TCRef::While(Box::new(While::new(Scalar::from_u64(1), text("step"), Scalar::from_u64(7))));
    let wire = encode_tcref(&r);
    assert_eq!(
        wire,
        obj(vec![("/state/scalar/ref/while", Json::Arr(vec![Json::UInt(1), s("step"), Json::UInt(7)]))])
    );
    assert_eq!(decode_tcref(&wire).expect("decode"), r);
    assert_eq!(decode_scalar(&wire).expect("decode"), Scalar::from_ref(r));
}

#[test]
fn opdef_round_trip_and_tolerance() {
    let def = OpDef::Get((id("key"), vec![(id("x"), text("a")), (id("y"), Scalar::from_u64(2))]));
    let wire = encode_opdef(&def);
    let expected = obj(vec![(
        "/state/scalar/op/get",
        Json::Arr(vec![
            s("key"),
            Json::Arr(vec![Json::Arr(vec![s("x"), s("a")]), Json::Arr(vec![s("y"), Json::UInt(2)])]),
        ]),
    )]);
    assert_eq!(wire, expected);
    assert_eq!(decode_opdef(&wire).expect("decode"), def);
    assert_eq!(def.last_id().map(|i| i.as_str().to_string()), Some("y".to_string()));
    assert_eq!(def.form().len(), 2);

    let padded = match wire {
        Json::Obj(mut entries) => {
            entries.push(("extra".to_string(), Json::UInt(1)));
            Json::Obj(entries)
        },
        _ => unreachable!(),
    };
    assert_eq!(decode_scalar(&padded).expect("decode"), Scalar::Op(def));
}

#[test]
fn extra_keys_in_reference_envelope_ignored() {
    let wire = obj(vec![
        ("/state/scalar/ref/while", Json::Arr(vec![Json::UInt(1), s("step"), Json::UInt(7)])),
        ("garbage", s("ignored")),
    ]);
    let expected = TCRef::While(Box::new(While::new(Scalar::from_u64(1), text("step"), Scalar::from_u64(7))));
    assert_eq!(decode_scalar(&wire).expect("decode"), Scalar::from_ref(expected));
}

#[test]
fn scoped_references() {
    let wire = obj(vec![("$self", Json::Arr(vec![]))]);
    let decoded = decode_scalar(&wire).expect("decode");
    assert_eq!(decoded, Scalar::from_ref(TCRef::Id(IdRef::new(id("self")))));
    assert_eq!(encode_scalar(&decoded), wire);

    let wire = obj(vec![("$self/a/b", Json::Arr(vec![s("k"), Json::UInt(3)]))]);
    let decoded = decode_scalar(&wire).expect("decode");
    let expected = Scalar::from_ref(TCRef::Op(OpRef::Put((
        Subject::Ref(IdRef::new(id("self")), vec![id("a"), id("b")]),
        text("k"),
        Scalar::from_u64(3),
    ))));
    assert_eq!(decoded, expected);
    assert_eq!(encode_scalar(&decoded), wire);
}

#[test]
fn post_and_delete_references() {
    let mut params = IdMap::new();
    params.insert(id("n"), Scalar::from_u64(1)).unwrap();
    let post = Scalar::from_ref(TCRef::Op(OpRef::Post((Subject::Link(Link::parse("/lib/x").unwrap()), params))));
    let wire = encode_scalar(&post);
    assert_eq!(wire, obj(vec![("/lib/x", obj(vec![("n", Json::UInt(1))]))]));
    assert_eq!(decode_scalar(&wire).expect("decode"), post);

    let delete = Scalar::from_ref(TCRef::Op(OpRef::Delete((
        Subject::Link(Link::parse("/lib/x").unwrap()),
        text("k"),
    ))));
    let wire = encode_scalar(&delete);
    assert_eq!(wire, obj(vec![("/state/scalar/ref/op/delete", Json::Arr(vec![s("/lib/x"), s("k")]))]));
    assert_eq!(decode_scalar(&wire).expect("decode"), delete);
}

#[test]
fn if_requires_reference_condition() {
    let literal = obj(vec![("/state/scalar/ref/if", Json::Arr(vec![Json::UInt(1), s("a"), s("b")]))]);
    assert_eq!(decode_scalar(&literal).err().map(|e| e.kind()), Some(ErrorKind::BadRequest));

    let cond = TCRef::Id(IdRef::new(id("flag")));
    let r = TCRef::If(Box::new(IfRef::new(cond, text("a"), text("b"))));
    let wire = encode_tcref(&r);
    assert_eq!(decode_tcref(&wire).expect("decode"), r);
}

#[test]
fn decoder_errors() {
    let arity = obj(vec![("/lib/x", Json::Arr(vec![Json::UInt(1), Json::UInt(2), Json::UInt(3)]))]);
    assert!(decode_scalar(&arity).is_err());
    let duplicate = obj(vec![("a", Json::UInt(1)), ("a", Json::UInt(2))]);
    assert_eq!(decode_scalar(&duplicate).err().map(|e| e.kind()), Some(ErrorKind::BadRequest));
    let bad_key = obj(vec![("a", Json::UInt(1)), ("b c", Json::UInt(2))]);
    assert!(decode_scalar(&bad_key).is_err());
    let bad_subject = obj(vec![("$", Json::Arr(vec![Json::UInt(1)]))]);
    assert!(decode_scalar(&bad_subject).is_err());
    let bad_number = obj(vec![("/state/scalar/value/number", s("x"))]);
    assert!(decode_scalar(&bad_number).is_err());
    let bad_for_each = obj(vec![("/state/scalar/ref/for_each", Json::Arr(vec![Json::Null, Json::Null, Json::UInt(1)]))]);
    assert!(decode_scalar(&bad_for_each).is_err());
    assert!(decode_opdef(&obj(vec![("/lib/x", Json::Arr(vec![]))])).is_err());
    assert!(decode_tcref(&Json::Null).is_err());
}

#[test]
fn typed_values_and_tuples() {
    let n = obj(vec![("/state/scalar/value/number", Json::Int(-3)), ("extra", Json::Null)]);
    assert_eq!(decode_scalar(&n).expect("decode"), Scalar::Value(Value::Number(Number::Int(-3))));
    let l = obj(vec![("/state/scalar/value/link", s("/a/b"))]);
    assert_eq!(decode_scalar(&l).expect("decode"), Scalar::Value(Value::Link(Link::parse("/a/b").unwrap())));
    let none = obj(vec![("/state/scalar/value/none", Json::UInt(9))]);
    assert_eq!(decode_scalar(&none).expect("decode"), Scalar::default_value());
    let tuple = Json::Arr(vec![Json::Null, Json::Bool(false), s("x")]);
    let decoded = decode_scalar(&tuple).expect("decode");
    assert_eq!(
        decoded,
        Scalar::Tuple(vec![Scalar::default_value(), Scalar::Value(Value::Number(Number::Bool(false))), text("x")])
    );
    assert_eq!(encode_scalar(&decoded), tuple);
    assert_eq!(decode_scalar(&Json::Obj(vec![])).expect("decode"), Scalar::IdMap(IdMap::new()));
}

#[test]
fn subjects_parse_and_print() {
    let subject = subject_from_str("$self/a/b").expect("subject");
    assert_eq!(subject, Subject::Ref(IdRef::new(id("self")), vec![id("a"), id("b")]));
    assert_eq!(subject.to_text(), "$self/a/b");
    let bare = subject_from_str("$self").expect("subject");
    assert_eq!(bare.to_text(), "$self");
    assert!(subject_from_str("$self/").expect("subject").to_text() == "$self");
    assert!(subject_from_str("$").is_err());
    assert!(subject_from_str("no link").is_err());
    assert_eq!(subject_from_str("/lib/x").expect("link").to_text(), "/lib/x");
}

#[test]
fn id_map_parameters() {
    let mut m = IdMap::one(id("a"), 1u8);
    m.insert(id("b"), 2u8).unwrap();
    assert!(m.insert(id("a"), 3u8).is_err());
    assert_eq!(m.len(), 2);
    assert_eq!(m.get("a"), Some(&1u8));
    assert_eq!(m.optional("c").expect("ok"), None);
    assert_eq!(m.optional("b").expect("ok"), Some(2u8));
    assert_eq!(m.require("b").err().map(|e| e.kind()), Some(ErrorKind::NotFound));
    assert_eq!(m.require("b c").err().map(|e| e.kind()), Some(ErrorKind::BadRequest));
    assert_eq!(m.expect("a"), 1u8);
    assert!(m.is_empty());
    assert!(m.expect_empty().is_ok());
    let full = IdMap::one(id("z"), 0u8);
    assert_eq!(full.expect_empty().err().map(|e| e.kind()), Some(ErrorKind::Unexpected));
}

#[test]
fn walks_in_pre_order() {
    let mut m = IdMap::new();
    m.insert(id("b"), Scalar::from_ref(TCRef::Id(IdRef::new(id("x"))))).unwrap();
    m.insert(id("a"), Scalar::from_u64(2)).unwrap();
    let tree = Scalar::Tuple(vec![
        Scalar::from_u64(1),
        Scalar::IdMap(m),
        Scalar::from_ref(TCRef::Id(IdRef::new(id("y")))),
    ]);
    let walked = tree.walk();
    assert_eq!(walked.len(), 6);
    assert_eq!(walked[0], &tree);
    assert_eq!(walked[1], &Scalar::from_u64(1));
    assert_eq!(walked[3], &Scalar::from_u64(2));
    let refs = tree.walk_tcref();
    assert_eq!(refs, vec![&TCRef::Id(IdRef::new(id("x"))), &TCRef::Id(IdRef::new(id("y")))]);

    let def = OpDef::Post(vec![
        (id("p"), Scalar::Tuple(vec![Scalar::from_u64(5)])),
        (id("q"), text("z")),
    ]);
    let scalars = def.walk_scalars();
    assert_eq!(scalars, vec![&Scalar::Tuple(vec![Scalar::from_u64(5)]), &Scalar::from_u64(5), &text("z")]);
    assert_eq!(def.class(), tc_ir::OpDefType::Post);
}

#[test]
fn labels_and_constructors() {
    assert_eq!(tc_ir::OpDefType::Get.label(), "/state/scalar/op/get");
    assert_eq!(tc_ir::OpDefType::Delete.label(), "/state/scalar/op/delete");
    let v = Scalar::from_value(Value::String("x".to_string()));
    assert_eq!(encode_scalar(&v), s("x"));
    let d = Scalar::from_opdef(OpDef::Delete((id("k"), vec![])));
    let wire = encode_scalar(&d);
    assert_eq!(wire, obj(vec![("/state/scalar/op/delete", Json::Arr(vec![s("k"), Json::Arr(vec![])]))]));
    assert_eq!(decode_scalar(&wire).expect("decode"), d);
}

#[test]
fn unsafe_link_texts_are_refused() {
    assert_eq!(Link::parse("http://").err().map(|e| e.kind()), Some(ErrorKind::BadRequest));
    assert!(Link::parse("HTTPS://").is_err());
    assert!(Link::parse("https:/").is_err());
    assert!(subject_from_str("http://").is_err());
    let wire = obj(vec![("/state/scalar/value/link", s("http://"))]);
    assert!(decode_scalar(&wire).is_err());
    assert!(Link::parse("http://example.com/a").is_ok());
}

#[test]
fn host_qualified_reference_round_trip() {
    let r = TCRef::Op(OpRef::Get((Subject::Link(Link::parse("http://example.com/lib/x").unwrap()), text("k"))));
    let wire = encode_tcref(&r);
    assert_eq!(decode_tcref(&wire).expect("decode"), r);
}
