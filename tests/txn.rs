use tc_ir::{Claim, ErrorKind, Json, LibrarySchema, Link, NetworkTime, TxnHeader, TxnId};

fn link(x: &str) -> Link {
    Link::parse(x).expect("link")
}

#[test]
fn library_schema_destream_roundtrip() {
    let schema = LibrarySchema::new(
        Link::parse("/lib/service").expect("link"),
        "0.1.0".to_string(),
        vec![Link::parse("/lib/dependency").expect("dep"), Link::parse("/lib/other").expect("dep")],
    );

    let encoded = schema.to_json();
    let decoded = LibrarySchema::from_json(&encoded).expect("decode schema");

    assert_eq!(decoded, schema);
}

#[test]
fn txn_header_destream_roundtrip() {
    let claim = Claim::new(Link::parse("/lib/service").unwrap(), 0o777);
    let header = TxnHeader::new(TxnId::from_parts(NetworkTime::from_nanos(7), 1), NetworkTime::from_nanos(7), claim);

    let encoded = header.to_json();
    let decoded = TxnHeader::from_json(&encoded).expect("decode header");

    assert_eq!(decoded, header);
}

#[test]
fn schema_wire_keys() {
    let schema = LibrarySchema::new(link("/lib/service"), "0.1.0".to_string(), vec![link("/lib/dependency"), link("/lib/other")]);
    let wire = schema.to_json();
    match &wire {
        Json::Obj(entries) => {
            let keys: Vec<&str> = entries.iter().map(|(k, _)| k.as_str()).collect();
            assert_eq!(keys, vec!["id", "version", "dependencies"]);
            assert_eq!(entries[0].1, Json::Str("/lib/service".to_string()));
            assert_eq!(
                entries[2].1,
                Json::Arr(vec![Json::Str("/lib/dependency".to_string()), Json::Str("/lib/other".to_string())])
            );
        },
        _ => panic!("expected an object"),
    }
    assert_eq!(LibrarySchema::from_json(&wire).expect("decode"), schema);
}

#[test]
fn schema_decoding_rules() {
    let no_deps = Json::Obj(vec![
        ("version".to_string(), Json::Str("1".to_string())),
        ("id".to_string(), Json::Str("/lib/a".to_string())),
        ("other".to_string(), Json::Null),
    ]);
    let schema = LibrarySchema::from_json(&no_deps).expect("decode");
    assert!(schema.dependencies().is_empty());
    assert_eq!(schema.version(), "1");
    assert_eq!(schema.id().as_str(), "/lib/a");

    let duplicate = Json::Obj(vec![
        ("id".to_string(), Json::Str("/lib/a".to_string())),
        ("id".to_string(), Json::Str("/lib/b".to_string())),
        ("version".to_string(), Json::Str("1".to_string())),
    ]);
    assert_eq!(LibrarySchema::from_json(&duplicate).err().map(|e| e.kind()), Some(ErrorKind::BadRequest));
    let missing = Json::Obj(vec![("id".to_string(), Json::Str("/lib/a".to_string()))]);
    assert!(LibrarySchema::from_json(&missing).is_err());
}

#[test]
fn header_wire_form() {
    let claim = Claim::new(link("/lib/service"), 0o777);
    let id = TxnId::from_parts(NetworkTime::from_nanos(7), 1);
    let header = TxnHeader::new(id, NetworkTime::from_nanos(7), claim);
    let wire = header.to_json();
    let expected = Json::Obj(vec![
        ("id".to_string(), Json::Str("7-1".to_string())),
        ("timestamp".to_string(), Json::UInt(7)),
        ("claim".to_string(), Json::Arr(vec![Json::Str("/lib/service".to_string()), Json::UInt(511)])),
    ]);
    assert_eq!(wire, expected);
    let decoded = TxnHeader::from_json(&wire).expect("decode");
    assert_eq!(decoded.to_json(), wire);
    assert_eq!(decoded.id().nonce(), 1);
    assert_eq!(decoded.timestamp().as_nanos(), 7);
    assert_eq!(decoded.claim().mask, 511);

    let missing = Json::Obj(vec![("id".to_string(), Json::Str("7-1".to_string()))]);
    assert_eq!(TxnHeader::from_json(&missing).err().map(|e| e.kind()), Some(ErrorKind::BadRequest));
}

#[test]
fn txn_id_text() {
    let id = TxnId::from_parts(NetworkTime::from_nanos(1234567890123), 65535);
    assert_eq!(id.to_text(), "1234567890123-65535");
    let parsed = TxnId::parse("1234567890123-65535").expect("parse");
    assert_eq!(parsed, id);
    assert_eq!(TxnId::parse("+7-+1").expect("parse"), TxnId::from_parts(NetworkTime::from_nanos(7), 1));
    assert!(TxnId::parse("7").is_err());
    assert!(TxnId::parse("x-1").is_err());
    assert!(TxnId::parse("7-65536").is_err());
    assert!(TxnId::parse("7-").is_err());
    assert_eq!(TxnId::from_parts(NetworkTime::from_nanos(0), 0).to_text(), "0-0");
    let traced = id.with_trace([9u8; 32]);
    assert_eq!(traced.to_text(), "1234567890123-65535");
    assert_eq!(traced.trace_bytes(), &[9u8; 32]);
    assert!(TxnId::from_parts(NetworkTime::from_nanos(1), 9) < TxnId::from_parts(NetworkTime::from_nanos(2), 0));
}

#[test]
fn network_time_text() {
    assert_eq!(NetworkTime::from_nanos(18446744073709551615).to_text(), "18446744073709551615");
    assert_eq!(NetworkTime::parse("18446744073709551615").expect("max").as_nanos(), u64::MAX);
    assert!(NetworkTime::parse("18446744073709551616").is_err());
    assert!(NetworkTime::parse("").is_err());
    assert!(NetworkTime::parse("-1").is_err());
}

#[test]
fn claim_allows() {
    let claim = Claim::new(link("/lib/service"), 0o750);
    assert!(claim.allows(&link("/lib/service"), 0o700));
    assert!(claim.allows(&link("/lib/service"), 0o050));
    assert!(!claim.allows(&link("/lib/service"), 0o007));
    assert!(!claim.allows(&link("/lib/other"), 0o700));
    assert!(claim.allows(&link("/lib/service"), 0));
}

#[test]
fn claim_compact_form() {
    let claim = Claim::new(link("/lib/service"), 0o777);
    let wire = claim.to_json();
    assert_eq!(wire, Json::Arr(vec![Json::Str("/lib/service".to_string()), Json::UInt(511)]));
    assert_eq!(Claim::from_json(&wire).expect("decode"), claim);
    let wide = Claim::new(link("/lib/service"), 0x1_0001);
    assert_eq!(wide.to_json(), Json::Arr(vec![Json::Str("/lib/service".to_string()), Json::UInt(1)]));
    let too_big = Json::Arr(vec![Json::Str("/lib/service".to_string()), Json::UInt(70000)]);
    assert!(Claim::from_json(&too_big).is_err());
}
