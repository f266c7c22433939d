use pm_store::json::Json;
use pm_store::parse::parse;
use pm_store::ser::to_bytes;

fn num(mantissa: u64, scale: u32) -> Json {
    Json::Num { neg: false, mantissa, scale }
}

fn neg_num(mantissa: u64, scale: u32) -> Json {
    Json::Num { neg: true, mantissa, scale }
}

fn key(s: &str) -> Vec<u8> {
    s.as_bytes().to_vec()
}

#[test]
fn serialize_scalars() {
    assert_eq!(to_bytes(&Json::Null), b"null".to_vec());
    assert_eq!(to_bytes(&Json::Bool(true)), b"true".to_vec());
    assert_eq!(to_bytes(&Json::Bool(false)), b"false".to_vec());
    assert_eq!(to_bytes(&num(1, 0)), b"1".to_vec());
    assert_eq!(to_bytes(&num(24, 0)), b"24".to_vec());
    assert_eq!(to_bytes(&num(45, 2)), b"0.45".to_vec());
    assert_eq!(to_bytes(&num(20, 1)), b"2.0".to_vec());
    assert_eq!(to_bytes(&num(10, 2)), b"0.10".to_vec());
    assert_eq!(to_bytes(&neg_num(45, 2)), b"-0.45".to_vec());
    assert_eq!(to_bytes(&neg_num(7, 0)), b"-7".to_vec());
    assert_eq!(to_bytes(&num(5, 3)), b"0.005".to_vec());
    assert_eq!(to_bytes(&num(u64::MAX, 0)), b"18446744073709551615".to_vec());
}

#[test]
fn serialize_strings_and_escapes() {
    assert_eq!(to_bytes(&Json::Str(key("abc"))), b"\"abc\"".to_vec());
    assert_eq!(to_bytes(&Json::Str(key("a\"b"))), b"\"a\\\"b\"".to_vec());
    assert_eq!(to_bytes(&Json::Str(key("a\\b"))), b"\"a\\\\b\"".to_vec());
    assert_eq!(to_bytes(&Json::Str(Vec::new())), b"\"\"".to_vec());
    assert_eq!(to_bytes(&Json::Str(key("a\nb\tc"))), b"\"a\\nb\\tc\"".to_vec());
    assert_eq!(to_bytes(&Json::Str(vec![13, 8, 12])), b"\"\\r\\b\\f\"".to_vec());
    assert_eq!(to_bytes(&Json::Str(vec![1, 31])), b"\"\\u0001\\u001f\"".to_vec());
}

#[test]
fn parse_standard_escapes() {
    assert_eq!(parse(&b"\"a\\nb\"".to_vec()), Some(Json::Str(key("a\nb"))));
    assert_eq!(parse(&b"\"\\t\\r\\b\\f\\/\"".to_vec()), Some(Json::Str(vec![9, 13, 8, 12, 47])));
    assert_eq!(parse(&b"\"\\u0041\"".to_vec()), Some(Json::Str(key("A"))));
    assert_eq!(parse(&b"\"\\u00e4\"".to_vec()), Some(Json::Str("\u{e4}".as_bytes().to_vec())));
    assert_eq!(parse(&b"\"\\u20AC\"".to_vec()), Some(Json::Str("\u{20ac}".as_bytes().to_vec())));
    // a surrogate pair names one code point
    assert_eq!(
        parse(&b"\"\\uD83D\\uDE00\"".to_vec()),
        Some(Json::Str("\u{1f600}".as_bytes().to_vec()))
    );
    // escaped control bytes round-trip through the serializer
    let doc = Json::Str(vec![0, 1, 9, 10, 31]);
    assert_eq!(parse(&to_bytes(&doc)), Some(Json::Str(vec![0, 1, 9, 10, 31])));
    // rejected: an unknown escape, a bare backslash, a lone surrogate
    assert_eq!(parse(&b"\"\\x\"".to_vec()), None);
    assert_eq!(parse(&b"\"\\".to_vec()), None);
    assert_eq!(parse(&b"\"\\uDE00\"".to_vec()), None);
    assert_eq!(parse(&b"\"\\uD83D\"".to_vec()), None);
    assert_eq!(parse(&b"\"\\u12G4\"".to_vec()), None);
}

#[test]
fn parse_exponents() {
    assert_eq!(parse(&b"1e1".to_vec()), Some(num(10, 0)));
    assert_eq!(parse(&b"1E2".to_vec()), Some(num(100, 0)));
    assert_eq!(parse(&b"1.5e1".to_vec()), Some(num(15, 0)));
    assert_eq!(parse(&b"1.5e+1".to_vec()), Some(num(15, 0)));
    assert_eq!(parse(&b"2e-3".to_vec()), Some(num(2, 3)));
    assert_eq!(parse(&b"12.34e-2".to_vec()), Some(num(1234, 4)));
    assert_eq!(parse(&b"1.25e1".to_vec()), Some(num(125, 1)));
    assert_eq!(parse(&b"-2e1".to_vec()), Some(neg_num(20, 0)));
    assert_eq!(parse(&b"0e99999999999999999".to_vec()), Some(num(0, 0)));
    assert_eq!(parse(&b"-0e5".to_vec()), Some(num(0, 0)));
    // rejected: no digits after e, or a value with no exact form in range
    assert_eq!(parse(&b"1e".to_vec()), None);
    assert_eq!(parse(&b"1e+".to_vec()), None);
    assert_eq!(parse(&b"1e300".to_vec()), None);
}

#[test]
fn serialize_composites() {
    let doc = Json::Obj(vec![
        (key("version"), num(1, 0)),
        (key("tasks"), Json::Arr(vec![Json::Str(key("t1")), Json::Null])),
    ]);
    assert_eq!(
        to_bytes(&doc),
        b"{\"version\":1,\"tasks\":[\"t1\",null]}".to_vec()
    );
    assert_eq!(to_bytes(&Json::Arr(vec![])), b"[]".to_vec());
    assert_eq!(to_bytes(&Json::Obj(vec![])), b"{}".to_vec());
}

#[test]
fn parse_scalars() {
    assert_eq!(parse(&b"null".to_vec()), Some(Json::Null));
    assert_eq!(parse(&b"true".to_vec()), Some(Json::Bool(true)));
    assert_eq!(parse(&b"false".to_vec()), Some(Json::Bool(false)));
    assert_eq!(parse(&b"24".to_vec()), Some(num(24, 0)));
    assert_eq!(parse(&b"0.45".to_vec()), Some(num(45, 2)));
    assert_eq!(parse(&b"-7".to_vec()), Some(neg_num(7, 0)));
    assert_eq!(parse(&b"-0".to_vec()), Some(num(0, 0)));
}

#[test]
fn parse_accepts_whitespace() {
    let text = b" { \"a\" : [ 1 , 2 ] , \"b\" : \"x\" } \n".to_vec();
    let expected = Json::Obj(vec![
        (key("a"), Json::Arr(vec![num(1, 0), num(2, 0)])),
        (key("b"), Json::Str(key("x"))),
    ]);
    assert_eq!(parse(&text), Some(expected));
}

#[test]
fn parse_rejects_malformed_text() {
    assert_eq!(parse(&b"".to_vec()), None);
    assert_eq!(parse(&b"{".to_vec()), None);
    assert_eq!(parse(&b"[1,".to_vec()), None);
    assert_eq!(parse(&b"1 2".to_vec()), None);
    assert_eq!(parse(&b"\"unterminated".to_vec()), None);
    assert_eq!(parse(&b"{\"a\" 1}".to_vec()), None);
    assert_eq!(parse(&b"nul".to_vec()), None);
    assert_eq!(parse(&b"00x".to_vec()), None);
    // a mantissa too large for the store's exact decimals
    assert_eq!(parse(&b"18446744073709551616".to_vec()), None);
}

#[test]
fn round_trip_nested_document() {
    let doc = Json::Obj(vec![
        (key("version"), num(1, 0)),
        (
            key("tasks"),
            Json::Arr(vec![
                Json::Obj(vec![
                    (key("id"), Json::Str(key("t1"))),
                    (key("title"), Json::Str(key("say \"hi\" \\ now"))),
                    (key("estimate"), num(15, 1)),
                    (key("offset"), neg_num(25, 2)),
                    (key("done"), Json::Bool(false)),
                    (key("parent"), Json::Null),
                ]),
                Json::Obj(vec![]),
            ]),
        ),
        (key("note"), Json::Str("umlaut \u{00e4} text".as_bytes().to_vec())),
    ]);
    let bytes = to_bytes(&doc);
    let back = parse(&bytes).expect("serialized document must parse");
    assert!(back.deep_eq(&doc));
    assert_eq!(back, doc);
}

#[test]
fn serialization_is_stable() {
    let doc = Json::Arr(vec![num(1, 0), Json::Str(key("x"))]);
    assert_eq!(to_bytes(&doc), to_bytes(&doc));
}

#[test]
fn deep_eq_distinguishes_values() {
    let a = Json::Arr(vec![num(1, 0), num(2, 0)]);
    let b = Json::Arr(vec![num(1, 0), num(3, 0)]);
    assert!(!a.deep_eq(&b));
    assert!(!num(1, 0).deep_eq(&num(10, 1)));
    assert!(!Json::Null.deep_eq(&Json::Bool(false)));
}
