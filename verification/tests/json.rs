use substitution_scanner::json::{decode, encode, Json, Numeral};

#[test]
fn decode_reads_every_kind_of_value() {
    assert_eq!(decode("null"), Some(Json::Null));
    assert_eq!(decode("true"), Some(Json::Bool(true)));
    assert_eq!(decode("false"), Some(Json::Bool(false)));
    assert_eq!(decode("\"a\\nb\""), Some(Json::Text("a\nb".to_string())));
    assert_eq!(
        decode("[1, [], {}]"),
        Some(Json::Array(vec![
            Json::Number(Numeral::Unsigned(1)),
            Json::Array(Vec::new()),
            Json::Object(Vec::new()),
        ]))
    );
}

#[test]
fn decode_tells_the_kinds_of_numbers_apart() {
    assert_eq!(decode("0"), Some(Json::Number(Numeral::Unsigned(0))));
    assert_eq!(
        decode("18446744073709551615"),
        Some(Json::Number(Numeral::Unsigned(u64::MAX)))
    );
    assert_eq!(decode("-1"), Some(Json::Number(Numeral::Negative(-1))));
    assert_eq!(
        decode("-9223372036854775808"),
        Some(Json::Number(Numeral::Negative(i64::MIN)))
    );
    assert_eq!(decode("1.5"), Some(Json::Number(Numeral::Decimal("1.5".to_string()))));
    assert_eq!(decode("-0.25"), Some(Json::Number(Numeral::Decimal("-0.25".to_string()))));
}

#[test]
fn decode_lists_the_members_of_an_object_by_name() {
    assert_eq!(
        decode(r#"{"b": 1, "a": 2, "b": 3}"#),
        Some(Json::Object(vec![
            ("a".to_string(), Json::Number(Numeral::Unsigned(2))),
            ("b".to_string(), Json::Number(Numeral::Unsigned(3))),
        ]))
    );
}

#[test]
fn decode_refuses_what_is_no_document() {
    assert_eq!(decode(""), None);
    assert_eq!(decode("{"), None);
    assert_eq!(decode("[1,]"), None);
    assert_eq!(decode("nul"), None);
    assert_eq!(decode("1 2"), None);
}

#[test]
fn get_finds_the_first_member_of_a_name() {
    let object = Json::Object(vec![
        ("a".to_string(), Json::Bool(true)),
        ("b".to_string(), Json::Null),
        ("a".to_string(), Json::Bool(false)),
    ]);
    assert_eq!(object.get("a"), Some(&Json::Bool(true)));
    assert_eq!(object.get("b"), Some(&Json::Null));
    assert_eq!(object.get("c"), None);
    assert_eq!(Json::Array(vec![Json::Null]).get("a"), None);
    assert_eq!(Json::Text("a".to_string()).get("a"), None);
}

#[test]
fn encode_writes_indented_text() {
    let document = Json::Object(vec![
        ("name".to_string(), Json::Text("BGYM191".to_string())),
        ("users".to_string(), Json::Array(vec![Json::Number(Numeral::Unsigned(7))])),
    ]);
    assert_eq!(
        encode(&document),
        Some("{\n  \"name\": \"BGYM191\",\n  \"users\": [\n    7\n  ]\n}".to_string())
    );
    assert_eq!(encode(&Json::Null), Some("null".to_string()));
    assert_eq!(encode(&Json::Array(Vec::new())), Some("[]".to_string()));
}

#[test]
fn encode_writes_numbers_of_every_kind() {
    let document = Json::Array(vec![
        Json::Number(Numeral::Unsigned(u64::MAX)),
        Json::Number(Numeral::Negative(-5)),
        Json::Number(Numeral::Decimal("2.5".to_string())),
        Json::Number(Numeral::Decimal("no number".to_string())),
    ]);
    assert_eq!(
        encode(&document),
        Some("[\n  18446744073709551615,\n  -5,\n  2.5,\n  null\n]".to_string())
    );
}

#[test]
fn what_was_written_reads_back() {
    let document = Json::Object(vec![
        ("a".to_string(), Json::Array(vec![Json::Text("ä → \"ö\"".to_string()), Json::Null])),
        ("b".to_string(), Json::Object(vec![("c".to_string(), Json::Bool(true))])),
        ("d".to_string(), Json::Number(Numeral::Negative(-12))),
    ]);
    let text = encode(&document).unwrap();
    assert_eq!(decode(&text), Some(document));
}

#[test]
fn a_numeral_copies_itself() {
    for numeral in [
        Numeral::Unsigned(3),
        Numeral::Negative(-3),
        Numeral::Decimal("3.5".to_string()),
    ] {
        assert_eq!(numeral.copy(), numeral);
    }
}
