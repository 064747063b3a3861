//! Tests of the value bridge and the canonical text codec, without a store.

use sqlbridge::bridge::{to_external, to_native};
use sqlbridge::codec::{parse_text, serialize_value};
use sqlbridge::value::{DbError, ExternalValue, NativeValue};

fn round_trip(v: ExternalValue) -> ExternalValue {
    to_external(to_native(&v))
}

#[test]
fn null_survives_round_trip() {
    assert_eq!(round_trip(ExternalValue::Null), ExternalValue::Null);
}

#[test]
fn integer_survives_round_trip() {
    assert_eq!(round_trip(ExternalValue::Int(42)), ExternalValue::Int(42));
    assert_eq!(round_trip(ExternalValue::Int(-7)), ExternalValue::Int(-7));
    assert_eq!(
        round_trip(ExternalValue::Int(i64::MIN)),
        ExternalValue::Int(i64::MIN)
    );
    assert_eq!(
        round_trip(ExternalValue::Int(i64::MAX)),
        ExternalValue::Int(i64::MAX)
    );
}

#[test]
fn plain_string_survives_round_trip() {
    let v = ExternalValue::Str(String::from("Alice"));
    assert_eq!(round_trip(v), ExternalValue::Str(String::from("Alice")));
    let odd = ExternalValue::Str(String::from("he\"ll\\o"));
    assert_eq!(round_trip(odd), ExternalValue::Str(String::from("he\"ll\\o")));
}

#[test]
fn boolean_collapses_to_number() {
    assert_eq!(round_trip(ExternalValue::Boolean(true)), ExternalValue::Int(1));
    assert_eq!(round_trip(ExternalValue::Boolean(false)), ExternalValue::Int(0));
}

fn sample_array() -> ExternalValue {
    ExternalValue::Array(vec![
        ExternalValue::Int(1),
        ExternalValue::Str(String::from("x")),
        ExternalValue::Null,
        ExternalValue::Boolean(true),
        ExternalValue::Real(String::from("2.5")),
    ])
}

fn sample_object() -> ExternalValue {
    ExternalValue::Object(vec![
        (String::from("a"), ExternalValue::Int(1)),
        (String::from("quote\"key"), ExternalValue::Str(String::from("a\"b\\c"))),
        (String::from("inner"), sample_array()),
    ])
}

#[test]
fn array_survives_round_trip() {
    assert_eq!(round_trip(sample_array()), sample_array());
}

#[test]
fn object_survives_round_trip() {
    assert_eq!(round_trip(sample_object()), sample_object());
}

#[test]
fn canonical_text_of_array() {
    let t = serialize_value(&sample_array());
    assert_eq!(t, "[1,\"x\",null,true,2.5]");
}

#[test]
fn canonical_text_of_object() {
    let t = serialize_value(&ExternalValue::Object(vec![(
        String::from("a"),
        ExternalValue::Boolean(false),
    )]));
    assert_eq!(t, "{\"a\":false}");
}

#[test]
fn numeric_looking_string_is_reinterpreted() {
    // Documented ambiguity, not a defect: a string whose contents are valid
    // structured-value syntax comes back as the parsed value.
    let v = ExternalValue::Str(String::from("42"));
    assert_eq!(round_trip(v), ExternalValue::Int(42));
    let n = ExternalValue::Str(String::from("null"));
    assert_eq!(round_trip(n), ExternalValue::Null);
}

#[test]
fn parse_text_cases() {
    assert_eq!(parse_text("42"), Some(ExternalValue::Int(42)));
    assert_eq!(parse_text("-3"), Some(ExternalValue::Int(-3)));
    assert_eq!(parse_text("4.5"), Some(ExternalValue::Real(String::from("4.5"))));
    assert_eq!(parse_text("true"), Some(ExternalValue::Boolean(true)));
    assert_eq!(parse_text("[]"), Some(ExternalValue::Array(vec![])));
    assert_eq!(parse_text("{}"), Some(ExternalValue::Object(vec![])));
    assert_eq!(parse_text("Alice"), None);
    assert_eq!(parse_text(""), None);
    assert_eq!(parse_text("[1,]"), None);
    assert_eq!(parse_text("\"hi\""), Some(ExternalValue::Str(String::from("hi"))));
}

#[test]
fn numeric_token_edges() {
    // Exponent-form and zero-padded tokens are numeric tokens, not integers.
    assert_eq!(parse_text("1e3"), Some(ExternalValue::Real(String::from("1e3"))));
    assert_eq!(parse_text("007"), Some(ExternalValue::Real(String::from("007"))));
    // The canonical numeral of an integer parses as the integer itself.
    assert_eq!(
        parse_text("-9223372036854775808"),
        Some(ExternalValue::Int(i64::MIN))
    );
}

#[test]
fn string_escapes_in_canonical_text() {
    let t = serialize_value(&ExternalValue::Str(String::from("a\"b\\c")));
    assert_eq!(t, "\"a\\\"b\\\\c\"");
}

#[test]
fn outbound_blob_becomes_base64_string() {
    let e = to_external(NativeValue::Blob(vec![1, 2, 3]));
    assert_eq!(e, ExternalValue::Str(String::from("AQID")));
    let empty = to_external(NativeValue::Blob(vec![]));
    assert_eq!(empty, ExternalValue::Str(String::new()));
}

#[test]
fn inbound_never_produces_blob() {
    let inputs = vec![
        ExternalValue::Null,
        ExternalValue::Boolean(true),
        ExternalValue::Int(5),
        ExternalValue::Real(String::from("1.5")),
        ExternalValue::Str(String::from("s")),
        sample_array(),
        sample_object(),
    ];
    for v in inputs {
        let n = to_native(&v);
        assert!(!matches!(n, NativeValue::Blob(_)));
    }
}

#[test]
fn error_message_is_preserved() {
    let e = DbError::Query(String::from("no such table: missing"));
    assert_eq!(e.message(), "no such table: missing");
}
