//! JSON documents, and the errors of the service.
use tonmon::utils::error::ServiceError;
use tonmon::utils::json::{truncate_i32, truncate_u32, Json, JsonNumber};

#[test]
fn document_is_read() {
    let json = Json::parse(
        r#"{"t": "x", "b": true, "n": 5, "m": -3, "d": 1.5, "a": [1, null], "o": {}}"#,
    )
    .unwrap();
    assert_eq!(json.text_at("t"), Some("x".to_string()));
    assert_eq!(json.text_at("b"), None);
    assert_eq!(json.flag_at("b"), Some(true));
    assert_eq!(json.flag_at("t"), None);
    assert_eq!(json.unsigned_at("n"), Some(5));
    assert_eq!(json.unsigned_at("m"), None);
    assert_eq!(json.signed_at("n"), Some(5));
    assert_eq!(json.signed_at("m"), Some(-3));
    assert_eq!(json.signed_at("d"), None);
    assert!(matches!(json.get("d"), Some(Json::Number(JsonNumber::Decimal(d))) if d.to_string() == "1.5"));
    assert!(matches!(json.get("a"), Some(Json::Array(items)) if items.len() == 2));
    assert!(matches!(json.get("o"), Some(Json::Object(fields)) if fields.is_empty()));
    assert!(json.get("x").is_none());
    assert!(Json::Null.get("x").is_none());
}

#[test]
fn later_field_counts() {
    let json = Json::parse(r#"{"a": 1, "a": 2}"#).unwrap();
    assert_eq!(json.unsigned_at("a"), Some(2));
    let json = Json::from_fields(vec![
        ("a".to_string(), Json::from_count(1)),
        ("a".to_string(), Json::from_count(2)),
    ]);
    assert_eq!(json.unsigned_at("a"), Some(2));
    assert_eq!(json.to_text(), Ok("{\"a\":2}".to_string()));
}

#[test]
fn document_is_written() {
    let json = Json::from_fields(vec![
        ("b".to_string(), Json::Bool(false)),
        ("a".to_string(), Json::from_integer(-7)),
        ("c".to_string(), Json::from_optional(Some("q\"".to_string()))),
        ("d".to_string(), Json::from_optional(None)),
    ]);
    assert_eq!(
        json.to_text(),
        Ok("{\"a\":-7,\"b\":false,\"c\":\"q\\\"\",\"d\":null}".to_string())
    );
}

#[test]
fn decimals_are_written_as_they_were_read() {
    for text in ["0.25", "-1.5e300", "2.2250738585072014e-308", "51.24817837550540", "1e21", "-0"] {
        let read = serde_json::from_str::<serde_json::Value>(text).unwrap();
        assert_eq!(Json::parse(text).unwrap().to_text(), Ok(read.to_string()));
    }
    let number = serde_json::Number::from_f64(0.5).unwrap();
    assert_eq!(Json::Number(JsonNumber::Decimal(number)).to_text(), Ok("0.5".to_string()));
}

#[test]
fn bytes_are_read_like_text() {
    assert_eq!(Json::parse_slice(&b"{\"a\": 1}".to_vec()).unwrap().unsigned_at("a"), Some(1));
    assert!(Json::parse_slice(&vec![0xff]).is_err());
    assert!(Json::parse("{").is_err());
}

#[test]
fn list_is_cut() {
    let json = Json::parse(r#"{"a": [1, 2, 3], "b": [1, 2, 3]}"#).unwrap().cut_list("a", 2);
    assert_eq!(json.to_text(), Ok("{\"a\":[1,2],\"b\":[1,2,3]}".to_string()));
    let json = Json::parse(r#"{"a": [1]}"#).unwrap().cut_list("x", 0);
    assert_eq!(json.to_text(), Ok("{\"a\":[1]}".to_string()));
    assert!(matches!(Json::Null.cut_list("a", 0), Json::Null));
}

#[test]
fn numbers_keep_their_low_bits() {
    assert_eq!(truncate_u32(4294967296 + 7), 7);
    assert_eq!(truncate_u32(u64::MAX), u32::MAX);
    assert_eq!(truncate_i32(2147483648), i32::MIN);
    assert_eq!(truncate_i32(-2147483649), i32::MAX);
    assert_eq!(truncate_i32(-5), -5);
}

#[test]
fn errors_say_where_they_come_from() {
    let text = "x".to_string();
    assert_eq!(ServiceError::TonClient(text.clone()).to_text(), "TON client error: x");
    assert_eq!(ServiceError::WebSocket(text.clone()).to_text(), "WebSocket error: x");
    assert_eq!(ServiceError::Serialization(text.clone()).to_text(), "Serialization error: x");
    assert_eq!(ServiceError::HttpClient(text).to_text(), "HTTP client error: x");
}
