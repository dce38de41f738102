//! Smaller acceptance and rejection cases, one lexical or grammatical
//! feature at a time.

fn parse_json(input: &str) -> Result<(), &'static str> {
    jsonlint::validate(input).map_err(|e| e.message())
}

#[test]
fn step_1_test_valid_empty_object() {
    let input = "{}";
    assert!(parse_json(input).is_ok());
}

#[test]
fn test_invalid_single_brace() {
    let input = "{";
    assert!(parse_json(input).is_err());
}

#[test]
fn test_invalid_empty() {
    let input = "";
    assert!(parse_json(input).is_err());
}

#[test]
fn test_invalid_with_content() {
    let input = "{a}";
    assert!(parse_json(input).is_err());
}

#[test]
fn step_2_test_valid_empty_object() {
    assert!(parse_json("{}").is_ok());
}

#[test]
fn test_valid_single_pair() {
    assert!(parse_json(r#"{"key": "value"}"#).is_ok());
}

#[test]
fn test_valid_multiple_pairs() {
    assert!(parse_json(r#"{"key": "value", "key2": "value"}"#).is_ok());
}

#[test]
fn test_invalid_trailing_comma() {
    assert!(parse_json(r#"{"key": "value",}"#).is_err());
}

#[test]
fn test_invalid_missing_quotes() {
    assert!(parse_json(r#"{key: "value"}"#).is_err());
}

#[test]
fn test_invalid_missing_colon() {
    assert!(parse_json(r#"{"key" "value"}"#).is_err());
}

#[test]
fn test_valid_boolean() {
    assert!(parse_json(r#"{"key": true}"#).is_ok());
    assert!(parse_json(r#"{"key": false}"#).is_ok());
}

#[test]
fn test_valid_null() {
    assert!(parse_json(r#"{"key": null}"#).is_ok());
}

#[test]
fn test_valid_number() {
    assert!(parse_json(r#"{"key": 123}"#).is_ok());
    assert!(parse_json(r#"{"key": -123}"#).is_ok());
    assert!(parse_json(r#"{"key": 123.456}"#).is_ok());
}

#[test]
fn test_invalid_boolean_case() {
    assert!(parse_json(r#"{"key": True}"#).is_err());
    assert!(parse_json(r#"{"key": FALSE}"#).is_err());
}

#[test]
fn test_valid_mixed_values() {
    assert!(parse_json(
        r#"{
            "key1": true,
            "key2": false,
            "key3": null,
            "key4": "value",
            "key5": 101
        }"#
    )
    .is_ok());
}

#[test]
fn step_4_test_empty_object() {
    assert!(parse_json("{}").is_ok());
}

#[test]
fn test_empty_array() {
    assert!(parse_json(r#"{"key": []}"#).is_ok());
}

#[test]
fn test_nested_object() {
    assert!(parse_json(r#"{"key": {"inner": "value"}}"#).is_ok());
}

#[test]
fn test_array_with_values() {
    assert!(parse_json(r#"{"key": ["value1", "value2"]}"#).is_ok());
}

#[test]
fn test_complex_nested() {
    assert!(parse_json(
        r#"{
            "key": "value",
            "key-n": 101,
            "key-o": {
                "inner key": "inner value"
            },
            "key-l": ["list value"]
        }"#
    )
    .is_ok());
}

#[test]
fn test_invalid_array() {
    assert!(parse_json(r#"{"key": ['invalid']}"#).is_err());
}
