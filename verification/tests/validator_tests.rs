//! End-to-end tests of the validator: accepted documents and the exact
//! diagnostic for each rejected one.

fn parse_json(input: &str) -> Result<(), &'static str> {
    jsonlint::validate(input).map_err(|e| e.message())
}

// Tests for Valid JSON
#[test]
fn main_test_empty_object() {
    assert!(parse_json("{}").is_ok());
}

#[test]
fn test_basic_types() {
    // Test all basic JSON types
    assert!(parse_json(
        r#"{
            "string": "hello_world",
            "number": 42,
            "float": 3.14,
            "negative": -123,
            "boolean_true": true,
            "boolean_false": false,
            "null_value": null
        }"#
    )
    .is_ok());
}

#[test]
fn test_nested_structures() {
    assert!(parse_json(
        r#"{
            "empty_object": {},
            "empty_array": [],
            "nested_object": {"key": "value"},
            "nested_array": ["item"],
            "deep_nesting": {
                "level1": {
                    "level2": {
                        "level3": {}
                    }
                }
            }
        }"#
    )
    .is_ok());
}

#[test]
fn test_array_variations() {
    assert!(parse_json(
        r#"{
            "mixed_array": [1, "string", true, null, {"key": "value"}, [1, 2, 3]],
            "number_array": [1, 2, 3, 4, 5],
            "nested_arrays": [[], [1], [1, [2, [3]]]],
            "object_array": [{"k1": "v1"}, {"k2": "v2"}]
        }"#
    )
    .is_ok());
}

#[test]
fn test_whitespace_handling() {
    // Test various whitespace scenarios
    assert!(parse_json(r#"{"key" : "value"}"#).is_ok());
    assert!(parse_json("{\n\t\"key\":\"value\"\n}").is_ok());
    assert!(parse_json("{ \r\n \t }").is_ok());
}

// Tests for Invalid JSON
#[test]
fn test_invalid_syntax() {
    // Missing closing brace
    let err = parse_json(r#"{"key": "value""#).unwrap_err();
    assert_eq!(err, "Unexpected end of input");

    // Missing quotes around key
    let err = parse_json(r#"{key: "value"}"#).unwrap_err();
    assert_eq!(err, "Invalid identifier");

    // Missing colon
    let err = parse_json(r#"{"key" "value"}"#).unwrap_err();
    assert_eq!(err, "Expected ':'");
}

#[test]
fn test_invalid_arrays() {
    // Trailing comma in array
    let err = parse_json(r#"{"arr": [1, 2, ]}"#).unwrap_err();
    assert_eq!(err, "Trailing comma not allowed");

    // Missing comma between array elements
    let err = parse_json(r#"{"arr": [1 2]}"#).unwrap_err();
    assert_eq!(err, "Expected ',' or ']'");

    // Unclosed array
    let err = parse_json(r#"{"arr": [1, 2"#).unwrap_err();
    assert_eq!(err, "Unexpected end of input");
}

#[test]
fn test_invalid_values() {
    // Invalid boolean capitalization
    let err = parse_json(r#"{"key": True}"#).unwrap_err();
    assert_eq!(err, "Invalid identifier");

    // Invalid number format
    let err = parse_json(r#"{"key": 12.34.56}"#).unwrap_err();
    assert_eq!(err, "Invalid number format");

    // Single quotes instead of double quotes
    let err = parse_json(r#"{'key': 'value'}"#).unwrap_err();
    assert_eq!(err, "Invalid character in JSON");
}

#[test]
fn test_invalid_objects() {
    // Trailing comma in object
    let err = parse_json(r#"{"key": "value",}"#).unwrap_err();
    assert_eq!(err, "Trailing comma not allowed");

    // Missing comma between properties
    let err = parse_json(r#"{"key1": "value1" "key2": "value2"}"#).unwrap_err();
    assert_eq!(err, "Expected ',' or '}'");
}

#[test]
fn test_empty_input() {
    let err = parse_json("").unwrap_err();
    assert_eq!(err, "Expected '{'");
}

#[test]
fn test_complex_invalid_cases() {
    // Mixing array and object syntax
    let err = parse_json(r#"{"arr": [}"#).unwrap_err();
    assert_eq!(err, "Expected value");

    // Nested invalid syntax
    let err = parse_json(
        r#"{
            "outer": {
                "inner": {
                    "key": value
                }
            }
        }"#,
    )
    .unwrap_err();
    assert_eq!(err, "Invalid identifier");
}

#[test]
fn test_boundary_cases() {
    // Test very long string (this should still work)
    let long_string = format!(r#"{{"key": "{}"}}"#, "a".repeat(1000));
    assert!(parse_json(&long_string).is_ok());

    // Test nesting limit (should fail gracefully at extreme depths)
    let too_deep = "{".repeat(1000) + "}".repeat(1000).as_str();
    assert!(parse_json(&too_deep).is_err());
}

// Add a new test specifically for reasonable nesting depths
#[test]
fn test_nested_depth() {
    // Test reasonable nesting (should pass)
    let nested_10 = r#"{
        "l1": {
            "l2": {
                "l3": {
                    "l4": {
                        "l5": {
                            "l6": {
                                "l7": {
                                    "l8": {
                                        "l9": {
                                            "l10": {}
                                        }
                                    }
                                }
                            }
                        }
                    }
                }
            }
        }
    }"#;
    assert!(parse_json(nested_10).is_ok());
}
