use std::collections::HashMap;

use dojo_registry::syntax::{is_world_param, parse_arguments_kv, parse_arguments_pairs};

#[test]
fn test_parse_arguments_kv_single_argument() {
    let args = "(namespace: \"sn\")";
    let result = parse_arguments_kv(args);
    let mut expected = HashMap::new();
    expected.insert("namespace".to_string(), "sn".to_string());
    assert_eq!(result, expected);
}

#[test]
fn test_parse_arguments_kv_multiple_arguments() {
    let args = "(namespace: \"sn\", version: \"1.0\")";
    let result = parse_arguments_kv(args);
    let mut expected = HashMap::new();
    expected.insert("namespace".to_string(), "sn".to_string());
    expected.insert("version".to_string(), "1.0".to_string());
    assert_eq!(result, expected);
}

#[test]
fn test_parse_arguments_kv_no_arguments() {
    let args = "()";
    let result = parse_arguments_kv(args);
    let expected: HashMap<String, String> = HashMap::new();
    assert_eq!(result, expected);
}

#[test]
fn test_parse_arguments_kv_trailing_comma() {
    let args = "(namespace: \"sn\",)";
    let result = parse_arguments_kv(args);
    let mut expected = HashMap::new();
    expected.insert("namespace".to_string(), "sn".to_string());
    assert_eq!(result, expected);
}

#[test]
fn test_parse_arguments_kv_whitespace() {
    let args = "(  namespace  :  \"sn\"  ,  version  :  \"1.0\"  )";
    let result = parse_arguments_kv(args);
    let mut expected = HashMap::new();
    expected.insert("namespace".to_string(), "sn".to_string());
    expected.insert("version".to_string(), "1.0".to_string());
    assert_eq!(result, expected);
}

#[test]
fn test_parse_arguments_pairs_keeps_order() {
    let pairs = parse_arguments_pairs("(b: \"2\", a: \"1\")");
    assert_eq!(
        pairs,
        vec![("b".to_string(), "2".to_string()), ("a".to_string(), "1".to_string())]
    );
}

#[test]
fn test_is_world_param() {
    assert!(is_world_param("world", "IWorldDispatcher"));
    assert!(is_world_param("world", "@IWorldDispatcher"));
    assert!(!is_world_param("world", "u32"));
    assert!(!is_world_param("other", "IWorldDispatcher"));
}
