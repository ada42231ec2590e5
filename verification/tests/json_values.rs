use selune::json::{same_object, same_opt_object};
use selune::{JsonNumber, JsonValue, ModelOptions};

fn float(x: f64) -> JsonValue {
    JsonValue::Number(JsonNumber::Float(x.to_bits()))
}

fn obj(members: Vec<(&str, JsonValue)>) -> Vec<(String, JsonValue)> {
    members.into_iter().map(|(k, v)| (k.to_string(), v)).collect()
}

#[test]
fn zero_and_negative_zero_options_are_equal() {
    let a = obj(vec![("t", float(0.0))]);
    let b = obj(vec![("t", float(-0.0))]);
    assert!(same_object(&a, &b));
    let with_a = ModelOptions { provider_options: Some(a), ..ModelOptions::default() };
    let with_b = ModelOptions { provider_options: Some(b), ..ModelOptions::default() };
    assert_eq!(with_a, with_b);
}

#[test]
fn numbers_of_different_kinds_differ() {
    assert_ne!(JsonValue::Number(JsonNumber::PosInt(1)), float(1.0));
    assert_ne!(JsonValue::Number(JsonNumber::PosInt(1)), JsonValue::Number(JsonNumber::NegInt(-1)));
    assert_eq!(JsonValue::Number(JsonNumber::NegInt(-3)), JsonValue::Number(JsonNumber::NegInt(-3)));
}

#[test]
fn nested_values_compare_deeply() {
    let make = |last: bool| {
        JsonValue::Object(obj(vec![
            ("list", JsonValue::Array(vec![JsonValue::Null, JsonValue::Bool(last)])),
            ("name", JsonValue::String("x".to_string())),
        ]))
    };
    assert_eq!(make(true), make(true));
    assert_ne!(make(true), make(false));
    assert_eq!(make(true).clone(), make(true));
    assert_ne!(JsonValue::Array(vec![JsonValue::Null]), JsonValue::Array(vec![]));
    assert_ne!(JsonValue::String("a".to_string()), JsonValue::Null);
}

#[test]
fn objects_compare_keys_and_values() {
    let a = obj(vec![("a", JsonValue::Null), ("b", JsonValue::Bool(true))]);
    let b = obj(vec![("a", JsonValue::Null), ("c", JsonValue::Bool(true))]);
    let c = obj(vec![("a", JsonValue::Null)]);
    assert!(!same_object(&a, &b));
    assert!(!same_object(&a, &c));
    assert!(same_opt_object(&None, &None));
    assert!(!same_opt_object(&Some(a.clone()), &None));
    assert!(same_opt_object(&Some(a.clone()), &Some(a)));
}
