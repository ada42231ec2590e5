use selune::types::{same_float, same_opt_float};
use selune::{JsonNumber, JsonValue, ModelCost, ModelOptions};

#[test]
fn float_bits_compare_as_floats() {
    assert!(same_float(0.0f64.to_bits(), (-0.0f64).to_bits()));
    assert!(same_float(1.5f64.to_bits(), 1.5f64.to_bits()));
    assert!(!same_float(1.5f64.to_bits(), 2.5f64.to_bits()));
    assert!(!same_float(f64::NAN.to_bits(), f64::NAN.to_bits()));
    assert!(same_float(f64::INFINITY.to_bits(), f64::INFINITY.to_bits()));
    assert!(!same_float(f64::INFINITY.to_bits(), f64::NEG_INFINITY.to_bits()));
    assert!(same_opt_float(None, None));
    assert!(!same_opt_float(Some(0), None));
}

#[test]
fn costs_compare_like_the_floats_they_hold() {
    let zero = ModelCost { input: Some(0.0f64.to_bits()), ..ModelCost::default() };
    let neg_zero = ModelCost { input: Some((-0.0f64).to_bits()), ..ModelCost::default() };
    assert_eq!(zero, neg_zero);
    assert_eq!(Some(0.0f64) == Some(-0.0f64), zero == neg_zero);
    let nan = ModelCost { output: Some(f64::NAN.to_bits()), ..ModelCost::default() };
    assert_ne!(nan, nan.clone());
    let three = ModelCost { input: Some(3.0f64.to_bits()), ..ModelCost::default() };
    assert_ne!(three, zero);
}

#[test]
fn options_compare_like_the_values_they_hold() {
    let a = ModelOptions { temperature: Some(0.0f64.to_bits()), top_k: Some(40), ..ModelOptions::default() };
    let b = ModelOptions { temperature: Some((-0.0f64).to_bits()), top_k: Some(40), ..ModelOptions::default() };
    assert_eq!(a, b);
    let c = ModelOptions { top_k: Some(41), ..a.clone() };
    assert_ne!(a, c);
    let d = ModelOptions {
        provider_options: Some(vec![("x".to_string(), JsonValue::Number(JsonNumber::PosInt(1)))]),
        ..a.clone()
    };
    assert_ne!(a, d);
    assert_eq!(d, d.clone());
}
