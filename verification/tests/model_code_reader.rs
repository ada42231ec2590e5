use selune::model_code::{ModelCode, ModelCodeError};

#[test]
fn reads_org_and_model() {
    let code = ModelCode::from_str("acme/big_model-4").unwrap();
    assert_eq!(code.org_id, "acme");
    assert_eq!(code.model_id, "big_model-4");
    assert_eq!(code.variant, None);
}

#[test]
fn reads_variant() {
    let code = ModelCode::from_str("Org/Model:High").unwrap();
    assert_eq!(code.org_id, "Org");
    assert_eq!(code.model_id, "Model");
    assert_eq!(code.variant.as_deref(), Some("High"));
}

#[test]
fn empty_variant_reads_as_none() {
    let code = ModelCode::from_str("org/model:").unwrap();
    assert_eq!(code.variant, None);
    assert_eq!(code.to_string(), "org/model");
}

#[test]
fn missing_parts_are_format_errors() {
    assert!(matches!(ModelCode::from_str(""), Err(ModelCodeError::InvalidFormat)));
    assert!(matches!(ModelCode::from_str("org"), Err(ModelCodeError::InvalidFormat)));
    assert!(matches!(ModelCode::from_str("org/"), Err(ModelCodeError::InvalidFormat)));
    assert!(matches!(ModelCode::from_str("/model"), Err(ModelCodeError::InvalidFormat)));
    assert!(matches!(ModelCode::from_str("org/:v"), Err(ModelCodeError::InvalidFormat)));
}

#[test]
fn misplaced_characters_are_reported() {
    assert_eq!(ModelCode::from_str("a/b/c").unwrap_err(), ModelCodeError::InvalidCharacter('/'));
    assert_eq!(ModelCode::from_str("a:b").unwrap_err(), ModelCodeError::InvalidCharacter(':'));
    assert_eq!(ModelCode::from_str("a/b:c:d").unwrap_err(), ModelCodeError::InvalidCharacter(':'));
    assert_eq!(ModelCode::from_str("a b/c").unwrap_err(), ModelCodeError::InvalidCharacter(' '));
    assert_eq!(ModelCode::from_str("a/b.c").unwrap_err(), ModelCodeError::InvalidCharacter('.'));
    assert_eq!(ModelCode::from_str("a/é").unwrap_err(), ModelCodeError::InvalidCharacter('é'));
}

#[test]
fn first_misplaced_character_wins() {
    assert_eq!(ModelCode::from_str("a.b:c").unwrap_err(), ModelCodeError::InvalidCharacter('.'));
}

#[test]
fn writes_code() {
    let code = ModelCode::new("org", "model", Some("fast"));
    assert_eq!(code.to_string(), "org/model:fast");
    let plain = ModelCode::new("org", "model", None);
    assert_eq!(plain.to_string(), "org/model");
}

#[test]
fn write_then_read_round_trips() {
    let code = ModelCode::new("Mistral_AI", "large-2", Some("v_1"));
    let back = ModelCode::from_str(&code.to_string()).unwrap();
    assert_eq!(back.org_id, code.org_id);
    assert_eq!(back.model_id, code.model_id);
    assert_eq!(back.variant, code.variant);
}

#[test]
fn reader_error_messages() {
    assert_eq!(ModelCodeError::InvalidFormat.to_string(), "invalid format");
    assert_eq!(ModelCodeError::InvalidCharacter('#').to_string(), "invalid character: #");
}

#[test]
fn std_from_str_reads_the_same() {
    let code: ModelCode = "a/b:c".parse().unwrap();
    assert_eq!(code.variant.as_deref(), Some("c"));
}
