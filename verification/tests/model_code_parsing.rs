use selune::types::{valid_kebab_id, valid_model_id};
use selune::{ModelCode, ModelCodeError};

#[test]
fn parses_code_without_variant() {
    let code = ModelCode::parse("zai-org/GLM-5.3-Flash").unwrap();
    assert_eq!(code.org(), "zai-org");
    assert_eq!(code.model(), "GLM-5.3-Flash");
    assert_eq!(code.variant(), None);
}

#[test]
fn parses_code_with_variant() {
    let code = ModelCode::parse("zai-org/GLM-5.3-Flash:high").unwrap();
    assert_eq!(code.org(), "zai-org");
    assert_eq!(code.model(), "GLM-5.3-Flash");
    assert_eq!(code.variant(), Some("high"));
}

#[test]
fn renders_code_as_text() {
    let with_variant = ModelCode::new("openai", "gpt-6-astra", Some("256k")).unwrap();
    assert_eq!(with_variant.to_string(), "openai/gpt-6-astra:256k");
    let without = ModelCode::new("mistral", "large-2.1", None).unwrap();
    assert_eq!(without.to_string(), "mistral/large-2.1");
}

#[test]
fn render_then_parse_round_trips() {
    for text in ["a/b", "meta-llama/Llama-4.1-70B:free", "x1/y.z-w:fast-2"] {
        let code = ModelCode::parse(text).unwrap();
        assert_eq!(code.to_string(), text);
        assert_eq!(ModelCode::parse(&code.to_string()).unwrap(), code);
    }
}

#[test]
fn from_str_matches_parse() {
    let code: ModelCode = "deepseek/deepseek-v4:fast".parse().unwrap();
    assert_eq!(code, ModelCode::parse("deepseek/deepseek-v4:fast").unwrap());
    let err = "deepseek".parse::<ModelCode>().unwrap_err();
    assert_eq!(err, ModelCodeError::Format("deepseek".to_string()));
}

#[test]
fn more_than_one_colon_is_a_format_error() {
    assert_eq!(
        ModelCode::parse("a/b:c:d"),
        Err(ModelCodeError::Format("a/b:c:d".to_string()))
    );
    assert_eq!(
        ModelCode::parse("Bad Org/b:c:d"),
        Err(ModelCodeError::Format("Bad Org/b:c:d".to_string()))
    );
}

#[test]
fn missing_slash_is_a_format_error() {
    assert_eq!(
        ModelCode::parse("just-a-model:fast"),
        Err(ModelCodeError::Format("just-a-model:fast".to_string()))
    );
    assert_eq!(ModelCode::parse(""), Err(ModelCodeError::Format(String::new())));
}

#[test]
fn bad_parts_are_reported_in_order() {
    assert_eq!(ModelCode::parse("Org/Bad_Model"), Err(ModelCodeError::Org("Org".to_string())));
    assert_eq!(ModelCode::parse("/model"), Err(ModelCodeError::Org(String::new())));
    assert_eq!(ModelCode::parse("org/bad_model"), Err(ModelCodeError::Model("bad_model".to_string())));
    assert_eq!(ModelCode::parse("org/"), Err(ModelCodeError::Model(String::new())));
    assert_eq!(ModelCode::parse("org/a/b"), Err(ModelCodeError::Model("a/b".to_string())));
    assert_eq!(ModelCode::parse("org/model:High"), Err(ModelCodeError::Variant("High".to_string())));
    assert_eq!(ModelCode::parse("org/model:"), Err(ModelCodeError::Variant(String::new())));
}

#[test]
fn new_checks_each_part() {
    assert_eq!(ModelCode::new("Org", "m", Some("X")), Err(ModelCodeError::Org("Org".to_string())));
    assert_eq!(ModelCode::new("org", "m..1", Some("X")), Err(ModelCodeError::Model("m..1".to_string())));
    assert_eq!(ModelCode::new("org", "m.1", Some("X")), Err(ModelCodeError::Variant("X".to_string())));
    let ok = ModelCode::new("org", "m.1", Some("x-2")).unwrap();
    assert_eq!(ok.org(), "org");
    assert_eq!(ok.model(), "m.1");
    assert_eq!(ok.variant(), Some("x-2"));
}

#[test]
fn kebab_ids() {
    for good in ["a", "a-b", "zai-org", "x1-2y", "256k"] {
        assert!(valid_kebab_id(good), "{good}");
    }
    for bad in ["", "-a", "a-", "a--b", "A", "a_b", "a.b", "é", "a b"] {
        assert!(!valid_kebab_id(bad), "{bad}");
    }
}

#[test]
fn model_ids() {
    for good in ["GLM-5.3-Flash", "gpt-6", "v1.2.3", "A"] {
        assert!(valid_model_id(good), "{good}");
    }
    for bad in ["", ".a", "a.", "a..b", "a-.b", "a_b", "a/b", "a:b"] {
        assert!(!valid_model_id(bad), "{bad}");
    }
}

#[test]
fn codes_compare_by_parts() {
    let a = ModelCode::parse("org/m:v").unwrap();
    let b = ModelCode::new("org", "m", Some("v")).unwrap();
    let c = ModelCode::new("org", "m", None).unwrap();
    assert_eq!(a, b);
    assert_ne!(a, c);
    assert_eq!(a.clone(), a);
}

#[test]
fn error_messages_quote_the_text() {
    assert_eq!(
        ModelCodeError::Format("x".to_string()).to_string(),
        "invalid model code \"x\": expected `org/model` or `org/model:variant`"
    );
    assert_eq!(
        ModelCodeError::Org("a\"b".to_string()).to_string(),
        "invalid org id \"a\\\"b\" in model code: must be lowercase kebab-case"
    );
    assert_eq!(
        ModelCodeError::Model("m m".to_string()).to_string(),
        "invalid model id \"m m\" in model code: must be kebab-case, case sensitive, dots allowed"
    );
    assert_eq!(
        ModelCodeError::Variant("V".to_string()).to_string(),
        "invalid variant \"V\" in model code: must be lowercase kebab-case"
    );
}

#[test]
fn new_and_parse_agree_on_failures_too() {
    let cases: [(&str, &str, Option<&str>); 4] = [
        ("Org", "m", None),
        ("org", "bad model", Some("v")),
        ("org", "m", Some("V")),
        ("org", "a/b", None),
    ];
    for (org, model, variant) in cases {
        let text = match variant {
            Some(v) => format!("{org}/{model}:{v}"),
            None => format!("{org}/{model}"),
        };
        assert_eq!(ModelCode::new(org, model, variant), ModelCode::parse(&text));
    }
}
