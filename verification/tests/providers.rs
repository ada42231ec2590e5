use selune::{
    AuthMethod, InferenceProvider, Model, ModelCode, ModelCost, ModelLimit, Provider,
    ProviderType, ReasoningOption,
};

fn model(id: &str, code: &str) -> Model {
    Model {
        id: id.to_string(),
        model_code: ModelCode::parse(code).unwrap(),
        name: id.to_uppercase(),
        reasoning: true,
        reasoning_options: vec![ReasoningOption {
            kind: "effort".to_string(),
            values: vec!["low".to_string(), "high".to_string()],
            min: None,
            max: None,
        }],
        attachment: false,
        limit: ModelLimit { context: Some(200_000), input: None, output: Some(64_000) },
        cost: ModelCost { input: Some(3.0f64.to_bits()), output: Some(15.0f64.to_bits()), ..ModelCost::default() },
        options: None,
    }
}

fn provider(models: Vec<Model>) -> Provider {
    Provider {
        name: "Example".to_string(),
        id: InferenceProvider("example".to_string()),
        api_key: None,
        auth: None,
        api_endpoint: Some("https://api.example.invalid/v1".to_string()),
        provider_type: Some(ProviderType::OpenaiCompat),
        doc: Some("https://docs.example.invalid".to_string()),
        default_large_model_id: None,
        default_small_model_id: None,
        models,
        default_headers: None,
    }
}

#[test]
fn oauth_device_login_follows_auth_method() {
    let mut p = provider(vec![]);
    assert!(!p.oauth_device_login());
    p.auth = Some(AuthMethod::ApiKey);
    assert!(!p.oauth_device_login());
    p.auth = Some(AuthMethod::Oauth2Device);
    assert!(p.oauth_device_login());
}

#[test]
fn configured_defaults_win() {
    let mut p = provider(vec![model("first", "org/first"), model("last", "org/last")]);
    p.default_large_model_id = Some("big".to_string());
    p.default_small_model_id = Some("tiny".to_string());
    assert_eq!(p.default_large_model(), Some("big"));
    assert_eq!(p.default_small_model(), Some("tiny"));
}

#[test]
fn defaults_fall_back_to_first_and_last_models() {
    let p = provider(vec![model("first", "org/first"), model("mid", "org/mid"), model("last", "org/last")]);
    assert_eq!(p.default_large_model(), Some("first"));
    assert_eq!(p.default_small_model(), Some("last"));
    assert!(p.model(p.default_large_model().unwrap()).is_some());
    assert!(p.model(p.default_small_model().unwrap()).is_some());
}

#[test]
fn no_models_no_defaults() {
    let p = provider(vec![]);
    assert_eq!(p.default_large_model(), None);
    assert_eq!(p.default_small_model(), None);
}

#[test]
fn model_lookup_by_id_finds_the_first_match() {
    let mut twin = model("dup", "org/twin");
    twin.name = "Second".to_string();
    let p = provider(vec![model("a", "org/a"), model("dup", "org/dup"), twin]);
    let found = p.model("dup").unwrap();
    assert_eq!(found.name, "DUP");
    assert_eq!(found.model_code.to_string(), "org/dup");
    assert_eq!(found.limit.context, Some(200_000));
    assert_eq!(f64::from_bits(found.cost.input.unwrap()), 3.0);
    assert!(found.reasoning);
    assert!(!found.attachment);
    assert_eq!(found.reasoning_options[0].values, ["low", "high"]);
    assert!(p.model("missing").is_none());
    assert!(p.model("").is_none());
}

#[test]
fn model_lookup_by_code() {
    let p = provider(vec![model("a", "org/a:fast"), model("b", "org/b"), model("c", "org/a:fast")]);
    let code = ModelCode::new("org", "a", Some("fast")).unwrap();
    assert_eq!(p.model_by_code(&code).unwrap().id, "a");
    let other = ModelCode::new("org", "a", None).unwrap();
    assert!(p.model_by_code(&other).is_none());
}
