//! Selune: a registry of AI providers and the models they serve, with
//! verified model-code parsing and provider lookups.

pub mod client;
pub mod ident;
pub mod json;
pub mod model_code;
pub mod text;
pub mod types;

pub use client::DEFAULT_URL;
pub use json::{JsonNumber, JsonValue};
pub use types::{
    AuthMethod, InferenceProvider, Model, ModelCode, ModelCodeError, ModelCost, ModelLimit,
    ModelOptions, Provider, ProviderType, ReasoningOption,
};
