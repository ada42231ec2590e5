//! The catalog's data model: providers, their models, and model codes.

use vstd::prelude::*;
use vstd::std_specs::cmp::{PartialEqSpec, PartialEqSpecImpl};
use vstd::string::StringExecFns;
use crate::ident::{is_kebab_id, is_model_id, is_part_char, is_separator, is_separated_id, separated_id, IdStyle};
use crate::json::{JsonValue, object_eq, opt_object_eq, same_opt_object};
use crate::text::{same_text, count_char, split_once, count_of, split_once_at, lemma_split_once_concat, lemma_split_once_rejoin, lemma_count_char_add, lemma_count_char_absent};

verus! {

/// The parts of a model code as text: org, model and optional variant.
pub type CodeParts = (Seq<char>, Seq<char>, Option<Seq<char>>);

/// A model code identifying a model across providers: `org/model` or
/// `org/model:variant`. The org is the training organization's id (Hugging
/// Face or GitHub style, lowercase kebab-case); the model id is kebab-case,
/// case sensitive, dots allowed; the optional variant is lowercase kebab-case.
#[derive(Debug, Eq, Hash)]
pub struct ModelCode {
    org: String,
    model: String,
    variant: Option<String>,
}

/// Why a model code failed to parse or build, with the offending text.
#[derive(Debug, PartialEq, Eq)]
pub enum ModelCodeError {
    /// The code is not `org/model` or `org/model:variant`.
    Format(String),
    /// The org id is not lowercase kebab-case.
    Org(String),
    /// The model id is not kebab-case with dots allowed.
    Model(String),
    /// The variant is not lowercase kebab-case.
    Variant(String),
}

/// The abstract value of a [`ModelCodeError`]: which check failed, on what text.
pub enum CodeFault {
    Format(Seq<char>),
    Org(Seq<char>),
    Model(Seq<char>),
    Variant(Seq<char>),
}

impl View for ModelCodeError {
    type V = CodeFault;

    open spec fn view(&self) -> CodeFault {
        match self {
            ModelCodeError::Format(s) => CodeFault::Format(s@),
            ModelCodeError::Org(s) => CodeFault::Org(s@),
            ModelCodeError::Model(s) => CodeFault::Model(s@),
            ModelCodeError::Variant(s) => CodeFault::Variant(s@),
        }
    }
}

/// How Rust's `Debug` formatting writes the text `s`: in double quotes,
/// with its special characters escaped.
pub uninterp spec fn debug_quoted(s: Seq<char>) -> Seq<char>;

/// `format!("{:?}", s)` from std: the text in double quotes with Rust's
/// escapes. Claimed: the result is `debug_quoted` of the text, a function of
/// the text alone; what the escapes are is left unsaid.
#[verifier::external_body]
fn quoted(s: &str) -> (r: String)
    ensures
        r@ == debug_quoted(s@),
{
    format!("{:?}", s)
}

/// The message that describes a fault.
pub open spec fn fault_message(f: CodeFault) -> Seq<char> {
    match f {
        CodeFault::Format(s) => "invalid model code "@ + debug_quoted(s)
            + ": expected `org/model` or `org/model:variant`"@,
        CodeFault::Org(s) => "invalid org id "@ + debug_quoted(s)
            + " in model code: must be lowercase kebab-case"@,
        CodeFault::Model(s) => "invalid model id "@ + debug_quoted(s)
            + " in model code: must be kebab-case, case sensitive, dots allowed"@,
        CodeFault::Variant(s) => "invalid variant "@ + debug_quoted(s)
            + " in model code: must be lowercase kebab-case"@,
    }
}

impl Clone for ModelCodeError {
    fn clone(&self) -> (r: Self)
        ensures
            r@ == self@,
    {
        match self {
            ModelCodeError::Format(s) => ModelCodeError::Format(s.clone()),
            ModelCodeError::Org(s) => ModelCodeError::Org(s.clone()),
            ModelCodeError::Model(s) => ModelCodeError::Model(s.clone()),
            ModelCodeError::Variant(s) => ModelCodeError::Variant(s.clone()),
        }
    }
}

impl ModelCodeError {
    /// The message that describes this error.
    pub fn to_string(&self) -> (r: String)
        ensures
            r@ == fault_message(self@),
    {
        let (head, text, tail) = match self {
            ModelCodeError::Format(s) => ("invalid model code ", s, ": expected `org/model` or `org/model:variant`"),
            ModelCodeError::Org(s) => ("invalid org id ", s, " in model code: must be lowercase kebab-case"),
            ModelCodeError::Model(s) => ("invalid model id ", s, " in model code: must be kebab-case, case sensitive, dots allowed"),
            ModelCodeError::Variant(s) => ("invalid variant ", s, " in model code: must be lowercase kebab-case"),
        };
        let mut r = String::from_str(head);
        let q = quoted(text.as_str());
        r.append(q.as_str());
        r.append(tail);
        r
    }
}

/// The text of an optional string.
pub open spec fn opt_text(o: Option<&str>) -> Option<Seq<char>> {
    match o {
        Some(s) => Some(s@),
        None => None,
    }
}

/// The text of an optional owned string.
pub open spec fn opt_string_text(o: Option<String>) -> Option<Seq<char>> {
    match o {
        Some(s) => Some(s@),
        None => None,
    }
}

/// A model code's parts are well formed.
pub open spec fn valid_parts(p: CodeParts) -> bool {
    &&& is_kebab_id(p.0)
    &&& is_model_id(p.1)
    &&& p.2 matches Some(v) ==> is_kebab_id(v)
}

/// Checks the parts in order: org, model, then variant; the first part that
/// fails is reported with its text.
pub open spec fn check_parts(org: Seq<char>, model: Seq<char>, variant: Option<Seq<char>>) -> Result<CodeParts, CodeFault> {
    if !is_kebab_id(org) {
        Err(CodeFault::Org(org))
    } else if !is_model_id(model) {
        Err(CodeFault::Model(model))
    } else if variant matches Some(v) && !is_kebab_id(v) {
        Err(CodeFault::Variant(variant->0))
    } else {
        Ok((org, model, variant))
    }
}

/// What parsing the text `code` gives: more than one `:` is a format
/// error; the text after the first `:` is the variant; the rest must split
/// at its first `/` into org and model, else it is a format error; then the
/// parts are checked.
pub open spec fn parse_code(code: Seq<char>) -> Result<CodeParts, CodeFault> {
    if count_char(code, ':') > 1 {
        Err(CodeFault::Format(code))
    } else {
        let (body, variant) = match split_once(code, ':') {
            Some((b, v)) => (b, Some(v)),
            None => (code, None),
        };
        match split_once(body, '/') {
            Some((org, model)) => check_parts(org, model, variant),
            None => Err(CodeFault::Format(code)),
        }
    }
}

/// The text of a model code: `org/model` or `org/model:variant`.
pub open spec fn render_code(p: CodeParts) -> Seq<char> {
    p.0 + seq!['/'] + p.1 + match p.2 {
        Some(v) => seq![':'] + v,
        None => Seq::<char>::empty(),
    }
}

/// The abstract value of a model-code result.
pub open spec fn code_result(r: Result<ModelCode, ModelCodeError>) -> Result<CodeParts, CodeFault> {
    match r {
        Ok(c) => Ok(c@),
        Err(e) => Err(e@),
    }
}

impl View for ModelCode {
    type V = CodeParts;

    closed spec fn view(&self) -> CodeParts {
        (self.org@, self.model@, opt_string_text(self.variant))
    }
}

impl ModelCode {
    #[verifier::type_invariant]
    spec fn well_formed(self) -> bool {
        valid_parts(self@)
    }

    /// Builds a model code from its parts, validating each one.
    pub fn new(org: &str, model: &str, variant: Option<&str>) -> (r: Result<Self, ModelCodeError>)
        ensures
            code_result(r) == check_parts(org@, model@, opt_text(variant)),
    {
        if !valid_kebab_id(org) {
            return Err(ModelCodeError::Org(org.to_owned()));
        }
        if !valid_model_id(model) {
            return Err(ModelCodeError::Model(model.to_owned()));
        }
        if let Some(v) = variant {
            if !valid_kebab_id(v) {
                return Err(ModelCodeError::Variant(v.to_owned()));
            }
        }
        let owned_variant = match variant {
            Some(v) => Some(v.to_owned()),
            None => None,
        };
        Ok(ModelCode { org: org.to_owned(), model: model.to_owned(), variant: owned_variant })
    }

    /// The training organization id (lowercase kebab-case).
    pub fn org(&self) -> (r: &str)
        ensures
            r@ == self@.0,
            is_kebab_id(r@),
    {
        proof {
            use_type_invariant(self);
        }
        self.org.as_str()
    }

    /// The model id (case sensitive kebab-case).
    pub fn model(&self) -> (r: &str)
        ensures
            r@ == self@.1,
            is_model_id(r@),
    {
        proof {
            use_type_invariant(self);
        }
        self.model.as_str()
    }

    /// The optional serving variant (lowercase kebab-case).
    pub fn variant(&self) -> (r: Option<&str>)
        ensures
            opt_text(r) == self@.2,
            r matches Some(v) ==> is_kebab_id(v@),
    {
        proof {
            use_type_invariant(self);
        }
        match &self.variant {
            Some(v) => Some(v.as_str()),
            None => None,
        }
    }

    /// Parses `org/model` or `org/model:variant`.
    pub fn parse(code: &str) -> (r: Result<Self, ModelCodeError>)
        ensures
            code_result(r) == parse_code(code@),
    {
        if count_of(code, ':') > 1 {
            return Err(ModelCodeError::Format(code.to_owned()));
        }
        let (body, variant) = match split_once_at(code, ':') {
            Some((b, v)) => (b, Some(v)),
            None => (code, None),
        };
        match split_once_at(body, '/') {
            Some((org, model)) => Self::new(org, model, variant),
            None => Err(ModelCodeError::Format(code.to_owned())),
        }
    }

    /// The code as text: `org/model` or `org/model:variant`.
    pub fn to_string(&self) -> (r: String)
        ensures
            r@ == render_code(self@),
    {
        let mut s = self.org.clone();
        s.append("/");
        s.append(self.model.as_str());
        match &self.variant {
            Some(v) => {
                s.append(":");
                s.append(v.as_str());
            },
            None => {},
        }
        proof {
            reveal_strlit("/");
            reveal_strlit(":");
        }
        assert(s@ =~= render_code(self@));
        s
    }
}

impl std::str::FromStr for ModelCode {
    type Err = ModelCodeError;

    fn from_str(s: &str) -> (r: Result<Self, Self::Err>)
        ensures
            code_result(r) == parse_code(s@),
    {
        ModelCode::parse(s)
    }
}

impl PartialEq for ModelCode {
    fn eq(&self, other: &Self) -> (r: bool) {
        let same_variant = match (&self.variant, &other.variant) {
            (Some(a), Some(b)) => same_text(a.as_str(), b.as_str()),
            (None, None) => true,
            _ => false,
        };
        assert(same_variant == (opt_string_text(self.variant) == opt_string_text(other.variant)));
        let same_org = same_text(self.org.as_str(), other.org.as_str());
        let same_model = same_text(self.model.as_str(), other.model.as_str());
        same_org && same_model && same_variant
    }
}

impl Clone for ModelCode {
    fn clone(&self) -> (r: Self)
        ensures
            r@ == self@,
    {
        proof {
            use_type_invariant(self);
        }
        let variant = match &self.variant {
            Some(v) => Some(v.clone()),
            None => None,
        };
        ModelCode { org: self.org.clone(), model: self.model.clone(), variant }
    }
}

impl PartialEqSpecImpl for ModelCode {
    open spec fn obeys_eq_spec() -> bool {
        true
    }

    open spec fn eq_spec(&self, other: &ModelCode) -> bool {
        self@ == other@
    }
}

/// An identifier holds neither `:` nor `/`.
proof fn lemma_id_has_no_delimiters(style: IdStyle, s: Seq<char>)
    requires
        is_separated_id(style, s),
    ensures
        !s.contains(':'),
        !s.contains('/'),
{
    assert forall|i: int| 0 <= i < s.len() implies s[i] != ':' && s[i] != '/' by {
        assert(is_part_char(style, s[i]) || is_separator(style, s[i]));
    }
}

/// `org/model` holds no `:`, and splits at its `/` into org and model,
/// when the org holds neither `/` nor `:` and the model holds no `:`.
proof fn lemma_body_splits(org: Seq<char>, model: Seq<char>)
    requires
        !org.contains('/'),
        !org.contains(':'),
        !model.contains(':'),
    ensures
        !(org + seq!['/'] + model).contains(':'),
        split_once(org + seq!['/'] + model, '/') == Some((org, model)),
{
    let body = org + seq!['/'] + model;
    assert forall|i: int| 0 <= i < body.len() implies body[i] != ':' by {
        if i < org.len() {
            assert(body[i] == org[i]);
        } else if i > org.len() {
            assert(body[i] == model[i - org.len() - 1]);
        }
    }
    lemma_split_once_concat(org, '/', model);
}

/// Law: building a code from parts and parsing the text the parts render
/// to agree, failures included, whenever the org holds neither `/` nor `:`
/// and the model and variant hold no `:`.
pub proof fn lemma_new_agrees_with_parse(org: Seq<char>, model: Seq<char>, variant: Option<Seq<char>>)
    requires
        !org.contains('/'),
        !org.contains(':'),
        !model.contains(':'),
        variant matches Some(v) ==> !v.contains(':'),
    ensures
        parse_code(render_code((org, model, variant))) == check_parts(org, model, variant),
{
    let p = (org, model, variant);
    let body = org + seq!['/'] + model;
    lemma_body_splits(org, model);
    lemma_count_char_absent(body, ':');
    match variant {
        Some(v) => {
            let code = body + seq![':'] + v;
            assert(render_code(p) =~= code);
            lemma_count_char_add(body + seq![':'], v, ':');
            lemma_count_char_add(body, seq![':'], ':');
            assert(seq![':'].drop_last() =~= Seq::<char>::empty());
            assert(count_char(seq![':'], ':') == 1) by {
                reveal_with_fuel(count_char, 2);
            }
            lemma_count_char_absent(v, ':');
            lemma_split_once_concat(body, ':', v);
        },
        None => {
            assert(render_code(p) =~= body);
        },
    }
}

/// Law: rendering a well-formed model code and parsing the text gives the
/// same code back.
pub proof fn lemma_render_then_parse(p: CodeParts)
    requires
        valid_parts(p),
    ensures
        parse_code(render_code(p)) == Ok::<CodeParts, CodeFault>(p),
{
    lemma_id_has_no_delimiters(IdStyle::Kebab, p.0);
    lemma_id_has_no_delimiters(IdStyle::Model, p.1);
    if let Some(v) = p.2 {
        lemma_id_has_no_delimiters(IdStyle::Kebab, v);
    }
    lemma_new_agrees_with_parse(p.0, p.1, p.2);
}

/// Law: text that parses is exactly the rendering of the code it parses to.
pub proof fn lemma_parse_then_render(code: Seq<char>)
    requires
        parse_code(code) is Ok,
    ensures
        render_code(parse_code(code)->Ok_0) == code,
        valid_parts(parse_code(code)->Ok_0),
{
    let p = parse_code(code)->Ok_0;
    match split_once(code, ':') {
        Some((b, v)) => {
            lemma_split_once_rejoin(code, ':');
            lemma_split_once_rejoin(b, '/');
            assert(render_code(p) =~= code);
        },
        None => {
            lemma_split_once_rejoin(code, '/');
            assert(render_code(p) =~= code);
        },
    }
}

/// Checks that `value` is lowercase kebab-case: non-empty parts of ASCII
/// lowercase letters and digits, joined by single `-`.
pub fn valid_kebab_id(value: &str) -> (r: bool)
    ensures
        r == is_kebab_id(value@),
{
    separated_id(IdStyle::Kebab, value)
}

/// Checks that `value` is a model id: non-empty parts of ASCII letters and
/// digits, joined by single `-` or `.`.
pub fn valid_model_id(value: &str) -> (r: bool)
    ensures
        r == is_model_id(value@),
{
    separated_id(IdStyle::Model, value)
}

} // verus!

verus! {

/// The type of AI provider.
#[derive(Debug, Clone, Copy, PartialEq, Eq, Hash, Structural)]
pub enum ProviderType {
    Openai,
    OpenaiCompat,
    Openrouter,
    Vercel,
    Anthropic,
    Google,
    Azure,
    Bedrock,
    GoogleVertex,
    Ollama,
    Chatgpt,
    Copilot,
    Cohere,
    Deepseek,
    Doubleword,
    Groq,
    Huggingface,
    Hyperbolic,
    Llamafile,
    Minimax,
    Mira,
    Mistral,
    Moonshot,
    Perplexity,
    Together,
    Venice,
    Voyageai,
    Xai,
    Xiaomimimo,
    Zai,
}

/// The inference provider identifier.
#[derive(Debug, Clone, PartialEq, Eq, Hash)]
pub struct InferenceProvider(pub String);

/// How a provider authenticates: a pasted API key or an OAuth2 device flow.
#[derive(Debug, Clone, Copy, PartialEq, Eq, Hash, Structural)]
pub enum AuthMethod {
    ApiKey,
    Oauth2Device,
}

/// An AI provider configuration.
#[derive(Debug, Clone, PartialEq)]
pub struct Provider {
    pub name: String,
    pub id: InferenceProvider,
    pub api_key: Option<String>,
    pub auth: Option<AuthMethod>,
    pub api_endpoint: Option<String>,
    pub provider_type: Option<ProviderType>,
    pub doc: Option<String>,
    pub default_large_model_id: Option<String>,
    pub default_small_model_id: Option<String>,
    pub models: Vec<Model>,
    pub default_headers: Option<std::collections::HashMap<String, String>>,
}

/// Extra per-model options. Sampling parameters are held as the IEEE-754
/// bit patterns of their `f64` values; provider-specific options are a JSON
/// object, its members in key order.
#[derive(Debug, Clone, Default)]
pub struct ModelOptions {
    pub temperature: Option<u64>,
    pub top_p: Option<u64>,
    pub top_k: Option<i64>,
    pub frequency_penalty: Option<u64>,
    pub presence_penalty: Option<u64>,
    pub provider_options: Option<Vec<(String, JsonValue)>>,
}

/// Context/output token limits for a model.
#[derive(Debug, Clone, Default, PartialEq)]
pub struct ModelLimit {
    pub context: Option<i64>,
    pub input: Option<i64>,
    pub output: Option<i64>,
}

/// Per-million-token costs for a model, each held as the IEEE-754 bit
/// pattern of its `f64` value.
#[derive(Debug, Clone, Default)]
pub struct ModelCost {
    pub input: Option<u64>,
    pub output: Option<u64>,
    pub cache_read: Option<u64>,
    pub cache_write: Option<u64>,
    pub input_audio: Option<u64>,
    pub output_audio: Option<u64>,
    pub reasoning: Option<u64>,
}

/// A reasoning-effort/level option for a model.
#[derive(Debug, Clone, PartialEq)]
pub struct ReasoningOption {
    pub kind: String,
    pub values: Vec<String>,
    pub min: Option<i64>,
    pub max: Option<i64>,
}

/// An AI model configuration.
#[derive(Debug, Clone, PartialEq)]
pub struct Model {
    pub id: String,
    pub model_code: ModelCode,
    pub name: String,
    pub reasoning: bool,
    pub reasoning_options: Vec<ReasoningOption>,
    pub attachment: bool,
    pub limit: ModelLimit,
    pub cost: ModelCost,
    pub options: Option<ModelOptions>,
}

/// The bit pattern of an `f64` NaN: all exponent bits set, some mantissa bit set.
pub open spec fn is_nan_bits(b: u64) -> bool {
    (b & 0x7ff0_0000_0000_0000u64) == 0x7ff0_0000_0000_0000u64 && (b & 0x000f_ffff_ffff_ffffu64) != 0
}

/// The bit pattern of an `f64` zero, positive or negative.
pub open spec fn is_zero_bits(b: u64) -> bool {
    (b & 0x7fff_ffff_ffff_ffffu64) == 0
}

/// `==` on the `f64` values with bit patterns `a` and `b`: NaN equals
/// nothing, the two zeros are equal, and other values are equal exactly
/// when their bits are.
pub open spec fn float_bits_eq(a: u64, b: u64) -> bool {
    !is_nan_bits(a) && !is_nan_bits(b) && (a == b || (is_zero_bits(a) && is_zero_bits(b)))
}

/// `==` on optional `f64` values held as bit patterns.
pub open spec fn opt_float_bits_eq(a: Option<u64>, b: Option<u64>) -> bool {
    match (a, b) {
        (Some(x), Some(y)) => float_bits_eq(x, y),
        (None, None) => true,
        _ => false,
    }
}

/// Compares two `f64` values, given as bit patterns, as `f64` `==` does.
pub fn same_float(a: u64, b: u64) -> (r: bool)
    ensures
        r == float_bits_eq(a, b),
{
    let a_nan = (a & 0x7ff0_0000_0000_0000u64) == 0x7ff0_0000_0000_0000u64 && (a & 0x000f_ffff_ffff_ffffu64) != 0;
    let b_nan = (b & 0x7ff0_0000_0000_0000u64) == 0x7ff0_0000_0000_0000u64 && (b & 0x000f_ffff_ffff_ffffu64) != 0;
    let both_zero = (a & 0x7fff_ffff_ffff_ffffu64) == 0 && (b & 0x7fff_ffff_ffff_ffffu64) == 0;
    !a_nan && !b_nan && (a == b || both_zero)
}

/// Compares two optional `f64` values, given as bit patterns, as `==` on
/// `Option<f64>` does.
pub fn same_opt_float(a: Option<u64>, b: Option<u64>) -> (r: bool)
    ensures
        r == opt_float_bits_eq(a, b),
{
    match (a, b) {
        (Some(x), Some(y)) => same_float(x, y),
        (None, None) => true,
        _ => false,
    }
}

impl PartialEq for ModelCost {
    fn eq(&self, other: &Self) -> (r: bool) {
        same_opt_float(self.input, other.input)
            && same_opt_float(self.output, other.output)
            && same_opt_float(self.cache_read, other.cache_read)
            && same_opt_float(self.cache_write, other.cache_write)
            && same_opt_float(self.input_audio, other.input_audio)
            && same_opt_float(self.output_audio, other.output_audio)
            && same_opt_float(self.reasoning, other.reasoning)
    }
}

impl PartialEqSpecImpl for ModelCost {
    open spec fn obeys_eq_spec() -> bool {
        true
    }

    /// Field by field, each cost compared as `f64` values are.
    open spec fn eq_spec(&self, other: &ModelCost) -> bool {
        &&& opt_float_bits_eq(self.input, other.input)
        &&& opt_float_bits_eq(self.output, other.output)
        &&& opt_float_bits_eq(self.cache_read, other.cache_read)
        &&& opt_float_bits_eq(self.cache_write, other.cache_write)
        &&& opt_float_bits_eq(self.input_audio, other.input_audio)
        &&& opt_float_bits_eq(self.output_audio, other.output_audio)
        &&& opt_float_bits_eq(self.reasoning, other.reasoning)
    }
}

impl PartialEq for ModelOptions {
    fn eq(&self, other: &Self) -> (r: bool) {
        same_opt_float(self.temperature, other.temperature)
            && same_opt_float(self.top_p, other.top_p)
            && self.top_k == other.top_k
            && same_opt_float(self.frequency_penalty, other.frequency_penalty)
            && same_opt_float(self.presence_penalty, other.presence_penalty)
            && same_opt_object(&self.provider_options, &other.provider_options)
    }
}

impl PartialEqSpecImpl for ModelOptions {
    open spec fn obeys_eq_spec() -> bool {
        true
    }

    /// Field by field: sampling parameters compared as `f64` values are,
    /// provider options as JSON objects are.
    open spec fn eq_spec(&self, other: &ModelOptions) -> bool {
        &&& opt_float_bits_eq(self.temperature, other.temperature)
        &&& opt_float_bits_eq(self.top_p, other.top_p)
        &&& self.top_k == other.top_k
        &&& opt_float_bits_eq(self.frequency_penalty, other.frequency_penalty)
        &&& opt_float_bits_eq(self.presence_penalty, other.presence_penalty)
        &&& opt_object_eq(self.provider_options, other.provider_options)
    }
}

/// Two optional `f64` values agree bit for bit: both absent, or both
/// present with the same bits, or both zeros.
pub open spec fn opt_bits_agree(x: Option<u64>, y: Option<u64>) -> bool {
    match (x, y) {
        (None, None) => true,
        (Some(u), Some(v)) => u == v || ((u & 0x7fff_ffff_ffff_ffffu64) == 0 && (v & 0x7fff_ffff_ffff_ffffu64) == 0),
        _ => false,
    }
}

/// An optional `f64` value that is not NaN.
pub open spec fn opt_not_nan(x: Option<u64>) -> bool {
    x matches Some(u) ==> !is_nan_bits(u)
}

/// Law: `==` on `f64` values held as bits: NaN equals nothing, every other
/// value equals itself, values with different bits are unequal unless both
/// are zeros, and the two zeros are equal.
pub proof fn lemma_float_equality(x: u64, y: u64)
    ensures
        is_nan_bits(x) ==> !float_bits_eq(x, y) && !float_bits_eq(y, x),
        !is_nan_bits(x) ==> float_bits_eq(x, x),
        x != y && !((x & 0x7fff_ffff_ffff_ffffu64) == 0 && (y & 0x7fff_ffff_ffff_ffffu64) == 0)
            ==> !float_bits_eq(x, y),
        float_bits_eq(x, y) == float_bits_eq(y, x),
        float_bits_eq(0u64, 0x8000_0000_0000_0000u64),
{
    assert(!is_nan_bits(0u64) && !is_nan_bits(0x8000_0000_0000_0000u64)) by (bit_vector);
    assert(is_zero_bits(0u64) && is_zero_bits(0x8000_0000_0000_0000u64)) by (bit_vector);
}

/// Law: equal costs agree on every one of their seven fields (input,
/// output, cache read, cache write, input audio, output audio, reasoning),
/// and a cost with no NaN equals itself.
pub proof fn lemma_cost_equality(a: ModelCost, b: ModelCost)
    ensures
        PartialEqSpec::eq_spec(&a, &b) ==> {
            &&& opt_bits_agree(a.input, b.input)
            &&& opt_bits_agree(a.output, b.output)
            &&& opt_bits_agree(a.cache_read, b.cache_read)
            &&& opt_bits_agree(a.cache_write, b.cache_write)
            &&& opt_bits_agree(a.input_audio, b.input_audio)
            &&& opt_bits_agree(a.output_audio, b.output_audio)
            &&& opt_bits_agree(a.reasoning, b.reasoning)
        },
        ({
            &&& opt_not_nan(a.input)
            &&& opt_not_nan(a.output)
            &&& opt_not_nan(a.cache_read)
            &&& opt_not_nan(a.cache_write)
            &&& opt_not_nan(a.input_audio)
            &&& opt_not_nan(a.output_audio)
            &&& opt_not_nan(a.reasoning)
        }) ==> PartialEqSpec::eq_spec(&a, &a),
{
}

/// Law: equal options agree on every field: the four sampling parameters
/// bit for bit (zeros aside), `top_k`, and the provider options' presence,
/// member count and keys; and options with no NaN and no provider options
/// equal themselves.
pub proof fn lemma_options_equality(a: ModelOptions, b: ModelOptions)
    ensures
        PartialEqSpec::eq_spec(&a, &b) ==> {
            &&& opt_bits_agree(a.temperature, b.temperature)
            &&& opt_bits_agree(a.top_p, b.top_p)
            &&& a.top_k == b.top_k
            &&& opt_bits_agree(a.frequency_penalty, b.frequency_penalty)
            &&& opt_bits_agree(a.presence_penalty, b.presence_penalty)
            &&& (a.provider_options is None <==> b.provider_options is None)
            &&& match (a.provider_options, b.provider_options) {
                (Some(x), Some(y)) => {
                    &&& x@.len() == y@.len()
                    &&& forall|i: int| 0 <= i < x@.len() ==> (#[trigger] x@[i]).0@ == y@[i].0@
                },
                _ => true,
            }
        },
        ({
            &&& opt_not_nan(a.temperature)
            &&& opt_not_nan(a.top_p)
            &&& opt_not_nan(a.frequency_penalty)
            &&& opt_not_nan(a.presence_penalty)
            &&& a.provider_options is None
        }) ==> PartialEqSpec::eq_spec(&a, &a),
{
    if PartialEqSpec::eq_spec(&a, &b) {
        if let (Some(x), Some(y)) = (a.provider_options, b.provider_options) {
            assert(object_eq(x@, y@));
        }
    }
}

/// `i` is the first position in `models` of a model with id `id`.
pub open spec fn is_first_with_id(models: Seq<Model>, id: Seq<char>, i: int) -> bool {
    &&& 0 <= i < models.len()
    &&& models[i].id@ == id
    &&& forall|j: int| 0 <= j < i ==> models[j].id@ != id
}

/// `i` is the first position in `models` of a model with code `code`.
pub open spec fn is_first_with_code(models: Seq<Model>, code: CodeParts, i: int) -> bool {
    &&& 0 <= i < models.len()
    &&& models[i].model_code@ == code
    &&& forall|j: int| 0 <= j < i ==> models[j].model_code@ != code
}

/// Law: a configured default large model is the answer, whatever the other
/// fields hold; without one the answer is the first model's id, and with no
/// models there is none.
pub proof fn lemma_large_default(p: Provider)
    ensures
        p.default_large_model_id matches Some(id) ==> p.large_model_choice() == Some(id@),
        p.default_large_model_id is None && p.models@.len() > 0 ==> p.large_model_choice() == Some(p.models@[0].id@),
        p.default_large_model_id is None && p.models@.len() == 0 ==> p.large_model_choice() is None,
{
}

/// Law: a configured default small model is the answer, whatever the other
/// fields hold; without one the answer is the last model's id, and with no
/// models there is none.
pub proof fn lemma_small_default(p: Provider)
    ensures
        p.default_small_model_id matches Some(id) ==> p.small_model_choice() == Some(id@),
        p.default_small_model_id is None && p.models@.len() > 0
            ==> p.small_model_choice() == Some(p.models@[p.models@.len() - 1].id@),
        p.default_small_model_id is None && p.models@.len() == 0 ==> p.small_model_choice() is None,
{
}

/// Law: the default large model depends on the configured large default and
/// the models alone: two providers that agree on those agree on it.
pub proof fn lemma_large_default_depends_on_own_fields(p: Provider, q: Provider)
    requires
        opt_string_text(p.default_large_model_id) == opt_string_text(q.default_large_model_id),
        p.models@ == q.models@,
    ensures
        p.large_model_choice() == q.large_model_choice(),
{
}

/// Law: the default small model depends on the configured small default and
/// the models alone: two providers that agree on those agree on it.
pub proof fn lemma_small_default_depends_on_own_fields(p: Provider, q: Provider)
    requires
        opt_string_text(p.default_small_model_id) == opt_string_text(q.default_small_model_id),
        p.models@ == q.models@,
    ensures
        p.small_model_choice() == q.small_model_choice(),
{
}

/// Law: without a configured default, the default large model is the first
/// listed model, and looking its id up finds a model.
pub proof fn lemma_large_fallback_is_listed(p: Provider)
    requires
        p.default_large_model_id is None,
        p.models@.len() > 0,
    ensures
        p.large_model_choice() == Some(p.models@[0].id@),
        is_first_with_id(p.models@, p.models@[0].id@, 0),
{
}

/// Law: without a configured default, the default small model is the last
/// listed model, and looking its id up finds a model with that id.
pub proof fn lemma_small_fallback_is_listed(p: Provider)
    requires
        p.default_small_model_id is None,
        p.models@.len() > 0,
    ensures
        p.small_model_choice() == Some(p.models@[p.models@.len() - 1].id@),
        exists|i: int| #[trigger] is_first_with_id(p.models@, p.models@[p.models@.len() - 1].id@, i),
{
    let ms = p.models@;
    let id = ms[ms.len() - 1].id@;
    lemma_first_with_id_exists(ms, id, ms.len() - 1);
}

/// Some model with id `id` means there is a first one.
pub proof fn lemma_first_with_id_exists(models: Seq<Model>, id: Seq<char>, k: int)
    requires
        0 <= k < models.len(),
        models[k].id@ == id,
    ensures
        exists|i: int| is_first_with_id(models, id, i),
    decreases k,
{
    if exists|j: int| 0 <= j < k && models[j].id@ == id {
        let j = choose|j: int| 0 <= j < k && models[j].id@ == id;
        lemma_first_with_id_exists(models, id, j);
    } else {
        assert(is_first_with_id(models, id, k));
    }
}

impl Provider {
    /// The default large model id: the configured one, else the first
    /// model's id, else none.
    pub open spec fn large_model_choice(&self) -> Option<Seq<char>> {
        match self.default_large_model_id {
            Some(id) => Some(id@),
            None => if self.models@.len() > 0 { Some(self.models@[0].id@) } else { None },
        }
    }

    /// The default small model id: the configured one, else the last
    /// model's id, else none.
    pub open spec fn small_model_choice(&self) -> Option<Seq<char>> {
        match self.default_small_model_id {
            Some(id) => Some(id@),
            None => if self.models@.len() > 0 {
                Some(self.models@[self.models@.len() - 1].id@)
            } else {
                None
            },
        }
    }

    /// Whether sign-in for this provider runs the OAuth2 device flow instead
    /// of asking for an API key.
    pub fn oauth_device_login(&self) -> (r: bool)
        ensures
            r == (self.auth == Some(AuthMethod::Oauth2Device)),
    {
        match self.auth {
            Some(AuthMethod::Oauth2Device) => true,
            _ => false,
        }
    }

    /// The default large model id, or the first model's id when unset.
    pub fn default_large_model(&self) -> (r: Option<&str>)
        ensures
            opt_text(r) == self.large_model_choice(),
    {
        match &self.default_large_model_id {
            Some(id) => Some(id.as_str()),
            None => if self.models.len() > 0 {
                Some(self.models[0].id.as_str())
            } else {
                None
            },
        }
    }

    /// The default small model id, or the last model's id when unset.
    pub fn default_small_model(&self) -> (r: Option<&str>)
        ensures
            opt_text(r) == self.small_model_choice(),
    {
        match &self.default_small_model_id {
            Some(id) => Some(id.as_str()),
            None => {
                let n = self.models.len();
                if n > 0 {
                    Some(self.models[n - 1].id.as_str())
                } else {
                    None
                }
            },
        }
    }

    /// Look up a model by id: the first model with that id.
    pub fn model(&self, id: &str) -> (r: Option<&Model>)
        ensures
            match r {
                Some(m) => exists|i: int| is_first_with_id(self.models@, id@, i) && *m == self.models@[i],
                None => forall|i: int| 0 <= i < self.models@.len() ==> self.models@[i].id@ != id@,
            },
    {
        let n = self.models.len();
        let mut i: usize = 0;
        while i < n
            invariant
                n == self.models@.len(),
                0 <= i <= n,
                forall|j: int| 0 <= j < i ==> self.models@[j].id@ != id@,
            decreases n - i,
        {
            if same_text(self.models[i].id.as_str(), id) {
                assert(is_first_with_id(self.models@, id@, i as int));
                return Some(&self.models[i]);
            }
            i = i + 1;
        }
        None
    }

    /// Look up a model by model code: the first model with that code.
    pub fn model_by_code(&self, code: &ModelCode) -> (r: Option<&Model>)
        ensures
            match r {
                Some(m) => exists|i: int| is_first_with_code(self.models@, code@, i) && *m == self.models@[i],
                None => forall|i: int| 0 <= i < self.models@.len() ==> self.models@[i].model_code@ != code@,
            },
    {
        let n = self.models.len();
        let mut i: usize = 0;
        while i < n
            invariant
                n == self.models@.len(),
                0 <= i <= n,
                forall|j: int| 0 <= j < i ==> self.models@[j].model_code@ != code@,
            decreases n - i,
        {
            if self.models[i].model_code == *code {
                assert(is_first_with_code(self.models@, code@, i as int));
                return Some(&self.models[i]);
            }
            i = i + 1;
        }
        None
    }
}

} // verus!
