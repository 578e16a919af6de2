//! The vocabulary of inference requests: models, tasks, inputs, routing
//! decisions, token counts, errors and the chunks of a streamed answer.
use vstd::prelude::*;
use crate::text::{decimal, push_decimal, debug_str_text, append_quoted};

verus! {

/// The name of a model.
#[derive(Debug, PartialEq, Eq, Hash)]
pub struct ModelId(pub String);

impl Clone for ModelId {
    fn clone(&self) -> (r: ModelId)
        ensures
            r == *self,
    {
        ModelId(self.0.clone())
    }
}

impl ModelId {
    pub fn new(id: &str) -> (r: ModelId)
        ensures
            r.0@ == id@,
    {
        ModelId(String::from_str(id))
    }

    pub fn as_str(&self) -> (r: &str)
        ensures
            r@ == self.0@,
    {
        self.0.as_str()
    }

    /// The id as it is shown: the name itself.
    pub fn display_text(&self) -> (r: String)
        ensures
            r@ == self.0@,
    {
        crate::text::copy_string(&self.0)
    }
}

/// Whether a model can run.
#[derive(Debug, Clone, Copy, PartialEq, Eq, Structural)]
pub enum ModelAvailability {
    Available,
    Loading,
    Unavailable,
    Error,
}

impl Default for ModelAvailability {
    fn default() -> (r: ModelAvailability)
        ensures
            r == ModelAvailability::Unavailable,
    {
        ModelAvailability::Unavailable
    }
}

/// How a request prefers to be served.
#[derive(Debug, Clone, Copy, PartialEq, Eq, Structural)]
pub enum InferencePreference {
    Auto,
    LocalOnly,
    CloudOnly,
    LatencyFirst,
    AccuracyFirst,
    PrivacyFirst,
}

impl Default for InferencePreference {
    fn default() -> (r: InferencePreference)
        ensures
            r == InferencePreference::Auto,
    {
        InferencePreference::Auto
    }
}

/// How private the data of a request is, from least to most.
#[derive(Debug, Clone, Copy, PartialEq, Eq, Structural, PartialOrd, Ord)]
pub enum PrivacyLevel {
    Public,
    Internal,
    Sensitive,
    Confidential,
}

impl Default for PrivacyLevel {
    fn default() -> (r: PrivacyLevel)
        ensures
            r == PrivacyLevel::Public,
    {
        PrivacyLevel::Public
    }
}

/// What a request asks a model to do.
#[derive(Debug, Clone, PartialEq, Eq)]
pub enum InferenceTask {
    TextGeneration,
    TextEmbedding,
    ImageGeneration,
    ImageUnderstanding,
    SpeechRecognition,
    SpeechSynthesis,
    Translation { from: String, to: String },
    Summarization,
    CodeGeneration,
    Classification,
}

/// The input of a request.
#[derive(Debug, Clone)]
pub enum InferenceInput {
    Text(String),
    TextWithContext { text: String, context: String },
    Image { data: Vec<u8>, format: String },
    Audio { data: Vec<u8>, format: String, sample_rate: u32 },
    MultiModal { parts: Vec<(String, Vec<u8>)> },
}

/// A request to a model.
#[derive(Debug, Clone)]
pub struct ModelRequest {
    pub task: InferenceTask,
    pub input: InferenceInput,
    pub preference: InferencePreference,
    pub max_latency_ms: Option<u32>,
    pub privacy_level: PrivacyLevel,
    pub budget_tokens: Option<u32>,
}

impl ModelRequest {
    /// A public request served automatically, with no latency or token limit.
    pub fn new(task: InferenceTask, input: InferenceInput) -> (r: ModelRequest)
        ensures
            r.task == task,
            r.input == input,
            r.preference == InferencePreference::Auto,
            r.max_latency_ms is None,
            r.privacy_level == PrivacyLevel::Public,
            r.budget_tokens is None,
    {
        ModelRequest {
            task,
            input,
            preference: InferencePreference::default(),
            max_latency_ms: None,
            privacy_level: PrivacyLevel::default(),
            budget_tokens: None,
        }
    }

    pub fn with_preference(self, preference: InferencePreference) -> (r: ModelRequest)
        ensures
            r == (ModelRequest { preference, ..self }),
    {
        let mut r = self;
        r.preference = preference;
        r
    }

    pub fn with_max_latency(self, ms: u32) -> (r: ModelRequest)
        ensures
            r == (ModelRequest { max_latency_ms: Some(ms), ..self }),
    {
        let mut r = self;
        r.max_latency_ms = Some(ms);
        r
    }

    pub fn with_privacy_level(self, level: PrivacyLevel) -> (r: ModelRequest)
        ensures
            r == (ModelRequest { privacy_level: level, ..self }),
    {
        let mut r = self;
        r.privacy_level = level;
        r
    }

    pub fn with_budget_tokens(self, tokens: u32) -> (r: ModelRequest)
        ensures
            r == (ModelRequest { budget_tokens: Some(tokens), ..self }),
    {
        let mut r = self;
        r.budget_tokens = Some(tokens);
        r
    }
}

/// A local inference back end.
#[derive(Debug, Clone, Copy, PartialEq, Eq, Structural)]
pub enum LocalBackend {
    Candle,
    OnnxRuntime,
    Tract,
}

/// A cloud provider.
#[derive(Debug, Clone, Copy, PartialEq, Eq, Structural, Hash)]
pub enum CloudProvider {
    OpenAI,
    Anthropic,
    Google,
    Mistral,
    Azure,
    Custom,
}

/// The name of a cloud provider, as `{:?}` shows it.
pub open spec fn cloud_provider_name(p: CloudProvider) -> Seq<char> {
    match p {
        CloudProvider::OpenAI => "OpenAI"@,
        CloudProvider::Anthropic => "Anthropic"@,
        CloudProvider::Google => "Google"@,
        CloudProvider::Mistral => "Mistral"@,
        CloudProvider::Azure => "Azure"@,
        CloudProvider::Custom => "Custom"@,
    }
}

fn cloud_provider_text(p: CloudProvider) -> (r: &'static str)
    ensures
        r@ == cloud_provider_name(p),
{
    match p {
        CloudProvider::OpenAI => "OpenAI",
        CloudProvider::Anthropic => "Anthropic",
        CloudProvider::Google => "Google",
        CloudProvider::Mistral => "Mistral",
        CloudProvider::Azure => "Azure",
        CloudProvider::Custom => "Custom",
    }
}

/// Where a request goes.
#[derive(Debug, PartialEq, Eq)]
pub enum RoutingDecision {
    LocalCandle { model_id: ModelId },
    LocalOnnx { model_id: ModelId },
    LocalTract { model_id: ModelId },
    Cloud { provider: CloudProvider, model_id: ModelId },
    Fallback { primary: Box<RoutingDecision>, fallback: Box<RoutingDecision> },
}

impl Clone for RoutingDecision {
    fn clone(&self) -> (r: RoutingDecision)
        ensures
            r == *self,
        decreases self,
    {
        match self {
            RoutingDecision::LocalCandle { model_id } => RoutingDecision::LocalCandle { model_id: model_id.clone() },
            RoutingDecision::LocalOnnx { model_id } => RoutingDecision::LocalOnnx { model_id: model_id.clone() },
            RoutingDecision::LocalTract { model_id } => RoutingDecision::LocalTract { model_id: model_id.clone() },
            RoutingDecision::Cloud { provider, model_id } => RoutingDecision::Cloud {
                provider: *provider,
                model_id: model_id.clone(),
            },
            RoutingDecision::Fallback { primary, fallback } => RoutingDecision::Fallback {
                primary: Box::new((**primary).clone()),
                fallback: Box::new((**fallback).clone()),
            },
        }
    }
}

/// Who served a request.
#[derive(Debug, Clone, Copy, PartialEq, Eq, Structural)]
pub enum InferenceProvider {
    Candle,
    OnnxRuntime,
    Tract,
    OpenAI,
    Anthropic,
    Google,
}

/// Tokens used by a request.
#[derive(Debug, Clone, Copy, PartialEq, Eq, Structural)]
pub struct TokenUsage {
    pub prompt_tokens: u32,
    pub completion_tokens: u32,
    pub total_tokens: u32,
}

impl TokenUsage {
    /// The total wraps around past `u32::MAX`.
    pub fn new(prompt_tokens: u32, completion_tokens: u32) -> (r: TokenUsage)
        ensures
            r.prompt_tokens == prompt_tokens,
            r.completion_tokens == completion_tokens,
            r.total_tokens == vstd::wrapping::u32_specs::wrapping_add(prompt_tokens, completion_tokens),
            r.total_tokens == (prompt_tokens + completion_tokens) % 0x1_0000_0000,
    {
        let total = prompt_tokens.wrapping_add(completion_tokens);
        TokenUsage { prompt_tokens, completion_tokens, total_tokens: total }
    }
}

/// An error of inference.
#[derive(Debug, Clone, PartialEq, Eq)]
pub enum InferenceError {
    ModelNotFound(String),
    ModelNotLoaded(String),
    ModelLoadFailed(String),
    InferenceFailed(String),
    Timeout(u32),
    InvalidInput(String),
    UnsupportedTask(InferenceTask),
    ApiError { provider: CloudProvider, message: String },
    RateLimited { provider: CloudProvider, retry_after_ms: u32 },
    OutOfMemory { required: usize, available: usize },
    ContextTooLarge { tokens: u32, max_tokens: u32 },
    NetworkError(String),
    AuthenticationError(String),
}

/// How `{:?}` shows a task.
pub open spec fn inference_task_debug(t: InferenceTask) -> Seq<char> {
    match t {
        InferenceTask::TextGeneration => "TextGeneration"@,
        InferenceTask::TextEmbedding => "TextEmbedding"@,
        InferenceTask::ImageGeneration => "ImageGeneration"@,
        InferenceTask::ImageUnderstanding => "ImageUnderstanding"@,
        InferenceTask::SpeechRecognition => "SpeechRecognition"@,
        InferenceTask::SpeechSynthesis => "SpeechSynthesis"@,
        InferenceTask::Translation { from, to } => "Translation { from: "@ + debug_str_text(from@) + ", to: "@
            + debug_str_text(to@) + " }"@,
        InferenceTask::Summarization => "Summarization"@,
        InferenceTask::CodeGeneration => "CodeGeneration"@,
        InferenceTask::Classification => "Classification"@,
    }
}

/// The human-readable text of an error.
pub open spec fn inference_error_text(e: InferenceError) -> Seq<char> {
    match e {
        InferenceError::ModelNotFound(s) => "模型未找到: "@ + s@,
        InferenceError::ModelNotLoaded(s) => "模型未加载: "@ + s@,
        InferenceError::ModelLoadFailed(s) => "模型加载失败: "@ + s@,
        InferenceError::InferenceFailed(s) => "推理失败: "@ + s@,
        InferenceError::Timeout(ms) => "推理超时: "@ + decimal(ms as nat) + "ms"@,
        InferenceError::InvalidInput(s) => "无效输入: "@ + s@,
        InferenceError::UnsupportedTask(t) => "不支持的任务类型: "@ + inference_task_debug(t),
        InferenceError::ApiError { provider, message } => "API 错误 ("@ + cloud_provider_name(provider) + "): "@
            + message@,
        InferenceError::RateLimited { provider, retry_after_ms } => "速率限制 ("@ + cloud_provider_name(provider)
            + "), "@ + decimal(retry_after_ms as nat) + "ms 后重试"@,
        InferenceError::OutOfMemory { required, available } => "内存不足: 需要 "@ + decimal(required as nat)
            + " 字节, 可用 "@ + decimal(available as nat) + " 字节"@,
        InferenceError::ContextTooLarge { tokens, max_tokens } => "上下文过长: "@ + decimal(tokens as nat)
            + " tokens 超过最大限制 "@ + decimal(max_tokens as nat) + " tokens"@,
        InferenceError::NetworkError(s) => "网络错误: "@ + s@,
        InferenceError::AuthenticationError(s) => "认证错误: "@ + s@,
    }
}

fn task_debug_string(t: &InferenceTask) -> (r: String)
    ensures
        r@ == inference_task_debug(*t),
{
    match t {
        InferenceTask::TextGeneration => String::from_str("TextGeneration"),
        InferenceTask::TextEmbedding => String::from_str("TextEmbedding"),
        InferenceTask::ImageGeneration => String::from_str("ImageGeneration"),
        InferenceTask::ImageUnderstanding => String::from_str("ImageUnderstanding"),
        InferenceTask::SpeechRecognition => String::from_str("SpeechRecognition"),
        InferenceTask::SpeechSynthesis => String::from_str("SpeechSynthesis"),
        InferenceTask::Translation { from, to } => {
            let mut s = String::from_str("Translation { from: ");
            append_quoted(&mut s, from);
            s.append(", to: ");
            append_quoted(&mut s, to);
            s.append(" }");
            s
        },
        InferenceTask::Summarization => String::from_str("Summarization"),
        InferenceTask::CodeGeneration => String::from_str("CodeGeneration"),
        InferenceTask::Classification => String::from_str("Classification"),
    }
}

fn prefixed(prefix: &str, s: &String) -> (r: String)
    ensures
        r@ == prefix@ + s@,
{
    let mut r = String::from_str(prefix);
    r.append(s.as_str());
    r
}

impl InferenceError {
    /// The human-readable text of the error.
    pub fn message(&self) -> (r: String)
        ensures
            r@ == inference_error_text(*self),
    {
        match self {
            InferenceError::ModelNotFound(s) => prefixed("模型未找到: ", s),
            InferenceError::ModelNotLoaded(s) => prefixed("模型未加载: ", s),
            InferenceError::ModelLoadFailed(s) => prefixed("模型加载失败: ", s),
            InferenceError::InferenceFailed(s) => prefixed("推理失败: ", s),
            InferenceError::Timeout(ms) => {
                let mut r = String::from_str("推理超时: ");
                push_decimal(&mut r, *ms as u64);
                r.append("ms");
                r
            },
            InferenceError::InvalidInput(s) => prefixed("无效输入: ", s),
            InferenceError::UnsupportedTask(t) => {
                let mut r = String::from_str("不支持的任务类型: ");
                let d = task_debug_string(t);
                r.append(d.as_str());
                r
            },
            InferenceError::ApiError { provider, message } => {
                let mut r = String::from_str("API 错误 (");
                r.append(cloud_provider_text(*provider));
                r.append("): ");
                r.append(message.as_str());
                r
            },
            InferenceError::RateLimited { provider, retry_after_ms } => {
                let mut r = String::from_str("速率限制 (");
                r.append(cloud_provider_text(*provider));
                r.append("), ");
                push_decimal(&mut r, *retry_after_ms as u64);
                r.append("ms 后重试");
                r
            },
            InferenceError::OutOfMemory { required, available } => {
                let mut r = String::from_str("内存不足: 需要 ");
                push_decimal(&mut r, *required as u64);
                r.append(" 字节, 可用 ");
                push_decimal(&mut r, *available as u64);
                r.append(" 字节");
                r
            },
            InferenceError::ContextTooLarge { tokens, max_tokens } => {
                let mut r = String::from_str("上下文过长: ");
                push_decimal(&mut r, *tokens as u64);
                r.append(" tokens 超过最大限制 ");
                push_decimal(&mut r, *max_tokens as u64);
                r.append(" tokens");
                r
            },
            InferenceError::NetworkError(s) => prefixed("网络错误: ", s),
            InferenceError::AuthenticationError(s) => prefixed("认证错误: ", s),
        }
    }
}

/// One chunk of a streamed answer.
#[derive(Debug, Clone)]
pub struct StreamChunk {
    pub chunk_id: u64,
    pub content: String,
    pub is_final: bool,
    pub latency_ms: u32,
}

impl StreamChunk {
    /// A chunk that is not the last.
    pub fn new(chunk_id: u64, content: String) -> (r: StreamChunk)
        ensures
            r.chunk_id == chunk_id,
            r.content == content,
            !r.is_final,
            r.latency_ms == 0,
    {
        StreamChunk { chunk_id, content, is_final: false, latency_ms: 0 }
    }

    /// The last chunk of an answer.
    pub fn final_chunk(chunk_id: u64, content: String) -> (r: StreamChunk)
        ensures
            r.chunk_id == chunk_id,
            r.content == content,
            r.is_final,
            r.latency_ms == 0,
    {
        StreamChunk { chunk_id, content, is_final: true, latency_ms: 0 }
    }

    pub fn with_latency(self, ms: u32) -> (r: StreamChunk)
        ensures
            r == (StreamChunk { latency_ms: ms, ..self }),
    {
        let mut r = self;
        r.latency_ms = ms;
        r
    }
}

} // verus!
