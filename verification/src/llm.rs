//! The OpenAI-compatible protocol: configuration, request shaping, and what a
//! response must look like.
//!
//! Any service that speaks OpenAI Chat Completions works by pointing
//! [`OpenAiConfig::base_url`] at it. No vendor is special-cased, and
//! provider-specific fields go through [`OpenAiConfig::param`] instead of being
//! enumerated here.

use vstd::prelude::*;

use crate::json::{Json, JsonValue, Object};
use crate::text::{clip, contains, trim_trailing};
use crate::{
    CallView, DefinitionView, Message, MessageView, Response, ResultView, ToolCall, ToolDefinition,
    ToolResult,
};

verus! {

pub const DEFAULT_BASE_URL: &'static str = "https://api.openai.com/v1";

pub const DEFAULT_MODEL: &'static str = "gpt-4o-mini";

pub const DEFAULT_TIMEOUT_SECS: u64 = 600;

/// Conventional environment variable holding the key.
pub const API_KEY_ENV: &'static str = "OPENAI_API_KEY";

/// How much of the body of an error response is passed on.
pub const ERROR_BODY_LIMIT: usize = 2000;

/// A span of time.
#[derive(Debug, Clone, Copy, PartialEq, Eq, Structural)]
pub struct Timeout {
    pub secs: u64,
    pub nanos: u32,
}

impl Timeout {
    /// The whole seconds of the span, as many as can be told.
    pub open spec fn seconds(self) -> nat {
        let seconds = self.secs + self.nanos / 1_000_000_000;
        if seconds <= u64::MAX {
            seconds as nat
        } else {
            u64::MAX as nat
        }
    }

    /// The whole seconds of the span, as many as can be told.
    pub fn as_secs(&self) -> (seconds: u64)
        ensures
            seconds == self.seconds(),
    {
        let more: u64 = (self.nanos / 1_000_000_000) as u64;
        if self.secs <= u64::MAX - more {
            self.secs + more
        } else {
            u64::MAX
        }
    }

    /// A span of whole seconds.
    pub fn from_secs(secs: u64) -> (timeout: Timeout)
        ensures
            timeout == (Timeout { secs, nanos: 0 }),
    {
        Timeout { secs, nanos: 0 }
    }

    /// A span of milliseconds.
    pub fn from_millis(millis: u64) -> (timeout: Timeout)
        ensures
            timeout == (Timeout {
                secs: millis / 1000,
                nanos: ((millis % 1000) * 1_000_000) as u32,
            }),
            timeout.nanos < 1_000_000_000,
    {
        Timeout { secs: millis / 1000, nanos: ((millis % 1000) * 1_000_000) as u32 }
    }
}

/// Everything the wire protocol needs. Build it with the chainable setters.
#[derive(Debug, Clone)]
pub struct OpenAiConfig {
    pub model: String,
    pub base_url: String,
    /// `None` for endpoints that need no key, such as a local server.
    pub api_key: Option<String>,
    pub timeout: Timeout,
    /// Extra request headers, applied last.
    pub headers: Vec<(String, String)>,
    /// Provider-specific request fields, merged into the body as given.
    pub extra_body: Object,
}

pub struct ConfigView {
    pub model: Seq<char>,
    pub base_url: Seq<char>,
    pub api_key: Option<Seq<char>>,
    pub timeout: Timeout,
    pub headers: Seq<(Seq<char>, Seq<char>)>,
    pub extra_body: Map<Seq<char>, Json>,
}

pub open spec fn headers_view(headers: Seq<(String, String)>) -> Seq<(Seq<char>, Seq<char>)> {
    headers.map_values(|header: (String, String)| (header.0@, header.1@))
}

impl View for OpenAiConfig {
    type V = ConfigView;

    open spec fn view(&self) -> ConfigView {
        ConfigView {
            model: self.model@,
            base_url: self.base_url@,
            api_key: crate::text_option(self.api_key),
            timeout: self.timeout,
            headers: headers_view(self.headers@),
            extra_body: self.extra_body@,
        }
    }
}

impl Default for OpenAiConfig {
    fn default() -> (config: Self)
        ensures
            config@ == ConfigView::standard(),
    {
        let config = OpenAiConfig {
            model: DEFAULT_MODEL.to_owned(),
            base_url: DEFAULT_BASE_URL.to_owned(),
            api_key: None,
            timeout: Timeout::from_secs(DEFAULT_TIMEOUT_SECS),
            headers: Vec::new(),
            extra_body: Object::new(),
        };
        assert(config@.headers == ConfigView::standard().headers);
        config
    }
}

impl ConfigView {
    /// The defaults: no key, no extra headers, no extra fields.
    pub open spec fn standard() -> ConfigView {
        ConfigView {
            model: DEFAULT_MODEL@,
            base_url: DEFAULT_BASE_URL@,
            api_key: None,
            timeout: Timeout { secs: DEFAULT_TIMEOUT_SECS, nanos: 0 },
            headers: Seq::empty(),
            extra_body: Map::empty(),
        }
    }
}

impl OpenAiConfig {
    pub fn model(self, model: &str) -> (config: Self)
        ensures
            config@ == (ConfigView { model: model@, ..self@ }),
    {
        let mut config = self;
        config.model = model.to_owned();
        config
    }

    pub fn base_url(self, base_url: &str) -> (config: Self)
        ensures
            config@ == (ConfigView { base_url: base_url@, ..self@ }),
    {
        let mut config = self;
        config.base_url = base_url.to_owned();
        config
    }

    pub fn api_key(self, api_key: &str) -> (config: Self)
        ensures
            config@ == (ConfigView { api_key: Some(api_key@), ..self@ }),
    {
        let mut config = self;
        config.api_key = Some(api_key.to_owned());
        config
    }

    pub fn timeout(self, timeout: Timeout) -> (config: Self)
        ensures
            config@ == (ConfigView { timeout, ..self@ }),
    {
        let mut config = self;
        config.timeout = timeout;
        config
    }

    pub fn header(self, name: &str, value: &str) -> (config: Self)
        ensures
            config@ == (ConfigView { headers: self@.headers.push((name@, value@)), ..self@ }),
    {
        let mut config = self;
        config.headers.push((name.to_owned(), value.to_owned()));
        assert(config@.headers == self@.headers.push((name@, value@)));
        config
    }

    /// Add or replace one field of the request body.
    pub fn param(self, name: &str, value: JsonValue) -> (config: Self)
        ensures
            config@ == (ConfigView { extra_body: self@.extra_body.insert(name@, value@), ..self@ }),
    {
        let mut config = self;
        config.extra_body.insert(name.to_owned(), value);
        config
    }
}

// ------------------------------------------------------------------- errors

/// What can be wrong with a configuration or a response.
#[derive(Debug, Clone)]
pub enum LlmError {
    /// A body field that the protocol owns was set as a parameter.
    Reserved(String),
    /// The endpoint answered with an error status.
    Api { status: String, body: String },
    /// The endpoint answered with something other than an event stream.
    NotStreaming(Option<String>),
    /// The model said nothing and asked for nothing.
    EmptyReply,
}

pub enum LlmErrorView {
    Reserved(Seq<char>),
    Api { status: Seq<char>, body: Seq<char> },
    NotStreaming(Option<Seq<char>>),
    EmptyReply,
}

impl View for LlmError {
    type V = LlmErrorView;

    open spec fn view(&self) -> LlmErrorView {
        match self {
            LlmError::Reserved(field) => LlmErrorView::Reserved(field@),
            LlmError::Api { status, body } => LlmErrorView::Api { status: status@, body: body@ },
            LlmError::NotStreaming(content_type) => LlmErrorView::NotStreaming(
                crate::text_option(*content_type),
            ),
            LlmError::EmptyReply => LlmErrorView::EmptyReply,
        }
    }
}

impl LlmErrorView {
    /// The error in words.
    pub open spec fn text(self) -> Seq<char> {
        match self {
            LlmErrorView::Reserved(field) => "`"@ + field
                + "` belongs to the protocol and cannot be set with .param()"@,
            LlmErrorView::Api { status, body } => "api error "@ + status + ": "@
                + crate::text::clipped(body, ERROR_BODY_LIMIT as nat),
            LlmErrorView::NotStreaming(content_type) => {
                "the endpoint did not stream (content-type: "@ + (match content_type {
                    Some(content_type) => content_type,
                    None => "none"@,
                }) + "): it may not support `stream`"@
            },
            LlmErrorView::EmptyReply => "the model returned neither text nor tool calls"@,
        }
    }
}

impl LlmError {
    /// The error in words.
    pub fn message(&self) -> (message: String)
        ensures
            message@ == self@.text(),
    {
        match self {
            LlmError::Reserved(field) => "`".to_owned().concat(field.as_str()).concat(
                "` belongs to the protocol and cannot be set with .param()",
            ),
            LlmError::Api { status, body } => {
                let kept = clip(body.as_str(), ERROR_BODY_LIMIT);
                "api error ".to_owned().concat(status.as_str()).concat(": ").concat(kept.as_str())
            },
            LlmError::NotStreaming(content_type) => {
                let shown = match content_type {
                    Some(content_type) => content_type.clone(),
                    None => "none".to_owned(),
                };
                "the endpoint did not stream (content-type: ".to_owned().concat(
                    shown.as_str(),
                ).concat("): it may not support `stream`")
            },
            LlmError::EmptyReply => "the model returned neither text nor tool calls".to_owned(),
        }
    }
}

// ------------------------------------------------------------------- client

/// The first of the body fields that the protocol owns among some fields. Those
/// may not be set as parameters, or the crate's own assumptions about the
/// request would quietly stop holding.
pub open spec fn first_reserved(fields: Map<Seq<char>, Json>) -> Option<Seq<char>> {
    if fields.dom().contains("model"@) {
        Some("model"@)
    } else if fields.dom().contains("messages"@) {
        Some("messages"@)
    } else if fields.dom().contains("tools"@) {
        Some("tools"@)
    } else if fields.dom().contains("stream"@) {
        Some("stream"@)
    } else {
        None
    }
}

/// Where requests go.
pub open spec fn endpoint(base_url: Seq<char>) -> Seq<char> {
    base_url + "/chat/completions"@
}

/// The configuration that a client uses: the one it was given, its base URL without
/// slashes at the end.
pub open spec fn used_config(config: ConfigView) -> ConfigView {
    ConfigView { base_url: crate::text::without_trailing(config.base_url, '/'), ..config }
}

/// A client of one endpoint.
#[derive(Debug)]
pub struct OpenAiCompatible {
    config: OpenAiConfig,
}

/// One request, ready to be sent.
#[derive(Debug)]
pub struct Request {
    pub url: String,
    /// The key for the `Authorization` header, if there is to be one.
    pub bearer: Option<String>,
    /// Further headers, to be applied in order.
    pub headers: Vec<(String, String)>,
    pub body: JsonValue,
}

impl OpenAiCompatible {
    /// The configuration in use.
    pub closed spec fn view(&self) -> ConfigView {
        self.config@
    }

    #[verifier::type_invariant]
    spec fn leaves_the_protocol_alone(&self) -> bool {
        first_reserved(self@.extra_body) is None
    }

    /// Start from [`OpenAiConfig::default`].
    pub fn builder() -> (config: OpenAiConfig)
        ensures
            config@ == ConfigView::standard(),
    {
        OpenAiConfig::default()
    }

    /// A client, unless the configuration sets a field that the protocol owns.
    pub fn new(config: OpenAiConfig) -> (client: Result<Self, LlmError>)
        ensures
            match client {
                Ok(client) => {
                    &&& first_reserved(config@.extra_body) is None
                    &&& client@ == (ConfigView {
                        base_url: crate::text::without_trailing(config@.base_url, '/'),
                        ..config@
                    })
                    &&& client@ == used_config(config@)
                },
                Err(error) => {
                    &&& first_reserved(config@.extra_body) is Some
                    &&& error@ == LlmErrorView::Reserved(first_reserved(config@.extra_body)->0)
                },
            },
    {
        if config.extra_body.contains_key("model") {
            return Err(LlmError::Reserved("model".to_owned()));
        }
        if config.extra_body.contains_key("messages") {
            return Err(LlmError::Reserved("messages".to_owned()));
        }
        if config.extra_body.contains_key("tools") {
            return Err(LlmError::Reserved("tools".to_owned()));
        }
        if config.extra_body.contains_key("stream") {
            return Err(LlmError::Reserved("stream".to_owned()));
        }
        let mut config = config;
        config.base_url = trim_trailing(config.base_url.as_str(), '/');
        Ok(OpenAiCompatible { config })
    }

    /// The configuration in use.
    pub fn config(&self) -> (config: &OpenAiConfig)
        ensures
            config@ == self@,
            first_reserved(self@.extra_body) is None,
    {
        proof {
            use_type_invariant(self);
        }
        &self.config
    }

    /// The request for one model turn.
    pub fn request(&self, messages: &[Message], tools: &[ToolDefinition]) -> (request: Request)
        ensures
            request.url@ == self@.base_url + "/chat/completions"@,
            request.url@ == endpoint(self@.base_url),
            crate::text_option(request.bearer) == self@.api_key,
            headers_view(request.headers@) == self@.headers,
            request.body@ == body_document(
                self@,
                crate::messages_view(messages@),
                crate::definitions_view(tools@),
            ),
            first_reserved(self@.extra_body) is None,
    {
        proof {
            use_type_invariant(self);
        }
        let bearer = match &self.config.api_key {
            Some(key) => Some(key.clone()),
            None => None,
        };
        let mut headers: Vec<(String, String)> = Vec::new();
        let mut i: usize = 0;
        while i < self.config.headers.len()
            invariant
                i <= self.config.headers.len(),
                headers@.len() == i,
                forall|j: int|
                    0 <= j < i ==> (#[trigger] headers@[j]).0@ == self.config.headers@[j].0@
                        && headers@[j].1@ == self.config.headers@[j].1@,
            decreases self.config.headers.len() - i,
        {
            headers.push((self.config.headers[i].0.clone(), self.config.headers[i].1.clone()));
            i = i + 1;
        }
        assert(headers_view(headers@) == self@.headers);
        Request {
            url: self.config.base_url.clone().concat("/chat/completions"),
            bearer,
            headers,
            body: body(&self.config, messages, tools),
        }
    }
}

// ------------------------------------------------------------------ request

/// A message with a role and a content.
pub open spec fn plain_document(role: Seq<char>, content: Seq<char>) -> Json {
    Json::Object(
        Map::empty().insert("role"@, Json::Text(role)).insert("content"@, Json::Text(content)),
    )
}

/// A tool call, its arguments as JSON text.
pub open spec fn call_document(call: CallView, arguments: Seq<char>) -> Json {
    Json::Object(
        Map::empty().insert("id"@, Json::Text(call.id)).insert(
            "type"@,
            Json::Text("function"@),
        ).insert(
            "function"@,
            Json::Object(
                Map::empty().insert("name"@, Json::Text(call.name)).insert(
                    "arguments"@,
                    Json::Text(arguments),
                ),
            ),
        ),
    )
}

pub open spec fn call_documents(calls: Seq<CallView>) -> Seq<Json> {
    calls.map_values(
        |call: CallView| call_document(call, crate::json::json_text(call.arguments)),
    )
}

/// An assistant turn. One with tool calls carries them in the same message, so
/// `content` is explicitly null when there is no text. The provider fields of
/// the turn are echoed back.
pub open spec fn assistant_document(
    text: Seq<char>,
    calls: Seq<CallView>,
    metadata: Map<Seq<char>, Json>,
) -> Json {
    let said = Map::empty().insert("role"@, Json::Text("assistant"@)).insert(
        "content"@,
        if text.len() == 0 {
            Json::Null
        } else {
            Json::Text(text)
        },
    );
    let asked = if calls.len() == 0 {
        said
    } else {
        said.insert("tool_calls"@, Json::Array(call_documents(calls)))
    };
    Json::Object(asked.union_prefer_right(metadata))
}

/// The result of one tool call.
pub open spec fn result_document(result: ResultView) -> Json {
    Json::Object(
        Map::empty().insert("role"@, Json::Text("tool"@)).insert(
            "tool_call_id"@,
            Json::Text(result.id),
        ).insert("content"@, Json::Text(result.output)),
    )
}

/// One entry of the conversation on the wire: one message, or one for each tool
/// result.
pub open spec fn message_documents(message: MessageView) -> Seq<Json> {
    match message {
        MessageView::System(text) => seq![plain_document("system"@, text)],
        MessageView::User(text) => seq![plain_document("user"@, text)],
        MessageView::Assistant { text, calls, metadata } => {
            seq![assistant_document(text, calls, metadata)]
        },
        MessageView::Tools(results) => results.map_values(
            |result: ResultView| result_document(result),
        ),
    }
}

/// The conversation on the wire.
pub open spec fn conversation_documents(messages: Seq<MessageView>) -> Seq<Json>
    decreases messages.len(),
{
    if messages.len() == 0 {
        Seq::empty()
    } else {
        conversation_documents(messages.drop_last()) + message_documents(messages.last())
    }
}

/// A tool on the wire.
pub open spec fn tool_document(tool: DefinitionView) -> Json {
    Json::Object(
        Map::empty().insert("type"@, Json::Text("function"@)).insert(
            "function"@,
            Json::Object(
                Map::empty().insert("name"@, Json::Text(tool.name)).insert(
                    "description"@,
                    Json::Text(tool.description),
                ).insert("parameters"@, tool.parameters),
            ),
        ),
    )
}

/// The body of a request: the model, the conversation, that the reply is to be
/// streamed, the tools if there are any, and the provider's own fields.
pub open spec fn body_document(
    config: ConfigView,
    messages: Seq<MessageView>,
    tools: Seq<DefinitionView>,
) -> Json {
    let own = Map::empty().insert("model"@, Json::Text(config.model)).insert(
        "messages"@,
        Json::Array(conversation_documents(messages)),
    ).insert("stream"@, Json::Bool(true));
    let equipped = if tools.len() == 0 {
        own
    } else {
        own.insert(
            "tools"@,
            Json::Array(tools.map_values(|tool: DefinitionView| tool_document(tool))),
        )
    };
    Json::Object(equipped.union_prefer_right(config.extra_body))
}

fn plain_message(role: &str, content: &str) -> (value: JsonValue)
    ensures
        value@ == plain_document(role@, content@),
{
    JsonValue::Object(
        Object::new().with("role", JsonValue::text(role)).with("content", JsonValue::text(content)),
    )
}

/// A tool call on the wire, given the JSON text of its arguments.
pub fn call_value(call: &ToolCall, arguments: String) -> (value: JsonValue)
    ensures
        value@ == call_document(call@, arguments@),
{
    let function = Object::new().with("name", JsonValue::text(call.name.as_str())).with(
        "arguments",
        JsonValue::String(arguments),
    );
    JsonValue::Object(
        Object::new().with("id", JsonValue::text(call.id.as_str())).with(
            "type",
            JsonValue::text("function"),
        ).with("function", JsonValue::Object(function)),
    )
}

fn call_values(calls: &Vec<ToolCall>) -> (values: Vec<JsonValue>)
    ensures
        crate::json::items_view(values@) == call_documents(crate::calls_view(calls@)),
{
    let mut values: Vec<JsonValue> = Vec::new();
    let mut i: usize = 0;
    while i < calls.len()
        invariant
            i <= calls.len(),
            values@.len() == i,
            forall|j: int|
                0 <= j < i ==> (#[trigger] values@[j])@ == call_document(
                    calls@[j]@,
                    crate::json::json_text(calls@[j]@.arguments),
                ),
        decreases calls.len() - i,
    {
        values.push(call_value(&calls[i], calls[i].arguments.to_text()));
        i = i + 1;
    }
    proof {
        crate::json::lemma_items_view(values@);
        assert(crate::json::items_view(values@) == call_documents(crate::calls_view(calls@)));
    }
    values
}

fn assistant_message(text: &String, calls: &Vec<ToolCall>, metadata: &Object) -> (value: JsonValue)
    ensures
        value@ == assistant_document(text@, crate::calls_view(calls@), metadata@),
{
    let mut object = Object::new();
    object.insert("role".to_owned(), JsonValue::text("assistant"));
    if text.as_str().is_empty() {
        object.insert("content".to_owned(), JsonValue::Null);
    } else {
        object.insert("content".to_owned(), JsonValue::text(text.as_str()));
    }
    if calls.len() > 0 {
        object.insert("tool_calls".to_owned(), JsonValue::Array(call_values(calls)));
    }
    object.merge(metadata);
    JsonValue::Object(object)
}

fn result_message(result: &ToolResult) -> (value: JsonValue)
    ensures
        value@ == result_document(result@),
{
    JsonValue::Object(
        Object::new().with("role", JsonValue::text("tool")).with(
            "tool_call_id",
            JsonValue::text(result.id.as_str()),
        ).with("content", JsonValue::text(result.output.as_str())),
    )
}

fn tool_value(tool: &ToolDefinition) -> (value: JsonValue)
    ensures
        value@ == tool_document(tool@),
{
    let function = Object::new().with("name", JsonValue::text(tool.name.as_str())).with(
        "description",
        JsonValue::text(tool.description.as_str()),
    ).with("parameters", tool.parameters.clone());
    JsonValue::Object(
        Object::new().with("type", JsonValue::text("function")).with(
            "function",
            JsonValue::Object(function),
        ),
    )
}

/// Put one entry of the conversation on the wire.
fn push_message(values: &mut Vec<JsonValue>, message: &Message)
    ensures
        crate::json::items_view(final(values)@) == crate::json::items_view(old(values)@)
            + message_documents(message@),
{
    let ghost before = crate::json::items_view(values@);
    match message {
        Message::System(text) => {
            let value = plain_message("system", text.as_str());
            proof {
                crate::json::lemma_items_view_push(values@, value);
                assert(before.push(value@) == before + message_documents(message@));
            }
            values.push(value);
        },
        Message::User(text) => {
            let value = plain_message("user", text.as_str());
            proof {
                crate::json::lemma_items_view_push(values@, value);
                assert(before.push(value@) == before + message_documents(message@));
            }
            values.push(value);
        },
        Message::Assistant { text, calls, metadata } => {
            let value = assistant_message(text, calls, metadata);
            proof {
                crate::json::lemma_items_view_push(values@, value);
                assert(before.push(value@) == before + message_documents(message@));
            }
            values.push(value);
        },
        Message::Tools(results) => {
            let ghost documents = message_documents(message@);
            let mut i: usize = 0;
            assert(before + documents.take(0) == before);
            while i < results.len()
                invariant
                    i <= results.len(),
                    documents == crate::results_view(results@).map_values(
                        |result: ResultView| result_document(result),
                    ),
                    crate::json::items_view(values@) == before + documents.take(i as int),
                decreases results.len() - i,
            {
                let value = result_message(&results[i]);
                proof {
                    crate::json::lemma_items_view_push(values@, value);
                    assert((before + documents.take(i as int)).push(value@) == before
                        + documents.take(i + 1));
                }
                values.push(value);
                i = i + 1;
            }
            assert(documents.take(documents.len() as int) == documents);
        },
    }
}

/// The body of a request.
pub fn body(config: &OpenAiConfig, messages: &[Message], tools: &[ToolDefinition]) -> (value:
    JsonValue)
    ensures
        value@ == body_document(
            config@,
            crate::messages_view(messages@),
            crate::definitions_view(tools@),
        ),
{
    let mut values: Vec<JsonValue> = Vec::new();
    let ghost views = crate::messages_view(messages@);
    let mut i: usize = 0;
    assert(crate::json::items_view(values@) == conversation_documents(views.take(0)));
    while i < messages.len()
        invariant
            i <= messages.len(),
            views == crate::messages_view(messages@),
            crate::json::items_view(values@) == conversation_documents(views.take(i as int)),
        decreases messages.len() - i,
    {
        push_message(&mut values, &messages[i]);
        i = i + 1;
        assert(views.take(i as int).drop_last() == views.take(i - 1));
    }
    assert(views.take(views.len() as int) == views);

    let mut object = Object::new();
    object.insert("model".to_owned(), JsonValue::text(config.model.as_str()));
    object.insert("messages".to_owned(), JsonValue::Array(values));
    object.insert("stream".to_owned(), JsonValue::Bool(true));
    if tools.len() > 0 {
        let mut tool_values: Vec<JsonValue> = Vec::new();
        let mut k: usize = 0;
        while k < tools.len()
            invariant
                k <= tools.len(),
                tool_values@.len() == k,
                forall|j: int|
                    0 <= j < k ==> (#[trigger] tool_values@[j])@ == tool_document(tools@[j]@),
            decreases tools.len() - k,
        {
            tool_values.push(tool_value(&tools[k]));
            k = k + 1;
        }
        proof {
            crate::json::lemma_items_view(tool_values@);
            assert(crate::json::items_view(tool_values@) == crate::definitions_view(
                tools@,
            ).map_values(|tool: DefinitionView| tool_document(tool)));
        }
        object.insert("tools".to_owned(), JsonValue::Array(tool_values));
    }
    // Provider-specific fields come last.
    object.merge(&config.extra_body);
    JsonValue::Object(object)
}

// ----------------------------------------------------------------- response

/// The statuses that say that a request succeeded.
pub open spec fn succeeded(status: u16) -> bool {
    200 <= status < 300
}

/// Whether an HTTP status says that the request succeeded.
pub fn is_success(status: u16) -> (success: bool)
    ensures
        success == succeeded(status),
        success == (200 <= status < 300),
{
    200 <= status && status < 300
}

/// Whether a content type announces an event stream.
pub open spec fn announces_stream(content_type: Option<Seq<char>>) -> bool {
    match content_type {
        Some(content_type) => crate::text::contains_text(content_type, "event-stream"@),
        None => false,
    }
}

/// Whether a content type announces an event stream.
pub fn is_event_stream(content_type: &Option<String>) -> (yes: bool)
    ensures
        yes == announces_stream(crate::text_option(*content_type)),
{
    match content_type {
        Some(content_type) => contains(content_type.as_str(), "event-stream"),
        None => false,
    }
}

/// Refuse a response that is not an event stream.
pub fn check_content_type(content_type: Option<String>) -> (outcome: Result<(), LlmError>)
    ensures
        match outcome {
            Ok(()) => announces_stream(crate::text_option(content_type)),
            Err(error) => {
                &&& !announces_stream(crate::text_option(content_type))
                &&& error@ == LlmErrorView::NotStreaming(crate::text_option(content_type))
            },
        },
{
    if is_event_stream(&content_type) {
        Ok(())
    } else {
        Err(LlmError::NotStreaming(content_type))
    }
}

/// Refuse a model turn that said nothing and asked for nothing.
pub fn check_reply(response: Response) -> (outcome: Result<Response, LlmError>)
    ensures
        match outcome {
            Ok(reply) => reply == response && (response@.text is Some || response@.calls.len() > 0),
            Err(error) => {
                &&& response@.text is None
                &&& response@.calls.len() == 0
                &&& error@ == LlmErrorView::EmptyReply
            },
        },
{
    if response.text.is_none() && response.tool_calls.len() == 0 {
        Err(LlmError::EmptyReply)
    } else {
        Ok(response)
    }
}

// --------------------------------------------------------------------- laws

/// Parameters never change what the protocol owns: a client only accepts fields
/// with which the request keeps its model, its conversation, its tools and that
/// it is streamed.
pub proof fn parameters_leave_the_protocol_alone(
    config: ConfigView,
    messages: Seq<MessageView>,
    tools: Seq<DefinitionView>,
)
    requires
        first_reserved(config.extra_body) is None,
    ensures
        body_document(config, messages, tools) is Object,
        ({
            let fields = body_document(config, messages, tools)->Object_0;
            &&& fields.dom().contains("model"@) && fields["model"@] == Json::Text(config.model)
            &&& fields.dom().contains("messages"@) && fields["messages"@] == Json::Array(
                conversation_documents(messages),
            )
            &&& fields.dom().contains("stream"@) && fields["stream"@] == Json::Bool(true)
            &&& fields.dom().contains("tools"@) <==> tools.len() > 0
            &&& tools.len() > 0 ==> fields["tools"@] == Json::Array(
                tools.map_values(|tool: DefinitionView| tool_document(tool)),
            )
        }),
{
    reveal_strlit("model");
    reveal_strlit("messages");
    reveal_strlit("stream");
    reveal_strlit("tools");
    assert("model"@.len() == 5);
    assert("messages"@.len() == 8);
    assert("stream"@.len() == 6);
    assert("tools"@.len() == 5 && "tools"@[0] == 't' && "model"@[0] == 'm');
}

/// Every parameter goes into the request as it was given.
pub proof fn parameters_go_through_as_given(
    config: ConfigView,
    messages: Seq<MessageView>,
    tools: Seq<DefinitionView>,
    name: Seq<char>,
)
    requires
        config.extra_body.dom().contains(name),
    ensures
        body_document(config, messages, tools)->Object_0.dom().contains(name),
        body_document(config, messages, tools)->Object_0[name] == config.extra_body[name],
{
}

/// A parameter that is set twice has the value it was given last.
pub proof fn the_last_parameter_wins(
    config: ConfigView,
    name: Seq<char>,
    first: Json,
    second: Json,
)
    ensures
        config.extra_body.insert(name, first).insert(name, second) == config.extra_body.insert(
            name,
            second,
        ),
{
}

/// Slashes at the end of the base URL make no difference.
pub proof fn trailing_slashes_make_no_difference(base_url: Seq<char>)
    ensures
        crate::text::without_trailing(base_url.push('/'), '/') == crate::text::without_trailing(
            base_url,
            '/',
        ),
{
    assert(base_url.push('/').drop_last() == base_url);
}

/// What a provider wants echoed back comes back: each field that a streamed turn
/// carried stands in the message of that turn, next to its role, its content and
/// its calls.
pub proof fn provider_fields_are_echoed_back(
    stream: crate::stream::StreamView,
    text: Seq<char>,
    calls: Seq<CallView>,
)
    ensures
        assistant_document(text, calls, stream.metadata()) is Object,
        ({
            let fields = assistant_document(text, calls, stream.metadata())->Object_0;
            &&& stream.reasoning_content.len() > 0 ==> fields.dom().contains(
                "reasoning_content"@,
            ) && fields["reasoning_content"@] == Json::Text(stream.reasoning_content)
            &&& stream.reasoning_details matches Some(details) ==> fields.dom().contains(
                "reasoning_details"@,
            ) && fields["reasoning_details"@] == details
            &&& fields["role"@] == Json::Text("assistant"@)
            &&& fields["content"@] == if text.len() == 0 {
                Json::Null
            } else {
                Json::Text(text)
            }
            &&& calls.len() > 0 ==> fields["tool_calls"@] == Json::Array(call_documents(calls))
        }),
{
    reveal_strlit("reasoning_content");
    reveal_strlit("reasoning_details");
    reveal_strlit("role");
    reveal_strlit("content");
    reveal_strlit("tool_calls");
    assert("reasoning_content"@.len() == 17 && "reasoning_content"@[10] == 'c');
    assert("reasoning_details"@.len() == 17 && "reasoning_details"@[10] == 'd');
    assert("role"@.len() == 4);
    assert("content"@.len() == 7);
    assert("tool_calls"@.len() == 10);
}

/// The conversation on the wire, part by part.
pub proof fn lemma_conversation_concat(first: Seq<MessageView>, second: Seq<MessageView>)
    ensures
        conversation_documents(first + second) == conversation_documents(first)
            + conversation_documents(second),
    decreases second.len(),
{
    if second.len() == 0 {
        assert(first + second == first);
        assert(conversation_documents(first + second) == conversation_documents(first)
            + conversation_documents(second));
    } else {
        lemma_conversation_concat(first, second.drop_last());
        assert((first + second).drop_last() == first + second.drop_last());
        assert(conversation_documents(first + second) == conversation_documents(first)
            + conversation_documents(second));
    }
}

/// On the wire, too, the calls of a turn are followed by their results, one
/// message each, in order, under the ids of the calls.
pub proof fn results_follow_their_calls(
    before: Seq<MessageView>,
    text: Seq<char>,
    calls: Seq<CallView>,
    metadata: Map<Seq<char>, Json>,
    results: Seq<ResultView>,
    after: Seq<MessageView>,
)
    requires
        crate::laws::answered(calls, results),
    ensures
        ({
            let turn = seq![
                MessageView::Assistant { text, calls, metadata },
                MessageView::Tools(results),
            ];
            let wire = conversation_documents(before + turn + after);
            let at = conversation_documents(before).len() as int;
            &&& wire[at] == assistant_document(text, calls, metadata)
            &&& wire.len() == at + 1 + calls.len() + conversation_documents(after).len()
            &&& forall|i: int|
                0 <= i < calls.len() ==> (#[trigger] wire[at + 1 + i]) is Object
                    && wire[at + 1 + i]->Object_0["tool_call_id"@] == Json::Text(calls[i].id)
                    && wire[at + 1 + i]->Object_0["content"@] == Json::Text(results[i].output)
        }),
{
    let turn = seq![
        MessageView::Assistant { text, calls, metadata },
        MessageView::Tools(results),
    ];
    lemma_conversation_concat(before + turn, after);
    lemma_conversation_concat(before, turn);
    let documents = results.map_values(|result: ResultView| result_document(result));
    assert(conversation_documents(turn) == seq![assistant_document(text, calls, metadata)]
        + documents) by {
        assert(turn.drop_last() == seq![turn[0]]);
        assert(turn.drop_last().drop_last() == Seq::<MessageView>::empty());
        reveal_with_fuel(conversation_documents, 3);
        assert(conversation_documents(turn) == seq![assistant_document(text, calls, metadata)]
            + documents);
    }
    let wire = conversation_documents(before + turn + after);
    let at = conversation_documents(before).len() as int;
    reveal_strlit("tool_call_id");
    reveal_strlit("content");
    reveal_strlit("role");
    assert("tool_call_id"@.len() == 12);
    assert("content"@.len() == 7);
    assert("role"@.len() == 4);
    assert forall|i: int| 0 <= i < calls.len() implies (#[trigger] wire[at + 1 + i]) is Object
        && wire[at + 1 + i]->Object_0["tool_call_id"@] == Json::Text(calls[i].id)
        && wire[at + 1 + i]->Object_0["content"@] == Json::Text(results[i].output) by {
        assert(wire[at + 1 + i] == documents[i]);
        assert(documents[i] == result_document(results[i]));
    }
}

// What a request says, field by field.

/// A document is an object with `value` under `name`.
pub open spec fn holds(document: Json, name: Seq<char>, value: Json) -> bool {
    match document {
        Json::Object(fields) => fields.dom().contains(name) && fields[name] == value,
        _ => false,
    }
}

/// A document is an object that has no other fields than these.
pub open spec fn has_only(document: Json, names: Set<Seq<char>>) -> bool {
    match document {
        Json::Object(fields) => forall|name: Seq<char>| #[trigger]
            fields.dom().contains(name) ==> names.contains(name),
        _ => false,
    }
}

/// A document is a message of this role with this content, and nothing more.
pub open spec fn speaks(document: Json, role: Seq<char>, content: Seq<char>) -> bool {
    &&& holds(document, "role"@, Json::Text(role))
    &&& holds(document, "content"@, Json::Text(content))
    &&& has_only(document, set!["role"@, "content"@])
}

/// A document is this call: its id, its name and the JSON text of its arguments.
pub open spec fn is_call(document: Json, call: CallView) -> bool {
    &&& holds(document, "id"@, Json::Text(call.id))
    &&& holds(document, "type"@, Json::Text("function"@))
    &&& has_only(document, set!["id"@, "type"@, "function"@])
    &&& document->Object_0.dom().contains("function"@)
    &&& holds(document->Object_0["function"@], "name"@, Json::Text(call.name))
    &&& holds(
        document->Object_0["function"@],
        "arguments"@,
        Json::Text(crate::json::json_text(call.arguments)),
    )
    &&& has_only(document->Object_0["function"@], set!["name"@, "arguments"@])
}

/// A document is the list of these calls, one for one and in order.
pub open spec fn is_calls(document: Json, calls: Seq<CallView>) -> bool {
    match document {
        Json::Array(items) => {
            &&& items.len() == calls.len()
            &&& forall|i: int| 0 <= i < calls.len() ==> is_call(#[trigger] items[i], calls[i])
        },
        _ => false,
    }
}

/// A document is this turn of the model: what it said, all its calls, and the
/// fields of its provider, which go before those of the protocol.
pub open spec fn is_turn(
    document: Json,
    text: Seq<char>,
    calls: Seq<CallView>,
    metadata: Map<Seq<char>, Json>,
) -> bool {
    match document {
        Json::Object(fields) => {
            &&& forall|name: Seq<char>| #[trigger]
                metadata.dom().contains(name) ==> fields.dom().contains(name) && fields[name]
                    == metadata[name]
            &&& !metadata.dom().contains("role"@) ==> holds(
                document,
                "role"@,
                Json::Text("assistant"@),
            )
            &&& !metadata.dom().contains("content"@) && text.len() > 0 ==> holds(
                document,
                "content"@,
                Json::Text(text),
            )
            &&& !metadata.dom().contains("content"@) && text.len() == 0 ==> holds(
                document,
                "content"@,
                Json::Null,
            )
            &&& !metadata.dom().contains("tool_calls"@) && calls.len() > 0 ==> fields.dom().contains(
                "tool_calls"@,
            ) && is_calls(fields["tool_calls"@], calls)
            &&& !metadata.dom().contains("tool_calls"@) && calls.len() == 0
                ==> !fields.dom().contains("tool_calls"@)
            &&& forall|name: Seq<char>| #[trigger]
                fields.dom().contains(name) ==> metadata.dom().contains(name) || name == "role"@
                    || name == "content"@ || name == "tool_calls"@
        },
        _ => false,
    }
}

/// A document is this result: its output, under the id of its call.
pub open spec fn is_result(document: Json, result: ResultView) -> bool {
    &&& holds(document, "role"@, Json::Text("tool"@))
    &&& holds(document, "tool_call_id"@, Json::Text(result.id))
    &&& holds(document, "content"@, Json::Text(result.output))
    &&& has_only(document, set!["role"@, "tool_call_id"@, "content"@])
}

/// A document is this tool, described for the model.
pub open spec fn is_tool(document: Json, tool: DefinitionView) -> bool {
    &&& holds(document, "type"@, Json::Text("function"@))
    &&& has_only(document, set!["type"@, "function"@])
    &&& document->Object_0.dom().contains("function"@)
    &&& holds(document->Object_0["function"@], "name"@, Json::Text(tool.name))
    &&& holds(document->Object_0["function"@], "description"@, Json::Text(tool.description))
    &&& holds(document->Object_0["function"@], "parameters"@, tool.parameters)
    &&& has_only(
        document->Object_0["function"@],
        set!["name"@, "description"@, "parameters"@],
    )
}

/// How many messages go out for the first `count` entries of a conversation: one
/// each, and one for each tool result.
pub open spec fn place_on_wire(messages: Seq<MessageView>, count: nat) -> nat
    decreases count,
{
    if count == 0 {
        0
    } else {
        place_on_wire(messages, (count - 1) as nat) + match messages[count - 1] {
            MessageView::Tools(results) => results.len(),
            _ => 1,
        }
    }
}

proof fn lemma_names_differ()
    ensures
        "id"@ != "type"@,
        "id"@ != "function"@,
        "type"@ != "function"@,
        "name"@ != "arguments"@,
        "name"@ != "description"@,
        "name"@ != "parameters"@,
        "description"@ != "parameters"@,
        "role"@ != "content"@,
        "role"@ != "tool_calls"@,
        "content"@ != "tool_calls"@,
        "role"@ != "tool_call_id"@,
        "content"@ != "tool_call_id"@,
        "model"@ != "messages"@,
        "model"@ != "stream"@,
        "model"@ != "tools"@,
        "messages"@ != "stream"@,
        "messages"@ != "tools"@,
        "stream"@ != "tools"@,
{
    reveal_strlit("id");
    reveal_strlit("type");
    reveal_strlit("function");
    reveal_strlit("name");
    reveal_strlit("arguments");
    reveal_strlit("description");
    reveal_strlit("parameters");
    reveal_strlit("role");
    reveal_strlit("content");
    reveal_strlit("tool_calls");
    reveal_strlit("tool_call_id");
    reveal_strlit("model");
    reveal_strlit("messages");
    reveal_strlit("stream");
    reveal_strlit("tools");
    assert("id"@.len() == 2 && "type"@.len() == 4 && "function"@.len() == 8);
    assert("name"@.len() == 4 && "arguments"@.len() == 9);
    assert("description"@.len() == 11 && "parameters"@.len() == 10);
    assert("role"@.len() == 4 && "content"@.len() == 7);
    assert("tool_calls"@.len() == 10 && "tool_call_id"@.len() == 12);
    assert("messages"@.len() == 8 && "stream"@.len() == 6);
    assert("model"@.len() == 5 && "model"@[0] == 'm');
    assert("tools"@.len() == 5 && "tools"@[0] == 't');
}

proof fn lemma_calls_on_wire(calls: Seq<CallView>)
    ensures
        is_calls(Json::Array(call_documents(calls)), calls),
{
    lemma_names_differ();
    let items = call_documents(calls);
    assert forall|i: int| 0 <= i < calls.len() implies is_call(#[trigger] items[i], calls[i]) by {
        assert(items[i] == call_document(
            calls[i],
            crate::json::json_text(calls[i].arguments),
        ));
    }
}

proof fn lemma_turn_on_wire(text: Seq<char>, calls: Seq<CallView>, metadata: Map<Seq<char>, Json>)
    ensures
        is_turn(assistant_document(text, calls, metadata), text, calls, metadata),
{
    lemma_names_differ();
    lemma_calls_on_wire(calls);
}

/// A document is what goes out for an entry of a conversation, at `i` among the
/// documents of that entry.
pub open spec fn is_entry(document: Json, message: MessageView, i: int) -> bool {
    match message {
        MessageView::System(text) => speaks(document, "system"@, text),
        MessageView::User(text) => speaks(document, "user"@, text),
        MessageView::Assistant { text, calls, metadata } => is_turn(
            document,
            text,
            calls,
            metadata,
        ),
        MessageView::Tools(results) => is_result(document, results[i]),
    }
}

proof fn lemma_entry_on_wire(message: MessageView)
    ensures
        message is Tools ==> message_documents(message).len() == message->Tools_0.len(),
        !(message is Tools) ==> message_documents(message).len() == 1,
        forall|i: int|
            0 <= i < message_documents(message).len() ==> is_entry(
                #[trigger] message_documents(message)[i],
                message,
                i,
            ),
{
    lemma_names_differ();
    match message {
        MessageView::Assistant { text, calls, metadata } => {
            lemma_turn_on_wire(text, calls, metadata);
        },
        MessageView::Tools(results) => {
            assert forall|i: int| 0 <= i < message_documents(message).len() implies is_entry(
                #[trigger] message_documents(message)[i],
                message,
                i,
            ) by {
                assert(message_documents(message)[i] == result_document(results[i]));
            }
        },
        _ => {},
    }
}

proof fn lemma_place_on_wire(messages: Seq<MessageView>, count: nat)
    requires
        count <= messages.len(),
    ensures
        conversation_documents(messages.take(count as int)).len() == place_on_wire(
            messages,
            count,
        ),
    decreases count,
{
    if count > 0 {
        lemma_place_on_wire(messages, (count - 1) as nat);
        lemma_entry_on_wire(messages[count - 1]);
        assert(messages.take(count as int).drop_last() == messages.take(count - 1));
    }
}

/// Where an entry goes out depends only on the entries before it.
pub proof fn lemma_same_place_on_wire(
    first: Seq<MessageView>,
    second: Seq<MessageView>,
    count: nat,
)
    requires
        count <= first.len(),
        count <= second.len(),
        forall|i: int| 0 <= i < count ==> (#[trigger] first[i]) == second[i],
    ensures
        place_on_wire(first, count) == place_on_wire(second, count),
    decreases count,
{
    if count > 0 {
        lemma_same_place_on_wire(first, second, (count - 1) as nat);
        assert(first[count - 1] == second[count - 1]);
    }
}

/// The messages of a request.
pub open spec fn wire(
    config: ConfigView,
    messages: Seq<MessageView>,
    tools: Seq<DefinitionView>,
) -> Seq<Json> {
    body_document(config, messages, tools)->Object_0["messages"@]->Array_0
}

/// Every entry of a conversation goes out, in order and as it is: what the user and
/// the system prompt say, each turn of the model with what it said, every one of
/// its calls and what it wants echoed back, and each tool result under the id of
/// its call. Nothing else goes out.
pub proof fn the_whole_conversation_goes_out(
    config: ConfigView,
    messages: Seq<MessageView>,
    tools: Seq<DefinitionView>,
)
    requires
        !config.extra_body.dom().contains("messages"@),
    ensures
        wire(config, messages, tools).len() == place_on_wire(messages, messages.len()),
        forall|k: int, i: int|
            0 <= k < messages.len() && 0 <= i < (match messages[k] {
                MessageView::Tools(results) => results.len(),
                _ => 1,
            }) ==> #[trigger] is_entry(
                wire(config, messages, tools)[place_on_wire(messages, k as nat) + i],
                messages[k],
                i,
            ),
{
    lemma_names_differ();
    let all = wire(config, messages, tools);
    assert(all == conversation_documents(messages));
    lemma_place_on_wire(messages, messages.len());
    assert(messages.take(messages.len() as int) == messages);
    assert forall|k: int, i: int|
        0 <= k < messages.len() && 0 <= i < (match messages[k] {
            MessageView::Tools(results) => results.len(),
            _ => 1,
        }) implies #[trigger] is_entry(
        all[place_on_wire(messages, k as nat) + i],
        messages[k],
        i,
    ) by {
        lemma_a_place_on_wire(messages, k, i);
    }
}

proof fn lemma_a_place_on_wire(messages: Seq<MessageView>, k: int, i: int)
    requires
        0 <= k < messages.len(),
        0 <= i < (match messages[k] {
            MessageView::Tools(results) => results.len(),
            _ => 1,
        }),
    ensures
        is_entry(
            conversation_documents(messages)[place_on_wire(messages, k as nat) + i],
            messages[k],
            i,
        ),
        place_on_wire(messages, k as nat) + i < conversation_documents(messages).len(),
{
    let before = messages.take(k);
    let here = messages.take(k + 1);
    lemma_place_on_wire(messages, k as nat);
    lemma_entry_on_wire(messages[k]);
    assert(here.drop_last() == before);
    assert(here.last() == messages[k]);
    assert(messages == here + messages.skip(k + 1));
    lemma_conversation_concat(here, messages.skip(k + 1));
    let at = place_on_wire(messages, k as nat) + i;
    assert(conversation_documents(here)[at] == message_documents(messages[k])[i]);
}

/// On the wire, each tool result names a call that stands in the message before
/// the results: the one at its own place.
pub proof fn results_name_the_calls_before_them(
    config: ConfigView,
    messages: Seq<MessageView>,
    tools: Seq<DefinitionView>,
    k: int,
    i: int,
)
    requires
        !config.extra_body.dom().contains("messages"@),
        0 <= k < messages.len() - 1,
        messages[k] is Assistant,
        !messages[k]->metadata.dom().contains("tool_calls"@),
        messages[k + 1] is Tools,
        messages[k + 1]->Tools_0.len() == messages[k]->calls.len(),
        0 <= i < messages[k]->calls.len(),
        messages[k + 1]->Tools_0[i].id == messages[k]->calls[i].id,
    ensures
        ({
            let all = wire(config, messages, tools);
            let at = place_on_wire(messages, k as nat);
            let calls = all[at as int]->Object_0["tool_calls"@]->Array_0;
            &&& calls.len() == messages[k]->calls.len()
            &&& all[at + 1 + i]->Object_0["tool_call_id"@] == calls[i]->Object_0["id"@]
        }),
{
    the_whole_conversation_goes_out(config, messages, tools);
    let all = wire(config, messages, tools);
    let at = place_on_wire(messages, k as nat);
    assert(is_entry(all[place_on_wire(messages, k as nat) + 0int], messages[k], 0));
    assert(place_on_wire(messages, (k + 1) as nat) == at + 1);
    assert(is_entry(all[place_on_wire(messages, (k + 1) as nat) + i], messages[k + 1], i));
    let calls = all[at as int]->Object_0["tool_calls"@]->Array_0;
    assert(is_call(calls[i], messages[k]->calls[i]));
}

/// A request holds the model, that the reply is to be streamed, the tools if there
/// are any, one for one and in order, and the provider's own fields, and besides
/// the messages nothing else.
pub proof fn a_request_holds_what_it_needs(
    config: ConfigView,
    messages: Seq<MessageView>,
    tools: Seq<DefinitionView>,
)
    requires
        !config.extra_body.dom().contains("model"@),
        !config.extra_body.dom().contains("messages"@),
        !config.extra_body.dom().contains("tools"@),
        !config.extra_body.dom().contains("stream"@),
    ensures
        ({
            let document = body_document(config, messages, tools);
            let fields = document->Object_0;
            &&& holds(document, "model"@, Json::Text(config.model))
            &&& holds(document, "stream"@, Json::Bool(true))
            &&& fields.dom().contains("messages"@) && fields["messages"@] is Array
            &&& tools.len() == 0 ==> !fields.dom().contains("tools"@)
            &&& tools.len() > 0 ==> fields.dom().contains("tools"@) && fields["tools"@] is Array
                && fields["tools"@]->Array_0.len() == tools.len()
            &&& forall|i: int|
                0 <= i < tools.len() ==> is_tool(
                    #[trigger] fields["tools"@]->Array_0[i],
                    tools[i],
                )
            &&& forall|name: Seq<char>| #[trigger]
                config.extra_body.dom().contains(name) ==> holds(
                    document,
                    name,
                    config.extra_body[name],
                )
            &&& forall|name: Seq<char>| #[trigger]
                fields.dom().contains(name) ==> config.extra_body.dom().contains(name) || name
                    == "model"@ || name == "messages"@ || name == "stream"@ || name == "tools"@
        }),
{
    lemma_names_differ();
    let fields = body_document(config, messages, tools)->Object_0;
    assert forall|i: int| 0 <= i < tools.len() implies is_tool(
        #[trigger] fields["tools"@]->Array_0[i],
        tools[i],
    ) by {
        assert(fields["tools"@]->Array_0[i] == tool_document(tools[i]));
    }
}

/// The fields that the protocol owns are these four, and one that is set is told,
/// in this order.
pub proof fn the_protocol_owns_four_fields(fields: Map<Seq<char>, Json>)
    ensures
        first_reserved(fields) is None <==> !fields.dom().contains("model"@)
            && !fields.dom().contains("messages"@) && !fields.dom().contains("tools"@)
            && !fields.dom().contains("stream"@),
        first_reserved(fields) matches Some(name) ==> fields.dom().contains(name),
        fields.dom().contains("model"@) ==> first_reserved(fields) == Some("model"@),
        first_reserved(fields) == Some("stream"@) ==> !fields.dom().contains("messages"@)
            && !fields.dom().contains("tools"@),
        first_reserved(fields) == Some("tools"@) ==> !fields.dom().contains("messages"@),
{
    lemma_names_differ();
}

/// A base URL loses the slashes at its end, all of them, and nothing else.
pub proof fn only_trailing_slashes_go(base_url: Seq<char>)
    ensures
        ({
            let kept = crate::text::without_trailing(base_url, '/');
            &&& kept.len() <= base_url.len()
            &&& kept == base_url.take(kept.len() as int)
            &&& forall|i: int| kept.len() <= i < base_url.len() ==> (#[trigger] base_url[i]) == '/'
            &&& kept.len() > 0 ==> kept.last() != '/'
        }),
{
    crate::text::only_the_end_goes(base_url, '/');
}

/// An error of the endpoint tells its status, and its body up to the limit; an
/// answer that is no stream tells what it is; a field that cannot be set is named.
pub proof fn errors_of_the_endpoint_tell_what_came(
    status: Seq<char>,
    body: Seq<char>,
    field: Seq<char>,
)
    ensures
        (LlmErrorView::Api { status, body }).text() == "api error "@ + status + ": "@
            + crate::text::clipped(body, 2000),
        LlmErrorView::Reserved(field).text() == "`"@ + field
            + "` belongs to the protocol and cannot be set with .param()"@,
        LlmErrorView::NotStreaming(Some(field)).text()
            == "the endpoint did not stream (content-type: "@ + field
            + "): it may not support `stream`"@,
        LlmErrorView::NotStreaming(None).text()
            == "the endpoint did not stream (content-type: "@ + "none"@
            + "): it may not support `stream`"@,
        LlmErrorView::EmptyReply.text() == "the model returned neither text nor tool calls"@,
{
}

/// A span that is told in seconds and less than a second tells its seconds.
pub proof fn a_span_tells_its_seconds(timeout: Timeout)
    ensures
        timeout.nanos < 1_000_000_000 ==> timeout.seconds() == timeout.secs,
        timeout.seconds() >= timeout.secs,
        timeout.seconds() <= u64::MAX,
        timeout.seconds() < u64::MAX ==> timeout.seconds() * 1_000_000_000 <= timeout.secs
            * 1_000_000_000 + timeout.nanos < (timeout.seconds() + 1) * 1_000_000_000,
{
}

/// A configuration is seen with everything that was set.
pub proof fn settings_are_seen_as_they_are(config: OpenAiConfig)
    ensures
        config@.model == config.model@,
        config@.base_url == config.base_url@,
        config.api_key is None ==> config@.api_key is None,
        config.api_key matches Some(key) ==> config@.api_key == Some(key@),
        config@.timeout == config.timeout,
        config@.extra_body == config.extra_body@,
        config@.headers.len() == config.headers@.len(),
        forall|i: int|
            0 <= i < config.headers@.len() ==> (#[trigger] config@.headers[i]) == (
                config.headers@[i].0@,
                config.headers@[i].1@,
            ),
{
}

/// A content type announces a stream wherever it says so, and only if it does.
pub proof fn a_stream_is_announced_by_its_type(before: Seq<char>, behind: Seq<char>)
    ensures
        announces_stream(Some(before + "event-stream"@ + behind)),
        !announces_stream(None),
        forall|content_type: Seq<char>| #[trigger]
            announces_stream(Some(content_type)) ==> exists|at: int|
                0 <= at && at + "event-stream"@.len() <= content_type.len()
                    && #[trigger] content_type.subrange(at, at + "event-stream"@.len())
                    == "event-stream"@,
{
    let mark = "event-stream"@;
    let text = before + mark + behind;
    assert(text.subrange(before.len() as int, (before.len() + mark.len()) as int) == mark);
    assert(crate::text::occurs_at(text, mark, before.len() as int));
    assert forall|content_type: Seq<char>| #[trigger]
        announces_stream(Some(content_type)) implies exists|at: int|
        0 <= at && at + mark.len() <= content_type.len() && #[trigger] content_type.subrange(
            at,
            at + mark.len(),
        ) == mark by {
        let at = choose|at: int| crate::text::occurs_at(content_type, mark, at);
        assert(content_type.subrange(at, at + mark.len()) == mark);
    }
}

/// A client uses everything it was configured with, and goes to the same endpoint
/// with or without slashes behind the base URL.
pub proof fn a_client_uses_its_configuration(config: ConfigView)
    ensures
        used_config(config) == (ConfigView {
            base_url: used_config(config).base_url,
            ..config
        }),
        used_config(ConfigView { base_url: config.base_url.push('/'), ..config }) == used_config(
            config,
        ),
        config.base_url.len() > 0 && config.base_url.last() != '/' ==> used_config(config)
            == config && endpoint(used_config(config).base_url) == config.base_url
            + "/chat/completions"@,
{
    trailing_slashes_make_no_difference(config.base_url);
}

/// A request succeeded if its status has three digits of which the first is a two.
pub proof fn success_is_a_status_in_the_two_hundreds(status: u16)
    ensures
        succeeded(status) <==> status / 100 == 2,
{
}

/// The defaults of the protocol.
pub proof fn the_defaults_of_the_protocol()
    ensures
        ConfigView::standard().base_url == "https://api.openai.com/v1"@,
        ConfigView::standard().model == "gpt-4o-mini"@,
        ConfigView::standard().timeout == (Timeout { secs: 600, nanos: 0 }),
        ConfigView::standard().api_key is None,
        ConfigView::standard().headers.len() == 0,
        ConfigView::standard().extra_body == Map::<Seq<char>, Json>::empty(),
{
}

} // verus!
