//! A minimal coding agent: a model loop over four tools (`read`, `write`,
//! `edit`, `exec`).
//!
//! This module holds the crate's vocabulary: the conversation, the tool calls
//! in it and the events a host gets to see. The library decides and computes;
//! it performs no input or output and never writes to the terminal.

pub mod agent;
pub mod cli;
pub mod context;
pub mod json;
pub mod laws;
pub mod llm;
pub mod sse;
pub mod stream;
pub mod text;
pub mod tools;

pub use agent::Agent;
pub use context::{KeepLast, NoopContext};
pub use json::{Json, JsonValue, Number, Object};
pub use llm::{OpenAiCompatible, OpenAiConfig};
pub use tools::CodingTools;

use vstd::prelude::*;

verus! {

/// One entry of the conversation.
///
/// Text and tool calls share one assistant turn, and the results of the tool
/// calls of one turn share one entry.
#[derive(Debug, Clone)]
pub enum Message {
    System(String),
    User(String),
    Assistant {
        text: String,
        calls: Vec<ToolCall>,
        /// Provider fields that are echoed back on the next request.
        metadata: Object,
    },
    Tools(Vec<ToolResult>),
}

/// A tool call the model asked for.
///
/// `arguments` is normally a JSON object. If the model sent something that is
/// not valid JSON, the raw text is kept as a JSON string, so the tool can report
/// what actually arrived instead of a misleading "missing argument".
#[derive(Debug)]
pub struct ToolCall {
    pub id: String,
    pub name: String,
    pub arguments: JsonValue,
}

/// What the model is told after a tool ran.
#[derive(Debug, Clone)]
pub struct ToolResult {
    pub id: String,
    pub name: String,
    pub output: String,
}

/// A tool, described the way every OpenAI-compatible model expects to see it.
#[derive(Debug, Clone)]
pub struct ToolDefinition {
    pub name: String,
    pub description: String,
    pub parameters: JsonValue,
}

/// What one model turn produced.
#[derive(Debug, Clone)]
pub struct Response {
    pub text: Option<String>,
    pub tool_calls: Vec<ToolCall>,
    /// Provider fields to echo back with this turn.
    pub metadata: Object,
}

/// Something that happens while the agent works.
///
/// A model only ever emits `Text` and `Thinking`; the agent adds the tool events
/// around its own work. Hosts render these however they like.
#[derive(Debug, Clone)]
pub enum Event {
    /// Answer text, as it is generated.
    Text(String),
    /// The model's reasoning, as it is generated.
    Thinking(String),
    /// A tool is about to run.
    ToolCall { name: String, arguments: JsonValue },
    /// A tool call was dropped because a steering message arrived.
    ToolSkipped { name: String },
    /// A tool finished; `output` is what the model will see.
    ToolResult { name: String, output: String },
}

// ------------------------------------------------------------------- models

pub struct CallView {
    pub id: Seq<char>,
    pub name: Seq<char>,
    pub arguments: Json,
}

pub struct ResultView {
    pub id: Seq<char>,
    pub name: Seq<char>,
    pub output: Seq<char>,
}

pub enum MessageView {
    System(Seq<char>),
    User(Seq<char>),
    Assistant { text: Seq<char>, calls: Seq<CallView>, metadata: Map<Seq<char>, Json> },
    Tools(Seq<ResultView>),
}

pub struct DefinitionView {
    pub name: Seq<char>,
    pub description: Seq<char>,
    pub parameters: Json,
}

pub struct ResponseView {
    pub text: Option<Seq<char>>,
    pub calls: Seq<CallView>,
    pub metadata: Map<Seq<char>, Json>,
}

pub enum EventView {
    Text(Seq<char>),
    Thinking(Seq<char>),
    ToolCall { name: Seq<char>, arguments: Json },
    ToolSkipped { name: Seq<char> },
    ToolResult { name: Seq<char>, output: Seq<char> },
}

impl View for ToolCall {
    type V = CallView;

    open spec fn view(&self) -> CallView {
        CallView { id: self.id@, name: self.name@, arguments: self.arguments@ }
    }
}

impl View for ToolResult {
    type V = ResultView;

    open spec fn view(&self) -> ResultView {
        ResultView { id: self.id@, name: self.name@, output: self.output@ }
    }
}

impl View for Message {
    type V = MessageView;

    open spec fn view(&self) -> MessageView {
        match self {
            Message::System(text) => MessageView::System(text@),
            Message::User(text) => MessageView::User(text@),
            Message::Assistant { text, calls, metadata } => MessageView::Assistant {
                text: text@,
                calls: calls_view(calls@),
                metadata: metadata@,
            },
            Message::Tools(results) => MessageView::Tools(results_view(results@)),
        }
    }
}

impl View for ToolDefinition {
    type V = DefinitionView;

    open spec fn view(&self) -> DefinitionView {
        DefinitionView {
            name: self.name@,
            description: self.description@,
            parameters: self.parameters@,
        }
    }
}

impl View for Response {
    type V = ResponseView;

    open spec fn view(&self) -> ResponseView {
        ResponseView {
            text: text_option(self.text),
            calls: calls_view(self.tool_calls@),
            metadata: self.metadata@,
        }
    }
}

impl View for Event {
    type V = EventView;

    open spec fn view(&self) -> EventView {
        match self {
            Event::Text(text) => EventView::Text(text@),
            Event::Thinking(text) => EventView::Thinking(text@),
            Event::ToolCall { name, arguments } => EventView::ToolCall {
                name: name@,
                arguments: arguments@,
            },
            Event::ToolSkipped { name } => EventView::ToolSkipped { name: name@ },
            Event::ToolResult { name, output } => EventView::ToolResult {
                name: name@,
                output: output@,
            },
        }
    }
}

pub open spec fn calls_view(calls: Seq<ToolCall>) -> Seq<CallView> {
    calls.map_values(|call: ToolCall| call@)
}

pub open spec fn results_view(results: Seq<ToolResult>) -> Seq<ResultView> {
    results.map_values(|result: ToolResult| result@)
}

pub open spec fn messages_view(messages: Seq<Message>) -> Seq<MessageView> {
    messages.map_values(|message: Message| message@)
}

pub open spec fn definitions_view(definitions: Seq<ToolDefinition>) -> Seq<DefinitionView> {
    definitions.map_values(|definition: ToolDefinition| definition@)
}

pub open spec fn events_view(events: Seq<Event>) -> Seq<EventView> {
    events.map_values(|event: Event| event@)
}

pub open spec fn texts_view(texts: Seq<String>) -> Seq<Seq<char>> {
    texts.map_values(|text: String| text@)
}

pub open spec fn text_option(text: Option<String>) -> Option<Seq<char>> {
    match text {
        Some(text) => Some(text@),
        None => None,
    }
}

impl Default for Response {
    fn default() -> (response: Self)
        ensures
            response@ == (ResponseView {
                text: None,
                calls: Seq::empty(),
                metadata: Map::empty(),
            }),
    {
        let response = Response { text: None, tool_calls: Vec::new(), metadata: Object::new() };
        assert(response@.calls == Seq::<CallView>::empty());
        response
    }
}

impl Clone for ToolCall {
    fn clone(&self) -> (copy: Self)
        ensures
            copy@ == self@,
    {
        ToolCall {
            id: self.id.clone(),
            name: self.name.clone(),
            arguments: self.arguments.clone(),
        }
    }
}

// --------------------------------------------------------------------- laws

/// What is said of an entry of the conversation is said of all it holds, as it is.
pub proof fn messages_are_seen_as_they_are(
    text: String,
    calls: Vec<ToolCall>,
    metadata: Object,
    results: Vec<ToolResult>,
)
    ensures
        Message::System(text)@ == MessageView::System(text@),
        Message::User(text)@ == MessageView::User(text@),
        ({
            let seen = Message::Assistant { text, calls, metadata }@;
            &&& seen is Assistant
            &&& seen->text == text@
            &&& seen->metadata == metadata@
            &&& seen->calls.len() == calls@.len()
            &&& forall|i: int|
                0 <= i < calls@.len() ==> {
                    &&& (#[trigger] seen->calls[i]).id == calls@[i].id@
                    &&& seen->calls[i].name == calls@[i].name@
                    &&& seen->calls[i].arguments == calls@[i].arguments@
                }
        }),
        ({
            let seen = Message::Tools(results)@;
            &&& seen is Tools
            &&& seen->Tools_0.len() == results@.len()
            &&& forall|i: int|
                0 <= i < results@.len() ==> {
                    &&& (#[trigger] seen->Tools_0[i]).id == results@[i].id@
                    &&& seen->Tools_0[i].name == results@[i].name@
                    &&& seen->Tools_0[i].output == results@[i].output@
                }
        }),
{
}

/// The same of a conversation, message by message, and of events.
pub proof fn lists_are_seen_one_for_one(
    messages: Seq<Message>,
    events: Seq<Event>,
    definitions: Seq<ToolDefinition>,
    texts: Seq<String>,
)
    ensures
        messages_view(messages).len() == messages.len(),
        forall|i: int|
            0 <= i < messages.len() ==> (#[trigger] messages_view(messages)[i]) == messages[i]@,
        events_view(events).len() == events.len(),
        forall|i: int| 0 <= i < events.len() ==> (#[trigger] events_view(events)[i]) == events[i]@,
        definitions_view(definitions).len() == definitions.len(),
        forall|i: int|
            0 <= i < definitions.len() ==> {
                &&& (#[trigger] definitions_view(definitions)[i]).name == definitions[i].name@
                &&& definitions_view(definitions)[i].description == definitions[i].description@
                &&& definitions_view(definitions)[i].parameters == definitions[i].parameters@
            },
        texts_view(texts).len() == texts.len(),
        forall|i: int| 0 <= i < texts.len() ==> (#[trigger] texts_view(texts)[i]) == texts[i]@,
{
}

/// The same of a model turn and of an event.
pub proof fn turns_and_events_are_seen_as_they_are(
    response: Response,
    text: String,
    arguments: JsonValue,
)
    ensures
        response.text is None ==> response@.text is None,
        response.text matches Some(said) ==> response@.text == Some(said@),
        response@.metadata == response.metadata@,
        response@.calls.len() == response.tool_calls@.len(),
        forall|i: int|
            0 <= i < response.tool_calls@.len() ==> {
                &&& (#[trigger] response@.calls[i]).id == response.tool_calls@[i].id@
                &&& response@.calls[i].name == response.tool_calls@[i].name@
                &&& response@.calls[i].arguments == response.tool_calls@[i].arguments@
            },
        Event::Text(text)@ == EventView::Text(text@),
        Event::Thinking(text)@ == EventView::Thinking(text@),
        (Event::ToolCall { name: text, arguments })@ == (EventView::ToolCall {
            name: text@,
            arguments: arguments@,
        }),
        (Event::ToolSkipped { name: text })@ == (EventView::ToolSkipped { name: text@ }),
        (Event::ToolResult { name: text, output: text })@ == (EventView::ToolResult {
            name: text@,
            output: text@,
        }),
{
}

} // verus!
