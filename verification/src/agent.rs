//! The agent runtime: one loop that a host drives a step at a time, plus the
//! control messages that steer it while it runs.
//!
//! This is mechanism only. It holds no policy about rendering, retries or
//! context management. What has to be waited for — a model turn, a tool — is
//! done by the host: [`Agent::step`] takes what came of it and says what to do
//! next.

use std::collections::VecDeque;

use vstd::prelude::*;

use crate::context::NoopContext;
use crate::json::{Json, Object};
use crate::text::push_decimal;
use crate::{
    CallView, Event, EventView, Message, MessageView, Response, ResponseView, ResultView, ToolCall,
    ToolResult,
};

verus! {

/// Used unless the host sets its own with [`Agent::system_prompt`].
pub const DEFAULT_SYSTEM_PROMPT: &'static str =
    "You are a coding agent working in the current directory.\nUse the available tools to inspect, modify, and validate the project.\nInspect relevant files before editing.\nRun relevant checks after modifications.";

/// How many model turns a task may take unless the host says otherwise.
pub const DEFAULT_MAX_ITERATIONS: usize = 32;

/// What a steering message that arrived mid-turn leaves behind for the tool
/// calls of that turn which never ran.
pub const CANCELLED: &'static str = "cancelled: interrupted by steering message";

/// How many queued messages are handed over at a time.
#[derive(Debug, Clone, Copy, PartialEq, Eq, Structural)]
pub enum QueueMode {
    /// Deliver one message per turn.
    One,
    /// Deliver everything queued, in order, each as its own message.
    All,
}

impl Default for QueueMode {
    fn default() -> (mode: Self)
        ensures
            mode == QueueMode::One,
    {
        QueueMode::One
    }
}

/// What one step did.
#[derive(Debug, Clone, PartialEq, Eq)]
pub enum StepOutcome {
    /// There is more to do: run another step.
    Continue,
    /// Nothing is pending — no tool work, no steering, no follow-up. The model's
    /// final answer is in the payload.
    Idle(String),
}

/// What a host may send to a running agent.
#[derive(Debug, Clone)]
pub enum Control {
    /// Interrupt the current plan at the next safe point.
    Steer(String),
    /// Queue a message for after the current task is answered.
    FollowUp(String),
    /// Stop the run.
    Abort,
}

/// Why a step failed.
#[derive(Debug, Clone, PartialEq, Eq)]
pub enum AgentError {
    /// The host asked for it.
    Aborted,
    /// The task took this many model turns without a final answer.
    StepLimit(usize),
    /// The task ran this many tools and the model asked for one more.
    ToolCallLimit(usize),
    /// The conversation could not be prepared, in the words of the context
    /// manager.
    Context(String),
    /// The model gave no reply, in its own words.
    Model(String),
}

pub enum AgentErrorView {
    Aborted,
    StepLimit(usize),
    ToolCallLimit(usize),
    Context(Seq<char>),
    Model(Seq<char>),
}

impl View for AgentError {
    type V = AgentErrorView;

    open spec fn view(&self) -> AgentErrorView {
        match self {
            AgentError::Aborted => AgentErrorView::Aborted,
            AgentError::StepLimit(max) => AgentErrorView::StepLimit(*max),
            AgentError::ToolCallLimit(max) => AgentErrorView::ToolCallLimit(*max),
            AgentError::Context(error) => AgentErrorView::Context(error@),
            AgentError::Model(error) => AgentErrorView::Model(error@),
        }
    }
}

impl AgentErrorView {
    /// The error in words.
    pub open spec fn text(self) -> Seq<char> {
        match self {
            AgentErrorView::Aborted => "agent aborted"@,
            AgentErrorView::StepLimit(max) => "agent stopped after "@ + crate::text::decimal(
                max as nat,
            ) + " steps without a final answer"@,
            AgentErrorView::ToolCallLimit(max) => {
                "agent stopped after reaching the tool call limit ("@ + crate::text::decimal(
                    max as nat,
                ) + ")"@
            },
            AgentErrorView::Context(error) => error,
            AgentErrorView::Model(error) => error,
        }
    }
}

impl AgentError {
    /// The error in words.
    pub fn message(&self) -> (message: String)
        ensures
            message@ == self@.text(),
    {
        match self {
            AgentError::Aborted => "agent aborted".to_owned(),
            AgentError::StepLimit(max) => {
                let mut message = "agent stopped after ".to_owned();
                push_decimal(&mut message, *max as u64);
                message.append(" steps without a final answer");
                message
            },
            AgentError::ToolCallLimit(max) => {
                let mut message = "agent stopped after reaching the tool call limit (".to_owned();
                push_decimal(&mut message, *max as u64);
                message.append(")");
                message
            },
            AgentError::Context(error) => error.clone(),
            AgentError::Model(error) => error.clone(),
        }
    }
}

/// An agent: what it carries for the host, the conversation, the queued input
/// and the limits.
///
/// The model, the tools and the context manager are the host's: the agent hands
/// them through and never looks inside.
pub struct Agent<M, T, C = NoopContext> {
    pub model: M,
    pub tools: T,
    pub context: C,
    pub messages: Vec<Message>,
    pub system_prompt: String,
    pub steering: VecDeque<String>,
    pub follow_up: VecDeque<String>,
    pub steering_mode: QueueMode,
    pub follow_up_mode: QueueMode,
    pub max_iterations: usize,
    pub max_tool_calls: Option<usize>,
    pub turns: usize,
    pub executed: usize,
    /// Whether the conversation is being prepared for the next model turn.
    pub preparing: bool,
}

/// One assistant turn whose tool calls are being worked off. The next call to
/// run is the first one that has no result yet.
#[derive(Debug)]
pub struct Turn {
    answer: String,
    calls: Vec<ToolCall>,
    metadata: Object,
    results: Vec<ToolResult>,
}

/// What the host hands to a step.
#[derive(Debug)]
pub enum Input {
    /// Begin a step.
    Start,
    /// The host sent a control message.
    Control(Control),
    /// The context manager is done with the conversation, or failed with an error
    /// in words.
    Prepared(Result<(), String>),
    /// The model turn is over: its reply, or its error in words.
    Reply(Result<Response, String>),
    /// The tool of this turn is done: its output, or its error in words.
    Output(Turn, Result<String, String>),
}

/// What a step wants next.
#[derive(Debug)]
pub enum Next {
    /// Keep waiting for whatever is in flight.
    Wait,
    /// Let the context manager prepare the conversation and hand back how it went.
    Prepare,
    /// Ask the model and hand back its reply.
    Ask,
    /// Run the next tool call of this turn and hand back its output.
    Execute(Turn),
    /// The step is over.
    Done(StepOutcome),
    /// The step failed.
    Failed(AgentError),
}

/// What a step did with one input: the events to show, in order, and what is
/// next.
#[derive(Debug)]
pub struct Progress {
    pub events: Vec<Event>,
    pub next: Next,
}

// -------------------------------------------------------------------- model

/// The state of an agent that its decisions depend on.
pub struct Session {
    pub messages: Seq<MessageView>,
    pub system_prompt: Seq<char>,
    pub steering: Seq<Seq<char>>,
    pub follow_up: Seq<Seq<char>>,
    pub steering_mode: QueueMode,
    pub follow_up_mode: QueueMode,
    pub max_iterations: usize,
    pub max_tool_calls: Option<usize>,
    pub turns: nat,
    pub executed: nat,
    pub preparing: bool,
}

pub struct TurnView {
    pub answer: Seq<char>,
    pub calls: Seq<CallView>,
    pub metadata: Map<Seq<char>, Json>,
    pub results: Seq<ResultView>,
}

pub enum ControlView {
    Steer(Seq<char>),
    FollowUp(Seq<char>),
    Abort,
}

pub enum InputView {
    Start,
    Control(ControlView),
    Prepared(Result<(), Seq<char>>),
    Reply(Result<ResponseView, Seq<char>>),
    Output(TurnView, Result<Seq<char>, Seq<char>>),
}

pub enum OutcomeView {
    Continue,
    Idle(Seq<char>),
}

pub enum NextView {
    Wait,
    Prepare,
    Ask,
    Execute(TurnView),
    Done(OutcomeView),
    Failed(AgentErrorView),
}

impl View for Turn {
    type V = TurnView;

    closed spec fn view(&self) -> TurnView {
        TurnView {
            answer: self.answer@,
            calls: crate::calls_view(self.calls@),
            metadata: self.metadata@,
            results: crate::results_view(self.results@),
        }
    }
}

impl View for Control {
    type V = ControlView;

    open spec fn view(&self) -> ControlView {
        match self {
            Control::Steer(text) => ControlView::Steer(text@),
            Control::FollowUp(text) => ControlView::FollowUp(text@),
            Control::Abort => ControlView::Abort,
        }
    }
}

pub open spec fn output_view(output: Result<String, String>) -> Result<Seq<char>, Seq<char>> {
    match output {
        Ok(text) => Ok(text@),
        Err(error) => Err(error@),
    }
}

pub open spec fn prepared_view(outcome: Result<(), String>) -> Result<(), Seq<char>> {
    match outcome {
        Ok(()) => Ok(()),
        Err(error) => Err(error@),
    }
}

pub open spec fn reply_view(reply: Result<Response, String>) -> Result<ResponseView, Seq<char>> {
    match reply {
        Ok(response) => Ok(response@),
        Err(error) => Err(error@),
    }
}

impl View for Input {
    type V = InputView;

    open spec fn view(&self) -> InputView {
        match self {
            Input::Start => InputView::Start,
            Input::Control(control) => InputView::Control(control@),
            Input::Prepared(outcome) => InputView::Prepared(prepared_view(*outcome)),
            Input::Reply(reply) => InputView::Reply(reply_view(*reply)),
            Input::Output(turn, output) => InputView::Output(turn@, output_view(*output)),
        }
    }
}

impl View for StepOutcome {
    type V = OutcomeView;

    open spec fn view(&self) -> OutcomeView {
        match self {
            StepOutcome::Continue => OutcomeView::Continue,
            StepOutcome::Idle(answer) => OutcomeView::Idle(answer@),
        }
    }
}

impl View for Next {
    type V = NextView;

    open spec fn view(&self) -> NextView {
        match self {
            Next::Wait => NextView::Wait,
            Next::Prepare => NextView::Prepare,
            Next::Ask => NextView::Ask,
            Next::Execute(turn) => NextView::Execute(turn@),
            Next::Done(outcome) => NextView::Done(outcome@),
            Next::Failed(error) => NextView::Failed(error@),
        }
    }
}

/// The conversation ends where the model still owes an answer.
pub open spec fn owes_answer(messages: Seq<MessageView>) -> bool {
    messages.len() > 0 && (messages.last() is User || messages.last() is Tools)
}

/// The final answer a conversation ends with; empty if it ends otherwise.
pub open spec fn final_answer(messages: Seq<MessageView>) -> Seq<char> {
    if messages.len() == 0 {
        Seq::empty()
    } else {
        match messages.last() {
            MessageView::Assistant { text, calls, .. } if calls.len() == 0 => text,
            _ => Seq::empty(),
        }
    }
}

/// The part of a queue that is handed over at a time.
pub open spec fn handed_over(queue: Seq<Seq<char>>, mode: QueueMode) -> Seq<Seq<char>> {
    match mode {
        QueueMode::One => if queue.len() == 0 {
            queue
        } else {
            queue.take(1)
        },
        QueueMode::All => queue,
    }
}

/// The part of a queue that stays behind.
pub open spec fn left_behind(queue: Seq<Seq<char>>, mode: QueueMode) -> Seq<Seq<char>> {
    queue.skip(handed_over(queue, mode).len() as int)
}

/// Texts as user messages.
pub open spec fn as_user(texts: Seq<Seq<char>>) -> Seq<MessageView> {
    texts.map_values(|text: Seq<char>| MessageView::User(text))
}

/// What the model reads of a tool: its output, or the error after a mark.
pub open spec fn tool_text(output: Result<Seq<char>, Seq<char>>) -> Seq<char> {
    match output {
        Ok(text) => text,
        Err(error) => "error: "@ + error,
    }
}

/// The result of a call with the given output.
pub open spec fn result_of(call: CallView, output: Seq<char>) -> ResultView {
    ResultView { id: call.id, name: call.name, output }
}

/// The results of calls that never ran.
pub open spec fn dropped(calls: Seq<CallView>) -> Seq<ResultView> {
    calls.map_values(|call: CallView| result_of(call, CANCELLED@))
}

/// The events of calls that never ran.
pub open spec fn skip_events(calls: Seq<CallView>) -> Seq<EventView> {
    calls.map_values(|call: CallView| EventView::ToolSkipped { name: call.name })
}

/// `results` answer the first of `calls`, one each, in order.
pub open spec fn answers(calls: Seq<CallView>, results: Seq<ResultView>) -> bool {
    &&& results.len() <= calls.len()
    &&& forall|i: int|
        0 <= i < results.len() ==> (#[trigger] results[i]).id == calls[i].id && results[i].name
            == calls[i].name
}

impl TurnView {
    /// There is a call to run, and what ran before it has its result.
    pub open spec fn pending(self) -> bool {
        self.results.len() < self.calls.len() && answers(self.calls, self.results)
    }

    /// The call to run: the first one without a result.
    pub open spec fn next_call(self) -> CallView {
        self.calls[self.results.len() as int]
    }

    /// The calls without a result.
    pub open spec fn open_calls(self) -> Seq<CallView> {
        self.calls.skip(self.results.len() as int)
    }

    /// A turn with one more result.
    pub open spec fn with_output(self, output: Seq<char>) -> TurnView {
        TurnView {
            results: self.results.push(result_of(self.calls[self.results.len() as int], output)),
            ..self
        }
    }

    /// A turn whose open calls have been dropped.
    pub open spec fn with_rest_dropped(self) -> TurnView {
        TurnView { results: self.results + dropped(self.open_calls()), ..self }
    }
}

impl Session {
    /// Queued input moves into the conversation: steering first, and follow-ups
    /// only where nothing else is left to do.
    pub open spec fn delivered(self) -> Session {
        if self.steering.len() > 0 {
            Session {
                messages: self.messages + as_user(handed_over(self.steering, self.steering_mode)),
                steering: left_behind(self.steering, self.steering_mode),
                ..self
            }
        } else if !owes_answer(self.messages) && self.follow_up.len() > 0 {
            Session {
                messages: self.messages + as_user(
                    handed_over(self.follow_up, self.follow_up_mode),
                ),
                follow_up: left_behind(self.follow_up, self.follow_up_mode),
                ..self
            }
        } else {
            self
        }
    }

    /// A task begins: the system prompt opens an empty conversation, the budget
    /// is fresh, and the task is the last message.
    pub open spec fn with_task(self, text: Seq<char>) -> Session {
        let opened = if self.messages.len() == 0 && self.system_prompt.len() > 0 {
            self.messages.push(MessageView::System(self.system_prompt))
        } else {
            self.messages
        };
        Session {
            messages: opened.push(MessageView::User(text)),
            turns: 0,
            executed: 0,
            preparing: false,
            ..self
        }
    }

    /// A finished turn enters the conversation: the calls and their results,
    /// side by side.
    pub open spec fn with_turn(self, turn: TurnView) -> Session {
        Session {
            messages: self.messages.push(
                MessageView::Assistant {
                    text: turn.answer,
                    calls: turn.calls,
                    metadata: turn.metadata,
                },
            ).push(MessageView::Tools(turn.results)),
            ..self
        }
    }

    pub open spec fn tool_limit_reached(self) -> bool {
        match self.max_tool_calls {
            Some(max) => self.executed >= max,
            None => false,
        }
    }

    /// Where a control message leads.
    pub open spec fn controlled(self, control: ControlView) -> (Session, NextView) {
        match control {
            ControlView::Steer(text) => (
                Session { steering: self.steering.push(text), ..self },
                NextView::Wait,
            ),
            ControlView::FollowUp(text) => (
                Session { follow_up: self.follow_up.push(text), ..self },
                NextView::Wait,
            ),
            ControlView::Abort => (self, NextView::Failed(AgentErrorView::Aborted)),
        }
    }

    /// Where a step begins.
    pub open spec fn started(self) -> (Session, NextView) {
        let ready = self.delivered();
        if !owes_answer(ready.messages) {
            (ready, NextView::Done(OutcomeView::Idle(final_answer(ready.messages))))
        } else if ready.turns >= ready.max_iterations {
            (ready, NextView::Failed(AgentErrorView::StepLimit(ready.max_iterations)))
        } else {
            (Session { turns: ready.turns + 1, preparing: true, ..ready }, NextView::Prepare)
        }
    }

    /// Where a prepared conversation leads: to the model, or to the end of the
    /// step if it could not be prepared.
    pub open spec fn prepared(self, outcome: Result<(), Seq<char>>) -> (Session, NextView) {
        let after = Session { preparing: false, ..self };
        match outcome {
            Ok(()) => (after, NextView::Ask),
            Err(error) => (after, NextView::Failed(AgentErrorView::Context(error))),
        }
    }

    /// Where a turn goes on: it is complete, or a steering message drops what is
    /// left of it, or the next call runs unless the limit forbids it.
    pub open spec fn advanced(self, turn: TurnView) -> (Session, Seq<EventView>, NextView) {
        if turn.open_calls().len() == 0 {
            (self.with_turn(turn), Seq::empty(), NextView::Done(OutcomeView::Continue))
        } else if self.steering.len() > 0 {
            (
                self.with_turn(turn.with_rest_dropped()),
                skip_events(turn.open_calls()),
                NextView::Done(OutcomeView::Continue),
            )
        } else if self.tool_limit_reached() {
            (
                self,
                Seq::empty(),
                NextView::Failed(AgentErrorView::ToolCallLimit(self.max_tool_calls->0)),
            )
        } else {
            (
                Session { executed: self.executed + 1, ..self },
                seq![
                    EventView::ToolCall {
                        name: turn.open_calls()[0].name,
                        arguments: turn.open_calls()[0].arguments,
                    },
                ],
                NextView::Execute(turn),
            )
        }
    }

    /// Where a model turn leads: to the answer, or to the tools it asked for.
    pub open spec fn replied(self, response: ResponseView) -> (Session, Seq<EventView>, NextView) {
        let answer = match response.text {
            Some(text) => text,
            None => Seq::empty(),
        };
        if response.calls.len() == 0 {
            let answered = Session {
                messages: self.messages.push(
                    MessageView::Assistant {
                        text: answer,
                        calls: Seq::empty(),
                        metadata: response.metadata,
                    },
                ),
                ..self
            };
            let outcome = if self.steering.len() > 0 || self.follow_up.len() > 0 {
                OutcomeView::Continue
            } else {
                OutcomeView::Idle(answer)
            };
            (answered, Seq::empty(), NextView::Done(outcome))
        } else {
            self.advanced(
                TurnView {
                    answer,
                    calls: response.calls,
                    metadata: response.metadata,
                    results: Seq::empty(),
                },
            )
        }
    }

    /// Where the output of a tool leads.
    pub open spec fn completed(
        self,
        turn: TurnView,
        output: Result<Seq<char>, Seq<char>>,
    ) -> (Session, Seq<EventView>, NextView) {
        let name = turn.open_calls()[0].name;
        let text = tool_text(output);
        let (after, events, next) = self.advanced(turn.with_output(text));
        (after, seq![EventView::ToolResult { name, output: text }] + events, next)
    }

    /// Where any input leads: the new state, the events and what is next.
    pub open spec fn stepped(self, input: InputView) -> (Session, Seq<EventView>, NextView) {
        match input {
            InputView::Start => {
                let (after, next) = self.started();
                (after, Seq::empty(), next)
            },
            InputView::Control(control) => {
                let (after, next) = self.controlled(control);
                (after, Seq::empty(), next)
            },
            InputView::Prepared(outcome) => {
                let (after, next) = self.prepared(outcome);
                (after, Seq::empty(), next)
            },
            InputView::Reply(Ok(response)) => self.replied(response),
            InputView::Reply(Err(error)) => (
                self,
                Seq::empty(),
                NextView::Failed(AgentErrorView::Model(error)),
            ),
            InputView::Output(turn, output) => self.completed(turn, output),
        }
    }
}

// --------------------------------------------------------------- the queues

/// Put one control message where it belongs. An error means the run was
/// aborted.
pub fn route(
    control: Option<Control>,
    steering: &mut VecDeque<String>,
    follow_up: &mut VecDeque<String>,
) -> (outcome: Result<(), AgentError>)
    ensures
        match control {
            Some(Control::Steer(text)) => {
                &&& outcome is Ok
                &&& final(steering)@ == old(steering)@.push(text)
                &&& final(follow_up)@ == old(follow_up)@
            },
            Some(Control::FollowUp(text)) => {
                &&& outcome is Ok
                &&& final(steering)@ == old(steering)@
                &&& final(follow_up)@ == old(follow_up)@.push(text)
            },
            Some(Control::Abort) => {
                &&& outcome == Err::<(), AgentError>(AgentError::Aborted)
                &&& final(steering)@ == old(steering)@
                &&& final(follow_up)@ == old(follow_up)@
            },
            None => {
                &&& outcome is Ok
                &&& final(steering)@ == old(steering)@
                &&& final(follow_up)@ == old(follow_up)@
            },
        },
{
    match control {
        Some(Control::Steer(text)) => steering.push_back(text),
        Some(Control::FollowUp(text)) => follow_up.push_back(text),
        Some(Control::Abort) => return Err(AgentError::Aborted),
        None => {},
    }
    Ok(())
}

/// Hand over the front of a queue: one message, or everything.
pub fn take(queue: &mut VecDeque<String>, mode: QueueMode) -> (texts: Vec<String>)
    ensures
        crate::texts_view(texts@) == handed_over(crate::texts_view(old(queue)@), mode),
        crate::texts_view(final(queue)@) == left_behind(crate::texts_view(old(queue)@), mode),
{
    let mut texts: Vec<String> = Vec::new();
    match mode {
        QueueMode::One => {
            match queue.pop_front() {
                Some(text) => texts.push(text),
                None => {},
            }
        },
        QueueMode::All => {
            while queue.len() > 0
                invariant
                    texts@ + queue@ == old(queue)@,
                decreases queue.len(),
            {
                match queue.pop_front() {
                    Some(text) => {
                        texts.push(text);
                        assert(texts@ + queue@ == old(queue)@);
                    },
                    None => {},
                }
            }
            assert(texts@ == old(queue)@);
        },
    }
    assert(crate::texts_view(texts@) == handed_over(crate::texts_view(old(queue)@), mode));
    assert(crate::texts_view(queue@) == left_behind(crate::texts_view(old(queue)@), mode));
    texts
}

// ---------------------------------------------------------------- the turns

impl Turn {
    #[verifier::type_invariant]
    spec fn is_pending(&self) -> bool {
        self@.pending()
    }

    /// The call to run: the first one without a result.
    pub fn call(&self) -> (call: &ToolCall)
        ensures
            self@.pending(),
            call@ == self@.calls[self@.results.len() as int],
            call@ == self@.next_call(),
    {
        proof {
            use_type_invariant(self);
        }
        &self.calls[self.results.len()]
    }
}

impl<M, T, C> Agent<M, T, C> {
    /// The state that the agent's decisions depend on.
    pub open spec fn state(self) -> Session {
        Session {
            messages: crate::messages_view(self.messages@),
            system_prompt: self.system_prompt@,
            steering: crate::texts_view(self.steering@),
            follow_up: crate::texts_view(self.follow_up@),
            steering_mode: self.steering_mode,
            follow_up_mode: self.follow_up_mode,
            max_iterations: self.max_iterations,
            max_tool_calls: self.max_tool_calls,
            turns: self.turns as nat,
            executed: self.executed as nat,
            preparing: self.preparing,
        }
    }

    /// The host's own parts are the same.
    pub open spec fn same_host(self, other: Self) -> bool {
        &&& self.model == other.model
        &&& self.tools == other.tools
        &&& self.context == other.context
    }

    /// The conversation ends where the model still owes an answer.
    pub fn needs_turn(&self) -> (needed: bool)
        ensures
            needed == owes_answer(self.state().messages),
    {
        if self.messages.len() == 0 {
            return false;
        }
        match &self.messages[self.messages.len() - 1] {
            Message::User(_) => true,
            Message::Tools(_) => true,
            _ => false,
        }
    }

    /// The answer that the conversation ends with.
    pub fn last_answer(&self) -> (answer: String)
        ensures
            answer@ == final_answer(self.state().messages),
    {
        if self.messages.len() == 0 {
            return String::new();
        }
        match &self.messages[self.messages.len() - 1] {
            Message::Assistant { text, calls, .. } => {
                if calls.len() == 0 {
                    text.clone()
                } else {
                    String::new()
                }
            },
            _ => String::new(),
        }
    }

    /// Add user messages to the conversation.
    fn push_texts(&mut self, texts: Vec<String>)
        ensures
            final(self).state() == (Session {
                messages: old(self).state().messages + as_user(crate::texts_view(texts@)),
                ..old(self).state()
            }),
            final(self).same_host(*old(self)),
    {
        let ghost before = self.state();
        let mut i: usize = 0;
        assert(before.messages + as_user(crate::texts_view(texts@.take(0))) == before.messages);
        while i < texts.len()
            invariant
                i <= texts.len(),
                self.state() == (Session {
                    messages: before.messages + as_user(crate::texts_view(texts@.take(i as int))),
                    ..before
                }),
                self.same_host(*old(self)),
            decreases texts.len() - i,
        {
            let ghost so_far = self.state().messages;
            self.messages.push(Message::User(texts[i].clone()));
            i = i + 1;
            assert(self.state().messages == so_far.push(MessageView::User(texts@[i - 1]@)));
            assert(self.state().messages == before.messages + as_user(
                crate::texts_view(texts@.take(i as int)),
            ));
        }
        assert(texts@.take(texts@.len() as int) == texts@);
    }

    /// Hand queued input to the conversation, steering before follow-ups.
    pub fn deliver_queues(&mut self)
        ensures
            final(self).state() == old(self).state().delivered(),
            final(self).same_host(*old(self)),
    {
        if self.steering.len() > 0 {
            let texts = take(&mut self.steering, self.steering_mode);
            self.push_texts(texts);
        } else if !self.needs_turn() && self.follow_up.len() > 0 {
            let texts = take(&mut self.follow_up, self.follow_up_mode);
            self.push_texts(texts);
        }
    }
}

impl<M, T, C> Agent<M, T, C> {
    /// Add a finished turn to the conversation.
    fn push_turn(
        &mut self,
        answer: String,
        calls: Vec<ToolCall>,
        metadata: Object,
        results: Vec<ToolResult>,
    )
        ensures
            final(self).state() == old(self).state().with_turn(
                TurnView {
                    answer: answer@,
                    calls: crate::calls_view(calls@),
                    metadata: metadata@,
                    results: crate::results_view(results@),
                },
            ),
            final(self).same_host(*old(self)),
    {
        let call_message = Message::Assistant { text: answer, calls, metadata };
        let result_message = Message::Tools(results);
        self.messages.push(call_message);
        self.messages.push(result_message);
        assert(self.state().messages == old(self).state().messages.push(call_message@).push(
            result_message@,
        ));
    }

    /// Go on with a turn: see [`Session::advanced`].
    fn advance(
        &mut self,
        answer: String,
        calls: Vec<ToolCall>,
        metadata: Object,
        results: Vec<ToolResult>,
    ) -> (progress: Progress)
        requires
            answers(crate::calls_view(calls@), crate::results_view(results@)),
            old(self).executed < usize::MAX || !(old(self).state().advanced(
                TurnView {
                    answer: answer@,
                    calls: crate::calls_view(calls@),
                    metadata: metadata@,
                    results: crate::results_view(results@),
                },
            ).2 is Execute),
        ensures
            ({
                let turn = TurnView {
                    answer: answer@,
                    calls: crate::calls_view(calls@),
                    metadata: metadata@,
                    results: crate::results_view(results@),
                };
                let (after, events, next) = old(self).state().advanced(turn);
                &&& final(self).state() == after
                &&& crate::events_view(progress.events@) == events
                &&& progress.next@ == next
                &&& final(self).same_host(*old(self))
            }),
    {
        let mut events: Vec<Event> = Vec::new();
        let mut results = results;
        let ghost turn = TurnView {
            answer: answer@,
            calls: crate::calls_view(calls@),
            metadata: metadata@,
            results: crate::results_view(results@),
        };
        let ghost first = results@.len() as int;
        assert(crate::events_view(events@) == Seq::<EventView>::empty());
        if results.len() == calls.len() {
            self.push_turn(answer, calls, metadata, results);
            return Progress { events, next: Next::Done(StepOutcome::Continue) };
        }
        if self.steering.len() > 0 {
            let mut i: usize = results.len();
            while i < calls.len()
                invariant
                    turn.calls == crate::calls_view(calls@),
                    first == turn.results.len(),
                    0 <= first <= i <= calls.len(),
                    events@.len() == i - first,
                    results@.len() == i,
                    crate::events_view(events@) == skip_events(turn.calls.subrange(first, i as int)),
                    crate::results_view(results@) == turn.results + dropped(
                        turn.calls.subrange(first, i as int),
                    ),
                decreases calls.len() - i,
            {
                let ghost events_before = crate::events_view(events@);
                let ghost results_before = crate::results_view(results@);
                let event = Event::ToolSkipped { name: calls[i].name.clone() };
                let result = ToolResult {
                    id: calls[i].id.clone(),
                    name: calls[i].name.clone(),
                    output: CANCELLED.to_owned(),
                };
                events.push(event);
                results.push(result);
                i = i + 1;
                proof {
                    assert(crate::events_view(events@) == events_before.push(event@));
                    assert(crate::results_view(results@) == results_before.push(result@));
                    assert(turn.calls.subrange(first, i as int) == turn.calls.subrange(
                        first,
                        i - 1,
                    ).push(turn.calls[i - 1]));
                    assert(crate::events_view(events@) == skip_events(
                        turn.calls.subrange(first, i as int),
                    ));
                    assert(crate::results_view(results@) == turn.results + dropped(
                        turn.calls.subrange(first, i as int),
                    ));
                }
            }
            assert(turn.calls.subrange(first, i as int) == turn.open_calls());
            self.push_turn(answer, calls, metadata, results);
            return Progress { events, next: Next::Done(StepOutcome::Continue) };
        }
        match self.max_tool_calls {
            Some(max) => {
                if self.executed >= max {
                    return Progress { events, next: Next::Failed(AgentError::ToolCallLimit(max)) };
                }
            },
            None => {},
        }
        self.executed = self.executed + 1;
        let call = &calls[results.len()];
        let event = Event::ToolCall { name: call.name.clone(), arguments: call.arguments.clone() };
        events.push(event);
        assert(turn.open_calls()[0] == calls@[first]@);
        assert(crate::events_view(events@) == seq![event@]);
        Progress { events, next: Next::Execute(Turn { answer, calls, metadata, results }) }
    }

    /// Begin a step: deliver queued input, then turn to the model if it owes an
    /// answer.
    fn start(&mut self) -> (next: Next)
        ensures
            (final(self).state(), next@) == old(self).state().started(),
            final(self).same_host(*old(self)),
    {
        self.deliver_queues();
        if !self.needs_turn() {
            return Next::Done(StepOutcome::Idle(self.last_answer()));
        }
        if self.turns >= self.max_iterations {
            return Next::Failed(AgentError::StepLimit(self.max_iterations));
        }
        self.turns = self.turns + 1;
        self.preparing = true;
        Next::Prepare
    }

    /// Take in a control message.
    pub fn receive(&mut self, control: Control) -> (outcome: Result<(), AgentError>)
        ensures
            ({
                let (after, next) = old(self).state().controlled(control@);
                &&& final(self).state() == after
                &&& next == match outcome {
                    Ok(()) => NextView::Wait,
                    Err(error) => NextView::Failed(error@),
                }
            }),
            final(self).same_host(*old(self)),
    {
        let outcome = route(Some(control), &mut self.steering, &mut self.follow_up);
        proof {
            let (after, next) = old(self).state().controlled(control@);
            assert(self.state().steering == after.steering);
            assert(self.state().follow_up == after.follow_up);
        }
        outcome
    }

    /// Take in a model turn.
    fn reply(&mut self, response: Response) -> (progress: Progress)
        requires
            old(self).executed < usize::MAX || !(old(self).state().replied(
                response@,
            ).2 is Execute),
        ensures
            (
                final(self).state(),
                crate::events_view(progress.events@),
                progress.next@,
            ) == old(self).state().replied(response@),
            final(self).same_host(*old(self)),
    {
        let answer = match response.text {
            Some(text) => text,
            None => String::new(),
        };
        let calls = response.tool_calls;
        let metadata = response.metadata;
        if calls.len() == 0 {
            let message = Message::Assistant {
                text: answer.clone(),
                calls: Vec::new(),
                metadata,
            };
            self.messages.push(message);
            let events: Vec<Event> = Vec::new();
            proof {
                let (after, told, next) = old(self).state().replied(response@);
                assert(crate::calls_view(Seq::empty()) == Seq::<CallView>::empty());
                assert(self.state().messages == old(self).state().messages.push(message@));
                assert(crate::events_view(events@) == told);
            }
            if self.steering.len() > 0 || self.follow_up.len() > 0 {
                return Progress { events, next: Next::Done(StepOutcome::Continue) };
            }
            return Progress { events, next: Next::Done(StepOutcome::Idle(answer)) };
        }
        let results: Vec<ToolResult> = Vec::new();
        assert(crate::results_view(results@) == Seq::<ResultView>::empty());
        self.advance(answer, calls, metadata, results)
    }

    /// Take in the output of a tool.
    fn complete(&mut self, turn: Turn, output: Result<String, String>) -> (progress: Progress)
        requires
            old(self).executed < usize::MAX || !(old(self).state().completed(
                turn@,
                output_view(output),
            ).2 is Execute),
        ensures
            (
                final(self).state(),
                crate::events_view(progress.events@),
                progress.next@,
            ) == old(self).state().completed(turn@, output_view(output)),
            final(self).same_host(*old(self)),
    {
        proof {
            use_type_invariant(&turn);
        }
        let ghost before = turn@;
        let text = match output {
            Ok(text) => text,
            Err(error) => "error: ".to_owned().concat(error.as_str()),
        };
        let answer = turn.answer;
        let calls = turn.calls;
        let metadata = turn.metadata;
        let mut results = turn.results;
        let id = calls[results.len()].id.clone();
        let name = calls[results.len()].name.clone();
        let event = Event::ToolResult { name: name.clone(), output: text.clone() };
        let result = ToolResult { id, name, output: text };
        results.push(result);
        proof {
            assert(crate::results_view(results@) == before.results.push(result@));
            assert(before.open_calls()[0] == before.calls[before.results.len() as int]);
        }
        let progress = self.advance(answer, calls, metadata, results);
        let mut events: Vec<Event> = Vec::new();
        events.push(event);
        let mut later = progress.events;
        let ghost told = later@;
        events.append(&mut later);
        assert(crate::events_view(events@) == seq![event@] + crate::events_view(told));
        Progress { events, next: progress.next }
    }

    /// One decision of the loop: take in what happened and say what is next.
    ///
    /// A step begins with [`Input::Start`] and goes on until its progress is
    /// [`Next::Done`] or [`Next::Failed`]. A conversation is prepared only where
    /// that was asked for, and a tool runs only where it can still be counted.
    pub fn step(&mut self, input: Input) -> (progress: Progress)
        requires
            input is Prepared ==> old(self).preparing,
            old(self).executed < usize::MAX || !(old(self).state().stepped(input@).2 is Execute),
        ensures
            (
                final(self).state(),
                crate::events_view(progress.events@),
                progress.next@,
            ) == old(self).state().stepped(input@),
            final(self).same_host(*old(self)),
    {
        match input {
            Input::Start => {
                let next = self.start();
                let events: Vec<Event> = Vec::new();
                assert(crate::events_view(events@) == Seq::<EventView>::empty());
                Progress { events, next }
            },
            Input::Control(control) => {
                let next = match self.receive(control) {
                    Ok(()) => Next::Wait,
                    Err(error) => Next::Failed(error),
                };
                let events: Vec<Event> = Vec::new();
                assert(crate::events_view(events@) == Seq::<EventView>::empty());
                Progress { events, next }
            },
            Input::Prepared(outcome) => {
                self.preparing = false;
                let next = match outcome {
                    Ok(()) => Next::Ask,
                    Err(error) => Next::Failed(AgentError::Context(error)),
                };
                let events: Vec<Event> = Vec::new();
                assert(crate::events_view(events@) == Seq::<EventView>::empty());
                Progress { events, next }
            },
            Input::Reply(Ok(response)) => self.reply(response),
            Input::Reply(Err(error)) => {
                let events: Vec<Event> = Vec::new();
                assert(crate::events_view(events@) == Seq::<EventView>::empty());
                Progress { events, next: Next::Failed(AgentError::Model(error)) }
            },
            Input::Output(turn, output) => self.complete(turn, output),
        }
    }
}

// ------------------------------------------------------- making and changing

impl<M, T> Agent<M, T, NoopContext> {
    /// A plain agent: no context management, default prompt and limits.
    pub fn new(model: M, tools: T) -> (agent: Self)
        ensures
            agent.model == model,
            agent.tools == tools,
            agent.state() == Session::fresh(),
    {
        Self::with_context(model, tools, NoopContext)
    }
}

impl Session {
    /// An empty conversation with the default prompt and limits.
    pub open spec fn fresh() -> Session {
        Session {
            messages: Seq::empty(),
            system_prompt: DEFAULT_SYSTEM_PROMPT@,
            steering: Seq::empty(),
            follow_up: Seq::empty(),
            steering_mode: QueueMode::One,
            follow_up_mode: QueueMode::One,
            max_iterations: DEFAULT_MAX_ITERATIONS,
            max_tool_calls: None,
            turns: 0,
            executed: 0,
            preparing: false,
        }
    }

    /// The same settings with the conversation and the queued input forgotten.
    pub open spec fn cleared(self) -> Session {
        Session {
            messages: Seq::empty(),
            steering: Seq::empty(),
            follow_up: Seq::empty(),
            turns: 0,
            executed: 0,
            preparing: false,
            ..self
        }
    }
}

impl<M, T, C> Agent<M, T, C> {
    /// An agent with a context manager, and the default prompt and limits.
    pub fn with_context(model: M, tools: T, context: C) -> (agent: Self)
        ensures
            agent.model == model,
            agent.tools == tools,
            agent.context == context,
            agent.state() == Session::fresh(),
    {
        let agent = Agent {
            model,
            tools,
            context,
            messages: Vec::new(),
            system_prompt: DEFAULT_SYSTEM_PROMPT.to_owned(),
            steering: VecDeque::new(),
            follow_up: VecDeque::new(),
            steering_mode: QueueMode::One,
            follow_up_mode: QueueMode::One,
            max_iterations: DEFAULT_MAX_ITERATIONS,
            max_tool_calls: None,
            turns: 0,
            executed: 0,
            preparing: false,
        };
        assert(agent.state().messages == Session::fresh().messages);
        assert(agent.state().steering == Session::fresh().steering);
        assert(agent.state().follow_up == Session::fresh().follow_up);
        agent
    }

    /// Replace the context manager. Everything else, conversation included, is
    /// carried over.
    pub fn context<D>(self, context: D) -> (agent: Agent<M, T, D>)
        ensures
            agent.model == self.model,
            agent.tools == self.tools,
            agent.context == context,
            agent.state() == self.state(),
    {
        Agent {
            model: self.model,
            tools: self.tools,
            context,
            messages: self.messages,
            system_prompt: self.system_prompt,
            steering: self.steering,
            follow_up: self.follow_up,
            steering_mode: self.steering_mode,
            follow_up_mode: self.follow_up_mode,
            max_iterations: self.max_iterations,
            max_tool_calls: self.max_tool_calls,
            turns: self.turns,
            executed: self.executed,
            preparing: self.preparing,
        }
    }

    /// Replace the system prompt. Set it to `""` to send no system message.
    pub fn system_prompt(self, prompt: &str) -> (agent: Self)
        ensures
            agent.state() == (Session { system_prompt: prompt@, ..self.state() }),
            agent.same_host(self),
    {
        let mut agent = self;
        agent.system_prompt = prompt.to_owned();
        agent
    }

    /// Give up after this many model turns per task.
    pub fn max_iterations(self, max_iterations: usize) -> (agent: Self)
        ensures
            agent.state() == (Session { max_iterations, ..self.state() }),
            agent.same_host(self),
    {
        let mut agent = self;
        agent.max_iterations = max_iterations;
        agent
    }

    /// Give up after this many tool calls per task. Only calls that actually
    /// run count, which is what makes this a resource limit.
    pub fn max_tool_calls(self, max_tool_calls: usize) -> (agent: Self)
        ensures
            agent.state() == (Session { max_tool_calls: Some(max_tool_calls), ..self.state() }),
            agent.same_host(self),
    {
        let mut agent = self;
        agent.max_tool_calls = Some(max_tool_calls);
        agent
    }

    /// How many steering messages are delivered before the next model call.
    pub fn steering_mode(self, mode: QueueMode) -> (agent: Self)
        ensures
            agent.state() == (Session { steering_mode: mode, ..self.state() }),
            agent.same_host(self),
    {
        let mut agent = self;
        agent.steering_mode = mode;
        agent
    }

    /// How many follow-ups are delivered once the current task is answered.
    pub fn follow_up_mode(self, mode: QueueMode) -> (agent: Self)
        ensures
            agent.state() == (Session { follow_up_mode: mode, ..self.state() }),
            agent.same_host(self),
    {
        let mut agent = self;
        agent.follow_up_mode = mode;
        agent
    }

    /// The conversation so far, so a host can save, restore, trim or inspect it.
    pub fn messages(&self) -> (messages: &[Message])
        ensures
            messages@ == self.messages@,
    {
        self.messages.as_slice()
    }

    /// The conversation, for a host that rewrites it.
    pub fn messages_mut(&mut self) -> (messages: &mut Vec<Message>)
        ensures
            messages@ == old(self).messages@,
            final(self).state() == (Session {
                messages: crate::messages_view(final(messages)@),
                ..old(self).state()
            }),
            final(self).same_host(*old(self)),
    {
        &mut self.messages
    }

    /// Forget the conversation and any queued input.
    pub fn clear(&mut self)
        ensures
            final(self).state() == old(self).state().cleared(),
            final(self).same_host(*old(self)),
    {
        self.messages.clear();
        self.steering.clear();
        self.follow_up.clear();
        self.turns = 0;
        self.executed = 0;
        self.preparing = false;
        assert(self.state().messages == old(self).state().cleared().messages);
        assert(self.state().steering == old(self).state().cleared().steering);
        assert(self.state().follow_up == old(self).state().cleared().follow_up);
    }

    /// Start a task: open the conversation with the system prompt if it is
    /// empty, reset the limits, and add the user message. Queued steering stays
    /// queued and is delivered with the next step.
    pub fn push_user(&mut self, text: &str)
        ensures
            final(self).state() == old(self).state().with_task(text@),
            final(self).same_host(*old(self)),
    {
        if self.messages.len() == 0 && !self.system_prompt.as_str().is_empty() {
            let message = Message::System(self.system_prompt.clone());
            self.messages.push(message);
            assert(self.state().messages == old(self).state().messages.push(message@));
        }
        let ghost opened = self.state().messages;
        self.turns = 0;
        self.executed = 0;
        self.preparing = false;
        let message = Message::User(text.to_owned());
        self.messages.push(message);
        assert(self.state().messages == opened.push(message@));
    }
}

} // verus!
