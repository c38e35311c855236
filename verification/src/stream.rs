//! One streamed model turn: its fragments, and the response they add up to.

use vstd::prelude::*;

use crate::json::{Json, JsonValue, Object};
use crate::text::is_blank;
use crate::{CallView, Event, EventView, Response, ResponseView, ToolCall};

verus! {

/// One event of a model's stream.
#[derive(Debug)]
pub struct Chunk {
    pub choices: Vec<Choice>,
}

#[derive(Debug)]
pub struct Choice {
    pub delta: ChunkDelta,
}

#[derive(Debug)]
pub struct ChunkDelta {
    pub content: Option<String>,
    /// Reasoning models stream their thinking next to the answer.
    pub reasoning: Option<String>,
    /// Fields a provider expects echoed back on the next request.
    pub reasoning_content: Option<String>,
    pub reasoning_details: Option<JsonValue>,
    pub tool_calls: Option<Vec<ToolCallDelta>>,
}

#[derive(Debug)]
pub struct ToolCallDelta {
    pub index: usize,
    pub id: Option<String>,
    pub function: Option<FunctionDelta>,
}

#[derive(Debug)]
pub struct FunctionDelta {
    pub name: Option<String>,
    pub arguments: Option<String>,
}

/// A tool call under construction: its arguments arrive in fragments.
#[derive(Debug)]
pub struct CallBuilder {
    pub id: String,
    pub name: String,
    pub arguments: String,
}

/// The state of one streamed turn.
#[derive(Debug)]
pub struct Stream {
    pub text: String,
    pub calls: Vec<CallBuilder>,
    /// Fields to echo back, collected from the stream.
    pub reasoning_content: String,
    pub reasoning_details: Option<JsonValue>,
}

// ------------------------------------------------------------------- models

pub struct BuilderView {
    pub id: Seq<char>,
    pub name: Seq<char>,
    pub arguments: Seq<char>,
}

pub struct StreamView {
    pub text: Seq<char>,
    pub calls: Seq<BuilderView>,
    pub reasoning_content: Seq<char>,
    pub reasoning_details: Option<Json>,
}

pub struct FunctionView {
    pub name: Option<Seq<char>>,
    pub arguments: Option<Seq<char>>,
}

pub struct CallDeltaView {
    pub index: nat,
    pub id: Option<Seq<char>>,
    pub function: Option<FunctionView>,
}

pub struct DeltaView {
    pub content: Option<Seq<char>>,
    pub reasoning: Option<Seq<char>>,
    pub reasoning_content: Option<Seq<char>>,
    pub reasoning_details: Option<Json>,
    pub tool_calls: Seq<CallDeltaView>,
}

pub open spec fn json_option(value: Option<JsonValue>) -> Option<Json> {
    match value {
        Some(value) => Some(value@),
        None => None,
    }
}

impl View for CallBuilder {
    type V = BuilderView;

    open spec fn view(&self) -> BuilderView {
        BuilderView { id: self.id@, name: self.name@, arguments: self.arguments@ }
    }
}

impl View for Stream {
    type V = StreamView;

    open spec fn view(&self) -> StreamView {
        StreamView {
            text: self.text@,
            calls: builders_view(self.calls@),
            reasoning_content: self.reasoning_content@,
            reasoning_details: json_option(self.reasoning_details),
        }
    }
}

impl View for ToolCallDelta {
    type V = CallDeltaView;

    open spec fn view(&self) -> CallDeltaView {
        CallDeltaView {
            index: self.index as nat,
            id: crate::text_option(self.id),
            function: match self.function {
                Some(function) => Some(
                    FunctionView {
                        name: crate::text_option(function.name),
                        arguments: crate::text_option(function.arguments),
                    },
                ),
                None => None,
            },
        }
    }
}

impl View for Choice {
    type V = DeltaView;

    open spec fn view(&self) -> DeltaView {
        DeltaView {
            content: crate::text_option(self.delta.content),
            reasoning: crate::text_option(self.delta.reasoning),
            reasoning_content: crate::text_option(self.delta.reasoning_content),
            reasoning_details: json_option(self.delta.reasoning_details),
            tool_calls: match self.delta.tool_calls {
                Some(calls) => call_deltas_view(calls@),
                None => Seq::empty(),
            },
        }
    }
}

pub open spec fn builders_view(builders: Seq<CallBuilder>) -> Seq<BuilderView> {
    builders.map_values(|builder: CallBuilder| builder@)
}

pub open spec fn call_deltas_view(deltas: Seq<ToolCallDelta>) -> Seq<CallDeltaView> {
    deltas.map_values(|delta: ToolCallDelta| delta@)
}

pub open spec fn choices_view(choices: Seq<Choice>) -> Seq<DeltaView> {
    choices.map_values(|choice: Choice| choice@)
}

impl BuilderView {
    /// Nothing has arrived yet.
    pub open spec fn empty() -> BuilderView {
        BuilderView { id: Seq::empty(), name: Seq::empty(), arguments: Seq::empty() }
    }

    /// A fragment replaces the id and the name, and adds to the arguments.
    pub open spec fn with(self, delta: CallDeltaView) -> BuilderView {
        BuilderView {
            id: match delta.id {
                Some(id) => id,
                None => self.id,
            },
            name: match delta.function {
                Some(FunctionView { name: Some(name), .. }) => name,
                _ => self.name,
            },
            arguments: match delta.function {
                Some(FunctionView { arguments: Some(arguments), .. }) => self.arguments + arguments,
                _ => self.arguments,
            },
        }
    }

    /// The finished call.
    pub open spec fn finished(self) -> CallView {
        CallView {
            id: self.id,
            name: self.name,
            arguments: arguments_document(
                self.arguments,
                crate::json::json_parse(self.arguments),
            ),
        }
    }
}

/// The arguments that a text means: none if it is blank, the document it holds,
/// or the text itself, verbatim, if it holds none.
pub open spec fn arguments_document(text: Seq<char>, parsed: Option<Json>) -> Json {
    if crate::text::blank(text) {
        Json::Object(Map::empty())
    } else {
        match parsed {
            Some(document) => document,
            None => Json::Text(text),
        }
    }
}

/// Calls under construction, with one at every place up to `index`.
pub open spec fn padded(calls: Seq<BuilderView>, index: nat) -> Seq<BuilderView> {
    if calls.len() > index {
        calls
    } else {
        calls + Seq::new((index + 1 - calls.len()) as nat, |i: int| BuilderView::empty())
    }
}

/// Calls under construction after a fragment of one of them.
pub open spec fn with_fragment(calls: Seq<BuilderView>, delta: CallDeltaView) -> Seq<BuilderView> {
    let room = padded(calls, delta.index);
    room.update(delta.index as int, room[delta.index as int].with(delta))
}

/// Calls under construction after fragments, in order.
pub open spec fn with_fragments(
    calls: Seq<BuilderView>,
    deltas: Seq<CallDeltaView>,
) -> Seq<BuilderView>
    decreases deltas.len(),
{
    if deltas.len() == 0 {
        calls
    } else {
        with_fragment(with_fragments(calls, deltas.drop_last()), deltas.last())
    }
}

/// Text that is there and not empty.
pub open spec fn some_text(text: Option<Seq<char>>) -> Option<Seq<char>> {
    match text {
        Some(text) if text.len() > 0 => Some(text),
        _ => None,
    }
}

/// What there is of a text.
pub open spec fn text_or_empty(text: Option<Seq<char>>) -> Seq<char> {
    match text {
        Some(text) => text,
        None => Seq::empty(),
    }
}

impl StreamView {
    /// Nothing has arrived yet.
    pub open spec fn empty() -> StreamView {
        StreamView {
            text: Seq::empty(),
            calls: Seq::empty(),
            reasoning_content: Seq::empty(),
            reasoning_details: None,
        }
    }

    /// The turn after one more fragment.
    pub open spec fn with(self, delta: DeltaView) -> StreamView {
        StreamView {
            text: self.text + text_or_empty(delta.content),
            calls: with_fragments(self.calls, delta.tool_calls),
            reasoning_content: self.reasoning_content + text_or_empty(delta.reasoning_content),
            reasoning_details: match delta.reasoning_details {
                Some(details) => Some(details),
                None => self.reasoning_details,
            },
        }
    }

    /// The turn after more fragments, in order.
    pub open spec fn with_all(self, deltas: Seq<DeltaView>) -> StreamView
        decreases deltas.len(),
    {
        if deltas.len() == 0 {
            self
        } else {
            self.with_all(deltas.drop_last()).with(deltas.last())
        }
    }

    /// The response that the turn amounts to.
    pub open spec fn finished(self) -> ResponseView {
        ResponseView {
            text: some_text(Some(self.text)),
            calls: self.calls.map_values(|builder: BuilderView| builder.finished()),
            metadata: self.metadata(),
        }
    }

    /// The fields that are echoed back.
    pub open spec fn metadata(self) -> Map<Seq<char>, Json> {
        let content = if self.reasoning_content.len() > 0 {
            Map::empty().insert("reasoning_content"@, Json::Text(self.reasoning_content))
        } else {
            Map::empty()
        };
        match self.reasoning_details {
            Some(details) => content.insert("reasoning_details"@, details),
            None => content,
        }
    }
}

/// The events of one fragment: the answer text, then the reasoning.
pub open spec fn delta_events(delta: DeltaView) -> Seq<EventView> {
    let text = match some_text(delta.content) {
        Some(text) => seq![EventView::Text(text)],
        None => Seq::empty(),
    };
    let thinking = match some_text(delta.reasoning) {
        Some(text) => seq![EventView::Thinking(text)],
        None => Seq::empty(),
    };
    text + thinking
}

/// The events of fragments, in order.
pub open spec fn all_events(deltas: Seq<DeltaView>) -> Seq<EventView>
    decreases deltas.len(),
{
    if deltas.len() == 0 {
        Seq::empty()
    } else {
        all_events(deltas.drop_last()) + delta_events(deltas.last())
    }
}

// --------------------------------------------------------------- assembling

/// The arguments that a text means, given what parsing it as JSON gave.
pub fn arguments_from(text: String, parsed: Option<JsonValue>) -> (arguments: JsonValue)
    ensures
        arguments@ == arguments_document(text@, json_option(parsed)),
{
    if is_blank(text.as_str()) {
        return JsonValue::Object(Object::new());
    }
    match parsed {
        Some(document) => document,
        // Unparseable arguments are kept verbatim, as a JSON string, so the tool
        // reports what the model actually sent.
        None => JsonValue::String(text),
    }
}

impl CallBuilder {
    fn new() -> (builder: Self)
        ensures
            builder@ == BuilderView::empty(),
    {
        CallBuilder { id: String::new(), name: String::new(), arguments: String::new() }
    }

    /// Take in one fragment.
    fn apply(&mut self, delta: &ToolCallDelta)
        ensures
            final(self)@ == old(self)@.with(delta@),
    {
        match &delta.id {
            Some(id) => {
                self.id = id.clone();
            },
            None => {},
        }
        match &delta.function {
            Some(function) => {
                match &function.name {
                    Some(name) => {
                        self.name = name.clone();
                    },
                    None => {},
                }
                match &function.arguments {
                    Some(arguments) => {
                        self.arguments.append(arguments.as_str());
                    },
                    None => {},
                }
            },
            None => {},
        }
    }

    /// The finished call, with its arguments parsed.
    pub fn finish(self) -> (call: ToolCall)
        ensures
            call@ == self@.finished(),
    {
        let parsed = JsonValue::parse(self.arguments.as_str());
        ToolCall {
            id: self.id,
            name: self.name,
            arguments: arguments_from(self.arguments, parsed),
        }
    }
}

impl Stream {
    /// A turn of which nothing has arrived yet.
    pub fn new() -> (stream: Self)
        ensures
            stream@ == StreamView::empty(),
    {
        let stream = Stream {
            text: String::new(),
            calls: Vec::new(),
            reasoning_content: String::new(),
            reasoning_details: None,
        };
        assert(stream@.calls == StreamView::empty().calls);
        stream
    }

    /// Take in one fragment of one call.
    fn apply_call(&mut self, delta: &ToolCallDelta)
        ensures
            final(self)@ == (StreamView {
                calls: with_fragment(old(self)@.calls, delta@),
                ..old(self)@
            }),
    {
        let ghost before = self@;
        while self.calls.len() <= delta.index
            invariant
                before == old(self)@,
                before.calls.len() <= self.calls.len(),
                before.calls.len() < self.calls.len() ==> self.calls.len() <= delta.index + 1,
                self@ == (StreamView {
                    calls: before.calls + Seq::new(
                        (self.calls.len() - before.calls.len()) as nat,
                        |i: int| BuilderView::empty(),
                    ),
                    ..before
                }),
            decreases delta.index + 1 - self.calls.len(),
        {
            let ghost so_far = self@.calls;
            let builder = CallBuilder::new();
            self.calls.push(builder);
            assert(self@.calls == so_far.push(builder@));
            assert(self@.calls == before.calls + Seq::new(
                (self.calls.len() - before.calls.len()) as nat,
                |i: int| BuilderView::empty(),
            ));
        }
        assert(self@.calls == padded(before.calls, delta@.index));
        let ghost room = self@.calls;
        self.calls[delta.index].apply(delta);
        assert(self@.calls == room.update(delta.index as int, room[delta.index as int].with(delta@)));
    }

    /// Take in one fragment of the turn.
    fn apply_choice(&mut self, choice: &Choice) -> (events: Vec<Event>)
        ensures
            final(self)@ == old(self)@.with(choice@),
            crate::events_view(events@) == delta_events(choice@),
    {
        let mut events: Vec<Event> = Vec::new();
        let ghost before = self@;
        let delta = &choice.delta;
        match &delta.content {
            Some(text) => {
                if !text.as_str().is_empty() {
                    self.text.append(text.as_str());
                    events.push(Event::Text(text.clone()));
                }
            },
            None => {},
        }
        match &delta.reasoning {
            Some(text) => {
                if !text.as_str().is_empty() {
                    events.push(Event::Thinking(text.clone()));
                }
            },
            None => {},
        }
        match &delta.reasoning_content {
            Some(text) => {
                self.reasoning_content.append(text.as_str());
            },
            None => {},
        }
        match &delta.reasoning_details {
            Some(details) => {
                self.reasoning_details = Some(details.clone());
            },
            None => {},
        }
        assert(crate::events_view(events@) == delta_events(choice@));
        let ghost middle = self@;
        assert(middle == (StreamView { calls: before.calls, ..before.with(choice@) }));
        match &delta.tool_calls {
            Some(calls) => {
                let ghost deltas = call_deltas_view(calls@);
                let mut i: usize = 0;
                while i < calls.len()
                    invariant
                        i <= calls.len(),
                        deltas == call_deltas_view(calls@),
                        self@ == (StreamView {
                            calls: with_fragments(before.calls, deltas.take(i as int)),
                            ..middle
                        }),
                    decreases calls.len() - i,
                {
                    self.apply_call(&calls[i]);
                    i = i + 1;
                    assert(deltas.take(i as int).drop_last() == deltas.take(i - 1));
                }
                assert(deltas.take(deltas.len() as int) == deltas);
            },
            None => {},
        }
        events
    }

    /// Take in one event of the stream: the events to show for it.
    pub fn apply(&mut self, chunk: &Chunk) -> (events: Vec<Event>)
        ensures
            final(self)@ == old(self)@.with_all(choices_view(chunk.choices@)),
            crate::events_view(events@) == all_events(choices_view(chunk.choices@)),
    {
        let mut events: Vec<Event> = Vec::new();
        let ghost deltas = choices_view(chunk.choices@);
        let mut i: usize = 0;
        assert(crate::events_view(events@) == all_events(deltas.take(0)));
        while i < chunk.choices.len()
            invariant
                i <= chunk.choices.len(),
                deltas == choices_view(chunk.choices@),
                self@ == old(self)@.with_all(deltas.take(i as int)),
                crate::events_view(events@) == all_events(deltas.take(i as int)),
            decreases chunk.choices.len() - i,
        {
            let ghost so_far = crate::events_view(events@);
            let mut more = self.apply_choice(&chunk.choices[i]);
            let ghost new = crate::events_view(more@);
            events.append(&mut more);
            i = i + 1;
            assert(crate::events_view(events@) == so_far + new);
            assert(deltas.take(i as int).drop_last() == deltas.take(i - 1));
        }
        assert(deltas.take(deltas.len() as int) == deltas);
        events
    }

    /// The response that the turn amounts to.
    pub fn finish(self) -> (response: Response)
        ensures
            response@ == self@.finished(),
    {
        let ghost view = self@;
        let mut metadata = Object::new();
        if !self.reasoning_content.as_str().is_empty() {
            metadata.insert(
                "reasoning_content".to_owned(),
                JsonValue::String(self.reasoning_content),
            );
        }
        match self.reasoning_details {
            Some(details) => {
                metadata.insert("reasoning_details".to_owned(), details);
            },
            None => {},
        }
        let builders = self.calls;
        let mut tool_calls: Vec<ToolCall> = Vec::new();
        let mut i: usize = 0;
        while i < builders.len()
            invariant
                i <= builders.len(),
                view.calls == builders_view(builders@),
                tool_calls@.len() == i,
                forall|j: int|
                    0 <= j < i ==> (#[trigger] tool_calls@[j])@ == builders@[j]@.finished(),
            decreases builders.len() - i,
        {
            let builder = CallBuilder {
                id: builders[i].id.clone(),
                name: builders[i].name.clone(),
                arguments: builders[i].arguments.clone(),
            };
            tool_calls.push(builder.finish());
            i = i + 1;
        }
        let text = if self.text.as_str().is_empty() {
            None
        } else {
            Some(self.text)
        };
        let response = Response { text, tool_calls, metadata };
        assert(response@.calls == view.finished().calls);
        response
    }
}

// --------------------------------------------------------------------- laws

/// How a provider groups fragments into events makes no difference: taking them
/// in group by group is taking them in all at once.
pub proof fn grouping_makes_no_difference(
    stream: StreamView,
    first: Seq<DeltaView>,
    second: Seq<DeltaView>,
)
    ensures
        stream.with_all(first + second) == stream.with_all(first).with_all(second),
        all_events(first + second) == all_events(first) + all_events(second),
    decreases second.len(),
{
    if second.len() == 0 {
        assert(first + second == first);
        assert(all_events(first + second) == all_events(first) + all_events(second));
    } else {
        grouping_makes_no_difference(stream, first, second.drop_last());
        assert((first + second).drop_last() == first + second.drop_last());
        assert(all_events(first + second) == all_events(first) + all_events(second));
    }
}

/// The answer text that events show.
pub open spec fn shown_text(events: Seq<EventView>) -> Seq<char>
    decreases events.len(),
{
    if events.len() == 0 {
        Seq::empty()
    } else {
        match events.last() {
            EventView::Text(text) => shown_text(events.drop_last()) + text,
            _ => shown_text(events.drop_last()),
        }
    }
}

/// What events show one after the other.
pub proof fn lemma_shown_text_concat(first: Seq<EventView>, second: Seq<EventView>)
    ensures
        shown_text(first + second) == shown_text(first) + shown_text(second),
    decreases second.len(),
{
    if second.len() == 0 {
        assert(first + second == first);
    } else {
        lemma_shown_text_concat(first, second.drop_last());
        assert((first + second).drop_last() == first + second.drop_last());
        assert(shown_text(first + second) == shown_text(first) + shown_text(second));
    }
}

/// The answer of a turn is exactly what was shown while it streamed.
pub proof fn the_answer_is_what_was_shown(deltas: Seq<DeltaView>)
    ensures
        StreamView::empty().with_all(deltas).text == shown_text(all_events(deltas)),
    decreases deltas.len(),
{
    if deltas.len() > 0 {
        let before = deltas.drop_last();
        let delta = deltas.last();
        the_answer_is_what_was_shown(before);
        lemma_shown_text_concat(all_events(before), delta_events(delta));
        reveal_with_fuel(shown_text, 3);
        assert(shown_text(delta_events(delta)) == text_or_empty(delta.content)) by {
            let events = delta_events(delta);
            if some_text(delta.content) is Some && some_text(delta.reasoning) is Some {
                assert(events.drop_last() == seq![EventView::Text(delta.content->0)]);
                assert(events.drop_last().drop_last() == Seq::<EventView>::empty());
            } else if some_text(delta.content) is Some || some_text(delta.reasoning) is Some {
                assert(events.drop_last() == Seq::<EventView>::empty());
            }
        }
    }
}

/// How the arguments of a call are cut into fragments makes no difference.
pub proof fn argument_fragments_add_up(
    calls: Seq<BuilderView>,
    index: nat,
    id: Option<Seq<char>>,
    name: Option<Seq<char>>,
    first: Seq<char>,
    second: Seq<char>,
)
    ensures
        ({
            let whole = CallDeltaView {
                index,
                id,
                function: Some(FunctionView { name, arguments: Some(first + second) }),
            };
            let head = CallDeltaView {
                index,
                id,
                function: Some(FunctionView { name, arguments: Some(first) }),
            };
            let rest = CallDeltaView {
                index,
                id: None,
                function: Some(FunctionView { name: None, arguments: Some(second) }),
            };
            with_fragment(calls, whole) == with_fragment(with_fragment(calls, head), rest)
        }),
{
    let head = CallDeltaView {
        index,
        id,
        function: Some(FunctionView { name, arguments: Some(first) }),
    };
    let room = padded(calls, index);
    let begun = with_fragment(calls, head);
    assert(padded(begun, index) == begun);
    assert(room[index as int].arguments + (first + second) == begun[index as int].arguments
        + second);
}

/// A fragment of one call leaves the others alone.
pub proof fn fragments_of_one_call_leave_the_others_alone(
    calls: Seq<BuilderView>,
    delta: CallDeltaView,
    other: int,
)
    requires
        0 <= other < calls.len(),
        other != delta.index,
    ensures
        with_fragment(calls, delta)[other] == calls[other],
{
}

/// Arguments that are no JSON reach the tool verbatim, as a JSON string.
pub proof fn unparseable_arguments_are_kept_verbatim(builder: BuilderView)
    requires
        !crate::text::blank(builder.arguments),
        crate::json::json_parse(builder.arguments) is None,
    ensures
        builder.finished().arguments == Json::Text(builder.arguments),
{
}

// What a turn is, in terms of its fragments.

/// The contents of fragments, one after the other.
pub open spec fn contents(deltas: Seq<DeltaView>) -> Seq<char>
    decreases deltas.len(),
{
    if deltas.len() == 0 {
        Seq::empty()
    } else {
        match deltas.last().content {
            Some(text) => contents(deltas.drop_last()) + text,
            None => contents(deltas.drop_last()),
        }
    }
}

/// The contents of fragments that hold anything, each by itself.
pub open spec fn content_pieces(deltas: Seq<DeltaView>) -> Seq<Seq<char>>
    decreases deltas.len(),
{
    if deltas.len() == 0 {
        Seq::empty()
    } else {
        match deltas.last().content {
            Some(text) if text != Seq::<char>::empty() => content_pieces(deltas.drop_last()).push(
                text,
            ),
            _ => content_pieces(deltas.drop_last()),
        }
    }
}

/// The reasoning of fragments that hold any, each by itself.
pub open spec fn reasoning_pieces(deltas: Seq<DeltaView>) -> Seq<Seq<char>>
    decreases deltas.len(),
{
    if deltas.len() == 0 {
        Seq::empty()
    } else {
        match deltas.last().reasoning {
            Some(text) if text != Seq::<char>::empty() => reasoning_pieces(
                deltas.drop_last(),
            ).push(text),
            _ => reasoning_pieces(deltas.drop_last()),
        }
    }
}

/// The texts of the answer that events show, each by itself.
pub open spec fn text_pieces(events: Seq<EventView>) -> Seq<Seq<char>>
    decreases events.len(),
{
    if events.len() == 0 {
        Seq::empty()
    } else {
        match events.last() {
            EventView::Text(text) => text_pieces(events.drop_last()).push(text),
            _ => text_pieces(events.drop_last()),
        }
    }
}

/// The thoughts that events show, each by itself.
pub open spec fn thought_pieces(events: Seq<EventView>) -> Seq<Seq<char>>
    decreases events.len(),
{
    if events.len() == 0 {
        Seq::empty()
    } else {
        match events.last() {
            EventView::Thinking(text) => thought_pieces(events.drop_last()).push(text),
            _ => thought_pieces(events.drop_last()),
        }
    }
}

/// The text of a turn is the contents of all its fragments, in order, whatever they
/// hold. A turn of which nothing was said has no text.
pub proof fn the_text_is_every_content_in_order(deltas: Seq<DeltaView>)
    ensures
        StreamView::empty().with_all(deltas).text == contents(deltas),
        contents(deltas) == Seq::<char>::empty() ==> StreamView::empty().with_all(
            deltas,
        ).finished().text is None,
        contents(deltas) != Seq::<char>::empty() ==> StreamView::empty().with_all(
            deltas,
        ).finished().text == Some(contents(deltas)),
    decreases deltas.len(),
{
    if deltas.len() > 0 {
        the_text_is_every_content_in_order(deltas.drop_last());
    }
    assert(contents(deltas).len() == 0 ==> contents(deltas) == Seq::<char>::empty());
}

/// What is shown while a turn streams: each content that holds anything, as it is
/// and in order, each piece of reasoning likewise, and nothing else.
pub proof fn every_piece_is_shown(deltas: Seq<DeltaView>)
    ensures
        text_pieces(all_events(deltas)) == content_pieces(deltas),
        thought_pieces(all_events(deltas)) == reasoning_pieces(deltas),
        all_events(deltas).len() == content_pieces(deltas).len() + reasoning_pieces(deltas).len(),
    decreases deltas.len(),
{
    if deltas.len() > 0 {
        let before = deltas.drop_last();
        let delta = deltas.last();
        every_piece_is_shown(before);
        let so_far = all_events(before);
        let events = all_events(deltas);
        let has_content = delta.content is Some && delta.content->0 != Seq::<char>::empty();
        let has_reasoning = delta.reasoning is Some && delta.reasoning->0 != Seq::<char>::empty();
        if let Some(text) = delta.content {
            assert(text.len() == 0 ==> text == Seq::<char>::empty());
        }
        if let Some(text) = delta.reasoning {
            assert(text.len() == 0 ==> text == Seq::<char>::empty());
        }
        reveal_with_fuel(text_pieces, 3);
        reveal_with_fuel(thought_pieces, 3);
        if has_content && has_reasoning {
            assert(events.drop_last() == so_far.push(EventView::Text(delta.content->0)));
            assert(events.drop_last().drop_last() == so_far);
        } else if has_content || has_reasoning {
            assert(events.drop_last() == so_far);
        } else {
            assert(events == so_far);
        }
    }
}

/// A fragment that carries both shows its content before its reasoning.
pub proof fn answers_are_shown_before_thoughts(delta: DeltaView)
    requires
        delta.content is Some && delta.content->0.len() > 0,
        delta.reasoning is Some && delta.reasoning->0.len() > 0,
    ensures
        all_events(seq![delta]) == seq![
            EventView::Text(delta.content->0),
            EventView::Thinking(delta.reasoning->0),
        ],
{
    reveal_with_fuel(all_events, 2);
    assert(seq![delta].drop_last() == Seq::<DeltaView>::empty());
}

/// The fragments of calls that fragments of a turn carry, in order.
pub open spec fn call_fragments(deltas: Seq<DeltaView>) -> Seq<CallDeltaView>
    decreases deltas.len(),
{
    if deltas.len() == 0 {
        Seq::empty()
    } else {
        call_fragments(deltas.drop_last()) + deltas.last().tool_calls
    }
}

/// How many calls fragments speak of: one more than the highest place among them.
pub open spec fn calls_spoken_of(fragments: Seq<CallDeltaView>) -> nat
    decreases fragments.len(),
{
    if fragments.len() == 0 {
        0
    } else {
        let before = calls_spoken_of(fragments.drop_last());
        if fragments.last().index >= before {
            fragments.last().index + 1
        } else {
            before
        }
    }
}

/// The id that was given last for the call at a place.
pub open spec fn last_id(fragments: Seq<CallDeltaView>, index: nat) -> Seq<char>
    decreases fragments.len(),
{
    if fragments.len() == 0 {
        Seq::empty()
    } else if fragments.last().index == index && fragments.last().id is Some {
        fragments.last().id->0
    } else {
        last_id(fragments.drop_last(), index)
    }
}

/// The name that was given last for the call at a place.
pub open spec fn last_name(fragments: Seq<CallDeltaView>, index: nat) -> Seq<char>
    decreases fragments.len(),
{
    if fragments.len() == 0 {
        Seq::empty()
    } else if fragments.last().index == index && fragments.last().function is Some
        && fragments.last().function->0.name is Some {
        fragments.last().function->0.name->0
    } else {
        last_name(fragments.drop_last(), index)
    }
}

/// The pieces of the arguments for the call at a place, one after the other.
pub open spec fn argument_text(fragments: Seq<CallDeltaView>, index: nat) -> Seq<char>
    decreases fragments.len(),
{
    if fragments.len() == 0 {
        Seq::empty()
    } else if fragments.last().index == index && fragments.last().function is Some
        && fragments.last().function->0.arguments is Some {
        argument_text(fragments.drop_last(), index) + fragments.last().function->0.arguments->0
    } else {
        argument_text(fragments.drop_last(), index)
    }
}

proof fn lemma_nothing_beyond(fragments: Seq<CallDeltaView>, index: nat)
    requires
        index >= calls_spoken_of(fragments),
    ensures
        last_id(fragments, index) == Seq::<char>::empty(),
        last_name(fragments, index) == Seq::<char>::empty(),
        argument_text(fragments, index) == Seq::<char>::empty(),
    decreases fragments.len(),
{
    if fragments.len() > 0 {
        lemma_nothing_beyond(fragments.drop_last(), index);
    }
}

proof fn lemma_builders(fragments: Seq<CallDeltaView>)
    ensures
        with_fragments(Seq::empty(), fragments).len() == calls_spoken_of(fragments),
        forall|i: int|
            0 <= i < calls_spoken_of(fragments) ==> (#[trigger] with_fragments(
                Seq::empty(),
                fragments,
            )[i]) == (BuilderView {
                id: last_id(fragments, i as nat),
                name: last_name(fragments, i as nat),
                arguments: argument_text(fragments, i as nat),
            }),
    decreases fragments.len(),
{
    if fragments.len() > 0 {
        let before = fragments.drop_last();
        lemma_builders(before);
        let built = with_fragments(Seq::empty(), before);
        let after = with_fragments(Seq::empty(), fragments);
        assert forall|i: int| 0 <= i < calls_spoken_of(fragments) implies (#[trigger] after[i])
            == (BuilderView {
            id: last_id(fragments, i as nat),
            name: last_name(fragments, i as nat),
            arguments: argument_text(fragments, i as nat),
        }) by {
            if i >= built.len() {
                lemma_nothing_beyond(before, i as nat);
            } else {
                assert(built[i].id == last_id(before, i as nat));
            }
            assert(Seq::<char>::empty() + argument_text(fragments, i as nat) == argument_text(
                fragments,
                i as nat,
            ));
        }
    }
}

proof fn lemma_fragments_concat(
    calls: Seq<BuilderView>,
    first: Seq<CallDeltaView>,
    second: Seq<CallDeltaView>,
)
    ensures
        with_fragments(calls, first + second) == with_fragments(
            with_fragments(calls, first),
            second,
        ),
    decreases second.len(),
{
    if second.len() == 0 {
        assert(first + second == first);
    } else {
        lemma_fragments_concat(calls, first, second.drop_last());
        assert((first + second).drop_last() == first + second.drop_last());
    }
}

proof fn lemma_calls_of_turn(deltas: Seq<DeltaView>)
    ensures
        StreamView::empty().with_all(deltas).calls == with_fragments(
            Seq::empty(),
            call_fragments(deltas),
        ),
    decreases deltas.len(),
{
    if deltas.len() > 0 {
        lemma_calls_of_turn(deltas.drop_last());
        lemma_fragments_concat(
            Seq::empty(),
            call_fragments(deltas.drop_last()),
            deltas.last().tool_calls,
        );
    }
}

/// The calls of a turn are put together from all their fragments, each at its
/// place: the id and the name that were given last, and all pieces of the
/// arguments, in order. Arguments are the document that their text holds; a blank
/// text means none, and a text that holds no document is kept as it is.
pub proof fn calls_are_put_together_from_their_fragments(deltas: Seq<DeltaView>)
    ensures
        ({
            let calls = StreamView::empty().with_all(deltas).finished().calls;
            let fragments = call_fragments(deltas);
            &&& calls.len() == calls_spoken_of(fragments)
            &&& forall|i: int|
                0 <= i < calls.len() ==> {
                    let text = argument_text(fragments, i as nat);
                    &&& (#[trigger] calls[i]).id == last_id(fragments, i as nat)
                    &&& calls[i].name == last_name(fragments, i as nat)
                    &&& crate::text::blank(text) ==> calls[i].arguments == Json::Object(
                        Map::empty(),
                    )
                    &&& !crate::text::blank(text) ==> calls[i].arguments == match
                        crate::json::json_parse(text) {
                        Some(document) => document,
                        None => Json::Text(text),
                    }
                }
        }),
{
    lemma_calls_of_turn(deltas);
    lemma_builders(call_fragments(deltas));
    let builders = with_fragments(Seq::empty(), call_fragments(deltas));
    let calls = StreamView::empty().with_all(deltas).finished().calls;
    assert forall|i: int| 0 <= i < calls.len() implies {
        let text = argument_text(call_fragments(deltas), i as nat);
        &&& (#[trigger] calls[i]).id == last_id(call_fragments(deltas), i as nat)
        &&& calls[i].name == last_name(call_fragments(deltas), i as nat)
        &&& crate::text::blank(text) ==> calls[i].arguments == Json::Object(Map::empty())
        &&& !crate::text::blank(text) ==> calls[i].arguments == match crate::json::json_parse(text) {
            Some(document) => document,
            None => Json::Text(text),
        }
    } by {
        assert(calls[i] == builders[i].finished());
    }
}

/// The reasoning that is to be echoed back, one piece after the other.
pub open spec fn echoed_reasoning(deltas: Seq<DeltaView>) -> Seq<char>
    decreases deltas.len(),
{
    if deltas.len() == 0 {
        Seq::empty()
    } else {
        match deltas.last().reasoning_content {
            Some(text) => echoed_reasoning(deltas.drop_last()) + text,
            None => echoed_reasoning(deltas.drop_last()),
        }
    }
}

/// The details that came last.
pub open spec fn last_details(deltas: Seq<DeltaView>) -> Option<Json>
    decreases deltas.len(),
{
    if deltas.len() == 0 {
        None
    } else if deltas.last().reasoning_details is Some {
        deltas.last().reasoning_details
    } else {
        last_details(deltas.drop_last())
    }
}

/// What a turn wants echoed back: all its reasoning content, in order, if there is
/// any, the details that came last, if any came, and nothing else.
pub proof fn what_is_echoed_is_what_came(deltas: Seq<DeltaView>)
    ensures
        ({
            let fields = StreamView::empty().with_all(deltas).finished().metadata;
            let reasoning = echoed_reasoning(deltas);
            &&& fields.dom().contains("reasoning_content"@) <==> reasoning.len() > 0
            &&& reasoning.len() > 0 ==> fields["reasoning_content"@] == Json::Text(reasoning)
            &&& fields.dom().contains("reasoning_details"@) <==> last_details(deltas) is Some
            &&& last_details(deltas) is Some ==> fields["reasoning_details"@] == last_details(
                deltas,
            )->0
            &&& forall|name: Seq<char>| #[trigger]
                fields.dom().contains(name) ==> name == "reasoning_content"@ || name
                    == "reasoning_details"@
        }),
{
    lemma_what_is_collected(deltas);
    reveal_strlit("reasoning_content");
    reveal_strlit("reasoning_details");
    assert("reasoning_content"@[10] == 'c');
    assert("reasoning_details"@[10] == 'd');
}

proof fn lemma_what_is_collected(deltas: Seq<DeltaView>)
    ensures
        StreamView::empty().with_all(deltas).reasoning_content == echoed_reasoning(deltas),
        StreamView::empty().with_all(deltas).reasoning_details == last_details(deltas),
    decreases deltas.len(),
{
    if deltas.len() > 0 {
        lemma_what_is_collected(deltas.drop_last());
    }
}

/// A fragment is seen as it arrived: nothing of it is left out or changed.
pub proof fn fragments_are_seen_as_they_arrive(choice: Choice, call: ToolCallDelta)
    ensures
        choice.delta.content is None ==> choice@.content is None,
        choice.delta.content matches Some(text) ==> choice@.content == Some(text@),
        choice.delta.reasoning is None ==> choice@.reasoning is None,
        choice.delta.reasoning matches Some(text) ==> choice@.reasoning == Some(text@),
        choice.delta.reasoning_content is None ==> choice@.reasoning_content is None,
        choice.delta.reasoning_content matches Some(text) ==> choice@.reasoning_content == Some(
            text@,
        ),
        choice.delta.reasoning_details is None ==> choice@.reasoning_details is None,
        choice.delta.reasoning_details matches Some(value) ==> choice@.reasoning_details == Some(
            value@,
        ),
        choice.delta.tool_calls is None ==> choice@.tool_calls.len() == 0,
        choice.delta.tool_calls matches Some(calls) ==> choice@.tool_calls.len() == calls@.len()
            && forall|i: int|
            0 <= i < calls@.len() ==> (#[trigger] choice@.tool_calls[i]) == calls@[i]@,
        call@.index == call.index,
        call.id is None ==> call@.id is None,
        call.id matches Some(id) ==> call@.id == Some(id@),
        call.function is None ==> call@.function is None,
        call.function matches Some(function) ==> {
            &&& call@.function is Some
            &&& function.name is None ==> call@.function->0.name is None
            &&& function.name matches Some(name) ==> call@.function->0.name == Some(name@)
            &&& function.arguments is None ==> call@.function->0.arguments is None
            &&& function.arguments matches Some(text) ==> call@.function->0.arguments == Some(
                text@,
            )
        },
{
}

/// The fragments of an event of the stream are seen one for one.
pub proof fn choices_are_seen_one_for_one(choices: Seq<Choice>)
    ensures
        choices_view(choices).len() == choices.len(),
        forall|i: int| 0 <= i < choices.len() ==> (#[trigger] choices_view(choices)[i])
            == choices[i]@,
{
}

} // verus!
