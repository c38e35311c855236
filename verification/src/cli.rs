//! What the command line program decides: the task, the key, and what reaches
//! the terminal.
//!
//! The screen gets one line and never scrolls: the model's reasoning is
//! rewritten in place, then the answer takes that line over. Standard output
//! carries the answer and nothing else.

use vstd::prelude::*;

use crate::text::{chars_of, is_blank, join, split, trim_end};
use crate::{Event, EventView};

verus! {

/// What the program says when it is given nothing to do.
pub const NO_TASK: &'static str = "no task given";

/// What the program says when the model has nothing to say.
pub const NO_ANSWER: &'static str = "(the model finished without an answer)";

/// How many lines of a tool's output are shown.
pub const OUTPUT_LINES: usize = 3;

/// Goes back to the beginning of the line and erases it.
pub const ERASE: &'static str = "\r\x1b[K";

/// Begins dimmed text.
pub const DIM: &'static str = "\x1b[2m";

/// Ends dimmed text.
pub const PLAIN: &'static str = "\x1b[0m";

// ------------------------------------------------------------------ arguments

/// The task that the words of a command line make up, unless it is blank.
pub open spec fn task_text(words: Seq<Seq<char>>) -> Option<Seq<char>> {
    let text = crate::text::joined(words, " "@);
    if crate::text::blank(text) {
        None
    } else {
        Some(text)
    }
}

/// The task that the words of a command line make up.
pub fn task_from(words: &Vec<String>) -> (task: Option<String>)
    ensures
        crate::text_option(task) == task_text(crate::texts_view(words@)),
{
    let text = join(words, " ");
    if is_blank(text.as_str()) {
        None
    } else {
        Some(text)
    }
}

/// A text that is there and not blank.
pub open spec fn said(text: Option<Seq<char>>) -> Option<Seq<char>> {
    match text {
        Some(text) if !crate::text::blank(text) => Some(text),
        _ => None,
    }
}

/// The key to use: the one that was given, else the conventional one, else none.
pub open spec fn chosen_key(
    given: Option<Seq<char>>,
    conventional: Option<Seq<char>>,
) -> Option<Seq<char>> {
    match said(given) {
        Some(key) => Some(key),
        None => said(conventional),
    }
}

/// The key to use: the one that was given, else the conventional one, else none
/// at all. A blank key counts as none.
pub fn choose_key(given: Option<String>, conventional: Option<String>) -> (key: Option<String>)
    ensures
        crate::text_option(key) == match said(crate::text_option(given)) {
            Some(key) => Some(key),
            None => said(crate::text_option(conventional)),
        },
        crate::text_option(key) == chosen_key(
            crate::text_option(given),
            crate::text_option(conventional),
        ),
{
    match given {
        Some(key) => {
            if !is_blank(key.as_str()) {
                return Some(key);
            }
        },
        None => {},
    }
    match conventional {
        Some(key) => {
            if !is_blank(key.as_str()) {
                return Some(key);
            }
        },
        None => {},
    }
    None
}

// -------------------------------------------------------------------- a line

/// How a character stands in a line: control characters would move the cursor.
pub open spec fn printed(c: char) -> char {
    if (c as u32) < 0x20 || 0x7f <= c as u32 <= 0x9f {
        ' '
    } else {
        c
    }
}

/// A text with nothing in it that would move the cursor.
pub open spec fn flat(text: Seq<char>) -> Seq<char> {
    text.map_values(|c: char| printed(c))
}

/// How many columns a character takes at most.
pub open spec fn char_columns(c: char) -> nat {
    if (c as u32) < 0x1100 {
        1
    } else {
        2
    }
}

/// How many columns a text takes at most.
pub open spec fn columns(text: Seq<char>) -> nat
    decreases text.len(),
{
    if text.len() == 0 {
        0
    } else {
        char_columns(text[0]) + columns(text.drop_first())
    }
}

/// The end of a text, as much of it as fits into a line: characters are dropped
/// from the beginning until the rest fits.
pub open spec fn line_end(text: Seq<char>, width: nat) -> Seq<char>
    decreases text.len(),
{
    if columns(text) <= width || text.len() == 0 {
        text
    } else {
        line_end(text.drop_first(), width)
    }
}

/// What is shown of the reasoning so far: the end of its last line.
pub open spec fn thought(reasoning: Seq<char>, width: nat) -> Seq<char> {
    line_end(flat(crate::text::last_piece(reasoning, '\n')), width)
}

proof fn lemma_columns_shrink(text: Seq<char>, from: int, to: int)
    requires
        0 <= from <= to <= text.len(),
    ensures
        columns(text.skip(to)) <= columns(text.skip(from)),
    decreases to - from,
{
    if from < to {
        lemma_columns_shrink(text, from + 1, to);
        assert(text.skip(from).drop_first() == text.skip(from + 1));
    }
}

/// Where the part that fits begins.
proof fn lemma_line_end_is(text: Seq<char>, width: nat, start: int)
    requires
        0 <= start <= text.len(),
        columns(text.skip(start)) <= width,
        start > 0 ==> columns(text.skip(start - 1)) > width,
    ensures
        line_end(text, width) == text.skip(start),
    decreases text.len(),
{
    assert(text.skip(0) == text);
    if start > 0 {
        lemma_columns_shrink(text, 0, start - 1);
        let shorter = text.drop_first();
        assert(shorter.skip(start - 1) == text.skip(start));
        if start - 1 > 0 {
            assert(shorter.skip(start - 2) == text.skip(start - 1));
        }
        lemma_line_end_is(shorter, width, start - 1);
    }
}

fn print(c: char) -> (shown: char)
    ensures
        shown == printed(c),
{
    let code: u32 = c as u32;
    if code < 0x20 || (0x7f <= code && code <= 0x9f) {
        ' '
    } else {
        c
    }
}

fn width_of(c: char) -> (width: usize)
    ensures
        width == char_columns(c),
{
    let code: u32 = c as u32;
    if code < 0x1100 {
        1
    } else {
        2
    }
}

/// What is shown of the reasoning so far.
#[verifier::spinoff_prover]
fn thought_line(reasoning: &str, width: usize) -> (line: String)
    ensures
        line@ == thought(reasoning@, width as nat),
{
    let mut lines = split(reasoning, '\n');
    let ghost every = crate::texts_view(lines@);
    assert(every.last() == crate::text::last_piece(reasoning@, '\n'));
    let last = match lines.pop() {
        Some(last) => last,
        None => String::new(),
    };
    let chars = chars_of(last.as_str());
    let mut shown: Vec<char> = Vec::new();
    let mut i: usize = 0;
    while i < chars.len()
        invariant
            i <= chars.len(),
            shown@ == flat(chars@.take(i as int)),
        decreases chars.len() - i,
    {
        shown.push(print(chars[i]));
        i = i + 1;
        assert(shown@ == flat(chars@.take(i as int)));
    }
    assert(chars@.take(chars@.len() as int) == chars@);
    let ghost text = shown@;
    let mut start: usize = shown.len();
    let mut used: usize = 0;
    assert(text.skip(start as int) == Seq::<char>::empty());
    while start > 0 && width_of(shown[start - 1]) <= width - used
        invariant
            start <= shown.len(),
            text == shown@,
            used <= width,
            used == columns(text.skip(start as int)),
        decreases start,
    {
        assert(text.skip(start - 1).drop_first() == text.skip(start as int));
        used = used + width_of(shown[start - 1]);
        start = start - 1;
    }
    proof {
        if start > 0 {
            assert(text.skip(start - 1).drop_first() == text.skip(start as int));
        }
        lemma_line_end_is(text, width as nat, start as int);
    }
    let mut line = String::new();
    let mut k: usize = start;
    while k < shown.len()
        invariant
            start <= k <= shown.len(),
            text == shown@,
            line@ == text.subrange(start as int, k as int),
        decreases shown.len() - k,
    {
        line.push(shown[k]);
        k = k + 1;
        assert(line@ == text.subrange(start as int, k as int));
    }
    assert(text.subrange(start as int, k as int) == text.skip(start as int));
    line
}

/// The first lines of a tool's output.
pub open spec fn first_lines(output: Seq<char>) -> Seq<Seq<char>> {
    let lines = output_lines(output);
    if lines.len() <= OUTPUT_LINES {
        lines
    } else {
        lines.take(OUTPUT_LINES as int)
    }
}

/// The lines of an output. An end of line at its end begins no further one.
pub open spec fn output_lines(output: Seq<char>) -> Seq<Seq<char>> {
    let ended = crate::text::ended_pieces(output, '\n');
    let rest = crate::text::last_piece(output, '\n');
    if rest.len() == 0 {
        ended
    } else {
        ended.push(rest)
    }
}

/// Lines with their ends.
pub open spec fn with_ends(lines: Seq<Seq<char>>) -> Seq<char>
    decreases lines.len(),
{
    if lines.len() == 0 {
        Seq::empty()
    } else {
        with_ends(lines.drop_last()) + lines.last() + "\n"@
    }
}

/// The first lines of a tool's output, with their ends.
fn excerpt(output: &str) -> (text: String)
    ensures
        text@ == with_ends(first_lines(output@)),
{
    let mut lines = split(output, '\n');
    let ghost every = crate::texts_view(lines@);
    assert(every.last() == crate::text::last_piece(output@, '\n'));
    assert(every.drop_last() == crate::text::ended_pieces(output@, '\n'));
    if lines.len() > 0 && lines[lines.len() - 1].as_str().is_empty() {
        let _ = lines.pop();
        assert(crate::texts_view(lines@) == every.drop_last());
    } else {
        assert(every == every.drop_last().push(every.last()));
    }
    let ghost all = output_lines(output@);
    assert(crate::texts_view(lines@) == all);
    let mut text = String::new();
    let mut i: usize = 0;
    assert(with_ends(all.take(0)) == Seq::<char>::empty());
    while i < lines.len() && i < OUTPUT_LINES
        invariant
            i <= lines.len(),
            i <= OUTPUT_LINES,
            all == crate::texts_view(lines@),
            text@ == with_ends(all.take(i as int)),
        decreases lines.len() - i,
    {
        text.append(lines[i].as_str());
        text.append("\n");
        i = i + 1;
        assert(all.take(i as int).drop_last() == all.take(i - 1));
    }
    assert(all.take(all.len() as int) == all);
    text
}

/// The line that announces a tool call, given its arguments as JSON text.
pub open spec fn call_text(name: Seq<char>, arguments: Seq<char>) -> Seq<char> {
    name + " "@ + arguments + "\n"@
}

/// The line that announces a tool call, given its arguments as JSON text.
pub fn call_line(name: &str, arguments: &str) -> (line: String)
    ensures
        line@ == call_text(name@, arguments@),
{
    let mut line = name.to_owned();
    line.append(" ");
    line.append(arguments);
    line.append("\n");
    line
}

// ------------------------------------------------------------------- the screen

/// Something to write.
#[derive(Debug)]
pub enum Write {
    /// To standard output.
    Stdout(String),
    /// To standard error.
    Stderr(String),
}

pub enum WriteView {
    Stdout(Seq<char>),
    Stderr(Seq<char>),
}

impl View for Write {
    type V = WriteView;

    open spec fn view(&self) -> WriteView {
        match self {
            Write::Stdout(text) => WriteView::Stdout(text@),
            Write::Stderr(text) => WriteView::Stderr(text@),
        }
    }
}

pub open spec fn writes_view(writes: Seq<Write>) -> Seq<WriteView> {
    writes.map_values(|write: Write| write@)
}

/// Turns events into what is written.
#[derive(Debug)]
pub struct Renderer {
    /// Whether tool calls are shown.
    pub verbose: bool,
    /// Whether standard error is a terminal, where a line can be rewritten.
    pub terminal: bool,
    /// How wide the terminal is.
    pub width: usize,
    /// The reasoning since anything else happened.
    pub reasoning: String,
    /// Whether a line of reasoning is on the screen.
    pub thinking: bool,
    /// Whether the screen ends in the middle of a line of the answer.
    pub mid_line: bool,
    /// Whether any of the answer was written.
    pub streamed: bool,
    /// Whether what was written of the answer ends with an end of line.
    pub ended: bool,
}

pub struct RendererView {
    pub verbose: bool,
    pub terminal: bool,
    pub width: nat,
    pub reasoning: Seq<char>,
    pub thinking: bool,
    pub mid_line: bool,
    pub streamed: bool,
    pub ended: bool,
}

impl View for Renderer {
    type V = RendererView;

    open spec fn view(&self) -> RendererView {
        RendererView {
            verbose: self.verbose,
            terminal: self.terminal,
            width: self.width as nat,
            reasoning: self.reasoning@,
            thinking: self.thinking,
            mid_line: self.mid_line,
            streamed: self.streamed,
            ended: self.ended,
        }
    }
}

impl RendererView {
    /// A clean screen.
    pub open spec fn fresh(verbose: bool, terminal: bool, width: nat) -> RendererView {
        RendererView {
            verbose,
            terminal,
            width,
            reasoning: Seq::empty(),
            thinking: false,
            mid_line: false,
            streamed: false,
            ended: true,
        }
    }

    /// What brings the cursor to the beginning of a free line.
    pub open spec fn line_break(self) -> Seq<char> {
        if self.mid_line {
            "\n"@
        } else if self.thinking {
            ERASE@
        } else {
            Seq::empty()
        }
    }

    /// A piece of the answer takes over the line of the reasoning.
    pub open spec fn answered(self, chunk: Seq<char>) -> (RendererView, Seq<WriteView>) {
        let whole_line = chunk.len() > 0 && chunk.last() == '\n';
        let after = RendererView {
            reasoning: Seq::empty(),
            thinking: false,
            mid_line: !whole_line,
            streamed: true,
            ended: whole_line,
            ..self
        };
        let erased = if self.thinking {
            seq![WriteView::Stderr(ERASE@)]
        } else {
            Seq::empty()
        };
        (after, erased.push(WriteView::Stdout(chunk)))
    }

    /// A piece of reasoning rewrites its line, where that is possible.
    pub open spec fn thought(self, chunk: Seq<char>) -> (RendererView, Seq<WriteView>) {
        if !self.terminal {
            (self, Seq::empty())
        } else {
            let reasoning = self.reasoning + chunk;
            let after = RendererView { reasoning, thinking: true, mid_line: false, ..self };
            let broken = if self.mid_line {
                "\n"@
            } else {
                Seq::empty()
            };
            let line = broken + ERASE@ + DIM@ + thought(reasoning, self.width) + PLAIN@;
            (after, seq![WriteView::Stderr(line)])
        }
    }

    /// Something that tools did: whole lines, shown only where they are wanted.
    pub open spec fn noted(self, lines: Seq<char>) -> (RendererView, Seq<WriteView>) {
        if !self.verbose {
            (RendererView { reasoning: Seq::empty(), ..self }, Seq::empty())
        } else {
            let after = RendererView {
                reasoning: Seq::empty(),
                thinking: false,
                mid_line: false,
                ..self
            };
            (after, seq![WriteView::Stderr(self.line_break() + lines)])
        }
    }

    /// What an event does to the screen.
    pub open spec fn shown(self, event: EventView) -> (RendererView, Seq<WriteView>) {
        match event {
            EventView::Text(chunk) => self.answered(chunk),
            EventView::Thinking(chunk) => self.thought(chunk),
            EventView::ToolCall { name, arguments } => self.noted(
                call_text(name, crate::json::json_text(arguments)),
            ),
            EventView::ToolResult { output, .. } => self.noted(with_ends(first_lines(output))),
            EventView::ToolSkipped { .. } => (
                RendererView { reasoning: Seq::empty(), ..self },
                Seq::empty(),
            ),
        }
    }

    /// The reasoning leaves the screen.
    pub open spec fn wiped(self) -> (RendererView, Seq<WriteView>) {
        if self.thinking {
            (
                RendererView { reasoning: Seq::empty(), thinking: false, ..self },
                seq![WriteView::Stderr(ERASE@)],
            )
        } else {
            (self, Seq::empty())
        }
    }

    /// What is left to write once the answer is known: the end of its last line,
    /// or all of it if nothing was written while it was made.
    pub open spec fn rest(self, answer: Seq<char>) -> Seq<WriteView> {
        if self.streamed {
            if self.ended {
                Seq::empty()
            } else {
                seq![WriteView::Stdout("\n"@)]
            }
        } else if crate::text::blank(answer) {
            seq![WriteView::Stderr(NO_ANSWER@ + "\n"@)]
        } else {
            seq![WriteView::Stdout(crate::text::trimmed_end(answer) + "\n"@)]
        }
    }
}

fn ends_line(text: &str) -> (ends: bool)
    ensures
        ends == (text@.len() > 0 && text@.last() == '\n'),
{
    let length: usize = text.unicode_len();
    length > 0 && text.get_char(length - 1) == '\n'
}

impl Renderer {
    /// A renderer with a clean screen.
    pub fn new(verbose: bool, terminal: bool, width: usize) -> (renderer: Self)
        ensures
            renderer@ == RendererView::fresh(verbose, terminal, width as nat),
    {
        Renderer {
            verbose,
            terminal,
            width,
            reasoning: String::new(),
            thinking: false,
            mid_line: false,
            streamed: false,
            ended: true,
        }
    }

    /// Show whole lines about tools.
    fn note(&mut self, lines: String) -> (writes: Vec<Write>)
        ensures
            (final(self)@, writes_view(writes@)) == old(self)@.noted(lines@),
    {
        let mut writes: Vec<Write> = Vec::new();
        self.reasoning = String::new();
        if self.verbose {
            let mut text = String::new();
            if self.mid_line {
                text.append("\n");
            } else if self.thinking {
                text.append(ERASE);
            }
            assert(text@ == old(self)@.line_break());
            text.append(lines.as_str());
            writes.push(Write::Stderr(text));
            self.thinking = false;
            self.mid_line = false;
        }
        assert(writes_view(writes@) == old(self)@.noted(lines@).1);
        writes
    }

    /// What an event has written.
    pub fn show(&mut self, event: &Event) -> (writes: Vec<Write>)
        ensures
            (final(self)@, writes_view(writes@)) == old(self)@.shown(event@),
    {
        let mut writes: Vec<Write> = Vec::new();
        match event {
            Event::Text(chunk) => {
                if self.thinking {
                    writes.push(Write::Stderr(ERASE.to_owned()));
                }
                writes.push(Write::Stdout(chunk.clone()));
                let whole_line = ends_line(chunk.as_str());
                self.reasoning = String::new();
                self.thinking = false;
                self.mid_line = !whole_line;
                self.streamed = true;
                self.ended = whole_line;
            },
            Event::Thinking(chunk) => {
                if self.terminal {
                    let mut line = String::new();
                    if self.mid_line {
                        line.append("\n");
                    }
                    self.reasoning.append(chunk.as_str());
                    line.append(ERASE);
                    line.append(DIM);
                    line.append(thought_line(self.reasoning.as_str(), self.width).as_str());
                    line.append(PLAIN);
                    writes.push(Write::Stderr(line));
                    self.thinking = true;
                    self.mid_line = false;
                }
            },
            Event::ToolCall { name, arguments } => {
                return self.note(call_line(name.as_str(), arguments.to_text().as_str()));
            },
            Event::ToolResult { output, .. } => {
                return self.note(excerpt(output.as_str()));
            },
            Event::ToolSkipped { .. } => {
                self.reasoning = String::new();
            },
        }
        assert(writes_view(writes@) == old(self)@.shown(event@).1);
        writes
    }

    /// Take the reasoning off the screen.
    pub fn wipe(&mut self) -> (writes: Vec<Write>)
        ensures
            (final(self)@, writes_view(writes@)) == old(self)@.wiped(),
    {
        let mut writes: Vec<Write> = Vec::new();
        if self.thinking {
            writes.push(Write::Stderr(ERASE.to_owned()));
            self.thinking = false;
            self.reasoning = String::new();
        }
        assert(writes_view(writes@) == old(self)@.wiped().1);
        writes
    }

    /// What is left to write once the answer is known.
    pub fn finish(&mut self, answer: &str) -> (writes: Vec<Write>)
        ensures
            final(self)@ == old(self)@.wiped().0,
            writes_view(writes@) == old(self)@.wiped().1 + old(self)@.rest(answer@),
    {
        let mut writes = self.wipe();
        if self.streamed {
            if !self.ended {
                writes.push(Write::Stdout("\n".to_owned()));
            }
        } else if is_blank(answer) {
            writes.push(Write::Stderr(NO_ANSWER.to_owned().concat("\n")));
        } else {
            writes.push(Write::Stdout(trim_end(answer).concat("\n")));
        }
        assert(writes_view(writes@) == old(self)@.wiped().1 + old(self)@.rest(answer@));
        writes
    }
}

// --------------------------------------------------------------------- laws

/// What reaches standard output.
pub open spec fn out_text(writes: Seq<WriteView>) -> Seq<char>
    decreases writes.len(),
{
    if writes.len() == 0 {
        Seq::empty()
    } else {
        match writes.last() {
            WriteView::Stdout(text) => out_text(writes.drop_last()) + text,
            WriteView::Stderr(_) => out_text(writes.drop_last()),
        }
    }
}

/// What a run of events has written, and the screen it leaves.
pub open spec fn performed(screen: RendererView, events: Seq<EventView>) -> (
    RendererView,
    Seq<WriteView>,
)
    decreases events.len(),
{
    if events.len() == 0 {
        (screen, Seq::empty())
    } else {
        let (before, writes) = performed(screen, events.drop_last());
        let (after, more) = before.shown(events.last());
        (after, writes + more)
    }
}

proof fn lemma_out_text_concat(a: Seq<WriteView>, b: Seq<WriteView>)
    ensures
        out_text(a + b) == out_text(a) + out_text(b),
    decreases b.len(),
{
    if b.len() == 0 {
        assert(a + b == a);
    } else {
        lemma_out_text_concat(a, b.drop_last());
        assert((a + b).drop_last() == a + b.drop_last());
        assert(out_text(a + b) == out_text(a) + out_text(b));
    }
}

proof fn lemma_out_of_one(screen: RendererView, event: EventView)
    ensures
        out_text(screen.shown(event).1) == match event {
            EventView::Text(chunk) => chunk,
            _ => Seq::empty(),
        },
{
    let writes = screen.shown(event).1;
    reveal_with_fuel(out_text, 3);
    if event is Text {
        if screen.thinking {
            assert(writes.drop_last() == seq![WriteView::Stderr(ERASE@)]);
            assert(writes.drop_last().drop_last() == Seq::<WriteView>::empty());
        } else {
            assert(writes.drop_last() == Seq::<WriteView>::empty());
        }
        assert(out_text(writes) == event->Text_0);
    } else if writes.len() > 0 {
        assert(writes.drop_last() == Seq::<WriteView>::empty());
    }
}

/// Standard output gets the answer text of the events, all of it, in order, and
/// nothing else.
pub proof fn only_the_answer_reaches_standard_output(screen: RendererView, events: Seq<EventView>)
    ensures
        out_text(performed(screen, events).1) == crate::stream::shown_text(events),
    decreases events.len(),
{
    if events.len() > 0 {
        let (before, writes) = performed(screen, events.drop_last());
        only_the_answer_reaches_standard_output(screen, events.drop_last());
        lemma_out_text_concat(writes, before.shown(events.last()).1);
        lemma_out_of_one(before, events.last());
    }
}

/// Where standard error is no terminal and no detail was asked for, events write
/// nothing to it.
pub proof fn quiet_runs_write_only_the_answer(screen: RendererView, events: Seq<EventView>)
    requires
        !screen.verbose,
        !screen.terminal,
        !screen.thinking,
    ensures
        forall|i: int|
            0 <= i < performed(screen, events).1.len() ==> (#[trigger] performed(
                screen,
                events,
            ).1[i]) is Stdout,
        !performed(screen, events).0.verbose,
        !performed(screen, events).0.terminal,
        !performed(screen, events).0.thinking,
    decreases events.len(),
{
    if events.len() > 0 {
        quiet_runs_write_only_the_answer(screen, events.drop_last());
    }
}

/// What is shown of the reasoning never takes more than one line.
pub proof fn thoughts_fit_into_a_line(reasoning: Seq<char>, width: nat)
    ensures
        columns(thought(reasoning, width)) <= width,
        !thought(reasoning, width).contains('\n'),
{
    let line = flat(crate::text::last_piece(reasoning, '\n'));
    lemma_line_end_fits(line, width);
    assert forall|i: int| 0 <= i < line.len() implies #[trigger] line[i] != '\n' by {}
}

proof fn lemma_line_end_fits(text: Seq<char>, width: nat)
    requires
        forall|i: int| 0 <= i < text.len() ==> #[trigger] text[i] != '\n',
    ensures
        columns(line_end(text, width)) <= width,
        forall|i: int|
            0 <= i < line_end(text, width).len() ==> #[trigger] line_end(text, width)[i] != '\n',
    decreases text.len(),
{
    if columns(text) > width && text.len() > 0 {
        let shorter = text.drop_first();
        assert forall|i: int| 0 <= i < shorter.len() implies #[trigger] shorter[i] != '\n' by {
            assert(text[i + 1] != '\n');
        }
        lemma_line_end_fits(shorter, width);
    }
}

/// A task is its words with a blank between them, as they were given, unless there
/// is nothing but whitespace in it.
pub proof fn a_task_is_its_words(words: Seq<Seq<char>>, word: Seq<char>)
    requires
        !crate::text::blank(word),
    ensures
        task_text(seq![word]) == Some(word),
        words.len() > 0 ==> task_text(words.push(word)) == Some(
            crate::text::joined(words, " "@) + " "@ + word,
        ),
        task_text(Seq::empty()) is None,
{
    crate::text::joined_texts_stand_one_behind_the_other(words, word, " "@);
    let i = choose|i: int| 0 <= i < word.len() && !crate::text::is_white(#[trigger] word[i]);
    if words.len() > 0 {
        let front = crate::text::joined(words, " "@) + " "@;
        assert((front + word)[front.len() + i] == word[i]);
    }
}

/// Words that are blank make no task.
pub proof fn blank_words_make_no_task(words: Seq<Seq<char>>)
    requires
        forall|i: int| 0 <= i < words.len() ==> crate::text::blank(#[trigger] words[i]),
    ensures
        task_text(words) is None,
{
    lemma_blank_words(words);
}

proof fn lemma_blank_words(words: Seq<Seq<char>>)
    requires
        forall|i: int| 0 <= i < words.len() ==> crate::text::blank(#[trigger] words[i]),
    ensures
        crate::text::blank(crate::text::joined(words, " "@)),
    decreases words.len(),
{
    reveal_strlit(" ");
    if words.len() > 1 {
        let fewer = words.drop_last();
        assert forall|i: int| 0 <= i < fewer.len() implies crate::text::blank(
            #[trigger] fewer[i],
        ) by {
            assert(crate::text::blank(words[i]));
        }
        lemma_blank_words(fewer);
        let front = crate::text::joined(fewer, " "@);
        let last = words.last();
        assert(crate::text::blank(words[words.len() - 1]));
        let all = front + " "@ + last;
        assert forall|i: int| 0 <= i < all.len() implies crate::text::is_white(
            #[trigger] all[i],
        ) by {
            if i < front.len() {
                assert(all[i] == front[i]);
            } else if i == front.len() {
                assert(all[i] == ' ');
            } else {
                assert(all[i] == last[i - front.len() - 1]);
            }
        }
    }
}

/// The keys that count: a key that is not blank is used as it is.
pub proof fn a_key_counts_unless_it_is_blank(key: Seq<char>)
    ensures
        !crate::text::blank(key) ==> said(Some(key)) == Some(key),
        crate::text::blank(key) ==> said(Some(key)) is None,
        said(None) is None,
{
}

/// What is shown of the reasoning is the end of its last line: as many characters
/// as fit, and not one more could. Each stands for itself, or is a blank where it
/// would move the cursor.
pub proof fn a_thought_is_the_end_of_its_line(
    before: Seq<char>,
    line: Seq<char>,
    width: nat,
)
    requires
        !line.contains('\n'),
        before.len() == 0 || before.last() == '\n',
    ensures
        exists|start: int|
            #![trigger line.skip(start)]
            0 <= start <= line.len() && thought(before + line, width).len() == line.len() - start
                && (forall|i: int|
                start <= i < line.len() ==> (#[trigger] thought(before + line, width)[i - start])
                    == if (line[i] as u32) < 0x20 || 0x7f <= line[i] as u32 <= 0x9f {
                    ' '
                } else {
                    line[i]
                }) && columns(thought(before + line, width)) <= width && (start > 0 ==> columns(
                flat(line.skip(start - 1)),
            ) > width),
{
    crate::text::lemma_pieces_of_part(before, line, '\n');
    assert(Seq::<char>::empty() + line == line);
    assert(crate::text::last_piece(before + line, '\n') == line);
    let text = flat(line);
    lemma_line_end_place(text, width);
    let start = choose|start: int|
        0 <= start <= text.len() && line_end(text, width) == #[trigger] text.skip(start)
            && columns(text.skip(start)) <= width && (start > 0 ==> columns(text.skip(start - 1))
            > width);
    if start > 0 {
        assert(flat(line.skip(start - 1)) == text.skip(start - 1));
    }
    let shown = thought(before + line, width);
    assert(shown == text.skip(start));
    assert forall|i: int| start <= i < line.len() implies (#[trigger] shown[i - start]) == if (
    line[i] as u32) < 0x20 || 0x7f <= line[i] as u32 <= 0x9f {
        ' '
    } else {
        line[i]
    } by {
        assert(shown[i - start] == text[i]);
    }
    assert(line.skip(start).len() == line.len() - start);
}

proof fn lemma_line_end_place(text: Seq<char>, width: nat)
    ensures
        exists|start: int|
            0 <= start <= text.len() && line_end(text, width) == #[trigger] text.skip(start)
                && columns(text.skip(start)) <= width && (start > 0 ==> columns(
                text.skip(start - 1),
            ) > width),
    decreases text.len(),
{
    if columns(text) <= width || text.len() == 0 {
        assert(text.skip(0) == text);
    } else {
        let less = text.drop_first();
        lemma_line_end_place(less, width);
        let start = choose|start: int|
            0 <= start <= less.len() && line_end(less, width) == #[trigger] less.skip(start)
                && columns(less.skip(start)) <= width && (start > 0 ==> columns(
                less.skip(start - 1),
            ) > width);
        assert(less.skip(start) == text.skip(start + 1));
        if start > 0 {
            assert(less.skip(start - 1) == text.skip(start));
        } else {
            assert(text.skip(0) == text);
        }
    }
}

/// A character takes one column, or two where it may be wide, and a text as many as
/// its characters.
pub proof fn columns_add_up(c: char, text: Seq<char>)
    ensures
        columns(Seq::empty()) == 0,
        (c as u32) < 0x1100 ==> columns(seq![c] + text) == 1 + columns(text),
        c as u32 >= 0x1100 ==> columns(seq![c] + text) == 2 + columns(text),
{
    assert((seq![c] + text).drop_first() == text);
}

/// Of a tool's output the first three lines are shown, as they are, or all of them
/// if there are no more.
pub proof fn the_first_lines_of_an_output_are_shown(lines: Seq<Seq<char>>, rest: Seq<char>)
    requires
        forall|i: int| 0 <= i < lines.len() ==> !(#[trigger] lines[i]).contains('\n'),
        !rest.contains('\n'),
    ensures
        lines.len() >= 3 ==> first_lines(crate::sse::body_of(lines) + rest) == seq![
            lines[0],
            lines[1],
            lines[2],
        ],
        lines.len() < 3 && rest.len() == 0 ==> first_lines(crate::sse::body_of(lines) + rest)
            == lines,
        lines.len() < 3 && rest.len() > 0 ==> first_lines(crate::sse::body_of(lines) + rest)
            == lines.push(rest),
{
    crate::sse::lemma_lines_of_body(lines);
    crate::text::lemma_pieces_of_part(crate::sse::body_of(lines), rest, '\n');
    assert(Seq::<char>::empty() + rest == rest);
    if lines.len() >= 3 {
        assert(first_lines(crate::sse::body_of(lines) + rest) == seq![
            lines[0],
            lines[1],
            lines[2],
        ]);
    }
}

/// What reaches standard error, without what reaches standard output.
pub open spec fn err_text(writes: Seq<WriteView>) -> Seq<char>
    decreases writes.len(),
{
    if writes.len() == 0 {
        Seq::empty()
    } else {
        match writes.last() {
            WriteView::Stderr(text) => err_text(writes.drop_last()) + text,
            WriteView::Stdout(_) => err_text(writes.drop_last()),
        }
    }
}

/// Where detail was asked for, a tool call is told with its name and its arguments,
/// and its output with its first lines, each on a line of its own. Otherwise tools
/// write nothing.
pub proof fn tools_are_told_where_detail_was_asked_for(
    screen: RendererView,
    name: Seq<char>,
    arguments: crate::json::Json,
    output: Seq<char>,
)
    ensures
        ({
            let called = screen.shown(EventView::ToolCall { name, arguments });
            let done = screen.shown(EventView::ToolResult { name, output });
            let free = if screen.mid_line {
                "\n"@
            } else if screen.thinking {
                "\r\x1b[K"@
            } else {
                Seq::empty()
            };
            if screen.verbose {
                &&& err_text(called.1) == free + name + " "@ + crate::json::json_text(arguments)
                    + "\n"@
                &&& err_text(done.1) == free + with_ends(first_lines(output))
                &&& !called.0.mid_line && !called.0.thinking
                &&& !done.0.mid_line && !done.0.thinking
            } else {
                &&& called.1.len() == 0
                &&& done.1.len() == 0
            }
        }),
        screen.shown(EventView::ToolSkipped { name }).1.len() == 0,
{
    let called = screen.shown(EventView::ToolCall { name, arguments });
    let done = screen.shown(EventView::ToolResult { name, output });
    reveal_with_fuel(err_text, 2);
    if screen.verbose {
        let free = screen.line_break();
        let told = name + " "@ + crate::json::json_text(arguments) + "\n"@;
        assert(called.1.drop_last() == Seq::<WriteView>::empty());
        assert(done.1.drop_last() == Seq::<WriteView>::empty());
        assert(err_text(called.1) == free + told);
        assert(free + told == free + name + " "@ + crate::json::json_text(arguments) + "\n"@);
        assert(err_text(done.1) == free + with_ends(first_lines(output)));
    }
}

/// Lines with their ends, one more at a time.
pub proof fn each_line_has_its_end(lines: Seq<Seq<char>>, line: Seq<char>)
    ensures
        with_ends(lines.push(line)) == with_ends(lines) + line + "\n"@,
        with_ends(Seq::empty()) == Seq::<char>::empty(),
{
    assert(lines.push(line).drop_last() == lines);
}

/// On a terminal, a thought takes over its line: the line is erased and what fits
/// of the reasoning since anything else happened is written dimmed. Elsewhere a
/// thought leaves no trace.
pub proof fn a_thought_takes_over_its_line(screen: RendererView, chunk: Seq<char>)
    ensures
        ({
            let (after, writes) = screen.shown(EventView::Thinking(chunk));
            if screen.terminal {
                &&& writes.len() == 1
                &&& writes[0] == WriteView::Stderr(
                    (if screen.mid_line {
                        "\n"@
                    } else {
                        Seq::empty()
                    }) + "\r\x1b[K"@ + "\x1b[2m"@ + thought(screen.reasoning + chunk, screen.width)
                        + "\x1b[0m"@,
                )
                &&& after == (RendererView {
                    reasoning: screen.reasoning + chunk,
                    thinking: true,
                    mid_line: false,
                    ..screen
                })
            } else {
                &&& writes.len() == 0
                &&& after == screen
            }
        }),
{
}

/// A piece of the answer is written as it is, over the line of the reasoning if one
/// is on the screen; the reasoning so far is forgotten.
pub proof fn an_answer_takes_over_the_line(screen: RendererView, chunk: Seq<char>)
    ensures
        ({
            let (after, writes) = screen.shown(EventView::Text(chunk));
            let ends = chunk.len() > 0 && chunk.last() == '\n';
            &&& writes == if screen.thinking {
                seq![WriteView::Stderr("\r\x1b[K"@), WriteView::Stdout(chunk)]
            } else {
                seq![WriteView::Stdout(chunk)]
            }
            &&& after == (RendererView {
                reasoning: Seq::empty(),
                thinking: false,
                mid_line: !ends,
                streamed: true,
                ended: ends,
                ..screen
            })
        }),
{
    let (after, writes) = screen.shown(EventView::Text(chunk));
    if screen.thinking {
        assert(writes == seq![WriteView::Stderr("\r\x1b[K"@), WriteView::Stdout(chunk)]);
    } else {
        assert(writes == seq![WriteView::Stdout(chunk)]);
    }
}

/// Whatever tools did, the reasoning behind it begins anew.
pub proof fn tools_end_a_line_of_thought(screen: RendererView, event: EventView)
    requires
        event is ToolCall || event is ToolResult || event is ToolSkipped,
    ensures
        screen.shown(event).0.reasoning == Seq::<char>::empty(),
        screen.shown(event).0.streamed == screen.streamed,
        screen.shown(event).0.ended == screen.ended,
{
}

/// How the answer stands once events were shown: whether any of it was written, and
/// whether that ends with an end of line.
proof fn lemma_how_the_answer_stands(screen: RendererView, events: Seq<EventView>)
    requires
        !screen.streamed,
        forall|i: int|
            0 <= i < events.len() && (#[trigger] events[i]) is Text ==> events[i]->Text_0.len() > 0,
    ensures
        ({
            let after = performed(screen, events).0;
            let shown = crate::stream::shown_text(events);
            &&& after.streamed == (shown.len() > 0)
            &&& shown.len() > 0 ==> after.ended == (shown.last() == '\n')
        }),
    decreases events.len(),
{
    if events.len() > 0 {
        let before = events.drop_last();
        assert forall|i: int|
            0 <= i < before.len() && (#[trigger] before[i]) is Text implies before[i]->Text_0.len()
            > 0 by {
            assert(events[i] is Text);
        }
        lemma_how_the_answer_stands(screen, before);
        let last = events.last();
        assert(last == events[events.len() - 1]);
        let so_far = performed(screen, before).0;
        if last is Text {
            let shown = crate::stream::shown_text(events);
            assert(shown.last() == last->Text_0.last());
        }
    }
}

/// Standard output holds the whole answer in the end: what was streamed, with one
/// end of line behind it unless it has one. If nothing was streamed, it holds the
/// answer without the whitespace at its end, and an end of line; if that is
/// nothing, standard output stays empty, and standard error says so.
pub proof fn standard_output_holds_the_answer(
    screen: RendererView,
    events: Seq<EventView>,
    answer: Seq<char>,
)
    requires
        !screen.streamed,
        forall|i: int|
            0 <= i < events.len() && (#[trigger] events[i]) is Text ==> events[i]->Text_0.len() > 0,
    ensures
        ({
            let (after, writes) = performed(screen, events);
            let all = writes + after.wiped().1 + after.wiped().0.rest(answer);
            let shown = crate::stream::shown_text(events);
            &&& shown.len() > 0 && shown.last() == '\n' ==> out_text(all) == shown
            &&& shown.len() > 0 && shown.last() != '\n' ==> out_text(all) == shown + "\n"@
            &&& shown.len() == 0 && !crate::text::blank(answer) ==> out_text(all)
                == crate::text::trimmed_end(answer) + "\n"@
            &&& shown.len() == 0 && crate::text::blank(answer) ==> out_text(all)
                == Seq::<char>::empty() && all.last() == WriteView::Stderr(
                "(the model finished without an answer)"@ + "\n"@,
            )
            &&& after.wiped().0.rest(answer) == after.rest(answer)
        }),
{
    let (after, writes) = performed(screen, events);
    let wiped = after.wiped().1;
    let rest = after.rest(answer);
    let shown = crate::stream::shown_text(events);
    only_the_answer_reaches_standard_output(screen, events);
    lemma_how_the_answer_stands(screen, events);
    lemma_out_text_concat(writes + wiped, rest);
    lemma_out_text_concat(writes, wiped);
    reveal_with_fuel(out_text, 2);
    let nothing = Seq::<WriteView>::empty();
    if wiped.len() > 0 {
        assert(wiped.drop_last() == nothing);
    }
    if rest.len() > 0 {
        assert(rest.drop_last() == nothing);
        assert((writes + wiped + rest).last() == rest.last());
    }
    assert(shown + Seq::<char>::empty() == shown);
    assert(shown.len() == 0 ==> shown == Seq::<char>::empty());
    assert(Seq::<char>::empty() + (crate::text::trimmed_end(answer) + "\n"@)
        == crate::text::trimmed_end(answer) + "\n"@);
    assert(Seq::<char>::empty() + "\n"@ == "\n"@);
}

/// A thought that is on the screen is wiped off it, and the answer stays as it is.
pub proof fn wiping_takes_the_thought_off_the_screen(screen: RendererView)
    ensures
        screen.thinking ==> screen.wiped() == (
            (RendererView { reasoning: Seq::empty(), thinking: false, ..screen }),
            seq![WriteView::Stderr("\r\x1b[K"@)],
        ),
        !screen.thinking ==> screen.wiped() == (screen, Seq::<WriteView>::empty()),
{
}

/// A new screen has nothing on it.
pub proof fn a_new_screen_is_empty(verbose: bool, terminal: bool, width: nat)
    ensures
        ({
            let screen = RendererView::fresh(verbose, terminal, width);
            &&& screen.verbose == verbose
            &&& screen.terminal == terminal
            &&& screen.width == width
            &&& screen.reasoning.len() == 0
            &&& !screen.thinking
            &&& !screen.mid_line
            &&& !screen.streamed
        }),
{
}

/// Where no detail was asked for, tools change nothing on the screen: they only
/// end a line of thought.
pub proof fn tools_leave_a_quiet_screen_alone(screen: RendererView, event: EventView)
    requires
        event is ToolCall || event is ToolResult || event is ToolSkipped,
        !screen.verbose || event is ToolSkipped,
    ensures
        screen.shown(event).0 == (RendererView { reasoning: Seq::empty(), ..screen }),
        screen.shown(event).1.len() == 0,
{
}

/// A key that says anything is used as it is: the one that was given before the
/// conventional one, and that one where none was given or it is blank.
pub proof fn a_given_key_goes_first(
    given: Seq<char>,
    conventional: Seq<char>,
    other: Option<Seq<char>>,
)
    ensures
        !crate::text::blank(given) ==> chosen_key(Some(given), other) == Some(given),
        crate::text::blank(given) ==> chosen_key(Some(given), other) == chosen_key(None, other),
        !crate::text::blank(conventional) ==> chosen_key(None, Some(conventional)) == Some(
            conventional,
        ),
        crate::text::blank(conventional) ==> chosen_key(None, Some(conventional)) is None,
        chosen_key(None, None) is None,
{
}

} // verus!
