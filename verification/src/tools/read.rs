//! `read` — return a window of a UTF-8 text file.

use vstd::prelude::*;

use super::{
    arg_str, count_arg, count_value, resolve_on, schema_value, string_value, FilePath, ToolError,
    ToolErrorView, Tools, PATH_DESCRIPTION,
};
use crate::json::{Json, JsonValue, Object};
use crate::text::{clip, join, push_decimal};
use crate::{DefinitionView, ToolDefinition};

verus! {

/// Return some lines of a file.
#[derive(Debug)]
pub struct ReadJob {
    pub path: FilePath,
    /// The first line to return, counted from one.
    pub offset: usize,
    /// How many lines to return at most.
    pub limit: usize,
    pub max_output: usize,
}

/// A count, or what stands for it where it is missing.
pub open spec fn count_or(
    arguments: Json,
    key: Seq<char>,
    default: usize,
) -> Result<usize, ToolErrorView> {
    match super::count_member(arguments, key) {
        Ok(Some(count)) => Ok(count),
        Ok(None) => Ok(default),
        Err(value) => Err(ToolErrorView::BadCount { key, value }),
    }
}

/// What the arguments of `read` ask for: a file, the first line and how many.
pub open spec fn read_job(
    read_limit: usize,
    arguments: Json,
) -> Result<(Seq<char>, usize, usize), ToolErrorView> {
    match super::path_argument(arguments) {
        Err(error) => Err(error),
        Ok(path) => match count_or(arguments, "offset"@, 1) {
            Err(error) => Err(error),
            Ok(offset) => match count_or(arguments, "limit"@, read_limit) {
                Err(error) => Err(error),
                Ok(limit) => Ok((path, offset, limit)),
            },
        },
    }
}

/// Work out what a `read` call asks for.
pub fn plan(tools: &Tools, arguments: &JsonValue) -> (job: Result<ReadJob, ToolError>)
    ensures
        match job {
            Ok(job) => {
                &&& read_job(tools.read_limit, arguments@) matches Ok((path, offset, limit))
                &&& super::path::means(tools.backslash, tools.cwd@, path, job.path@)
                &&& job.offset == offset
                &&& job.limit == limit
                &&& job.max_output == tools.max_output
            },
            Err(error) => read_job(tools.read_limit, arguments@) == Err::<
                (Seq<char>, usize, usize),
                ToolErrorView,
            >(error@),
        },
{
    let path = resolve_on(
        tools.backslash,
        tools.cwd.as_str(),
        arg_str(arguments, "path")?.as_str(),
    )?;
    let offset: usize = match count_arg(arguments, "offset")? {
        Some(count) => count,
        None => 1,
    };
    let limit: usize = match count_arg(arguments, "limit")? {
        Some(count) => count,
        None => tools.read_limit,
    };
    Ok(ReadJob { path, offset, limit, max_output: tools.max_output })
}

// ------------------------------------------------------------------- reading

/// The lines of a window, taken from a file line by line, so an absurdly large
/// file costs one window and not the whole file.
#[derive(Debug)]
pub struct LineWindow {
    offset: usize,
    limit: usize,
    number: usize,
    selected: Vec<String>,
    truncated: bool,
}

pub struct WindowView {
    pub offset: nat,
    pub limit: nat,
    /// How many lines were seen.
    pub number: nat,
    pub selected: Seq<Seq<char>>,
    /// Whether there are lines behind the window.
    pub truncated: bool,
}

impl View for LineWindow {
    type V = WindowView;

    closed spec fn view(&self) -> WindowView {
        WindowView {
            offset: self.offset as nat,
            limit: self.limit as nat,
            number: self.number as nat,
            selected: crate::texts_view(self.selected@),
            truncated: self.truncated,
        }
    }
}

impl WindowView {
    /// A window on a file of which nothing was read.
    pub open spec fn at(offset: nat, limit: nat) -> WindowView {
        WindowView { offset, limit, number: 0, selected: Seq::empty(), truncated: false }
    }

    /// The window after one more line of the file. The first line behind a full
    /// window ends it.
    pub open spec fn with(self, line: Seq<char>) -> WindowView {
        let number = self.number + 1;
        if self.truncated {
            self
        } else if number < self.offset {
            WindowView { number, ..self }
        } else if self.selected.len() == self.limit {
            WindowView { number, truncated: true, ..self }
        } else {
            WindowView { number, selected: self.selected.push(line), ..self }
        }
    }

    /// The window after all these lines of the file.
    pub open spec fn with_all(self, lines: Seq<Seq<char>>) -> WindowView
        decreases lines.len(),
    {
        if lines.len() == 0 {
            self
        } else {
            self.with_all(lines.drop_last()).with(lines.last())
        }
    }

    /// The lines of the window, each with its end. Lines behind it are announced.
    pub open spec fn text(self) -> Seq<char> {
        let lines = crate::text::joined(self.selected, "\n"@) + "\n"@;
        if self.truncated {
            "[truncated: lines "@ + crate::text::decimal(self.offset) + "-"@
                + crate::text::decimal((self.offset + self.selected.len() - 1) as nat) + "]\n"@
                + lines
        } else {
            lines
        }
    }
}

impl LineWindow {
    #[verifier::type_invariant]
    spec fn selected_are_counted(&self) -> bool {
        self.selected@.len() > 0 ==> self.offset + self.selected@.len() - 1 <= self.number
    }

    /// A window that begins at line `offset` and holds `limit` lines at most.
    pub fn new(offset: usize, limit: usize) -> (window: Self)
        ensures
            window@ == WindowView::at(offset as nat, limit as nat),
    {
        let window = LineWindow {
            offset,
            limit,
            number: 0,
            selected: Vec::new(),
            truncated: false,
        };
        assert(crate::texts_view(window.selected@) == Seq::<Seq<char>>::empty());
        window
    }

    /// How many lines were seen.
    pub fn number(&self) -> (number: usize)
        ensures
            number == self@.number,
    {
        self.number
    }

    /// Whether more lines would change anything.
    pub fn is_closed(&self) -> (closed: bool)
        ensures
            closed == self@.truncated,
    {
        self.truncated
    }

    /// Take in the next line of the file.
    pub fn push(&mut self, line: String)
        requires
            old(self)@.truncated || old(self)@.number < usize::MAX,
        ensures
            final(self)@ == old(self)@.with(line@),
    {
        proof {
            use_type_invariant(&*self);
        }
        if self.truncated {
            return;
        }
        let ghost so_far = crate::texts_view(self.selected@);
        let number = self.number + 1;
        self.number = number;
        if number < self.offset {
            return;
        }
        if self.selected.len() == self.limit {
            self.truncated = true;
            return;
        }
        let mut selected: Vec<String> = Vec::new();
        std::mem::swap(&mut selected, &mut self.selected);
        let ghost text = line@;
        selected.push(line);
        assert(crate::texts_view(selected@) == so_far.push(text));
        self.selected = selected;
    }
}

/// What the model is told of a window on the file at `path`.
pub open spec fn told_of(
    window: WindowView,
    path: Seq<char>,
    max_output: nat,
) -> Result<Seq<char>, ToolErrorView> {
    if window.selected.len() > 0 {
        Ok(crate::text::clipped(window.text(), max_output))
    } else {
        Err(ToolErrorView::NothingToRead { offset: window.offset, path, lines: window.number })
    }
}

impl ReadJob {
    /// The window that is asked for.
    pub fn window(&self) -> (window: LineWindow)
        ensures
            window@ == WindowView::at(self.offset as nat, self.limit as nat),
    {
        LineWindow::new(self.offset, self.limit)
    }

    /// What the model is told of the window.
    pub fn finish(&self, window: LineWindow) -> (output: Result<String, ToolError>)
        ensures
            match output {
                Ok(output) => {
                    &&& window@.selected.len() > 0
                    &&& output@ == crate::text::clipped(window@.text(), self.max_output as nat)
                },
                Err(error) => {
                    &&& window@.selected.len() == 0
                    &&& error@ == (ToolErrorView::NothingToRead {
                        offset: window@.offset,
                        path: self.path@.text(),
                        lines: window@.number,
                    })
                },
            },
            match output {
                Ok(output) => told_of(window@, self.path@.text(), self.max_output as nat)
                    == Ok::<Seq<char>, ToolErrorView>(output@),
                Err(error) => told_of(window@, self.path@.text(), self.max_output as nat)
                    == Err::<Seq<char>, ToolErrorView>(error@),
            },
    {
        proof {
            use_type_invariant(&window);
        }
        let offset = window.offset;
        if window.selected.len() == 0 {
            return Err(
                ToolError::NothingToRead {
                    offset,
                    path: self.path.text(),
                    lines: window.number,
                },
            );
        }
        let mut text = String::new();
        if window.truncated {
            text.append("[truncated: lines ");
            push_decimal(&mut text, offset as u64);
            text.append("-");
            push_decimal(&mut text, (offset + (window.selected.len() - 1)) as u64);
            text.append("]\n");
        }
        text.append(join(&window.selected, "\n").as_str());
        text.append("\n");
        assert(text@ == window@.text());
        Ok(clip(text.as_str(), self.max_output))
    }
}

// ---------------------------------------------------------------- definition

/// What `read` is for, given how many lines it returns unless it is told
/// otherwise.
pub open spec fn description_text(limit: nat) -> Seq<char> {
    "Read a UTF-8 text file. Returns `limit` lines starting at line `offset` (1-based, "@
        + crate::text::decimal(limit)
        + " lines by default). Reading a large file without offset/limit returns its head only."@
}

/// The parameters of `read`.
pub open spec fn parameters() -> Json {
    super::schema(
        Map::empty().insert("path"@, super::string_property(PATH_DESCRIPTION@)).insert(
            "offset"@,
            super::count_property("First line to return, 1-based. Defaults to 1."@),
        ).insert("limit"@, super::count_property("Maximum number of lines to return."@)),
        seq![Json::Text("path"@)],
        false,
    )
}

/// `read` as the model sees it.
pub fn definition(limit: usize) -> (definition: ToolDefinition)
    ensures
        definition@ == (DefinitionView {
            name: "read"@,
            description: description_text(limit as nat),
            parameters: parameters(),
        }),
{
    let mut description =
        "Read a UTF-8 text file. Returns `limit` lines starting at line `offset` (1-based, ".to_owned();
    push_decimal(&mut description, limit as u64);
    description.append(
        " lines by default). Reading a large file without offset/limit returns its head only.",
    );
    let properties = Object::new().with("path", string_value(PATH_DESCRIPTION)).with(
        "offset",
        count_value("First line to return, 1-based. Defaults to 1."),
    ).with("limit", count_value("Maximum number of lines to return."));
    let mut required: Vec<JsonValue> = Vec::new();
    required.push(JsonValue::text("path"));
    proof {
        crate::json::lemma_items_view(required@);
        assert(crate::json::items_view(required@) == seq![Json::Text("path"@)]);
    }
    ToolDefinition {
        name: "read".to_owned(),
        description,
        parameters: schema_value(properties, required, false),
    }
}

// --------------------------------------------------------------------- laws

/// The lines of a file from line `offset` on, counted from one.
pub open spec fn lines_from(lines: Seq<Seq<char>>, offset: nat) -> Seq<Seq<char>> {
    if offset == 0 {
        lines
    } else if offset - 1 <= lines.len() {
        lines.skip(offset - 1)
    } else {
        Seq::empty()
    }
}

/// A window holds the lines of the file from its first line on, as many as it may
/// hold, and it is cut short exactly when the file goes on behind it.
pub proof fn a_window_holds_the_lines_from_its_offset(
    lines: Seq<Seq<char>>,
    offset: nat,
    limit: nat,
)
    ensures
        ({
            let rest = lines_from(lines, offset);
            let window = WindowView::at(offset, limit).with_all(lines);
            &&& window.offset == offset && window.limit == limit
            &&& window.truncated == (rest.len() > limit)
            &&& window.selected == if rest.len() > limit {
                rest.take(limit as int)
            } else {
                rest
            }
            &&& !window.truncated ==> window.number == lines.len()
        }),
    decreases lines.len(),
{
    let rest = lines_from(lines, offset);
    let window = WindowView::at(offset, limit).with_all(lines);
    if lines.len() > 0 {
        let line = lines.last();
        let shorter = lines_from(lines.drop_last(), offset);
        a_window_holds_the_lines_from_its_offset(lines.drop_last(), offset, limit);
        if lines.len() < offset {
            assert(rest == Seq::<Seq<char>>::empty());
            assert(shorter == Seq::<Seq<char>>::empty());
        } else {
            assert(rest == shorter.push(line));
            if rest.len() > limit {
                assert(rest.take(limit as int) == shorter.take(limit as int));
                assert(shorter.take(shorter.len() as int) == shorter);
            }
        }
    } else {
        assert(rest == Seq::<Seq<char>>::empty());
    }
    assert(rest.len() <= limit ==> window.selected == rest);
}

/// A file is read back as it was written: its lines, each with its end, as long
/// as the window may hold them all and the output is large enough.
pub proof fn a_whole_file_is_read_back(lines: Seq<Seq<char>>, limit: nat, max_output: nat)
    requires
        0 < lines.len() <= limit,
        crate::text::byte_len(crate::text::joined(lines, "\n"@) + "\n"@) <= max_output,
    ensures
        ({
            let window = WindowView::at(1, limit).with_all(lines);
            &&& window.selected.len() > 0
            &&& crate::text::clipped(window.text(), max_output) == crate::text::joined(
                lines,
                "\n"@,
            ) + "\n"@
        }),
{
    a_window_holds_the_lines_from_its_offset(lines, 1, limit);
    assert(lines.skip(0) == lines);
}

/// A line without the carriage return of a line end that has one.
pub open spec fn without_return(line: Seq<char>) -> Seq<char> {
    if line.len() > 0 && line.last() == '\r' {
        line.drop_last()
    } else {
        line
    }
}

/// The lines of a file, as they are read: what ends with an end of line, and what
/// is left behind the last one.
pub open spec fn file_lines(content: Seq<char>) -> Seq<Seq<char>> {
    let ended = crate::text::ended_pieces(content, '\n').map_values(
        |line: Seq<char>| without_return(line),
    );
    let rest = crate::text::last_piece(content, '\n');
    if rest.len() == 0 {
        ended
    } else {
        ended.push(rest)
    }
}

/// A text that ends with an end of line is its lines, joined, and that end.
proof fn lemma_lines_join(content: Seq<char>)
    requires
        content.len() > 0,
        content.last() == '\n',
    ensures
        crate::text::ended_pieces(content, '\n').len() > 0,
        crate::text::joined(crate::text::ended_pieces(content, '\n'), "\n"@) + "\n"@ == content,
{
    let before = content.drop_last();
    reveal_strlit("\n");
    assert("\n"@ == seq!['\n']);
    lemma_pieces_join(before);
    assert(content == before + "\n"@);
}

/// The pieces of a text, joined, are the text.
proof fn lemma_pieces_join(text: Seq<char>)
    ensures
        crate::text::joined(crate::text::pieces(text, '\n'), "\n"@) == text,
    decreases text.len(),
{
    reveal_strlit("\n");
    assert("\n"@ == seq!['\n']);
    let parts = crate::text::pieces(text, '\n');
    assert(parts.drop_last() == crate::text::ended_pieces(text, '\n'));
    if text.len() > 0 {
        let before = text.drop_last();
        let shorter = crate::text::pieces(before, '\n');
        lemma_pieces_join(before);
        assert(shorter.drop_last() == crate::text::ended_pieces(before, '\n'));
        if text.last() == '\n' {
            assert(parts.drop_last() == shorter);
            assert(crate::text::joined(parts, "\n"@) == before + "\n"@ + parts.last());
            assert(before + "\n"@ + parts.last() == text);
        } else {
            assert(parts.last() == shorter.last().push(text.last()));
            assert(parts.drop_last() == shorter.drop_last());
            assert(before.push(text.last()) == text);
            if parts.len() == 1 {
                assert(crate::text::joined(parts, "\n"@) == text);
            } else {
                let front = crate::text::joined(shorter.drop_last(), "\n"@) + "\n"@;
                assert(front + shorter.last().push(text.last()) == (front + shorter.last()).push(
                    text.last(),
                ));
            }
        }
    } else {
        assert(parts == seq![Seq::<char>::empty()]);
    }
}

/// What was written is read back, character for character: a content whose lines
/// all end with a plain end of line, as long as the window may hold them all and
/// the output is large enough.
pub proof fn a_written_file_is_read_back(content: Seq<char>, limit: nat, max_output: nat)
    requires
        content.len() > 0,
        content.last() == '\n',
        forall|i: int|
            0 <= i < crate::text::ended_pieces(content, '\n').len() ==> without_return(
                #[trigger] crate::text::ended_pieces(content, '\n')[i],
            ) == crate::text::ended_pieces(content, '\n')[i],
        file_lines(content).len() <= limit,
        crate::text::byte_len(content) <= max_output,
    ensures
        ({
            let window = WindowView::at(1, limit).with_all(file_lines(content));
            &&& window.selected.len() > 0
            &&& crate::text::clipped(window.text(), max_output) == content
        }),
{
    let lines = crate::text::ended_pieces(content, '\n');
    assert(file_lines(content) == lines);
    lemma_lines_join(content);
    a_whole_file_is_read_back(lines, limit, max_output);
}

/// A window behind another goes on where that one was cut short.
pub proof fn the_next_window_goes_on(lines: Seq<Seq<char>>, offset: nat, limit: nat, more: nat)
    requires
        offset > 0,
        WindowView::at(offset, limit).with_all(lines).truncated,
    ensures
        WindowView::at(offset, limit + more).with_all(lines).selected == WindowView::at(
            offset,
            limit,
        ).with_all(lines).selected + WindowView::at(offset + limit, more).with_all(lines).selected,
{
    a_window_holds_the_lines_from_its_offset(lines, offset, limit);
    a_window_holds_the_lines_from_its_offset(lines, offset, limit + more);
    a_window_holds_the_lines_from_its_offset(lines, offset + limit, more);
    let rest = lines_from(lines, offset);
    assert(lines_from(lines, offset + limit) == rest.skip(limit as int));
    if rest.len() > limit + more {
        assert(rest.take((limit + more) as int) == rest.take(limit as int) + rest.skip(
            limit as int,
        ).take(more as int));
    } else {
        assert(rest == rest.take(limit as int) + rest.skip(limit as int));
    }
}

/// What a `read` call with a path says: from which line on, and how many lines.
/// What it leaves out is the first line, and as many lines as are returned unless
/// told otherwise. What is given must be a count, and otherwise is told as it came.
pub proof fn a_read_call_says_what_to_read(read_limit: usize, arguments: Json, path: Seq<char>)
    requires
        super::gives_text(arguments, "path"@, path),
        !crate::text::blank(path),
    ensures
        super::leaves_out(arguments, "offset"@) && super::leaves_out(arguments, "limit"@)
            ==> read_job(read_limit, arguments) == Ok::<(Seq<char>, usize, usize), ToolErrorView>(
            (path, 1, read_limit),
        ),
        forall|n: usize| #[trigger]
            super::gives_count(arguments, "limit"@, n) && super::leaves_out(arguments, "offset"@)
                ==> read_job(read_limit, arguments) == Ok::<
                (Seq<char>, usize, usize),
                ToolErrorView,
            >((path, 1, n)),
        forall|n: usize| #[trigger]
            super::gives_count(arguments, "offset"@, n) && super::leaves_out(arguments, "limit"@)
                ==> read_job(read_limit, arguments) == Ok::<
                (Seq<char>, usize, usize),
                ToolErrorView,
            >((path, n, read_limit)),
        forall|n: usize, m: usize| #[trigger]
            super::gives_count(arguments, "offset"@, n) && #[trigger] super::gives_count(
                arguments,
                "limit"@,
                m,
            ) ==> read_job(read_limit, arguments) == Ok::<
                (Seq<char>, usize, usize),
                ToolErrorView,
            >((path, n, m)),
        forall|value: Json| #[trigger]
            super::gives_no_count(arguments, "offset"@, value) ==> read_job(read_limit, arguments)
                == Err::<(Seq<char>, usize, usize), ToolErrorView>(
                ToolErrorView::BadCount { key: "offset"@, value },
            ),
        forall|value: Json| #[trigger]
            super::gives_no_count(arguments, "limit"@, value) && !(exists|other: Json| #[trigger]
                super::gives_no_count(arguments, "offset"@, other)) ==> read_job(
                read_limit,
                arguments,
            ) == Err::<(Seq<char>, usize, usize), ToolErrorView>(
                ToolErrorView::BadCount { key: "limit"@, value },
            ),
{
    let members = arguments->Object_0;
    assert forall|value: Json| #[trigger]
        super::gives_no_count(arguments, "limit"@, value) && !(exists|other: Json| #[trigger]
            super::gives_no_count(arguments, "offset"@, other)) implies read_job(
        read_limit,
        arguments,
    ) == Err::<(Seq<char>, usize, usize), ToolErrorView>(
        ToolErrorView::BadCount { key: "limit"@, value },
    ) by {
        assert(!super::gives_no_count(arguments, "offset"@, members["offset"@]));
    }
}

/// A `read` call without a usable path says nothing.
pub proof fn a_read_call_needs_a_path(read_limit: usize, arguments: Json)
    ensures
        super::gives_no_text(arguments, "path"@) ==> read_job(read_limit, arguments) == Err::<
            (Seq<char>, usize, usize),
            ToolErrorView,
        >(ToolErrorView::MissingArgument { key: "path"@, arguments }),
        forall|path: Seq<char>| #[trigger]
            super::gives_text(arguments, "path"@, path) && crate::text::blank(path) ==> read_job(
                read_limit,
                arguments,
            ) == Err::<(Seq<char>, usize, usize), ToolErrorView>(ToolErrorView::EmptyPath),
{
}

/// Lines, each with its end.
pub open spec fn each_with_its_end(lines: Seq<Seq<char>>) -> Seq<char>
    decreases lines.len(),
{
    if lines.len() == 0 {
        Seq::empty()
    } else {
        each_with_its_end(lines.drop_last()) + lines.last() + "\n"@
    }
}

proof fn lemma_joined_with_ends(lines: Seq<Seq<char>>)
    requires
        lines.len() > 0,
    ensures
        crate::text::joined(lines, "\n"@) + "\n"@ == each_with_its_end(lines),
    decreases lines.len(),
{
    let before = lines.drop_last();
    if lines.len() == 1 {
        assert(each_with_its_end(before) == Seq::<char>::empty());
        assert(Seq::<char>::empty() + lines.last() == lines.last());
    } else {
        lemma_joined_with_ends(before);
    }
}

/// What is read of a file: its lines from `offset` on, `limit` of them at most, as
/// they are and each with its end. Where lines follow, it says so first, and which
/// lines these are. A file that ends before `offset` has nothing to read, and its
/// lines were counted.
pub proof fn what_is_read_of_a_file(lines: Seq<Seq<char>>, offset: nat, limit: nat)
    requires
        offset >= 1,
        limit >= 1,
    ensures
        ({
            let window = WindowView::at(offset, limit).with_all(lines);
            if offset > lines.len() {
                &&& window.selected.len() == 0
                &&& window.number == lines.len()
                &&& window.offset == offset
            } else if offset - 1 + limit >= lines.len() {
                &&& window.selected.len() > 0
                &&& window.text() == each_with_its_end(lines.skip(offset - 1))
            } else {
                &&& window.selected.len() > 0
                &&& window.text() == "[truncated: lines "@ + crate::text::decimal(offset) + "-"@
                    + crate::text::decimal((offset + limit - 1) as nat) + "]\n"@
                    + each_with_its_end(lines.subrange(offset - 1, offset - 1 + limit))
            }
        }),
{
    a_window_holds_the_lines_from_its_offset(lines, offset, limit);
    let window = WindowView::at(offset, limit).with_all(lines);
    let rest = lines_from(lines, offset);
    if offset <= lines.len() {
        lemma_joined_with_ends(window.selected);
        if rest.len() > limit {
            assert(rest.take(limit as int) == lines.subrange(offset - 1, offset - 1 + limit));
        }
    }
}

/// The model is told how many lines it gets unless it says otherwise.
pub proof fn the_model_is_told_how_many_lines_it_gets(limit: nat)
    ensures
        description_text(limit)
            == "Read a UTF-8 text file. Returns `limit` lines starting at line `offset` (1-based, "@
            + crate::text::decimal(limit)
            + " lines by default). Reading a large file without offset/limit returns its head only."@,
{
}

/// What the model is told of a file: the lines it asked for, each with its end,
/// behind a note where more lines follow; or, where the file ends before them, how
/// many lines it has. Only what is too long is cut.
pub proof fn what_is_told_of_a_file(
    lines: Seq<Seq<char>>,
    offset: nat,
    limit: nat,
    path: Seq<char>,
    max_output: nat,
)
    requires
        offset >= 1,
        limit >= 1,
    ensures
        ({
            let told = told_of(
                WindowView::at(offset, limit).with_all(lines),
                path,
                max_output,
            );
            if offset > lines.len() {
                told == Err::<Seq<char>, ToolErrorView>(
                    ToolErrorView::NothingToRead { offset, path, lines: lines.len() },
                )
            } else if offset - 1 + limit >= lines.len() {
                told == Ok::<Seq<char>, ToolErrorView>(
                    crate::text::clipped(each_with_its_end(lines.skip(offset - 1)), max_output),
                )
            } else {
                told == Ok::<Seq<char>, ToolErrorView>(
                    crate::text::clipped(
                        "[truncated: lines "@ + crate::text::decimal(offset) + "-"@
                            + crate::text::decimal((offset + limit - 1) as nat) + "]\n"@
                            + each_with_its_end(
                            lines.subrange(offset - 1, offset - 1 + limit),
                        ),
                        max_output,
                    ),
                )
            }
        }),
{
    what_is_read_of_a_file(lines, offset, limit);
}

} // verus!
