//! The four tools the agent can call, bound to one working directory.
//!
//! A tool call becomes a job: what to do, worked out from the arguments. The
//! host does the reading, writing and running, and hands what it got back to the
//! job, which makes the tool's output of it.

pub mod edit;
pub mod exec;
pub mod path;
pub mod read;
pub mod write;

pub use crate::text::clip;
pub use edit::EditJob;
pub use exec::ExecJob;
pub use path::{resolve, resolve_on, FilePath};
pub use read::ReadJob;
pub use write::WriteJob;

use vstd::prelude::*;

use crate::json::{Json, JsonValue, Object};
use crate::llm::Timeout;
use crate::text::{push_decimal, quoted, same_text};
use crate::{CallView, DefinitionView, ToolCall, ToolDefinition};

verus! {

/// How many lines `read` returns unless it is told otherwise.
pub const DEFAULT_READ_LIMIT: usize = 2000;

/// How many bytes of output a tool returns at most.
pub const DEFAULT_MAX_OUTPUT: usize = 102400;

/// How long a command may run.
pub const DEFAULT_EXEC_TIMEOUT_SECS: u64 = 120;

/// How the tools describe the file they work on.
pub const PATH_DESCRIPTION: &'static str =
    "Path of the file, absolute or relative to the working directory.";

/// The tool set, bound to one working directory.
#[derive(Debug, Clone)]
pub struct Tools {
    pub cwd: String,
    /// Whether the machine separates the parts of a path with `\`.
    pub backslash: bool,
    pub exec_timeout: Timeout,
    pub max_output: usize,
    pub read_limit: usize,
}

/// The tool set under the name that hosts know it by.
pub type CodingTools = Tools;

// ------------------------------------------------------------------- errors

/// Why a tool failed.
#[derive(Debug, Clone)]
pub enum ToolError {
    /// The path is blank.
    EmptyPath,
    /// A required string is missing.
    MissingArgument { key: String, arguments: JsonValue },
    /// A count is not an integer from one up.
    BadCount { key: String, value: JsonValue },
    /// There is no such tool.
    UnknownTool(String),
    /// The file ends before the first line asked for.
    NothingToRead { offset: usize, path: String, lines: usize },
    /// The text to replace is empty.
    EmptyOld,
    /// The text to replace is not in the file.
    NotFound(String),
    /// The text to replace is in the file several times.
    NotUnique { count: usize, path: String },
    /// The command ran for too long.
    TimedOut { secs: u64, command: String },
}

pub enum ToolErrorView {
    EmptyPath,
    MissingArgument { key: Seq<char>, arguments: Json },
    BadCount { key: Seq<char>, value: Json },
    UnknownTool(Seq<char>),
    NothingToRead { offset: nat, path: Seq<char>, lines: nat },
    EmptyOld,
    NotFound(Seq<char>),
    NotUnique { count: nat, path: Seq<char> },
    TimedOut { secs: nat, command: Seq<char> },
}

impl View for ToolError {
    type V = ToolErrorView;

    open spec fn view(&self) -> ToolErrorView {
        match self {
            ToolError::EmptyPath => ToolErrorView::EmptyPath,
            ToolError::MissingArgument { key, arguments } => ToolErrorView::MissingArgument {
                key: key@,
                arguments: arguments@,
            },
            ToolError::BadCount { key, value } => ToolErrorView::BadCount {
                key: key@,
                value: value@,
            },
            ToolError::UnknownTool(name) => ToolErrorView::UnknownTool(name@),
            ToolError::NothingToRead { offset, path, lines } => ToolErrorView::NothingToRead {
                offset: *offset as nat,
                path: path@,
                lines: *lines as nat,
            },
            ToolError::EmptyOld => ToolErrorView::EmptyOld,
            ToolError::NotFound(path) => ToolErrorView::NotFound(path@),
            ToolError::NotUnique { count, path } => ToolErrorView::NotUnique {
                count: *count as nat,
                path: path@,
            },
            ToolError::TimedOut { secs, command } => ToolErrorView::TimedOut {
                secs: *secs as nat,
                command: command@,
            },
        }
    }
}

impl ToolErrorView {
    /// The error in words.
    pub open spec fn text(self) -> Seq<char> {
        match self {
            ToolErrorView::EmptyPath => "`path` must not be empty"@,
            ToolErrorView::MissingArgument { key, arguments } => missing_argument_text(
                key,
                crate::json::json_text(arguments),
            ),
            ToolErrorView::BadCount { key, value } => bad_count_text(
                key,
                crate::json::json_text(value),
            ),
            ToolErrorView::UnknownTool(name) => unknown_tool_text(crate::text::debug_text(name)),
            ToolErrorView::NothingToRead { offset, path, lines } => "nothing to read at offset "@
                + crate::text::decimal(offset) + ": "@ + path + " has "@ + crate::text::decimal(
                lines,
            ) + " lines"@,
            ToolErrorView::EmptyOld => "`old` must not be empty"@,
            ToolErrorView::NotFound(path) => "`old` does not appear in "@ + path
                + ": read the file and copy an exact snippet"@,
            ToolErrorView::NotUnique { count, path } => "`old` appears "@ + crate::text::decimal(
                count,
            ) + " times in "@ + path
                + ": include more surrounding context to make it unique"@,
            ToolErrorView::TimedOut { secs, command } => "command timed out after "@
                + crate::text::decimal(secs) + "s: "@ + command,
        }
    }
}

/// The words for a missing string, given the arguments as JSON text.
pub open spec fn missing_argument_text(key: Seq<char>, arguments: Seq<char>) -> Seq<char> {
    "missing string argument `"@ + key + "` in "@ + arguments
}

/// The words for a count that is none, given the value as JSON text.
pub open spec fn bad_count_text(key: Seq<char>, value: Seq<char>) -> Seq<char> {
    "`"@ + key + "` must be an integer >= 1, got "@ + value
}

/// The words for a tool that does not exist, given its name in quotes.
pub open spec fn unknown_tool_text(name: Seq<char>) -> Seq<char> {
    "unknown tool "@ + name + ": available tools are read, write, edit, exec"@
}

/// The words for a missing string, given the arguments as JSON text.
pub fn missing_argument(key: &str, arguments: &str) -> (message: String)
    ensures
        message@ == missing_argument_text(key@, arguments@),
{
    let mut message = "missing string argument `".to_owned();
    message.append(key);
    message.append("` in ");
    message.append(arguments);
    message
}

/// The words for a count that is none, given the value as JSON text.
pub fn bad_count(key: &str, value: &str) -> (message: String)
    ensures
        message@ == bad_count_text(key@, value@),
{
    let mut message = "`".to_owned();
    message.append(key);
    message.append("` must be an integer >= 1, got ");
    message.append(value);
    message
}

/// The words for a tool that does not exist, given its name in quotes.
pub fn unknown_tool(name: &str) -> (message: String)
    ensures
        message@ == unknown_tool_text(name@),
{
    let mut message = "unknown tool ".to_owned();
    message.append(name);
    message.append(": available tools are read, write, edit, exec");
    message
}

impl ToolError {
    /// The error in words.
    pub fn message(&self) -> (message: String)
        ensures
            message@ == self@.text(),
    {
        let mut message = String::new();
        match self {
            ToolError::EmptyPath => {
                message.append("`path` must not be empty");
            },
            ToolError::MissingArgument { key, arguments } => {
                return missing_argument(key.as_str(), arguments.to_text().as_str());
            },
            ToolError::BadCount { key, value } => {
                return bad_count(key.as_str(), value.to_text().as_str());
            },
            ToolError::UnknownTool(name) => {
                return unknown_tool(quoted(name.as_str()).as_str());
            },
            ToolError::NothingToRead { offset, path, lines } => {
                message.append("nothing to read at offset ");
                push_decimal(&mut message, *offset as u64);
                message.append(": ");
                message.append(path.as_str());
                message.append(" has ");
                push_decimal(&mut message, *lines as u64);
                message.append(" lines");
            },
            ToolError::EmptyOld => {
                message.append("`old` must not be empty");
            },
            ToolError::NotFound(path) => {
                message.append("`old` does not appear in ");
                message.append(path.as_str());
                message.append(": read the file and copy an exact snippet");
            },
            ToolError::NotUnique { count, path } => {
                message.append("`old` appears ");
                push_decimal(&mut message, *count as u64);
                message.append(" times in ");
                message.append(path.as_str());
                message.append(": include more surrounding context to make it unique");
            },
            ToolError::TimedOut { secs, command } => {
                message.append("command timed out after ");
                push_decimal(&mut message, *secs);
                message.append("s: ");
                message.append(command.as_str());
            },
        }
        assert(message@ == self@.text());
        message
    }
}

// ---------------------------------------------------------------- arguments

/// The member `key` of a document, if it is an object and has one.
pub open spec fn member(document: Json, key: Seq<char>) -> Option<Json> {
    match document {
        Json::Object(members) => if members.dom().contains(key) {
            Some(members[key])
        } else {
            None
        },
        _ => None,
    }
}

/// The string under `key`, if there is one.
pub open spec fn string_member(document: Json, key: Seq<char>) -> Option<Seq<char>> {
    match member(document, key) {
        Some(Json::Text(text)) => Some(text),
        _ => None,
    }
}

/// The count under `key`: none if it is missing or null, and an error if it is
/// anything but an integer from one up.
pub open spec fn count_member(document: Json, key: Seq<char>) -> Result<Option<usize>, Json> {
    match member(document, key) {
        None => Ok(None),
        Some(Json::Null) => Ok(None),
        Some(Json::Unsigned(n)) => if n >= 1 {
            Ok(Some(n as usize))
        } else {
            Err(Json::Unsigned(n))
        },
        Some(value) => Err(value),
    }
}

fn get<'a>(arguments: &'a JsonValue, key: &str) -> (value: Option<&'a JsonValue>)
    ensures
        match value {
            Some(value) => member(arguments@, key@) == Some(value@),
            None => member(arguments@, key@) is None,
        },
{
    match arguments {
        JsonValue::Object(members) => members.get(key),
        _ => None,
    }
}

/// Read a required string argument.
pub fn arg_str(arguments: &JsonValue, key: &str) -> (value: Result<String, ToolError>)
    ensures
        match value {
            Ok(text) => string_member(arguments@, key@) == Some(text@),
            Err(error) => {
                &&& string_member(arguments@, key@) is None
                &&& error@ == ToolErrorView::MissingArgument {
                    key: key@,
                    arguments: arguments@,
                }
            },
        },
{
    match get(arguments, key) {
        Some(JsonValue::String(text)) => Ok(text.clone()),
        _ => Err(
            ToolError::MissingArgument { key: key.to_owned(), arguments: arguments.clone() },
        ),
    }
}

/// Read an optional count.
pub fn count_arg(arguments: &JsonValue, key: &str) -> (value: Result<Option<usize>, ToolError>)
    ensures
        match value {
            Ok(count) => count_member(arguments@, key@) == Ok::<Option<usize>, Json>(count),
            Err(error) => {
                &&& count_member(arguments@, key@) is Err
                &&& error@ == ToolErrorView::BadCount {
                    key: key@,
                    value: count_member(arguments@, key@)->Err_0,
                }
            },
        },
{
    match get(arguments, key) {
        None => Ok(None),
        Some(JsonValue::Null) => Ok(None),
        Some(value) => {
            match value {
                JsonValue::Number(crate::json::Number::PosInt(n)) => {
                    if *n >= 1 {
                        return Ok(Some(*n as usize));
                    }
                },
                JsonValue::Number(crate::json::Number::NegInt(n)) => {
                    if *n >= 1 {
                        let n: u64 = *n as u64;
                        return Ok(Some(n as usize));
                    }
                },
                _ => {},
            }
            Err(ToolError::BadCount { key: key.to_owned(), value: value.clone() })
        },
    }
}

/// A required string argument.
pub open spec fn required(arguments: Json, key: Seq<char>) -> Result<Seq<char>, ToolErrorView> {
    match string_member(arguments, key) {
        Some(text) => Ok(text),
        None => Err(ToolErrorView::MissingArgument { key, arguments }),
    }
}

/// The argument `path`, which must not be blank.
pub open spec fn path_argument(arguments: Json) -> Result<Seq<char>, ToolErrorView> {
    match required(arguments, "path"@) {
        Ok(path) => if crate::text::blank(path) {
            Err(ToolErrorView::EmptyPath)
        } else {
            Ok(path)
        },
        Err(error) => Err(error),
    }
}

// -------------------------------------------------------------- definitions

/// A string parameter.
pub open spec fn string_property(description: Seq<char>) -> Json {
    Json::Object(
        Map::empty().insert("type"@, Json::Text("string"@)).insert(
            "description"@,
            Json::Text(description),
        ),
    )
}

/// A parameter that counts from one up.
pub open spec fn count_property(description: Seq<char>) -> Json {
    Json::Object(
        Map::empty().insert("type"@, Json::Text("integer"@)).insert(
            "minimum"@,
            Json::Unsigned(1),
        ).insert("description"@, Json::Text(description)),
    )
}

/// The parameters of a tool.
pub open spec fn schema(
    properties: Map<Seq<char>, Json>,
    required: Seq<Json>,
    more_allowed: bool,
) -> Json {
    let described = Map::empty().insert("type"@, Json::Text("object"@)).insert(
        "properties"@,
        Json::Object(properties),
    ).insert("required"@, Json::Array(required));
    Json::Object(
        if more_allowed {
            described
        } else {
            described.insert("additionalProperties"@, Json::Bool(false))
        },
    )
}

fn string_value(description: &str) -> (value: JsonValue)
    ensures
        value@ == string_property(description@),
{
    JsonValue::Object(
        Object::new().with("type", JsonValue::text("string")).with(
            "description",
            JsonValue::text(description),
        ),
    )
}

fn count_value(description: &str) -> (value: JsonValue)
    ensures
        value@ == count_property(description@),
{
    JsonValue::Object(
        Object::new().with("type", JsonValue::text("integer")).with(
            "minimum",
            JsonValue::Number(crate::json::Number::PosInt(1)),
        ).with("description", JsonValue::text(description)),
    )
}

fn schema_value(properties: Object, required: Vec<JsonValue>, more_allowed: bool) -> (value:
    JsonValue)
    ensures
        value@ == schema(properties@, crate::json::items_view(required@), more_allowed),
{
    let described = Object::new().with("type", JsonValue::text("object")).with(
        "properties",
        JsonValue::Object(properties),
    ).with("required", JsonValue::Array(required));
    if more_allowed {
        JsonValue::Object(described)
    } else {
        JsonValue::Object(described.with("additionalProperties", JsonValue::Bool(false)))
    }
}

// ------------------------------------------------------------------ the set

/// What a tool call comes down to.
#[derive(Debug)]
pub enum Job {
    Read(ReadJob),
    Write(WriteJob),
    Edit(EditJob),
    Exec(ExecJob),
}

pub enum JobView {
    Read { path: path::PathView, offset: usize, limit: usize, max_output: usize },
    Write { path: path::PathView, content: Seq<char> },
    Edit { path: path::PathView, old: Seq<char>, new: Seq<char> },
    Exec { command: Seq<char>, cwd: Seq<char>, timeout: Timeout, max_output: usize },
}

impl View for Job {
    type V = JobView;

    open spec fn view(&self) -> JobView {
        match self {
            Job::Read(job) => JobView::Read {
                path: job.path@,
                offset: job.offset,
                limit: job.limit,
                max_output: job.max_output,
            },
            Job::Write(job) => JobView::Write { path: job.path@, content: job.content@ },
            Job::Edit(job) => JobView::Edit { path: job.path@, old: job.old@, new: job.new@ },
            Job::Exec(job) => JobView::Exec {
                command: job.command@,
                cwd: job.cwd@,
                timeout: job.timeout,
                max_output: job.max_output,
            },
        }
    }
}

/// What a call asks for, before any path in it is looked at.
pub enum AskedView {
    Read { path: Seq<char>, offset: usize, limit: usize },
    Write { path: Seq<char>, content: Seq<char> },
    Edit { path: Seq<char>, old: Seq<char>, new: Seq<char> },
    Exec { command: Seq<char> },
}

impl Tools {
    /// What a call asks of this tool set, or why it fails.
    pub open spec fn asked(&self, call: CallView) -> Result<AskedView, ToolErrorView> {
        if call.name == "read"@ {
            match read::read_job(self.read_limit, call.arguments) {
                Ok((path, offset, limit)) => Ok(AskedView::Read { path, offset, limit }),
                Err(error) => Err(error),
            }
        } else if call.name == "write"@ {
            match write::write_job(call.arguments) {
                Ok((path, content)) => Ok(AskedView::Write { path, content }),
                Err(error) => Err(error),
            }
        } else if call.name == "edit"@ {
            match edit::edit_job(call.arguments) {
                Ok((path, old, new)) => Ok(AskedView::Edit { path, old, new }),
                Err(error) => Err(error),
            }
        } else if call.name == "exec"@ {
            match exec::exec_job(call.arguments) {
                Ok(command) => Ok(AskedView::Exec { command }),
                Err(error) => Err(error),
            }
        } else {
            Err(ToolErrorView::UnknownTool(call.name))
        }
    }

    /// A job that does what is asked for: on the file that the path means from the
    /// working directory, within the limits of this tool set.
    pub open spec fn serves(&self, asked: AskedView, job: JobView) -> bool {
        match (asked, job) {
            (
                AskedView::Read { path, offset, limit },
                JobView::Read { path: place, offset: first, limit: lines, max_output },
            ) => {
                &&& path::means(self.backslash, self.cwd@, path, place)
                &&& first == offset
                &&& lines == limit
                &&& max_output == self.max_output
            },
            (AskedView::Write { path, content }, JobView::Write { path: place, content: text }) => {
                &&& path::means(self.backslash, self.cwd@, path, place)
                &&& text == content
            },
            (
                AskedView::Edit { path, old, new },
                JobView::Edit { path: place, old: before, new: after },
            ) => {
                &&& path::means(self.backslash, self.cwd@, path, place)
                &&& before == old
                &&& after == new
            },
            (
                AskedView::Exec { command },
                JobView::Exec { command: line, cwd, timeout, max_output },
            ) => {
                &&& line == command
                &&& cwd == self.cwd@
                &&& timeout == self.exec_timeout
                &&& max_output == self.max_output
            },
            _ => false,
        }
    }

    /// The tools, bound to a working directory of this machine. Whether it separates
    /// with `\` rests on the machine; the rest is as with [`Tools::on`].
    pub fn new(cwd: &str) -> (tools: Self)
        ensures
            tools.cwd@ == cwd@,
            tools.exec_timeout == (Timeout { secs: DEFAULT_EXEC_TIMEOUT_SECS, nanos: 0 }),
            tools.max_output == DEFAULT_MAX_OUTPUT,
            tools.read_limit == DEFAULT_READ_LIMIT,
    {
        Tools::on(path::this_machine_separates_with_backslash(), cwd)
    }

    /// The tools, bound to a working directory of a machine that separates with `\`
    /// or of one that does not.
    pub fn on(backslash: bool, cwd: &str) -> (tools: Self)
        ensures
            tools.cwd@ == cwd@,
            tools.backslash == backslash,
            tools.exec_timeout == (Timeout { secs: DEFAULT_EXEC_TIMEOUT_SECS, nanos: 0 }),
            tools.max_output == DEFAULT_MAX_OUTPUT,
            tools.read_limit == DEFAULT_READ_LIMIT,
    {
        Tools {
            cwd: cwd.to_owned(),
            backslash,
            exec_timeout: Timeout::from_secs(DEFAULT_EXEC_TIMEOUT_SECS),
            max_output: DEFAULT_MAX_OUTPUT,
            read_limit: DEFAULT_READ_LIMIT,
        }
    }

    /// How long a command may run.
    pub fn exec_timeout(self, timeout: Timeout) -> (tools: Self)
        ensures
            tools == (Tools { exec_timeout: timeout, ..self }),
    {
        Tools { exec_timeout: timeout, ..self }
    }

    /// How many bytes of output a tool returns at most.
    pub fn max_output(self, bytes: usize) -> (tools: Self)
        ensures
            tools == (Tools { max_output: bytes, ..self }),
    {
        Tools { max_output: bytes, ..self }
    }

    /// How many lines `read` returns unless it is told otherwise.
    pub fn read_limit(self, lines: usize) -> (tools: Self)
        ensures
            tools == (Tools { read_limit: lines, ..self }),
    {
        Tools { read_limit: lines, ..self }
    }

    /// The tools as the model sees them.
    pub fn definitions(&self) -> (definitions: Vec<ToolDefinition>)
        ensures
            crate::definitions_view(definitions@) == seq![
                (DefinitionView {
                    name: "read"@,
                    description: read::description_text(self.read_limit as nat),
                    parameters: read::parameters(),
                }),
                (DefinitionView {
                    name: "write"@,
                    description: write::DESCRIPTION@,
                    parameters: write::parameters(),
                }),
                (DefinitionView {
                    name: "edit"@,
                    description: edit::DESCRIPTION@,
                    parameters: edit::parameters(),
                }),
                (DefinitionView {
                    name: "exec"@,
                    description: exec::description_text(self.exec_timeout.seconds()),
                    parameters: exec::parameters(),
                }),
            ],
    {
        let mut definitions: Vec<ToolDefinition> = Vec::new();
        definitions.push(read::definition(self.read_limit));
        definitions.push(write::definition());
        definitions.push(edit::definition());
        definitions.push(exec::definition(self.exec_timeout));
        definitions
    }

    /// Work out what a tool call comes down to. A failure is not the end of the
    /// run: its words go back to the model, which can correct itself.
    pub fn execute(&self, call: &ToolCall) -> (job: Result<Job, ToolError>)
        ensures
            match job {
                Ok(job) => self.asked(call@) is Ok && self.serves(self.asked(call@)->Ok_0, job@),
                Err(error) => self.asked(call@) == Err::<AskedView, ToolErrorView>(error@),
            },
    {
        let name = call.name.as_str();
        if same_text(name, "read") {
            Ok(Job::Read(read::plan(self, &call.arguments)?))
        } else if same_text(name, "write") {
            Ok(Job::Write(write::plan(self, &call.arguments)?))
        } else if same_text(name, "edit") {
            Ok(Job::Edit(edit::plan(self, &call.arguments)?))
        } else if same_text(name, "exec") {
            Ok(Job::Exec(exec::plan(self, &call.arguments)?))
        } else {
            Err(ToolError::UnknownTool(call.name.clone()))
        }
    }
}

// --------------------------------------------------------------------- laws

/// The names of the tools.
pub open spec fn tool_names() -> Seq<Seq<char>> {
    seq!["read"@, "write"@, "edit"@, "exec"@]
}

/// A tool that is not there is reported as such, and no tool that is there ever
/// is.
pub proof fn exactly_the_tools_that_are_there_run(tools: Tools, call: CallView)
    ensures
        (tools.asked(call) == Err::<AskedView, ToolErrorView>(
            ToolErrorView::UnknownTool(call.name),
        ))
            <==> !tool_names().contains(call.name),
{
    let names = tool_names();
    assert(names[0] == "read"@ && names[1] == "write"@ && names[2] == "edit"@ && names[3]
        == "exec"@);
}

/// Arguments that are not an object are reported as they arrived, whatever the
/// tool, instead of being taken for an empty object.
pub proof fn unparseable_arguments_are_reported(tools: Tools, call: CallView)
    requires
        tool_names().contains(call.name),
        !(call.arguments is Object),
    ensures
        tools.asked(call) matches Err(ToolErrorView::MissingArgument { arguments, .. })
            && arguments == call.arguments,
{
}

// What a call says, member by member.

/// The arguments are an object with this string under `key`.
pub open spec fn gives_text(arguments: Json, key: Seq<char>, text: Seq<char>) -> bool {
    match arguments {
        Json::Object(members) => members.dom().contains(key) && members[key] == Json::Text(text),
        _ => false,
    }
}

/// The arguments give no string under `key`.
pub open spec fn gives_no_text(arguments: Json, key: Seq<char>) -> bool {
    match arguments {
        Json::Object(members) => !members.dom().contains(key) || !(members[key] is Text),
        _ => true,
    }
}

/// The arguments are an object with this count under `key`.
pub open spec fn gives_count(arguments: Json, key: Seq<char>, count: usize) -> bool {
    match arguments {
        Json::Object(members) => members.dom().contains(key) && count >= 1 && members[key]
            == Json::Unsigned(count as nat),
        _ => false,
    }
}

/// The arguments are an object that leaves `key` out, or has null there.
pub open spec fn leaves_out(arguments: Json, key: Seq<char>) -> bool {
    match arguments {
        Json::Object(members) => !members.dom().contains(key) || members[key] == Json::Null,
        _ => false,
    }
}

/// The arguments are an object with something under `key` that is no count.
pub open spec fn gives_no_count(arguments: Json, key: Seq<char>, value: Json) -> bool {
    match arguments {
        Json::Object(members) => {
            &&& members.dom().contains(key)
            &&& members[key] == value
            &&& match value {
                Json::Null => false,
                Json::Unsigned(n) => n == 0,
                _ => true,
            }
        },
        _ => false,
    }
}

/// Each tool is asked for what its arguments say, and fails with what is wrong with
/// them.
pub proof fn calls_reach_their_tools(tools: Tools, call: CallView)
    ensures
        call.name == "read"@ ==> match read::read_job(tools.read_limit, call.arguments) {
            Ok((path, offset, limit)) => tools.asked(call) == Ok::<AskedView, ToolErrorView>(
                AskedView::Read { path, offset, limit },
            ),
            Err(error) => tools.asked(call) == Err::<AskedView, ToolErrorView>(error),
        },
        call.name == "write"@ ==> match write::write_job(call.arguments) {
            Ok((path, content)) => tools.asked(call) == Ok::<AskedView, ToolErrorView>(
                AskedView::Write { path, content },
            ),
            Err(error) => tools.asked(call) == Err::<AskedView, ToolErrorView>(error),
        },
        call.name == "edit"@ ==> match edit::edit_job(call.arguments) {
            Ok((path, old, new)) => tools.asked(call) == Ok::<AskedView, ToolErrorView>(
                AskedView::Edit { path, old, new },
            ),
            Err(error) => tools.asked(call) == Err::<AskedView, ToolErrorView>(error),
        },
        call.name == "exec"@ ==> match exec::exec_job(call.arguments) {
            Ok(command) => tools.asked(call) == Ok::<AskedView, ToolErrorView>(
                AskedView::Exec { command },
            ),
            Err(error) => tools.asked(call) == Err::<AskedView, ToolErrorView>(error),
        },
{
    lemma_tool_names_differ();
}

proof fn lemma_tool_names_differ()
    ensures
        "read"@ != "write"@,
        "read"@ != "edit"@,
        "read"@ != "exec"@,
        "write"@ != "edit"@,
        "write"@ != "exec"@,
        "edit"@ != "exec"@,
{
    reveal_strlit("read");
    reveal_strlit("write");
    reveal_strlit("edit");
    reveal_strlit("exec");
    assert("read"@[0] == 'r' && "edit"@[0] == 'e' && "exec"@[0] == 'e');
    assert("edit"@[1] == 'd' && "exec"@[1] == 'x' && "write"@[0] == 'w');
}

/// A `read` call that is accepted reads the file it names, from the line it gives
/// and as many lines as it gives. Where it gives none, it is read from the first
/// line on, and as many lines as the tools return unless told otherwise.
pub proof fn a_read_job_is_what_was_asked(tools: Tools, call: CallView, job: JobView)
    requires
        call.name == "read"@,
        tools.asked(call) is Ok,
        tools.serves(tools.asked(call)->Ok_0, job),
    ensures
        ({
            &&& job matches JobView::Read { path: place, offset, limit, max_output }
            &&& max_output == tools.max_output
            &&& exists|path: Seq<char>| #[trigger]
                gives_text(call.arguments, "path"@, path) && !crate::text::blank(path)
                    && path::means(tools.backslash, tools.cwd@, path, place)
            &&& leaves_out(call.arguments, "offset"@) ==> offset == 1
            &&& leaves_out(call.arguments, "limit"@) ==> limit == tools.read_limit
            &&& forall|n: usize| #[trigger]
                gives_count(call.arguments, "offset"@, n) ==> offset == n
            &&& forall|n: usize| #[trigger]
                gives_count(call.arguments, "limit"@, n) ==> limit == n
        }),
{
    lemma_tool_names_differ();
    read::a_read_call_says_what_to_read(
        tools.read_limit,
        call.arguments,
        call.arguments->Object_0["path"@]->Text_0,
    );
    assert(gives_text(call.arguments, "path"@, call.arguments->Object_0["path"@]->Text_0));
}

/// A `write` call that is accepted writes exactly its content, to the file it
/// names.
pub proof fn a_write_job_is_what_was_asked(tools: Tools, call: CallView, job: JobView)
    requires
        call.name == "write"@,
        tools.asked(call) is Ok,
        tools.serves(tools.asked(call)->Ok_0, job),
    ensures
        ({
            &&& job matches JobView::Write { path: place, content }
            &&& gives_text(call.arguments, "content"@, content)
            &&& exists|path: Seq<char>| #[trigger]
                gives_text(call.arguments, "path"@, path) && !crate::text::blank(path)
                    && path::means(tools.backslash, tools.cwd@, path, place)
        }),
{
    lemma_tool_names_differ();
    assert(gives_text(call.arguments, "path"@, call.arguments->Object_0["path"@]->Text_0));
}

/// An `edit` call that is accepted replaces exactly its snippet by exactly its
/// replacement, in the file it names.
pub proof fn an_edit_job_is_what_was_asked(tools: Tools, call: CallView, job: JobView)
    requires
        call.name == "edit"@,
        tools.asked(call) is Ok,
        tools.serves(tools.asked(call)->Ok_0, job),
    ensures
        ({
            &&& job matches JobView::Edit { path: place, old, new }
            &&& old.len() > 0
            &&& gives_text(call.arguments, "old"@, old)
            &&& gives_text(call.arguments, "new"@, new)
            &&& exists|path: Seq<char>| #[trigger]
                gives_text(call.arguments, "path"@, path) && !crate::text::blank(path)
                    && path::means(tools.backslash, tools.cwd@, path, place)
        }),
{
    lemma_tool_names_differ();
    assert(gives_text(call.arguments, "path"@, call.arguments->Object_0["path"@]->Text_0));
}

/// An `exec` call that is accepted runs exactly its command, in the working
/// directory and within the limits of the tools.
pub proof fn an_exec_job_is_what_was_asked(tools: Tools, call: CallView, job: JobView)
    requires
        call.name == "exec"@,
        tools.asked(call) is Ok,
        tools.serves(tools.asked(call)->Ok_0, job),
    ensures
        ({
            &&& job matches JobView::Exec { command, cwd, timeout, max_output }
            &&& gives_text(call.arguments, "command"@, command)
            &&& cwd == tools.cwd@
            &&& timeout == tools.exec_timeout
            &&& max_output == tools.max_output
        }),
{
    lemma_tool_names_differ();
}

/// A job is seen with everything it holds.
pub proof fn jobs_are_seen_as_they_are(
    read: ReadJob,
    write: WriteJob,
    edit: EditJob,
    exec: ExecJob,
)
    ensures
        Job::Read(read)@ == (JobView::Read {
            path: read.path@,
            offset: read.offset,
            limit: read.limit,
            max_output: read.max_output,
        }),
        Job::Write(write)@ == (JobView::Write { path: write.path@, content: write.content@ }),
        Job::Edit(edit)@ == (JobView::Edit {
            path: edit.path@,
            old: edit.old@,
            new: edit.new@,
        }),
        Job::Exec(exec)@ == (JobView::Exec {
            command: exec.command@,
            cwd: exec.cwd@,
            timeout: exec.timeout,
            max_output: exec.max_output,
        }),
{
}

/// The path of a call must be a string and not blank; otherwise the call fails and
/// tells so, whatever else it holds.
pub proof fn a_call_without_a_path_is_refused(tools: Tools, call: CallView)
    requires
        call.name == "read"@ || call.name == "write"@ || call.name == "edit"@,
    ensures
        gives_no_text(call.arguments, "path"@) ==> tools.asked(call) == Err::<
            AskedView,
            ToolErrorView,
        >(ToolErrorView::MissingArgument { key: "path"@, arguments: call.arguments }),
        forall|path: Seq<char>| #[trigger]
            gives_text(call.arguments, "path"@, path) && crate::text::blank(path) ==> tools.asked(
                call,
            ) == Err::<AskedView, ToolErrorView>(ToolErrorView::EmptyPath),
{
    lemma_tool_names_differ();
}

/// The words of an error tell what it is about: the argument and what was given,
/// the tool, the file and the line, the snippet and how often it is there, the
/// command and how long it ran.
pub proof fn errors_tell_what_is_wrong(
    key: Seq<char>,
    document: Json,
    path: Seq<char>,
    n: nat,
    m: nat,
)
    ensures
        (ToolErrorView::MissingArgument { key, arguments: document }).text()
            == "missing string argument `"@ + key + "` in "@ + crate::json::json_text(document),
        (ToolErrorView::BadCount { key, value: document }).text() == "`"@ + key
            + "` must be an integer >= 1, got "@ + crate::json::json_text(document),
        ToolErrorView::UnknownTool(key).text() == "unknown tool "@ + crate::text::debug_text(key)
            + ": available tools are read, write, edit, exec"@,
        (ToolErrorView::NothingToRead { offset: n, path, lines: m }).text()
            == "nothing to read at offset "@ + crate::text::decimal(n) + ": "@ + path + " has "@
            + crate::text::decimal(m) + " lines"@,
        ToolErrorView::NotFound(path).text() == "`old` does not appear in "@ + path
            + ": read the file and copy an exact snippet"@,
        (ToolErrorView::NotUnique { count: n, path }).text() == "`old` appears "@
            + crate::text::decimal(n) + " times in "@ + path
            + ": include more surrounding context to make it unique"@,
        (ToolErrorView::TimedOut { secs: n, command: path }).text() == "command timed out after "@
            + crate::text::decimal(n) + "s: "@ + path,
        ToolErrorView::EmptyPath.text() == "`path` must not be empty"@,
        ToolErrorView::EmptyOld.text() == "`old` must not be empty"@,
{
}

/// A document describes a string for the model.
pub open spec fn describes_text(document: Json) -> bool {
    crate::llm::holds(document, "type"@, Json::Text("string"@))
}

/// A document describes a count for the model: an integer from one up.
pub open spec fn describes_count(document: Json) -> bool {
    &&& crate::llm::holds(document, "type"@, Json::Text("integer"@))
    &&& crate::llm::holds(document, "minimum"@, Json::Unsigned(1))
}

/// A document describes an object with these members, of which these are required.
pub open spec fn describes_members(
    document: Json,
    members: Set<Seq<char>>,
    required: Seq<Json>,
) -> bool {
    &&& crate::llm::holds(document, "type"@, Json::Text("object"@))
    &&& crate::llm::holds(document, "required"@, Json::Array(required))
    &&& document->Object_0.dom().contains("properties"@)
    &&& document->Object_0["properties"@] is Object
    &&& forall|name: Seq<char>| #[trigger]
        document->Object_0["properties"@]->Object_0.dom().contains(name) <==> members.contains(
            name,
        )
}

/// The model is told of each tool what it takes: the arguments that a call may
/// have, of which kind they are, and which of them it must have.
pub proof fn the_model_is_told_what_a_tool_takes()
    ensures
        describes_members(
            read::parameters(),
            set!["path"@, "offset"@, "limit"@],
            seq![Json::Text("path"@)],
        ),
        describes_members(
            write::parameters(),
            set!["path"@, "content"@],
            seq![Json::Text("path"@), Json::Text("content"@)],
        ),
        describes_members(
            edit::parameters(),
            set!["path"@, "old"@, "new"@],
            seq![Json::Text("path"@), Json::Text("old"@), Json::Text("new"@)],
        ),
        describes_members(
            exec::parameters(),
            set!["command"@],
            seq![Json::Text("command"@)],
        ),
        ({
            let taken = read::parameters()->Object_0["properties"@]->Object_0;
            describes_text(taken["path"@]) && describes_count(taken["offset"@])
                && describes_count(taken["limit"@])
        }),
        ({
            let taken = write::parameters()->Object_0["properties"@]->Object_0;
            describes_text(taken["path"@]) && describes_text(taken["content"@])
        }),
        ({
            let taken = edit::parameters()->Object_0["properties"@]->Object_0;
            describes_text(taken["path"@]) && describes_text(taken["old"@]) && describes_text(
                taken["new"@],
            )
        }),
        describes_text(exec::parameters()->Object_0["properties"@]->Object_0["command"@]),
        crate::llm::holds(read::parameters(), "additionalProperties"@, Json::Bool(false)),
        crate::llm::holds(write::parameters(), "additionalProperties"@, Json::Bool(false)),
        !edit::parameters()->Object_0.dom().contains("additionalProperties"@),
        !exec::parameters()->Object_0.dom().contains("additionalProperties"@),
{
    reveal_strlit("type");
    reveal_strlit("properties");
    reveal_strlit("required");
    reveal_strlit("additionalProperties");
    reveal_strlit("description");
    reveal_strlit("minimum");
    reveal_strlit("path");
    reveal_strlit("offset");
    reveal_strlit("limit");
    reveal_strlit("content");
    reveal_strlit("old");
    reveal_strlit("new");
    assert("type"@.len() == 4 && "properties"@.len() == 10 && "required"@.len() == 8);
    assert("additionalProperties"@.len() == 20 && "description"@.len() == 11);
    assert("minimum"@.len() == 7 && "path"@.len() == 4 && "offset"@.len() == 6);
    assert("limit"@.len() == 5 && "content"@.len() == 7);
    assert("old"@.len() == 3 && "new"@.len() == 3 && "old"@[0] == 'o' && "new"@[0] == 'n');
}

/// The limits of the tools unless the host sets others: two thousand lines, a
/// hundred kibibytes, two minutes.
pub proof fn the_limits_of_the_tools()
    ensures
        DEFAULT_READ_LIMIT == 2000,
        DEFAULT_MAX_OUTPUT == 100 * 1024,
        DEFAULT_EXEC_TIMEOUT_SECS == 2 * 60,
{
}

} // verus!
