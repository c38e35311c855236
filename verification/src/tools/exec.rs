//! `exec` — run a shell command once, capture its output, kill it if it hangs.

use vstd::prelude::*;

use super::{arg_str, schema_value, string_value, ToolError, ToolErrorView, Tools};
use crate::json::{Json, JsonValue, Object};
use crate::llm::Timeout;
use crate::text::{clip, decode_lossy, push_decimal, push_signed};
use crate::{DefinitionView, ToolDefinition};

verus! {

/// Run a command in the working directory.
#[derive(Debug)]
pub struct ExecJob {
    pub command: String,
    /// Where the command runs.
    pub cwd: String,
    pub timeout: Timeout,
    pub max_output: usize,
}

/// What the arguments of `exec` ask for.
pub open spec fn exec_job(arguments: Json) -> Result<Seq<char>, ToolErrorView> {
    super::required(arguments, "command"@)
}

/// Work out what an `exec` call asks for.
pub fn plan(tools: &Tools, arguments: &JsonValue) -> (job: Result<ExecJob, ToolError>)
    ensures
        match job {
            Ok(job) => {
                &&& exec_job(arguments@) == Ok::<Seq<char>, ToolErrorView>(job.command@)
                &&& job.cwd@ == tools.cwd@
                &&& job.timeout == tools.exec_timeout
                &&& job.max_output == tools.max_output
            },
            Err(error) => exec_job(arguments@) == Err::<Seq<char>, ToolErrorView>(error@),
        },
{
    let command = arg_str(arguments, "command")?;
    Ok(
        ExecJob {
            command,
            cwd: tools.cwd.clone(),
            timeout: tools.exec_timeout,
            max_output: tools.max_output,
        },
    )
}

// ------------------------------------------------------------------ capturing

/// The beginning of a stream. What comes after the limit is taken in and thrown
/// away, so that the process on the other end is never left waiting and the
/// result cannot grow without bound.
#[derive(Debug)]
pub struct Capture {
    limit: usize,
    bytes: Vec<u8>,
}

pub struct CaptureView {
    pub limit: nat,
    pub bytes: Seq<u8>,
}

impl View for Capture {
    type V = CaptureView;

    closed spec fn view(&self) -> CaptureView {
        CaptureView { limit: self.limit as nat, bytes: self.bytes@ }
    }
}

/// The first `limit` bytes.
pub open spec fn first_bytes(bytes: Seq<u8>, limit: nat) -> Seq<u8> {
    if bytes.len() <= limit {
        bytes
    } else {
        bytes.take(limit as int)
    }
}

impl Capture {
    #[verifier::type_invariant]
    spec fn within_limit(&self) -> bool {
        self.bytes@.len() <= self.limit
    }

    /// A capture of a stream that has not begun.
    pub fn new(limit: usize) -> (capture: Self)
        ensures
            capture@ == (CaptureView { limit: limit as nat, bytes: Seq::empty() }),
    {
        Capture { limit, bytes: Vec::new() }
    }

    /// Take in the next bytes of the stream.
    pub fn push(&mut self, chunk: &[u8])
        ensures
            final(self)@ == (CaptureView {
                bytes: first_bytes(old(self)@.bytes + chunk@, old(self)@.limit),
                ..old(self)@
            }),
    {
        proof {
            use_type_invariant(&*self);
        }
        let limit = self.limit;
        let mut bytes: Vec<u8> = Vec::new();
        std::mem::swap(&mut bytes, &mut self.bytes);
        let mut i: usize = 0;
        while i < chunk.len() && bytes.len() < limit
            invariant
                i <= chunk.len(),
                bytes@.len() <= limit,
                bytes@ == old(self)@.bytes + chunk@.take(i as int),
            decreases chunk.len() - i,
        {
            bytes.push(chunk[i]);
            i = i + 1;
            assert(bytes@ == old(self)@.bytes + chunk@.take(i as int));
        }
        assert(bytes@ == first_bytes(old(self)@.bytes + chunk@, limit as nat));
        self.bytes = bytes;
    }

    /// What was captured.
    pub fn into_bytes(self) -> (bytes: Vec<u8>)
        ensures
            bytes@ == self@.bytes,
    {
        self.bytes
    }
}

// ------------------------------------------------------------------ reporting

/// How a command ended.
pub open spec fn exit_text(code: Option<i32>) -> Seq<char> {
    "exit code: "@ + (match code {
        Some(code) => crate::text::signed_decimal(code as int),
        None => "killed by signal"@,
    })
}

/// A stream under its heading; nothing at all if it is missing.
pub open spec fn section(heading: Seq<char>, stream: Option<Seq<char>>) -> Seq<char> {
    match stream {
        Some(text) => heading + text,
        None => Seq::empty(),
    }
}

/// What the model is told of a command.
pub open spec fn report_text(
    code: Option<i32>,
    stdout: Option<Seq<char>>,
    stderr: Option<Seq<char>>,
    max_output: nat,
) -> Seq<char> {
    crate::text::clipped(
        exit_text(code) + section("\nstdout:\n"@, stdout) + section("\nstderr:\n"@, stderr),
        max_output,
    )
}

/// What a captured stream says, if anything: valid UTF-8 as it is, anything else
/// with its invalid parts replaced.
pub open spec fn stream_text(bytes: Seq<u8>) -> Option<Seq<char>> {
    if bytes.len() == 0 {
        None
    } else {
        Some(crate::text::decoded(bytes))
    }
}

/// What the model is told of a command, given what its streams say.
pub fn report(
    code: Option<i32>,
    stdout: Option<String>,
    stderr: Option<String>,
    max_output: usize,
) -> (output: String)
    ensures
        output@ == report_text(
            code,
            crate::text_option(stdout),
            crate::text_option(stderr),
            max_output as nat,
        ),
{
    let mut output = "exit code: ".to_owned();
    match code {
        Some(code) => {
            push_signed(&mut output, code);
        },
        None => {
            output.append("killed by signal");
        },
    }
    assert(output@ == exit_text(code));
    match stdout {
        Some(text) => {
            output.append("\nstdout:\n");
            output.append(text.as_str());
        },
        None => {},
    }
    match stderr {
        Some(text) => {
            output.append("\nstderr:\n");
            output.append(text.as_str());
        },
        None => {},
    }
    assert(output@ == exit_text(code) + section("\nstdout:\n"@, crate::text_option(stdout))
        + section("\nstderr:\n"@, crate::text_option(stderr)));
    clip(output.as_str(), max_output)
}

fn stream_report(bytes: &Vec<u8>) -> (text: Option<String>)
    ensures
        crate::text_option(text) == stream_text(bytes@),
{
    if bytes.len() == 0 {
        None
    } else {
        Some(decode_lossy(bytes.as_slice()))
    }
}

/// How many bytes are kept of a stream: one more than may be returned.
pub open spec fn kept_bytes(max_output: nat) -> nat {
    if max_output < usize::MAX {
        max_output + 1
    } else {
        usize::MAX as nat
    }
}

impl ExecJob {
    /// A capture for one stream of the command. It keeps one byte more than the
    /// tool may return, so that a cut shows.
    pub fn capture(&self) -> (capture: Capture)
        ensures
            capture@.bytes == Seq::<u8>::empty(),
            capture@.limit == kept_bytes(self.max_output as nat),
            capture@.limit == if self.max_output < usize::MAX {
                self.max_output + 1
            } else {
                usize::MAX as int
            },
    {
        if self.max_output < usize::MAX {
            Capture::new(self.max_output + 1)
        } else {
            Capture::new(usize::MAX)
        }
    }

    /// What the model is told of the command.
    pub fn finish(&self, code: Option<i32>, stdout: Capture, stderr: Capture) -> (output: String)
        ensures
            output@ == report_text(
                code,
                stream_text(stdout@.bytes),
                stream_text(stderr@.bytes),
                self.max_output as nat,
            ),
    {
        let stdout = stdout.into_bytes();
        let stderr = stderr.into_bytes();
        report(code, stream_report(&stdout), stream_report(&stderr), self.max_output)
    }

    /// The command ran for too long.
    pub fn timed_out(&self) -> (error: ToolError)
        ensures
            error@ == (ToolErrorView::TimedOut {
                secs: self.timeout.seconds(),
                command: self.command@,
            }),
    {
        ToolError::TimedOut { secs: self.timeout.as_secs(), command: self.command.clone() }
    }
}

// ---------------------------------------------------------------- definition

/// What `exec` is for, given how many seconds a command may run.
pub open spec fn description_text(secs: nat) -> Seq<char> {
    "Run a shell command in the working directory and return its exit code, stdout and stderr. Non-zero exit codes are normal output. The command is killed after "@
        + crate::text::decimal(secs) + " seconds and long output is truncated."@
}

/// The parameters of `exec`.
pub open spec fn parameters() -> Json {
    super::schema(
        Map::empty().insert(
            "command"@,
            super::string_property("Command line, run with `sh -c`."@),
        ),
        seq![Json::Text("command"@)],
        true,
    )
}

/// `exec` as the model sees it.
pub fn definition(timeout: Timeout) -> (definition: ToolDefinition)
    ensures
        definition@ == (DefinitionView {
            name: "exec"@,
            description: description_text(timeout.seconds()),
            parameters: parameters(),
        }),
{
    let mut description =
        "Run a shell command in the working directory and return its exit code, stdout and stderr. Non-zero exit codes are normal output. The command is killed after ".to_owned();
    push_decimal(&mut description, timeout.as_secs());
    description.append(" seconds and long output is truncated.");
    let properties = Object::new().with(
        "command",
        string_value("Command line, run with `sh -c`."),
    );
    let mut required: Vec<JsonValue> = Vec::new();
    required.push(JsonValue::text("command"));
    proof {
        crate::json::lemma_items_view(required@);
        assert(crate::json::items_view(required@) == seq![Json::Text("command"@)]);
    }
    ToolDefinition {
        name: "exec".to_owned(),
        description,
        parameters: schema_value(properties, required, true),
    }
}

// --------------------------------------------------------------------- laws

/// How a stream is cut into pieces makes no difference to what is captured, and
/// what was captured never changes again once the limit is reached.
pub proof fn pieces_make_no_difference(first: Seq<u8>, second: Seq<u8>, limit: nat)
    ensures
        first_bytes(first_bytes(first, limit) + second, limit) == first_bytes(
            first + second,
            limit,
        ),
        first.len() >= limit ==> first_bytes(first + second, limit) == first_bytes(first, limit),
{
    assert(first_bytes(first_bytes(first, limit) + second, limit) == first_bytes(
        first + second,
        limit,
    ));
    if first.len() >= limit {
        assert(first_bytes(first + second, limit) == first_bytes(first, limit));
    }
}

/// What an `exec` call says: its command, character for character. It is refused
/// where there is none, and for nothing else.
pub proof fn an_exec_call_says_what_to_run(arguments: Json, command: Seq<char>)
    ensures
        super::gives_text(arguments, "command"@, command) ==> exec_job(arguments) == Ok::<
            Seq<char>,
            ToolErrorView,
        >(command),
        super::gives_no_text(arguments, "command"@) ==> exec_job(arguments) == Err::<
            Seq<char>,
            ToolErrorView,
        >(ToolErrorView::MissingArgument { key: "command"@, arguments }),
{
}

/// What is kept of a stream is its beginning: all of it, or as many bytes as may be
/// kept.
pub proof fn the_beginning_of_a_stream_is_kept(bytes: Seq<u8>, limit: nat)
    ensures
        first_bytes(bytes, limit).len() == if bytes.len() < limit {
            bytes.len()
        } else {
            limit
        },
        forall|i: int|
            0 <= i < first_bytes(bytes, limit).len() ==> (#[trigger] first_bytes(bytes, limit)[i])
                == bytes[i],
{
}

/// A report tells how the command ended, then what it wrote to standard output and
/// to standard error, each under its heading and as it is. A stream to which
/// nothing was written is left out. Only a report that is too long is cut.
pub proof fn a_report_tells_all_of_it(
    code: i32,
    out: Seq<char>,
    err: Seq<char>,
    max_output: nat,
)
    ensures
        report_text(Some(code), Some(out), Some(err), max_output) == crate::text::clipped(
            "exit code: "@ + crate::text::signed_decimal(code as int) + "\nstdout:\n"@ + out
                + "\nstderr:\n"@ + err,
            max_output,
        ),
        report_text(Some(code), Some(out), None, max_output) == crate::text::clipped(
            "exit code: "@ + crate::text::signed_decimal(code as int) + "\nstdout:\n"@ + out,
            max_output,
        ),
        report_text(Some(code), None, Some(err), max_output) == crate::text::clipped(
            "exit code: "@ + crate::text::signed_decimal(code as int) + "\nstderr:\n"@ + err,
            max_output,
        ),
        report_text(Some(code), None, None, max_output) == crate::text::clipped(
            "exit code: "@ + crate::text::signed_decimal(code as int),
            max_output,
        ),
        report_text(None, Some(out), Some(err), max_output) == crate::text::clipped(
            "exit code: "@ + "killed by signal"@ + "\nstdout:\n"@ + out + "\nstderr:\n"@ + err,
            max_output,
        ),
        report_text(None, None, None, max_output) == crate::text::clipped(
            "exit code: "@ + "killed by signal"@,
            max_output,
        ),
        report_text(None, Some(out), None, max_output) == crate::text::clipped(
            "exit code: "@ + "killed by signal"@ + "\nstdout:\n"@ + out,
            max_output,
        ),
        report_text(None, None, Some(err), max_output) == crate::text::clipped(
            "exit code: "@ + "killed by signal"@ + "\nstderr:\n"@ + err,
            max_output,
        ),
{
    let nothing = Seq::<char>::empty();
    let ended = "exit code: "@ + crate::text::signed_decimal(code as int);
    let killed = "exit code: "@ + "killed by signal"@;
    let wrote = "\nstdout:\n"@ + out;
    let warned = "\nstderr:\n"@ + err;
    assert(ended + wrote + warned == ended + "\nstdout:\n"@ + out + "\nstderr:\n"@ + err);
    assert(ended + wrote + nothing == ended + "\nstdout:\n"@ + out);
    assert(ended + nothing + warned == ended + "\nstderr:\n"@ + err);
    assert(ended + nothing + nothing == ended);
    assert(killed + wrote + warned == killed + "\nstdout:\n"@ + out + "\nstderr:\n"@ + err);
    assert(killed + nothing + nothing == killed);
    assert(killed + wrote + nothing == killed + "\nstdout:\n"@ + out);
    assert(killed + nothing + warned == killed + "\nstderr:\n"@ + err);
}

/// What a stream says is its text, also where that is whitespace only; a stream to
/// which nothing was written says nothing.
pub proof fn a_stream_says_its_text(text: Seq<char>)
    ensures
        text.len() > 0 ==> stream_text(vstd::utf8::encode_utf8(text)) == Some(text),
        text.len() == 0 ==> stream_text(vstd::utf8::encode_utf8(text)) is None,
{
    let bytes = vstd::utf8::encode_utf8(text);
    vstd::utf8::encode_utf8_valid_utf8(text);
    vstd::utf8::encode_utf8_decode_utf8(text);
    if text.len() > 0 {
        let c = text.last();
        assert(text.drop_last().push(c) == text);
        crate::text::lemma_byte_len_push(text.drop_last(), c);
    }
}

/// The model is told how long a command may run.
pub proof fn the_model_is_told_how_long_a_command_may_run(secs: nat)
    ensures
        description_text(secs)
            == "Run a shell command in the working directory and return its exit code, stdout and stderr. Non-zero exit codes are normal output. The command is killed after "@
            + crate::text::decimal(secs) + " seconds and long output is truncated."@,
{
}

/// Whatever a stream says, a report that leaves anything of it out says so: what is
/// kept of a longer stream is more than a report may hold.
pub proof fn a_cut_stream_shows(bytes: Seq<u8>, max_output: nat)
    requires
        max_output < usize::MAX,
        bytes.len() > max_output,
    ensures
        first_bytes(bytes, kept_bytes(max_output)).len() == max_output + 1,
        bytes.len() == max_output + 1 ==> first_bytes(bytes, kept_bytes(max_output)) == bytes,
{
}

} // verus!
