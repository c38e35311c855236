//! `write` — create or fully overwrite a file.

use vstd::prelude::*;

use super::{
    arg_str, resolve_on, schema_value, string_value, FilePath, ToolError, ToolErrorView, Tools,
    PATH_DESCRIPTION,
};
use crate::json::{Json, JsonValue, Object};
use crate::text::push_decimal;
use crate::{DefinitionView, ToolDefinition};

verus! {

/// Give a file its whole content, in a directory that is created if need be.
#[derive(Debug)]
pub struct WriteJob {
    pub path: FilePath,
    pub content: String,
}

/// What the arguments of `write` ask for.
pub open spec fn write_job(
    arguments: Json,
) -> Result<(Seq<char>, Seq<char>), ToolErrorView> {
    match super::path_argument(arguments) {
        Err(error) => Err(error),
        Ok(path) => match super::required(arguments, "content"@) {
            Err(error) => Err(error),
            Ok(content) => Ok((path, content)),
        },
    }
}

/// What the model is told when the file is written.
pub open spec fn done_text(content: Seq<char>, path: Seq<char>) -> Seq<char> {
    "wrote "@ + crate::text::decimal(crate::text::byte_len(content)) + " bytes to "@ + path
}

/// Work out what a `write` call asks for.
pub fn plan(tools: &Tools, arguments: &JsonValue) -> (job: Result<WriteJob, ToolError>)
    ensures
        match job {
            Ok(job) => {
                &&& write_job(arguments@) matches Ok((path, content))
                &&& super::path::means(tools.backslash, tools.cwd@, path, job.path@)
                &&& job.content@ == content
            },
            Err(error) => write_job(arguments@) == Err::<
                (Seq<char>, Seq<char>),
                ToolErrorView,
            >(error@),
        },
{
    let path = resolve_on(
        tools.backslash,
        tools.cwd.as_str(),
        arg_str(arguments, "path")?.as_str(),
    )?;
    let content = arg_str(arguments, "content")?;
    Ok(WriteJob { path, content })
}

impl WriteJob {
    /// What the model is told when the file is written.
    pub fn done(&self) -> (output: String)
        ensures
            output@ == done_text(self.content@, self.path@.text()),
            output@ == "wrote "@ + crate::text::decimal(crate::text::byte_len(self.content@))
                + " bytes to "@ + self.path@.text(),
    {
        let mut output = "wrote ".to_owned();
        push_decimal(&mut output, self.content.as_str().as_bytes().len() as u64);
        output.append(" bytes to ");
        output.append(self.path.text().as_str());
        output
    }
}

// ---------------------------------------------------------------- definition

/// What `write` is for.
pub const DESCRIPTION: &'static str =
    "Write a UTF-8 text file, creating it or replacing its whole content. Missing parent directories are created. Prefer `edit` for small changes.";

/// The parameters of `write`.
pub open spec fn parameters() -> Json {
    super::schema(
        Map::empty().insert("path"@, super::string_property(PATH_DESCRIPTION@)).insert(
            "content"@,
            super::string_property("Full content of the file."@),
        ),
        seq![Json::Text("path"@), Json::Text("content"@)],
        false,
    )
}

/// `write` as the model sees it.
pub fn definition() -> (definition: ToolDefinition)
    ensures
        definition@ == (DefinitionView {
            name: "write"@,
            description: DESCRIPTION@,
            parameters: parameters(),
        }),
{
    let properties = Object::new().with("path", string_value(PATH_DESCRIPTION)).with(
        "content",
        string_value("Full content of the file."),
    );
    let mut required: Vec<JsonValue> = Vec::new();
    required.push(JsonValue::text("path"));
    required.push(JsonValue::text("content"));
    proof {
        crate::json::lemma_items_view(required@);
        assert(crate::json::items_view(required@) == seq![
            Json::Text("path"@),
            Json::Text("content"@),
        ]);
    }
    ToolDefinition {
        name: "write".to_owned(),
        description: DESCRIPTION.to_owned(),
        parameters: schema_value(properties, required, false),
    }
}

// --------------------------------------------------------------------- laws

/// What a `write` call says: the file and its content, character for character. It
/// is refused where one of them is missing and where the path is blank, and for
/// nothing else.
pub proof fn a_write_call_says_what_to_write(
    arguments: Json,
    path: Seq<char>,
    content: Seq<char>,
)
    ensures
        super::gives_text(arguments, "path"@, path) && !crate::text::blank(path)
            && super::gives_text(arguments, "content"@, content) ==> write_job(arguments) == Ok::<
            (Seq<char>, Seq<char>),
            ToolErrorView,
        >((path, content)),
        super::gives_no_text(arguments, "path"@) ==> write_job(arguments) == Err::<
            (Seq<char>, Seq<char>),
            ToolErrorView,
        >(ToolErrorView::MissingArgument { key: "path"@, arguments }),
        super::gives_text(arguments, "path"@, path) && crate::text::blank(path) ==> write_job(
            arguments,
        ) == Err::<(Seq<char>, Seq<char>), ToolErrorView>(ToolErrorView::EmptyPath),
        super::gives_text(arguments, "path"@, path) && !crate::text::blank(path)
            && super::gives_no_text(arguments, "content"@) ==> write_job(arguments) == Err::<
            (Seq<char>, Seq<char>),
            ToolErrorView,
        >(ToolErrorView::MissingArgument { key: "content"@, arguments }),
{
}

/// The model is told how many bytes were written, and to which file.
pub proof fn what_was_written_is_told(content: Seq<char>, path: Seq<char>)
    ensures
        exists|size: Seq<char>|
            done_text(content, path) == "wrote "@ + size + " bytes to "@ + path
                && #[trigger] crate::text::number_of(size) == vstd::utf8::encode_utf8(
                content,
            ).len(),
{
    let size = crate::text::decimal(vstd::utf8::encode_utf8(content).len());
    crate::text::a_numeral_stands_for_its_number(vstd::utf8::encode_utf8(content).len());
    assert(done_text(content, path) == "wrote "@ + size + " bytes to "@ + path);
}

} // verus!
