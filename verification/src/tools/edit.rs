//! `edit` — exact string replacement, and nothing more.

use vstd::prelude::*;

use super::{
    arg_str, resolve_on, schema_value, string_value, FilePath, ToolError, ToolErrorView, Tools,
};
use crate::json::{Json, JsonValue, Object};
use crate::text::{chars_of, count_matches, count_places, find_from};
use crate::{DefinitionView, ToolDefinition};

verus! {

/// Replace one snippet of a file.
#[derive(Debug)]
pub struct EditJob {
    pub path: FilePath,
    pub old: String,
    pub new: String,
}

/// A text with `new` in place of the `old` that stands at `at`.
pub open spec fn replaced_at(
    text: Seq<char>,
    at: int,
    old: Seq<char>,
    new: Seq<char>,
) -> Seq<char> {
    text.take(at) + new + text.skip(at + old.len())
}

/// A text after an edit, unless the snippet stands nowhere in it or at several
/// places.
pub open spec fn edited_text(
    text: Seq<char>,
    old: Seq<char>,
    new: Seq<char>,
) -> Option<Seq<char>> {
    if exists|at: int| crate::text::only_at(text, old, at) {
        Some(
            replaced_at(text, choose|at: int| crate::text::only_at(text, old, at), old, new),
        )
    } else {
        None
    }
}

/// How often a snippet that is not unique is said to appear: as often as it can be
/// found from left to right without overlap. Where that is once, because its
/// places overlap, the places themselves are counted.
pub open spec fn appearances(text: Seq<char>, old: Seq<char>) -> nat {
    let count = crate::text::count_from(text, old, 0);
    if count > 1 {
        count
    } else {
        crate::text::places(text, old)
    }
}

/// What the arguments of `edit` ask for.
pub open spec fn edit_job(
    arguments: Json,
) -> Result<(Seq<char>, Seq<char>, Seq<char>), ToolErrorView> {
    match super::path_argument(arguments) {
        Err(error) => Err(error),
        Ok(path) => match super::required(arguments, "old"@) {
            Err(error) => Err(error),
            Ok(old) => match super::required(arguments, "new"@) {
                Err(error) => Err(error),
                Ok(new) => if old.len() == 0 {
                    Err(ToolErrorView::EmptyOld)
                } else {
                    Ok((path, old, new))
                },
            },
        },
    }
}

/// What the model is told when the file is written.
pub open spec fn done_text(path: Seq<char>) -> Seq<char> {
    "edited "@ + path
}

/// Work out what an `edit` call asks for.
pub fn plan(tools: &Tools, arguments: &JsonValue) -> (job: Result<EditJob, ToolError>)
    ensures
        match job {
            Ok(job) => {
                &&& edit_job(arguments@) matches Ok((path, old, new))
                &&& super::path::means(tools.backslash, tools.cwd@, path, job.path@)
                &&& job.old@ == old
                &&& job.new@ == new
            },
            Err(error) => edit_job(arguments@) == Err::<
                (Seq<char>, Seq<char>, Seq<char>),
                ToolErrorView,
            >(error@),
        },
{
    let path = resolve_on(
        tools.backslash,
        tools.cwd.as_str(),
        arg_str(arguments, "path")?.as_str(),
    )?;
    let old = arg_str(arguments, "old")?;
    let new = arg_str(arguments, "new")?;
    if old.as_str().is_empty() {
        return Err(ToolError::EmptyOld);
    }
    Ok(EditJob { path, old, new })
}

impl EditJob {
    /// The text of the file after the edit. The snippet must stand in the file at
    /// one place only, also counting places that overlap.
    pub fn apply(&self, text: &str) -> (edited: Result<String, ToolError>)
        requires
            self.old@.len() > 0,
        ensures
            match edited {
                Ok(edited) => exists|at: int| #[trigger]
                    crate::text::only_at(text@, self.old@, at) && edited@ == replaced_at(
                        text@,
                        at,
                        self.old@,
                        self.new@,
                    ),
                Err(error) => {
                    &&& forall|at: int| !crate::text::only_at(text@, self.old@, at)
                    &&& error@ == if !crate::text::contains_text(text@, self.old@) {
                        ToolErrorView::NotFound(self.path@.text())
                    } else {
                        ToolErrorView::NotUnique {
                            count: appearances(text@, self.old@),
                            path: self.path@.text(),
                        }
                    }
                },
            },
            match edited {
                Ok(edited) => edited_text(text@, self.old@, self.new@) == Some(edited@),
                Err(_) => edited_text(text@, self.old@, self.new@) is None,
            },
    {
        let chars = chars_of(text);
        let old = chars_of(self.old.as_str());
        let count = count_matches(&chars, &old);
        proof {
            crate::text::places_are_counted(text@, self.old@);
            crate::text::lemma_counts_agree(text@, self.old@, 0);
        }
        if count == 0 {
            return Err(ToolError::NotFound(self.path.text()));
        }
        if count > 1 {
            return Err(ToolError::NotUnique { count, path: self.path.text() });
        }
        let places = count_places(&chars, &old);
        if places > 1 {
            return Err(ToolError::NotUnique { count: places, path: self.path.text() });
        }
        match find_from(&chars, &old, 0) {
            Some(at) => {
                assert(crate::text::only_at(text@, self.old@, at as int));
                assert(at + old.len() <= chars.len());
                let mut edited = text.substring_char(0, at).to_owned();
                edited.append(self.new.as_str());
                edited.append(text.substring_char(at + old.len(), chars.len()));
                assert(edited@ == replaced_at(text@, at as int, self.old@, self.new@));
                Ok(edited)
            },
            None => Ok(text.to_owned()),
        }
    }

    /// What the model is told when the file is written.
    pub fn done(&self) -> (output: String)
        ensures
            output@ == done_text(self.path@.text()),
            output@ == "edited "@ + self.path@.text(),
    {
        "edited ".to_owned().concat(self.path.text().as_str())
    }
}

// ---------------------------------------------------------------- definition

/// What `edit` is for.
pub const DESCRIPTION: &'static str =
    "Replace an exact snippet of a file. `old` must appear exactly once, so include enough surrounding context to make it unique. Read the file first.";

/// The parameters of `edit`.
pub open spec fn parameters() -> Json {
    super::schema(
        Map::empty().insert(
            "path"@,
            super::string_property("File to edit, relative to the working directory."@),
        ).insert("old"@, super::string_property("Exact text to replace, copied from the file."@)).insert(
            "new"@,
            super::string_property("Replacement text. Use an empty string to delete."@),
        ),
        seq![Json::Text("path"@), Json::Text("old"@), Json::Text("new"@)],
        true,
    )
}

/// `edit` as the model sees it.
pub fn definition() -> (definition: ToolDefinition)
    ensures
        definition@ == (DefinitionView {
            name: "edit"@,
            description: DESCRIPTION@,
            parameters: parameters(),
        }),
{
    let properties = Object::new().with(
        "path",
        string_value("File to edit, relative to the working directory."),
    ).with("old", string_value("Exact text to replace, copied from the file.")).with(
        "new",
        string_value("Replacement text. Use an empty string to delete."),
    );
    let mut required: Vec<JsonValue> = Vec::new();
    required.push(JsonValue::text("path"));
    required.push(JsonValue::text("old"));
    required.push(JsonValue::text("new"));
    proof {
        crate::json::lemma_items_view(required@);
        assert(crate::json::items_view(required@) == seq![
            Json::Text("path"@),
            Json::Text("old"@),
            Json::Text("new"@),
        ]);
    }
    ToolDefinition {
        name: "edit".to_owned(),
        description: DESCRIPTION.to_owned(),
        parameters: schema_value(properties, required, true),
    }
}

// --------------------------------------------------------------------- laws

/// An edit changes the snippet and nothing else: what stands before it and
/// behind it is as it was.
pub proof fn an_edit_changes_only_the_snippet(
    text: Seq<char>,
    at: int,
    old: Seq<char>,
    new: Seq<char>,
)
    requires
        crate::text::only_at(text, old, at),
    ensures
        text == text.take(at) + old + text.skip(at + old.len()),
        replaced_at(text, at, old, new) == text.take(at) + new + text.skip(at + old.len()),
{
    assert(text == text.take(at) + text.subrange(at, at + old.len()) + text.skip(at + old.len()));
}

/// There is never a choice of what to edit: a snippet that stands at one place
/// only stands at that place.
pub proof fn an_edit_has_one_outcome(text: Seq<char>, old: Seq<char>, a: int, b: int)
    requires
        crate::text::only_at(text, old, a),
        crate::text::only_at(text, old, b),
    ensures
        a == b,
{
}

/// Replacing a snippet by itself changes nothing.
pub proof fn an_edit_by_itself_changes_nothing(text: Seq<char>, at: int, old: Seq<char>)
    requires
        crate::text::only_at(text, old, at),
    ensures
        replaced_at(text, at, old, old) == text,
{
    assert(text == text.take(at) + text.subrange(at, at + old.len()) + text.skip(at + old.len()));
}

/// A snippet that stands at two places is refused, also where they overlap.
pub proof fn a_snippet_at_two_places_is_never_edited(
    text: Seq<char>,
    old: Seq<char>,
    a: int,
    b: int,
)
    requires
        crate::text::occurs_at(text, old, a),
        crate::text::occurs_at(text, old, b),
        a != b,
    ensures
        forall|at: int| !crate::text::only_at(text, old, at),
        appearances(text, old) >= 2,
{
    crate::text::places_are_counted(text, old);
    assert(crate::text::contains_text(text, old));
}

/// What an `edit` call says: the file, the snippet and the replacement, each
/// character for character. It is refused where one of them is missing, where the
/// path is blank and where the snippet is empty, and for nothing else.
pub proof fn an_edit_call_says_what_to_replace(
    arguments: Json,
    path: Seq<char>,
    old: Seq<char>,
    new: Seq<char>,
)
    ensures
        super::gives_text(arguments, "path"@, path) && !crate::text::blank(path)
            && super::gives_text(arguments, "old"@, old) && super::gives_text(
            arguments,
            "new"@,
            new,
        ) && old.len() > 0 ==> edit_job(arguments) == Ok::<
            (Seq<char>, Seq<char>, Seq<char>),
            ToolErrorView,
        >((path, old, new)),
        super::gives_text(arguments, "path"@, path) && !crate::text::blank(path)
            && super::gives_text(arguments, "old"@, Seq::empty()) && super::gives_text(
            arguments,
            "new"@,
            new,
        ) ==> edit_job(arguments) == Err::<(Seq<char>, Seq<char>, Seq<char>), ToolErrorView>(
            ToolErrorView::EmptyOld,
        ),
        super::gives_no_text(arguments, "path"@) ==> edit_job(arguments) == Err::<
            (Seq<char>, Seq<char>, Seq<char>),
            ToolErrorView,
        >(ToolErrorView::MissingArgument { key: "path"@, arguments }),
        super::gives_text(arguments, "path"@, path) && crate::text::blank(path) ==> edit_job(
            arguments,
        ) == Err::<(Seq<char>, Seq<char>, Seq<char>), ToolErrorView>(ToolErrorView::EmptyPath),
        super::gives_text(arguments, "path"@, path) && !crate::text::blank(path)
            && super::gives_no_text(arguments, "old"@) ==> edit_job(arguments) == Err::<
            (Seq<char>, Seq<char>, Seq<char>),
            ToolErrorView,
        >(ToolErrorView::MissingArgument { key: "old"@, arguments }),
        super::gives_text(arguments, "path"@, path) && !crate::text::blank(path)
            && super::gives_text(arguments, "old"@, old) && super::gives_no_text(
            arguments,
            "new"@,
        ) ==> edit_job(arguments) == Err::<(Seq<char>, Seq<char>, Seq<char>), ToolErrorView>(
            ToolErrorView::MissingArgument { key: "new"@, arguments },
        ),
{
}

/// After an edit the replacement stands where the snippet stood, with what stood
/// around it, and putting the snippet back gives the text as it was.
pub proof fn an_edit_can_be_taken_back(text: Seq<char>, at: int, old: Seq<char>, new: Seq<char>)
    requires
        0 <= at,
        at + old.len() <= text.len(),
        text.subrange(at, at + old.len()) == old,
    ensures
        ({
            let edited = replaced_at(text, at, old, new);
            &&& edited.len() == text.len() - old.len() + new.len()
            &&& edited.take(at) == text.take(at)
            &&& edited.subrange(at, at + new.len()) == new
            &&& edited.skip(at + new.len()) == text.skip(at + old.len())
            &&& replaced_at(edited, at, new, old) == text
        }),
{
    let edited = replaced_at(text, at, old, new);
    assert(edited.take(at) == text.take(at));
    assert(edited.subrange(at, at + new.len()) == new);
    assert(edited.skip(at + new.len()) == text.skip(at + old.len()));
    assert(text == text.take(at) + text.subrange(at, at + old.len()) + text.skip(at + old.len()));
}

/// A place where a snippet stands is one where the text reads as the snippet, and a
/// snippet is edited only where no other place reads so.
pub proof fn a_snippet_stands_where_the_text_reads_so(text: Seq<char>, old: Seq<char>, at: int)
    requires
        0 <= at,
        at + old.len() <= text.len(),
        forall|i: int| 0 <= i < old.len() ==> (#[trigger] text[at + i]) == old[i],
    ensures
        crate::text::contains_text(text, old),
        crate::text::occurs_at(text, old, at),
        forall|k: int| crate::text::only_at(text, old, k) ==> k == at,
{
    assert(text.subrange(at, at + old.len()) == old) by {
        assert forall|i: int| 0 <= i < old.len() implies (#[trigger] text.subrange(
            at,
            at + old.len(),
        )[i]) == old[i] by {
            assert(text[at + i] == old[i]);
        }
    }
    assert(crate::text::occurs_at(text, old, at));
}

/// A snippet that is there more than once is told as often as it can be found
/// without overlap; where that is once only, as often as it stands there.
pub proof fn the_places_of_a_snippet_are_told(text: Seq<char>, old: Seq<char>)
    ensures
        crate::text::count_from(text, old, 0) > 1 ==> appearances(text, old)
            == crate::text::count_from(text, old, 0),
        crate::text::count_from(text, old, 0) <= 1 ==> appearances(text, old)
            == crate::text::places(text, old),
{
}

/// A snippet that stands at one place is replaced there, by the replacement as it
/// is, and what stands before it and behind it stays, character for character.
pub proof fn the_snippet_is_replaced_and_the_rest_stays(
    before: Seq<char>,
    old: Seq<char>,
    new: Seq<char>,
    behind: Seq<char>,
)
    requires
        forall|k: int|
            0 <= k && k + old.len() <= (before + old + behind).len() && k != before.len()
                ==> #[trigger] (before + old + behind).subrange(k, k + old.len()) != old,
    ensures
        edited_text(before + old + behind, old, new) == Some(before + new + behind),
{
    let text = before + old + behind;
    let at = before.len() as int;
    assert(text.subrange(at, at + old.len()) == old);
    assert(crate::text::only_at(text, old, at)) by {
        assert forall|k: int| crate::text::occurs_at(text, old, k) implies k == at by {
            if k != at {
                assert(text.subrange(k, k + old.len()) != old);
            }
        }
    }
    let chosen = choose|k: int| crate::text::only_at(text, old, k);
    assert(chosen == at);
    assert(text.take(at) == before);
    assert(text.skip(at + old.len()) == behind);
}

/// A snippet that stands nowhere, or at two places, is not replaced.
pub proof fn other_snippets_are_refused(
    text: Seq<char>,
    old: Seq<char>,
    new: Seq<char>,
    a: int,
    b: int,
)
    ensures
        (forall|k: int|
            0 <= k && k + old.len() <= text.len() ==> #[trigger] text.subrange(k, k + old.len())
                != old) ==> edited_text(text, old, new) is None,
        0 <= a < b && b + old.len() <= text.len() && text.subrange(a, a + old.len()) == old
            && text.subrange(b, b + old.len()) == old ==> edited_text(text, old, new) is None,
{
    if exists|at: int| crate::text::only_at(text, old, at) {
        let at = choose|at: int| crate::text::only_at(text, old, at);
        assert(text.subrange(at, at + old.len()) == old);
        if 0 <= a < b && b + old.len() <= text.len() && text.subrange(a, a + old.len()) == old
            && text.subrange(b, b + old.len()) == old {
            assert(crate::text::occurs_at(text, old, a));
            assert(crate::text::occurs_at(text, old, b));
        }
    }
}

/// The model is told which file was edited.
pub proof fn the_edited_file_is_told(path: Seq<char>)
    ensures
        done_text(path) == "edited "@ + path,
{
}

} // verus!
