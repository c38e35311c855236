//! The four tools: what they ask for, and what they make of what they get.

use agent::llm::Timeout;
use agent::text::clip;
use agent::tools::exec::{report, Capture};
use agent::tools::path::{
    backslash_separates, parts_from, place_of, slash_parts_of, PathComponent, PathParts,
};
use agent::tools::read::definition as read_definition;
use agent::tools::read::LineWindow;
use agent::tools::{
    arg_str, bad_count, count_arg, missing_argument, resolve, resolve_on, unknown_tool, EditJob, ExecJob, Job,
    ReadJob, ToolError, WriteJob,
};
use agent::{CodingTools, JsonValue, Number, Object, ToolCall};

fn json(value: &str) -> JsonValue {
    JsonValue::parse(value).expect("valid JSON")
}

fn job(tools: &CodingTools, name: &str, arguments: &str) -> Result<Job, ToolError> {
    tools.execute(&ToolCall {
        id: "call_1".to_string(),
        name: name.to_string(),
        arguments: json(arguments),
    })
}

fn read_job(tools: &CodingTools, arguments: &str) -> Result<ReadJob, ToolError> {
    match job(tools, "read", arguments)? {
        Job::Read(job) => Ok(job),
        other => panic!("{other:?}"),
    }
}

fn write_job(arguments: &str) -> Result<WriteJob, ToolError> {
    match job(&CodingTools::new("/work"), "write", arguments)? {
        Job::Write(job) => Ok(job),
        other => panic!("{other:?}"),
    }
}

fn edit_job(arguments: &str) -> Result<EditJob, ToolError> {
    match job(&CodingTools::new("/work"), "edit", arguments)? {
        Job::Edit(job) => Ok(job),
        other => panic!("{other:?}"),
    }
}

fn exec_job(tools: &CodingTools, arguments: &str) -> Result<ExecJob, ToolError> {
    match job(tools, "exec", arguments)? {
        Job::Exec(job) => Ok(job),
        other => panic!("{other:?}"),
    }
}

/// Reads from a text as from a file.
fn read(tools: &CodingTools, arguments: &str, text: &str) -> Result<String, ToolError> {
    let job = read_job(tools, arguments)?;
    let mut window = job.window();
    for line in text.lines() {
        if window.is_closed() {
            break;
        }
        window.push(line.to_string());
    }
    job.finish(window)
}

fn edit(arguments: &str, text: &str) -> Result<String, ToolError> {
    edit_job(arguments)?.apply(text)
}

/// What a command is reported to have done.
fn outcome(job: &ExecJob, code: Option<i32>, stdout: &[u8], stderr: &[u8]) -> String {
    let mut out = job.capture();
    out.push(stdout);
    let mut err = job.capture();
    err.push(stderr);
    job.finish(code, out, err)
}

fn error(result: Result<String, ToolError>) -> String {
    match result {
        Ok(output) => panic!("{output}"),
        Err(error) => error.message(),
    }
}

// ---------------------------------------------------------------------- shared

#[test]
fn resolve_normalizes_dots_and_keeps_absolute_paths() {
    let cwd = "/tmp/work";
    assert_eq!(resolve(cwd, "a/b.rs").unwrap().text(), "/tmp/work/a/b.rs");
    assert_eq!(resolve(cwd, "./a/../b.rs").unwrap().text(), "/tmp/work/b.rs");
    assert_eq!(resolve(cwd, "/etc/hosts").unwrap().text(), "/etc/hosts");
    assert!(resolve(cwd, "  ").is_err());
}

#[test]
fn resolve_at_the_edges() {
    let text = |cwd: &str, path: &str| resolve(cwd, path).unwrap().text();
    assert_eq!(text("/tmp/work", "../../x"), "/x");
    assert_eq!(text("/tmp/work", "../.."), "/");
    assert_eq!(text("/tmp/work", "../../../x"), "/x");
    assert_eq!(text("/", ".."), "/");
    assert_eq!(text("/", "../.."), "/");
    assert_eq!(text("/tmp", "/../../a/../b"), "/b");
    assert_eq!(text("/tmp", "a//b/./c/"), "/tmp/a/b/c");
    assert_eq!(text("/tmp", "/a/../b"), "/b");
    assert_eq!(text("work", "a"), "work/a");
    assert_eq!(text("", ".."), "..");
    assert_eq!(text("", "../.."), "../..");
    assert_eq!(text("work", "../../../x"), "../../x");
    assert_eq!(text("..", "a/../.."), "../..");
    assert_eq!(text(".", "a.txt"), "a.txt");
    assert_eq!(text("/tmp", "日本 語"), "/tmp/日本 語");
    assert_eq!(resolve("/tmp", "").unwrap_err().message(), "`path` must not be empty");
    // A resolved path stays what it is.
    assert_eq!(text("/elsewhere", &text("/tmp/work", "./a/../b.rs")), "/tmp/work/b.rs");
}

/// What a path says on a machine with drives.
fn on_drive(prefix: &str, rooted: bool, names: &[&str]) -> PathParts {
    PathParts {
        prefix: prefix.to_string(),
        rooted,
        names: names.iter().map(|name| name.to_string()).collect(),
    }
}

#[test]
fn paths_on_drives_are_put_together() {
    let cwd = on_drive("C:", true, &["work"]);
    let text = |path: PathParts| place_of(true, &cwd, &path).text();
    assert_eq!(text(on_drive("", false, &["a", "b.rs"])), "C:\\work\\a\\b.rs");
    assert_eq!(text(on_drive("", false, &["..", "..", "x"])), "C:\\x");
    // A root without a drive is that of the working directory.
    assert_eq!(text(on_drive("", true, &["x"])), "C:\\x");
    // A drive stands by itself.
    assert_eq!(text(on_drive("D:", true, &["a", "..", "x"])), "D:\\x");
    assert_eq!(text(on_drive("D:", false, &["x"])), "D:x");
    assert_eq!(text(on_drive("", false, &[])), "C:\\work");
    let place = place_of(true, &cwd, &on_drive("", false, &["a"]));
    assert_eq!(place.parent().unwrap().text(), "C:\\work");
}

#[test]
fn components_say_what_a_path_is_made_of() {
    let components = vec![
        PathComponent::Prefix("C:".to_string()),
        PathComponent::Root,
        PathComponent::Current,
        PathComponent::Normal("a".to_string()),
        PathComponent::Parent,
    ];
    let parts = parts_from(&components);
    assert!(parts.rooted);
    assert_eq!(parts.prefix, "C:");
    assert_eq!(parts.names, ["a", ".."]);
}

#[test]
fn odd_names_are_names_where_slashes_separate() {
    let text = |cwd: &str, path: &str| resolve_on(false, cwd, path).unwrap().text();
    assert_eq!(text("/work", "a\\b"), "/work/a\\b");
    assert_eq!(text("/work", "C:\\x"), "/work/C:\\x");
    assert_eq!(text("/work", "a:b.txt"), "/work/a:b.txt");
    assert_eq!(text("/work", "//server/share"), "/server/share");
    assert_eq!(text("/work", "./a:b/./c"), "/work/a:b/c");
    assert_eq!(text("./work/.", "."), "work");
    assert!(resolve_on(false, "/work", " ").is_err());
    assert!(resolve_on(true, "/work", " ").is_err());
}

#[test]
fn where_backslashes_separate_they_are_written() {
    // Paths without drives and backslashes mean the same place, written otherwise.
    let place = resolve_on(true, "/tmp/work", "./a/../b.rs").unwrap();
    assert!(place.backslash && place.rooted && place.prefix.is_empty());
    assert_eq!(place.parts, ["tmp", "work", "b.rs"]);
    assert_eq!(place.text(), "\\tmp\\work\\b.rs");
}

#[test]
fn the_machine_says_what_separates() {
    let name = |text: &str| vec![PathComponent::Normal(text.to_string())];
    assert!(!backslash_separates(&name("\\")));
    assert!(backslash_separates(&name("x")));
    assert!(backslash_separates(&vec![PathComponent::Root]));
    assert!(backslash_separates(&Vec::new()));
    let here = std::path::is_separator('\\');
    assert_eq!(CodingTools::new("/work").backslash, here);
    assert_eq!(resolve("/work", "a:b").unwrap().backslash, here);
    // As std takes paths apart on this machine, so does the library.
    for path in ["", ".", "./a", "a/./b", "a//b/", "/", "/a/../b", "..", "a\\b", "a:b", "//a"] {
        let names: Vec<String> = std::path::Path::new(path)
            .components()
            .filter_map(|component| match component {
                std::path::Component::ParentDir => Some("..".to_string()),
                std::path::Component::Normal(name) => Some(name.to_string_lossy().into_owned()),
                _ => None,
            })
            .collect();
        if !here {
            let parts = slash_parts_of(path);
            assert_eq!(parts.names, names, "{path}");
            assert_eq!(parts.rooted, std::path::Path::new(path).has_root(), "{path}");
        }
    }
}

#[test]
fn a_resolved_place_resolves_to_itself() {
    for path in ["../../../a/./b//c:d", "/x/../y", "e\\f", "..", "/", " g "] {
        let place = resolve_on(false, "/work/dir", path).unwrap();
        assert!(place.rooted && place.prefix.is_empty(), "{path}");
        assert!(place.parts.iter().all(|part| part != "." && part != ".."), "{path}");
        let again = resolve_on(false, "else/where", &place.text()).unwrap();
        assert_eq!(again.parts, place.parts, "{path}");
        assert!(again.rooted && again.prefix.is_empty() && !again.backslash, "{path}");
    }
}

#[test]
fn tools_can_be_bound_to_either_kind_of_machine() {
    let tools = CodingTools::on(true, "/work");
    let job = read_job(&tools, "{\"path\":\"a/b.txt\"}").unwrap();
    assert_eq!(job.path.text(), "\\work\\a\\b.txt");
    let tools = CodingTools::on(false, "/work");
    let job = read_job(&tools, "{\"path\":\"a:b.txt\"}").unwrap();
    assert_eq!(job.path.text(), "/work/a:b.txt");
}

#[test]
fn paths_know_their_directory() {
    let parent = |path: &str| resolve("/", path).unwrap().parent().map(|place| place.text());
    assert_eq!(parent("/a/b/c.txt"), Some("/a/b".to_string()));
    assert_eq!(parent("/a"), Some("/".to_string()));
    assert_eq!(parent("/"), None);
}

#[test]
fn arg_str_reports_missing_arguments() {
    let args = json("{\"path\":\"a.rs\"}");
    assert_eq!(arg_str(&args, "path").unwrap(), "a.rs");
    let error = arg_str(&args, "content").unwrap_err().message();
    assert!(error.contains("content"), "{error}");
    assert_eq!(error, "missing string argument `content` in {\"path\":\"a.rs\"}");
}

#[test]
fn only_strings_are_strings() {
    for value in ["null", "true", "7", "[\"a\"]", "{}"] {
        let args = json(&format!("{{\"path\":{value}}}"));
        assert!(arg_str(&args, "path").is_err(), "{value}");
    }
    assert!(arg_str(&json("\"path\""), "path").is_err());
    assert!(arg_str(&json("[]"), "path").is_err());
}

#[test]
fn counts_are_integers_from_one_up() {
    let args = json("{\"a\":1,\"b\":0,\"c\":-1,\"d\":1.5,\"e\":\"1\",\"f\":null,\"g\":2000}");
    assert_eq!(count_arg(&args, "a").unwrap(), Some(1));
    assert_eq!(count_arg(&args, "g").unwrap(), Some(2000));
    assert_eq!(count_arg(&args, "f").unwrap(), None);
    assert_eq!(count_arg(&args, "missing").unwrap(), None);
    for (key, shown) in [("b", "0"), ("c", "-1"), ("d", "1.5"), ("e", "\"1\"")] {
        assert_eq!(
            count_arg(&args, key).unwrap_err().message(),
            format!("`{key}` must be an integer >= 1, got {shown}")
        );
    }
}

#[test]
fn a_number_counts_however_it_is_held() {
    let held = |number: Number| {
        JsonValue::Object(Object::new().with("n", JsonValue::Number(number)))
    };
    assert_eq!(count_arg(&held(Number::NegInt(5)), "n").unwrap(), Some(5));
    assert_eq!(count_arg(&held(Number::PosInt(5)), "n").unwrap(), Some(5));
    assert!(count_arg(&held(Number::NegInt(0)), "n").is_err());
    assert_eq!(held(Number::NegInt(5)).to_text(), "{\"n\":5}");
}

#[test]
fn unknown_tools_are_reported() {
    let error = match job(&CodingTools::new("/work"), "re\"ad", "{}") {
        Err(error) => error.message(),
        Ok(job) => panic!("{job:?}"),
    };
    assert_eq!(error, "unknown tool \"re\\\"ad\": available tools are read, write, edit, exec");
}

#[test]
fn the_tools_are_described() {
    let tools = CodingTools::new("/work");
    let definitions = tools.definitions();
    let names: Vec<&str> = definitions.iter().map(|tool| tool.name.as_str()).collect();
    assert_eq!(names, ["read", "write", "edit", "exec"]);
    assert_eq!(
        definitions[0].description,
        "Read a UTF-8 text file. Returns `limit` lines starting at line `offset` (1-based, 2000 \
         lines by default). Reading a large file without offset/limit returns its head only."
    );
    assert!(definitions[3].description.contains("killed after 120 seconds"));
    assert_eq!(
        definitions[1].parameters.to_text(),
        "{\"additionalProperties\":false,\"properties\":{\"content\":{\"description\":\"Full \
         content of the file.\",\"type\":\"string\"},\"path\":{\"description\":\"Path of the \
         file, absolute or relative to the working directory.\",\"type\":\"string\"}},\
         \"required\":[\"path\",\"content\"],\"type\":\"object\"}"
    );
    assert_eq!(
        definitions[2].parameters.to_text(),
        "{\"properties\":{\"new\":{\"description\":\"Replacement text. Use an empty string to \
         delete.\",\"type\":\"string\"},\"old\":{\"description\":\"Exact text to replace, copied \
         from the file.\",\"type\":\"string\"},\"path\":{\"description\":\"File to edit, relative \
         to the working directory.\",\"type\":\"string\"}},\"required\":[\"path\",\"old\",\"new\"],\
         \"type\":\"object\"}"
    );
    assert_eq!(
        definitions[3].parameters.to_text(),
        "{\"properties\":{\"command\":{\"description\":\"Command line, run with `sh -c`.\",\
         \"type\":\"string\"}},\"required\":[\"command\"],\"type\":\"object\"}"
    );
    assert_eq!(
        json(&definitions[0].parameters.to_text()).to_text(),
        json(
            "{\"type\":\"object\",\"properties\":{\"path\":{\"type\":\"string\",\"description\":\
             \"Path of the file, absolute or relative to the working directory.\"},\"offset\":{\
             \"type\":\"integer\",\"minimum\":1,\"description\":\"First line to return, 1-based. \
             Defaults to 1.\"},\"limit\":{\"type\":\"integer\",\"minimum\":1,\"description\":\
             \"Maximum number of lines to return.\"}},\"required\":[\"path\"],\
             \"additionalProperties\":false}"
        )
        .to_text()
    );
}

#[test]
fn the_tools_can_be_configured() {
    let tools = CodingTools::new("/work")
        .exec_timeout(Timeout::from_secs(1800))
        .max_output(1024 * 1024)
        .read_limit(500);
    assert_eq!(tools.cwd, "/work");
    assert_eq!(tools.exec_timeout.secs, 1800);
    assert_eq!(tools.max_output, 1048576);
    assert_eq!(tools.read_limit, 500);
    assert!(tools.definitions()[3].description.contains("1800 seconds"));

    let standard = CodingTools::new("/work");
    assert_eq!(standard.exec_timeout.secs, 120);
    assert_eq!(standard.max_output, 100 * 1024);
    assert_eq!(standard.read_limit, 2000);
}

// ------------------------------------------------------------------------ read

#[test]
fn reads_a_file() {
    let tools = CodingTools::new("/work");
    let output = read(&tools, "{\"path\":\"a.txt\"}", "one\ntwo\nthree\n").unwrap();
    assert_eq!(output, "one\ntwo\nthree\n");
    assert_eq!(read_job(&tools, "{\"path\":\"a.txt\"}").unwrap().path.text(), "/work/a.txt");
}

#[test]
fn honours_offset_and_limit() {
    let tools = CodingTools::new("/work");
    let text = "1\n2\n3\n4\n5\n";

    let output = read(&tools, "{\"path\":\"a.txt\",\"offset\":2,\"limit\":2}", text).unwrap();
    assert!(output.starts_with("[truncated: lines 2-3]"), "{output}");
    assert!(output.ends_with("2\n3\n"), "{output}");

    let tail = read(&tools, "{\"path\":\"a.txt\",\"offset\":4}", text).unwrap();
    assert_eq!(tail, "4\n5\n");
}

#[test]
fn uses_the_configured_default_limit() {
    let tools = CodingTools::new("/work").read_limit(2);
    let output = read(&tools, "{\"path\":\"a.txt\"}", "1\n2\n3\n").unwrap();
    assert!(output.starts_with("[truncated: lines 1-2]"), "{output}");
    assert!(read_definition(2).description.contains("2 lines by default"));
}

#[test]
fn clips_to_the_configured_output_limit() {
    let tools = CodingTools::new("/work").max_output(100);
    let output = read(&tools, "{\"path\":\"a.txt\"}", &"x".repeat(500)).unwrap();
    assert!(output.ends_with("[output truncated]"), "{output}");
}

#[test]
fn rejects_bad_offsets_and_reports_missing_files() {
    let tools = CodingTools::new("/work");

    let zero = error(read(&tools, "{\"path\":\"a.txt\",\"offset\":0}", ""));
    assert!(zero.contains("integer >= 1"), "{zero}");

    let past_end = error(read(&tools, "{\"path\":\"a.txt\",\"offset\":9}", "only\n"));
    assert!(past_end.contains("has 1 lines"), "{past_end}");
    assert_eq!(past_end, "nothing to read at offset 9: /work/a.txt has 1 lines");
}

#[test]
fn reports_missing_arguments() {
    let error = error(read(&CodingTools::new("/work"), "{}", ""));
    assert!(error.contains("`path`"), "{error}");
}

#[test]
fn a_window_stops_behind_the_last_line_it_may_hold() {
    let mut window = LineWindow::new(2, 2);
    for line in ["1", "2", "3"] {
        window.push(line.to_string());
        assert!(!window.is_closed());
    }
    assert_eq!(window.number(), 3);
    window.push("4".to_string());
    assert!(window.is_closed());
    assert_eq!(window.number(), 4);
    // Whatever follows changes nothing.
    window.push("5".to_string());
    assert_eq!(window.number(), 4);
}

#[test]
fn windows_that_follow_each_other_cover_the_file() {
    let tools = CodingTools::new("/work");
    let text = "a\nb\nc\nd\n";
    let first = read(&tools, "{\"path\":\"f\",\"offset\":1,\"limit\":2}", text).unwrap();
    let second = read(&tools, "{\"path\":\"f\",\"offset\":3,\"limit\":2}", text).unwrap();
    assert_eq!(first, "[truncated: lines 1-2]\na\nb\n");
    assert_eq!(second, "c\nd\n");
    // An empty file, and a window that may hold nothing.
    assert_eq!(
        error(read(&tools, "{\"path\":\"f\"}", "")),
        "nothing to read at offset 1: /work/f has 0 lines"
    );
    assert_eq!(
        error(read(&tools.read_limit(0), "{\"path\":\"f\"}", text)),
        "nothing to read at offset 1: /work/f has 1 lines"
    );
}

// ----------------------------------------------------------------------- write

#[test]
fn creates_a_file_and_its_parents() {
    let job = write_job("{\"path\":\"a/b/c.txt\",\"content\":\"hello\"}").unwrap();
    assert_eq!(job.path.text(), "/work/a/b/c.txt");
    assert_eq!(job.path.parent().unwrap().text(), "/work/a/b");
    assert_eq!(job.content, "hello");
    let output = job.done();
    assert!(output.starts_with("wrote 5 bytes"), "{output}");
}

#[test]
fn overwrites_an_existing_file() {
    let job = write_job("{\"path\":\"a.txt\",\"content\":\"new\"}").unwrap();
    assert_eq!(job.content, "new");
    assert_eq!(job.done(), "wrote 3 bytes to /work/a.txt");
}

#[test]
fn reports_missing_content() {
    let error = write_job("{\"path\":\"a.txt\"}").unwrap_err().message();
    assert!(error.contains("`content`"), "{error}");
}

#[test]
fn written_bytes_are_counted_as_bytes() {
    let job = write_job("{\"path\":\"a.txt\",\"content\":\"日本\"}").unwrap();
    assert_eq!(job.done(), "wrote 6 bytes to /work/a.txt");
    // The path is looked at before the content.
    assert_eq!(
        write_job("{\"path\":\" \"}").unwrap_err().message(),
        "`path` must not be empty"
    );
}

// ------------------------------------------------------------------------ edit

#[test]
fn replaces_a_unique_match() {
    let arguments = "{\"path\":\"a.txt\",\"old\":\"let b = 2;\",\"new\":\"let b = 3;\"}";
    let output = edit_job(arguments).unwrap().done();
    assert!(output.starts_with("edited"), "{output}");
    assert_eq!(output, "edited /work/a.txt");
    let text = edit(arguments, "let a = 1;\nlet b = 2;\n").unwrap();
    assert_eq!(text, "let a = 1;\nlet b = 3;\n");
}

#[test]
fn deletes_with_an_empty_replacement() {
    let arguments = "{\"path\":\"a.txt\",\"old\":\"drop\\n\",\"new\":\"\"}";
    assert_eq!(edit(arguments, "keep\ndrop\n").unwrap(), "keep\n");
}

#[test]
fn rejects_zero_matches() {
    let arguments = "{\"path\":\"a.txt\",\"old\":\"let z = 9;\",\"new\":\"x\"}";
    let error = error(edit(arguments, "let a = 1;\n"));
    assert!(error.contains("does not appear"), "{error}");
    assert_eq!(
        error,
        "`old` does not appear in /work/a.txt: read the file and copy an exact snippet"
    );
}

#[test]
fn rejects_several_matches() {
    let arguments = "{\"path\":\"a.txt\",\"old\":\"x\",\"new\":\"y\"}";
    let error = error(edit(arguments, "x\nx\nx\n"));
    assert!(error.contains("appears 3 times"), "{error}");
    assert_eq!(
        error,
        "`old` appears 3 times in /work/a.txt: include more surrounding context to make it unique"
    );
}

#[test]
fn rejects_an_empty_old_string() {
    let arguments = "{\"path\":\"a.txt\",\"old\":\"\",\"new\":\"y\"}";
    let error = error(edit(arguments, "x\n"));
    assert!(error.contains("must not be empty"), "{error}");
}

#[test]
fn places_that_overlap_are_not_unique() {
    let arguments = "{\"path\":\"a.txt\",\"old\":\"aa\",\"new\":\"b\"}";
    assert_eq!(edit(arguments, "xaay").unwrap(), "xby");
    // In "aaa" the snippet stands at two places, though they overlap.
    assert!(error(edit(arguments, "aaa")).contains("appears 2 times"));
    // Where it is found more than once without overlap, that is what is said.
    assert!(error(edit(arguments, "aaaa")).contains("appears 2 times"));
    assert!(error(edit(arguments, "aaaaa")).contains("appears 2 times"));
    assert!(error(edit(arguments, "aa aa aa")).contains("appears 3 times"));
    let same = "{\"path\":\"a.txt\",\"old\":\"日本\",\"new\":\"日本\"}";
    assert_eq!(edit(same, "x日本y").unwrap(), "x日本y");
}

#[test]
fn edit_looks_at_its_arguments_in_order() {
    assert!(edit_job("{}").unwrap_err().message().contains("`path`"));
    assert!(edit_job("{\"path\":\"a\",\"new\":\"\"}").unwrap_err().message().contains("`old`"));
    assert!(edit_job("{\"path\":\"a\",\"old\":\"\"}").unwrap_err().message().contains("`new`"));
}

// ------------------------------------------------------------------------ exec

#[test]
fn runs_a_command_in_the_working_directory() {
    let tools = CodingTools::new("/work");
    let job = exec_job(&tools, "{\"command\":\"cat marker.txt && pwd\"}").unwrap();
    assert_eq!(job.command, "cat marker.txt && pwd");
    assert_eq!(job.cwd, "/work", "cwd not used");

    let output = outcome(&job, Some(0), b"hi\n", b"");

    assert!(output.contains("exit code: 0"), "{output}");
    assert!(output.contains("hi"), "{output}");
}

#[test]
fn returns_non_zero_exit_codes_as_output() {
    let tools = CodingTools::new("/work");
    let job = exec_job(&tools, "{\"command\":\"echo boom >&2; exit 3\"}").unwrap();

    let output = outcome(&job, Some(3), b"", b"boom\n");

    assert!(output.contains("exit code: 3"), "{output}");
    assert!(output.contains("boom"), "{output}");
    assert_eq!(output, "exit code: 3\nstderr:\nboom\n");
}

#[test]
fn times_out_instead_of_hanging() {
    let tools = CodingTools::new("/work").exec_timeout(Timeout::from_millis(200));
    let job = exec_job(&tools, "{\"command\":\"sleep 30\"}").unwrap();
    assert_eq!(job.timeout, Timeout { secs: 0, nanos: 200_000_000 });

    let error = job.timed_out().message();
    assert!(error.contains("timed out"), "{error}");
    assert_eq!(error, "command timed out after 0s: sleep 30");

    // Whole seconds count, wherever they are held.
    let tools = CodingTools::new("/work").exec_timeout(Timeout { secs: 1, nanos: 3_000_000_000 });
    let job = exec_job(&tools, "{\"command\":\"sleep 30\"}").unwrap();
    assert_eq!(job.timed_out().message(), "command timed out after 4s: sleep 30");
    assert!(tools.definitions()[3].description.contains("killed after 4 seconds"));
    assert_eq!(Timeout { secs: u64::MAX, nanos: u32::MAX }.as_secs(), u64::MAX);
}

#[test]
fn reports_both_streams_and_the_signal() {
    let tools = CodingTools::new("/work");
    let job = exec_job(&tools, "{\"command\":\"x\"}").unwrap();
    assert_eq!(outcome(&job, Some(0), b"", b""), "exit code: 0");
    assert_eq!(
        outcome(&job, None, b"out\n", b"err\n"),
        "exit code: killed by signal\nstdout:\nout\n\nstderr:\nerr\n"
    );
    assert_eq!(outcome(&job, Some(-1), b"\xff", b""), "exit code: -1\nstdout:\n\u{fffd}");
    assert_eq!(outcome(&job, Some(1), "日本".as_bytes(), b""), "exit code: 1\nstdout:\n日本");
    assert_eq!(
        report(Some(0), Some("a".to_string()), None, 12),
        format!("{}\n[output truncated]", &"exit code: 0\nstdout:\na"[..12])
    );
    assert!(exec_job(&tools, "{}").unwrap_err().message().contains("`command`"));
}

#[test]
fn keeps_reading_past_the_output_limit() {
    let tools = CodingTools::new("/work").max_output(20);
    let job = exec_job(&tools, "{\"command\":\"yes\"}").unwrap();
    let mut out = job.capture();
    for _ in 0..1000 {
        out.push(b"yyyyyyyyyy");
    }
    let kept = out.into_bytes();
    // One byte more than may be returned, so that the cut shows.
    assert_eq!(kept.len(), 21);

    let mut out = job.capture();
    out.push(&kept);
    let output = job.finish(Some(0), out, job.capture());
    assert_eq!(output, clip("exit code: 0\nstdout:\nyyyyyyyyyyyyyyyyyyyyy", 20));
    assert!(output.ends_with("[output truncated]"));
}

#[test]
fn how_a_stream_is_cut_makes_no_difference() {
    let mut whole = Capture::new(5);
    whole.push(b"abcdefg");
    let mut pieces = Capture::new(5);
    for piece in [&b"ab"[..], b"", b"cde", b"fg"] {
        pieces.push(piece);
    }
    assert_eq!(whole.into_bytes(), b"abcde");
    assert_eq!(pieces.into_bytes(), b"abcde");
    let mut nothing = Capture::new(0);
    nothing.push(b"x");
    assert!(nothing.into_bytes().is_empty());
}

#[test]
fn errors_are_put_into_words() {
    assert_eq!(missing_argument("path", "{}"), "missing string argument `path` in {}");
    assert_eq!(bad_count("limit", "0"), "`limit` must be an integer >= 1, got 0");
    assert_eq!(
        unknown_tool("\"ls\""),
        "unknown tool \"ls\": available tools are read, write, edit, exec"
    );
}

#[test]
fn arguments_that_are_no_object_are_reported_as_they_arrived() {
    let tools = CodingTools::new("/work");
    for name in ["read", "write", "edit", "exec"] {
        let error = match job(&tools, name, "\"{\\\"path\\\":\"") {
            Err(error) => error.message(),
            Ok(job) => panic!("{job:?}"),
        };
        assert!(error.ends_with("in \"{\\\"path\\\":\""), "{error}");
    }
}

#[test]
fn what_was_written_is_read_back() {
    let content = "日本\n\n  two\nthree\n";
    let arguments = format!("{{\"path\":\"a.txt\",\"content\":{}}}", JsonValue::text(content).to_text());
    let written = write_job(&arguments).unwrap().content;
    assert_eq!(read(&CodingTools::new("/work"), "{\"path\":\"a.txt\"}", &written).unwrap(), content);
}
