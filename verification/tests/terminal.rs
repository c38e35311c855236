//! What the command line program decides.

use agent::cli::{call_line, choose_key, task_from, Renderer, Write};
use agent::{Event, JsonValue};

fn words(list: &[&str]) -> Vec<String> {
    list.iter().map(|word| word.to_string()).collect()
}

fn some(text: &str) -> Option<String> {
    Some(text.to_string())
}

fn answer(text: &str) -> Event {
    Event::Text(text.to_string())
}

fn thinking(text: &str) -> Event {
    Event::Thinking(text.to_string())
}

fn called(name: &str, arguments: &str) -> Event {
    Event::ToolCall {
        name: name.to_string(),
        arguments: JsonValue::parse(arguments).expect("valid JSON"),
    }
}

fn result(output: &str) -> Event {
    Event::ToolResult { name: "read".to_string(), output: output.to_string() }
}

/// What reaches standard output and standard error.
fn written(writes: Vec<Write>) -> (String, String) {
    let mut out = String::new();
    let mut err = String::new();
    for write in writes {
        match write {
            Write::Stdout(text) => out.push_str(&text),
            Write::Stderr(text) => err.push_str(&text),
        }
    }
    (out, err)
}

fn rendered(renderer: &mut Renderer, events: &[Event], last: &str) -> (String, String) {
    let mut writes = Vec::new();
    for event in events {
        writes.extend(renderer.show(event));
    }
    writes.extend(renderer.finish(last));
    written(writes)
}

#[test]
fn a_task_is_all_its_words() {
    assert_eq!(task_from(&words(&["fix", "the", "build"])), some("fix the build"));
    assert_eq!(task_from(&words(&["修复当前项目的编译错误"])), some("修复当前项目的编译错误"));
    assert_eq!(task_from(&words(&["  a "])), some("  a "));
    assert_eq!(task_from(&words(&["", " "])), None);
    assert_eq!(task_from(&words(&[])), None);
}

#[test]
fn a_key_that_was_given_goes_first() {
    assert_eq!(choose_key(some("a"), some("b")), some("a"));
    assert_eq!(choose_key(some("  "), some("b")), some("b"));
    assert_eq!(choose_key(None, some("b")), some("b"));
    assert_eq!(choose_key(None, some("")), None);
    assert_eq!(choose_key(None, None), None);
}

#[test]
fn the_answer_goes_to_standard_output() {
    let mut renderer = Renderer::new(false, false, 80);
    let events =
        [thinking("hmm"), answer("Hel"), called("read", "{}"), result("x"), answer("lo")];
    // Nothing else is written where nothing can be rewritten.
    assert_eq!(rendered(&mut renderer, &events, "lo"), ("Hello\n".to_string(), String::new()));

    let mut renderer = Renderer::new(false, false, 80);
    let (out, _) = rendered(&mut renderer, &[answer("done\n")], "done\n");
    assert_eq!(out, "done\n");
}

#[test]
fn an_answer_that_was_not_streamed_is_written_at_the_end() {
    let mut renderer = Renderer::new(false, false, 80);
    let (out, err) = rendered(&mut renderer, &[], "the answer \n\n");
    assert_eq!((out.as_str(), err.as_str()), ("the answer\n", ""));

    let mut renderer = Renderer::new(true, true, 80);
    let (out, err) = rendered(&mut renderer, &[], " \n");
    assert_eq!((out.as_str(), err.as_str()), ("", "(the model finished without an answer)\n"));
}

#[test]
fn reasoning_is_rewritten_in_place() {
    let mut renderer = Renderer::new(false, true, 8);
    let (_, err) = written(renderer.show(&thinking("let me")));
    assert_eq!(err, "\r\u{1b}[K\u{1b}[2mlet me\u{1b}[0m");
    // Clipped to the end of the line.
    let (_, err) = written(renderer.show(&thinking(" think")));
    assert_eq!(err, "\r\u{1b}[K\u{1b}[2mme think\u{1b}[0m");
    let (_, err) = written(renderer.show(&thinking("\n日本\t語字")));
    // Wide characters take two columns each, and control characters become spaces.
    assert_eq!(err, "\r\u{1b}[K\u{1b}[2m本 語字\u{1b}[0m");
    let (_, err) = written(renderer.show(&thinking("\na\u{9b}b\u{7f}c")));
    assert_eq!(err, "\r\u{1b}[K\u{1b}[2ma b c\u{1b}[0m");
    // The answer takes the line over.
    let writes = renderer.show(&answer("ok"));
    assert!(matches!(&writes[0], Write::Stderr(text) if text == "\r\u{1b}[K"));
    assert!(matches!(&writes[1], Write::Stdout(text) if text == "ok"));
    // Later reasoning leaves the answer on the screen.
    let (_, err) = written(renderer.show(&thinking("x")));
    assert_eq!(err, "\n\r\u{1b}[K\u{1b}[2mx\u{1b}[0m");
    let (out, err) = written(renderer.finish("ok"));
    assert_eq!((out.as_str(), err.as_str()), ("\n", "\r\u{1b}[K"));
}

#[test]
fn tool_calls_are_shown_on_request() {
    let mut renderer = Renderer::new(true, false, 80);
    let (out, err) = written(renderer.show(&called("read", "{\"path\":\"a\"}")));
    assert_eq!((out.as_str(), err.as_str()), ("", "read {\"path\":\"a\"}\n"));
    let (_, err) = written(renderer.show(&result("1\n2\n3\n4\n")));
    assert_eq!(err, "1\n2\n3\n");
    let (_, err) = written(renderer.show(&result("1\n2")));
    assert_eq!(err, "1\n2\n");
    let (_, err) = written(renderer.show(&result("")));
    assert_eq!(err, "");
    assert!(renderer.show(&Event::ToolSkipped { name: "exec".to_string() }).is_empty());

    assert_eq!(call_line("exec", "{}"), "exec {}\n");

    // A line of its own, whatever is on the screen.
    let mut renderer = Renderer::new(true, true, 80);
    renderer.show(&thinking("x"));
    let (_, err) = written(renderer.show(&called("exec", "{}")));
    assert_eq!(err, "\r\u{1b}[Kexec {}\n");
    renderer.show(&answer("half"));
    let (_, err) = written(renderer.show(&called("exec", "{}")));
    assert_eq!(err, "\nexec {}\n");
}

#[test]
fn a_failed_run_takes_its_reasoning_off_the_screen() {
    let mut renderer = Renderer::new(false, true, 80);
    assert!(renderer.wipe().is_empty());
    renderer.show(&thinking("x"));
    let (_, err) = written(renderer.wipe());
    assert_eq!(err, "\r\u{1b}[K");
    assert!(renderer.wipe().is_empty());
}
