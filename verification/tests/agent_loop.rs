//! The agent loop against a scripted model and tools that work in memory.

use std::collections::{BTreeMap, VecDeque};

use agent::agent::{
    route, take, AgentError, Control, Input, Next, QueueMode, StepOutcome, CANCELLED,
    DEFAULT_MAX_ITERATIONS, DEFAULT_SYSTEM_PROMPT,
};
use agent::tools::Job;
use agent::{
    Agent, CodingTools, Event, JsonValue, KeepLast, Message, NoopContext, Object, Response,
    ToolCall,
};

/// Plays back responses and records the prompts it was shown.
struct Scripted {
    replies: VecDeque<Response>,
    prompts: Vec<Vec<Message>>,
}

fn scripted(replies: Vec<Response>) -> Scripted {
    Scripted { replies: replies.into(), prompts: Vec::new() }
}

/// What a tool gave, and what the host sent while it ran.
type ToolRun = (Result<String, String>, Vec<Control>);

/// Runs one step, the way a host does.
fn step<T, C>(
    agent: &mut Agent<Scripted, T, C>,
    run_tool: &mut dyn FnMut(&ToolCall) -> ToolRun,
    events: &mut Vec<Event>,
) -> Result<StepOutcome, AgentError> {
    let mut input = Input::Start;
    loop {
        let progress = agent.step(input);
        events.extend(progress.events);
        match progress.next {
            Next::Prepare => input = Input::Prepared(Ok(())),
            Next::Ask => {
                let prompt = agent.messages().to_vec();
                agent.model.prompts.push(prompt);
                let reply = agent.model.replies.pop_front().expect("the script ran out of replies");
                if let Some(text) = &reply.text {
                    events.push(Event::Text(text.clone()));
                }
                input = Input::Reply(Ok(reply));
            }
            Next::Execute(turn) => {
                let (output, controls) = run_tool(turn.call());
                for control in controls {
                    match agent.step(Input::Control(control)).next {
                        Next::Wait => {}
                        Next::Failed(error) => return Err(error),
                        other => panic!("{other:?}"),
                    }
                }
                input = Input::Output(turn, output);
            }
            Next::Done(outcome) => return Ok(outcome),
            Next::Failed(error) => return Err(error),
            Next::Wait => unreachable!(),
        }
    }
}

/// Runs a task to completion.
fn run<T, C>(
    agent: &mut Agent<Scripted, T, C>,
    task: &str,
    run_tool: &mut dyn FnMut(&ToolCall) -> ToolRun,
    events: &mut Vec<Event>,
) -> Result<String, AgentError> {
    agent.push_user(task);
    loop {
        match step(agent, run_tool, events)? {
            StepOutcome::Continue => {}
            StepOutcome::Idle(answer) => return Ok(answer),
        }
    }
}

/// The coding tools on files that are kept in memory. A command does nothing and
/// succeeds.
fn in_memory(
    tools: &CodingTools,
    files: &mut BTreeMap<String, String>,
    call: &ToolCall,
) -> Result<String, String> {
    match tools.execute(call).map_err(|error| error.message())? {
        Job::Read(job) => {
            let text = files.get(&job.path.text()).ok_or("failed to open".to_string())?;
            let mut window = job.window();
            for line in text.lines() {
                window.push(line.to_string());
            }
            job.finish(window).map_err(|error| error.message())
        }
        Job::Write(job) => {
            files.insert(job.path.text(), job.content.clone());
            Ok(job.done())
        }
        Job::Edit(job) => {
            let text = files.get(&job.path.text()).ok_or("failed to read".to_string())?;
            let edited = job.apply(text).map_err(|error| error.message())?;
            files.insert(job.path.text(), edited);
            Ok(job.done())
        }
        Job::Exec(job) => Ok(job.finish(Some(0), job.capture(), job.capture())),
    }
}

fn no_tools(call: &ToolCall) -> ToolRun {
    (Err(format!("unknown tool {}", call.name)), Vec::new())
}

fn text(value: &str) -> Response {
    Response { text: Some(value.to_string()), tool_calls: Vec::new(), metadata: Object::new() }
}

fn json(value: &str) -> JsonValue {
    JsonValue::parse(value).expect("valid JSON")
}

fn call(id: &str, name: &str, arguments: JsonValue) -> ToolCall {
    ToolCall { id: id.to_string(), name: name.to_string(), arguments }
}

fn asks(tool_calls: Vec<ToolCall>) -> Response {
    Response { text: None, tool_calls, metadata: Object::new() }
}

fn calls(names: &[&str]) -> Response {
    asks(
        names
            .iter()
            .enumerate()
            .map(|(index, name)| call(&format!("call_{index}"), name, json("{}")))
            .collect(),
    )
}

fn write_call(id: &str, path: &str, content: &str) -> ToolCall {
    let arguments = Object::new()
        .with("path", JsonValue::text(path))
        .with("content", JsonValue::text(content));
    call(id, "write", JsonValue::Object(arguments))
}

fn users(prompt: &[Message]) -> Vec<String> {
    prompt
        .iter()
        .filter_map(|message| match message {
            Message::User(text) => Some(text.clone()),
            _ => None,
        })
        .collect()
}

fn tool_outputs(prompt: &[Message]) -> Vec<String> {
    prompt
        .iter()
        .filter_map(|message| match message {
            Message::Tools(results) => Some(results.iter().map(|r| r.output.clone())),
            _ => None,
        })
        .flatten()
        .collect()
}

fn steer(text: &str) -> Control {
    Control::Steer(text.to_string())
}

fn follow_up(text: &str) -> Control {
    Control::FollowUp(text.to_string())
}

fn plain(replies: Vec<Response>) -> Agent<Scripted, CodingTools, NoopContext> {
    Agent::new(scripted(replies), CodingTools::new("/work"))
}

#[test]
fn step_returns_the_final_answer_and_then_stays_idle() {
    let mut agent = plain(vec![text("hi")]);
    agent.push_user("go");

    let mut events = Vec::new();
    assert_eq!(
        step(&mut agent, &mut no_tools, &mut events).unwrap(),
        StepOutcome::Idle("hi".to_string())
    );
    // Nothing pending: stepping again reports the same answer.
    assert_eq!(
        step(&mut agent, &mut no_tools, &mut events).unwrap(),
        StepOutcome::Idle("hi".to_string())
    );
}

#[test]
fn run_is_built_on_step() {
    let mut agent = plain(vec![calls(&["exec"]), text("done")]);

    let mut events = Vec::new();
    assert_eq!(run(&mut agent, "go", &mut no_tools, &mut events).unwrap(), "done");
    // Two steps' worth of model calls, then a final assistant message.
    assert_eq!(agent.model.prompts.len(), 2);
    assert!(matches!(
        agent.messages().last(),
        Some(Message::Assistant { calls, .. }) if calls.is_empty()
    ));
}

#[test]
fn round_trips_tool_calls_through_the_conversation() {
    let mut agent = plain(vec![asks(vec![write_call("call_1", "a.txt", "hi")]), text("wrote it")]);
    let tools = agent.tools.clone();
    let mut files = BTreeMap::new();

    let mut events = Vec::new();
    let answer = run(
        &mut agent,
        "create a.txt",
        &mut |call| (in_memory(&tools, &mut files, call), Vec::new()),
        &mut events,
    )
    .unwrap();

    assert_eq!(answer, "wrote it");
    assert_eq!(files.get("/work/a.txt").map(String::as_str), Some("hi"));
    let seen: Vec<String> = events
        .iter()
        .filter_map(|event| match event {
            Event::ToolResult { output, .. } => Some(output.clone()),
            _ => None,
        })
        .collect();
    assert!(seen[0].starts_with("wrote 2 bytes"), "{seen:?}");
    // The second prompt shows the assistant turn and its result.
    let second = agent.model.prompts[1].clone();
    assert!(matches!(second[2], Message::Assistant { ref calls, .. } if calls.len() == 1));
    assert!(matches!(second[3], Message::Tools(_)));
}

#[test]
fn steering_queued_before_a_run_reaches_the_first_prompt() {
    let mut agent = plain(vec![text("done")]);
    agent.receive(steer("look at Cargo.toml first")).unwrap();

    run(&mut agent, "fix it", &mut no_tools, &mut Vec::new()).unwrap();

    // Queued input is appended to the conversation, then sent with it.
    let prompt = agent.model.prompts[0].clone();
    assert_eq!(users(&prompt), ["fix it", "look at Cargo.toml first"]);
}

#[test]
fn steering_mid_tools_cancels_the_rest_of_the_plan() {
    let mut ran = Vec::new();
    let mut agent = plain(vec![calls(&["a", "b", "c"]), text("changed course")]);

    let mut events = Vec::new();
    let answer = run(
        &mut agent,
        "go",
        &mut |call| {
            ran.push(call.name.clone());
            (Ok(format!("ran {}", call.name)), vec![steer("stop those")])
        },
        &mut events,
    )
    .unwrap();

    assert_eq!(answer, "changed course");
    // The tool that was already running finished; the rest were dropped.
    assert_eq!(ran, ["a"]);
    // Every call still has a result, so the protocol stays valid.
    let second = agent.model.prompts[1].clone();
    let outputs = tool_outputs(&second);
    assert_eq!(outputs.len(), 3, "{outputs:?}");
    assert_eq!(outputs[0], "ran a");
    assert_eq!(outputs[1], CANCELLED);
    assert_eq!(outputs[2], CANCELLED);
    // ... and the steering message is in there too.
    assert!(users(&second).contains(&"stop those".to_string()));
    // The host is told what was dropped.
    let skipped: Vec<&Event> =
        events.iter().filter(|event| matches!(event, Event::ToolSkipped { .. })).collect();
    assert_eq!(skipped.len(), 2);
}

#[test]
fn steering_mode_one_delivers_one_at_a_time() {
    let mut agent = plain(vec![text("one"), text("two")]);
    agent.receive(steer("A")).unwrap();
    agent.receive(steer("B")).unwrap();

    let answer = run(&mut agent, "task", &mut no_tools, &mut Vec::new()).unwrap();

    assert_eq!(answer, "two");
    assert_eq!(users(&agent.model.prompts[0]), ["task", "A"]);
    assert_eq!(users(&agent.model.prompts[1]), ["task", "A", "B"]);
}

#[test]
fn steering_mode_all_delivers_everything_at_once() {
    let mut agent = plain(vec![text("done")]).steering_mode(QueueMode::All);
    agent.receive(steer("A")).unwrap();
    agent.receive(steer("B")).unwrap();

    let answer = run(&mut agent, "task", &mut no_tools, &mut Vec::new()).unwrap();

    assert_eq!(answer, "done");
    assert_eq!(users(&agent.model.prompts[0]), ["task", "A", "B"]);
}

#[test]
fn a_follow_up_runs_after_the_current_task_is_answered() {
    let mut agent = plain(vec![text("first"), text("second")]);
    agent.receive(follow_up("now add tests")).unwrap();

    let answer = run(&mut agent, "fix it", &mut no_tools, &mut Vec::new()).unwrap();

    assert_eq!(answer, "second");
    // The follow-up is not in the first prompt: the task finishes first.
    assert_eq!(users(&agent.model.prompts[0]), ["fix it"]);
    assert_eq!(users(&agent.model.prompts[1]), ["fix it", "now add tests"]);
}

#[test]
fn follow_up_mode_all_delivers_everything_at_once() {
    let mut agent = plain(vec![text("first"), text("second")]).follow_up_mode(QueueMode::All);
    agent.receive(follow_up("one")).unwrap();
    agent.receive(follow_up("two")).unwrap();

    let answer = run(&mut agent, "task", &mut no_tools, &mut Vec::new()).unwrap();

    assert_eq!(answer, "second");
    assert_eq!(users(&agent.model.prompts[1]), ["task", "one", "two"]);
}

#[test]
fn steering_is_delivered_before_follow_ups() {
    let mut agent = plain(vec![text("one"), text("two")]);
    agent.receive(follow_up("later")).unwrap();
    agent.receive(steer("now")).unwrap();

    let answer = run(&mut agent, "task", &mut no_tools, &mut Vec::new()).unwrap();

    assert_eq!(answer, "two");
    // Steering first, then the follow-up once the task is answered.
    assert_eq!(users(&agent.model.prompts[0]), ["task", "now"]);
    assert_eq!(users(&agent.model.prompts[1]), ["task", "now", "later"]);
}

#[test]
fn abort_cancels_an_in_flight_model_request() {
    let mut agent = plain(Vec::new());
    agent.push_user("go");

    assert!(matches!(agent.step(Input::Start).next, Next::Prepare));
    assert!(matches!(agent.step(Input::Prepared(Ok(()))).next, Next::Ask));
    match agent.step(Input::Control(Control::Abort)).next {
        Next::Failed(error) => {
            let error = error.message();
            assert!(error.contains("aborted"), "{error}");
        }
        other => panic!("{other:?}"),
    }
    // Nothing of the unfinished turn stays behind.
    assert_eq!(users(agent.messages()), ["go"]);
    assert_eq!(agent.messages().len(), 2);
}

#[test]
fn abort_stops_a_running_command() {
    let arguments = json("{\"command\":\"sleep 30; echo x > marker\"}");
    let mut agent = plain(vec![asks(vec![call("call_1", "exec", arguments)])]);

    let error = run(
        &mut agent,
        "go",
        &mut |_| (Ok("never seen".to_string()), vec![Control::Abort]),
        &mut Vec::new(),
    )
    .unwrap_err();

    assert_eq!(error, AgentError::Aborted);
    assert!(error.message().contains("aborted"));
    // Neither the turn nor a result of it is in the conversation.
    assert!(tool_outputs(agent.messages()).is_empty());
    assert_eq!(agent.messages().len(), 2);
}

#[test]
fn stops_at_the_iteration_limit() {
    let mut agent = plain(vec![calls(&["a"]), calls(&["b"])]).max_iterations(2);

    let error = run(&mut agent, "go", &mut no_tools, &mut Vec::new()).unwrap_err();
    assert_eq!(error, AgentError::StepLimit(2));
    assert_eq!(error.message(), "agent stopped after 2 steps without a final answer");
    // The two questions that were paid for were asked.
    assert_eq!(agent.model.prompts.len(), 2);
}

#[test]
fn stops_at_the_tool_call_limit() {
    let mut agent = plain(vec![calls(&["a", "b"]), text("done")]).max_tool_calls(1);

    let error = run(&mut agent, "go", &mut no_tools, &mut Vec::new()).unwrap_err();
    assert_eq!(error, AgentError::ToolCallLimit(1));
    assert_eq!(error.message(), "agent stopped after reaching the tool call limit (1)");
}

#[test]
fn context_is_prepared_before_every_model_call() {
    let model = scripted(vec![asks(vec![write_call("call_1", "a.txt", "hi")]), text("done")]);
    let mut agent = Agent::with_context(model, CodingTools::new("/work"), KeepLast::new(2));
    let mut prepared: usize = 0;
    let mut asked: usize = 0;

    agent.push_user("go");
    let mut input = Input::Start;
    let mut idle = false;
    while !idle {
        match agent.step(input).next {
            Next::Prepare => {
                let manager = agent.context;
                assert!(manager.accepts(agent.messages_mut()));
                manager.prepare(agent.messages_mut());
                prepared += 1;
                input = Input::Prepared(Ok(()));
            }
            Next::Ask => {
                asked += 1;
                // Prepared once for this question, and not before an earlier one.
                assert_eq!(prepared, asked);
                input = Input::Reply(Ok(agent.model.replies.pop_front().unwrap()));
            }
            Next::Execute(turn) => input = Input::Output(turn, Ok("ok".to_string())),
            Next::Done(StepOutcome::Continue) => input = Input::Start,
            Next::Done(StepOutcome::Idle(answer)) => {
                assert_eq!(answer, "done");
                input = Input::Start;
                idle = true;
            }
            other => panic!("{other:?}"),
        }
    }
    assert_eq!(prepared, 2);
}

#[test]
fn unparseable_tool_arguments_reach_the_tool() {
    // What the wire layer keeps when the model sends bad JSON.
    let arguments = JsonValue::text("{\"path\":");
    let mut agent = plain(vec![asks(vec![call("call_1", "read", arguments)]), text("gave up")]);
    let tools = agent.tools.clone();
    let mut files = BTreeMap::new();

    let mut events = Vec::new();
    run(
        &mut agent,
        "go",
        &mut |call| (in_memory(&tools, &mut files, call), Vec::new()),
        &mut events,
    )
    .unwrap();

    let results: Vec<String> = events
        .iter()
        .filter_map(|event| match event {
            Event::ToolResult { output, .. } => Some(output.clone()),
            _ => None,
        })
        .collect();
    assert!(results[0].contains("error:"), "{results:?}");
    assert!(results[0].contains("{\\\"path\\\":"), "{results:?}");
}

#[test]
fn a_restored_conversation_can_be_handed_to_a_fresh_agent() {
    let mut agent = plain(vec![asks(vec![write_call("call_1", "a.txt", "hi")]), text("done")]);
    run(&mut agent, "go", &mut no_tools, &mut Vec::new()).unwrap();
    let restored = agent.messages().to_vec();

    let mut next = plain(vec![text("again")]);
    next.messages_mut().extend(restored);
    assert_eq!(run(&mut next, "more", &mut no_tools, &mut Vec::new()).unwrap(), "again");
    // The conversation carries its own system prompt: no second one is added.
    let systems = next
        .messages()
        .iter()
        .filter(|message| matches!(message, Message::System(_)))
        .count();
    assert_eq!(systems, 1);
    assert_eq!(users(next.messages()), ["go", "more"]);
}

#[test]
fn a_task_opens_the_conversation_with_the_system_prompt() {
    let mut agent = plain(Vec::new());
    agent.push_user("go");
    assert!(matches!(
        &agent.messages()[0],
        Message::System(prompt) if prompt == DEFAULT_SYSTEM_PROMPT
    ));
    assert!(DEFAULT_SYSTEM_PROMPT.ends_with("Run relevant checks after modifications."));
    assert_eq!(agent.max_iterations, DEFAULT_MAX_ITERATIONS);
    assert_eq!(agent.max_iterations, 32);

    let mut silent = plain(Vec::new()).system_prompt("");
    silent.push_user("go");
    assert_eq!(silent.messages().len(), 1);
    assert!(matches!(&silent.messages()[0], Message::User(text) if text == "go"));
}

#[test]
fn a_new_task_gets_a_fresh_budget() {
    let mut agent = plain(vec![calls(&["a"]), text("one"), calls(&["b"]), text("two")])
        .max_iterations(2)
        .max_tool_calls(1);
    assert_eq!(run(&mut agent, "first", &mut no_tools, &mut Vec::new()).unwrap(), "one");
    assert_eq!(run(&mut agent, "second", &mut no_tools, &mut Vec::new()).unwrap(), "two");
    assert_eq!(agent.turns, 2);
    assert_eq!(agent.executed, 1);
}

#[test]
fn a_failed_tool_goes_back_to_the_model() {
    let mut agent = plain(vec![calls(&["a"]), text("sorry")]);
    let answer = run(
        &mut agent,
        "go",
        &mut |_| (Err("no such file".to_string()), Vec::new()),
        &mut Vec::new(),
    )
    .unwrap();
    assert_eq!(answer, "sorry");
    assert_eq!(tool_outputs(agent.messages()), ["error: no such file"]);
}

#[test]
fn clear_forgets_the_conversation_and_the_queues() {
    let mut agent = plain(vec![text("hi")]).max_iterations(7);
    agent.receive(follow_up("later")).unwrap();
    agent.receive(steer("now")).unwrap();
    agent.push_user("go");
    agent.turns = 3;
    agent.clear();
    assert!(agent.messages().is_empty());
    assert!(agent.steering.is_empty());
    assert!(agent.follow_up.is_empty());
    assert_eq!(agent.turns, 0);
    assert_eq!(agent.executed, 0);
    assert_eq!(agent.max_iterations, 7);
    assert_eq!(
        step(&mut agent, &mut no_tools, &mut Vec::new()).unwrap(),
        StepOutcome::Idle(String::new())
    );
}

#[test]
fn a_tool_is_announced_before_it_runs() {
    let mut agent = plain(vec![calls(&["a"]), text("done")]);
    agent.push_user("go");
    assert!(matches!(agent.step(Input::Start).next, Next::Prepare));
    assert!(matches!(agent.step(Input::Prepared(Ok(()))).next, Next::Ask));
    let reply = agent.model.replies.pop_front().unwrap();
    let progress = agent.step(Input::Reply(Ok(reply)));
    assert_eq!(progress.events.len(), 1);
    assert!(matches!(&progress.events[0], Event::ToolCall { name, .. } if name == "a"));
    match progress.next {
        Next::Execute(turn) => {
            assert_eq!(turn.call().id, "call_0");
            let progress = agent.step(Input::Output(turn, Ok("out".to_string())));
            assert_eq!(progress.events.len(), 1);
            assert!(matches!(
                &progress.events[0],
                Event::ToolResult { name, output } if name == "a" && output == "out"
            ));
            assert!(matches!(progress.next, Next::Done(StepOutcome::Continue)));
        }
        other => panic!("{other:?}"),
    }
}

#[test]
fn replacing_the_context_manager_keeps_the_conversation() {
    let mut agent = plain(Vec::new()).max_tool_calls(3);
    agent.push_user("go");
    let agent = agent.context(KeepLast::new(5));
    assert_eq!(agent.messages().len(), 2);
    assert_eq!(agent.max_tool_calls, Some(3));
    assert_eq!(agent.context.keep, 5);
}

#[test]
fn queues_hand_over_one_or_all() {
    let mut queue: VecDeque<String> = VecDeque::new();
    assert!(take(&mut queue, QueueMode::One).is_empty());
    assert!(take(&mut queue, QueueMode::All).is_empty());
    queue.extend(["a".to_string(), "b".to_string(), "c".to_string()]);
    assert_eq!(take(&mut queue, QueueMode::One), ["a"]);
    assert_eq!(take(&mut queue, QueueMode::All), ["b", "c"]);
    assert!(queue.is_empty());
    assert_eq!(QueueMode::default(), QueueMode::One);
}

#[test]
fn control_messages_are_routed_to_their_queues() {
    let mut steering: VecDeque<String> = VecDeque::new();
    let mut later: VecDeque<String> = VecDeque::new();
    assert!(route(Some(steer("s")), &mut steering, &mut later).is_ok());
    assert!(route(Some(follow_up("f")), &mut steering, &mut later).is_ok());
    assert!(route(None, &mut steering, &mut later).is_ok());
    assert_eq!(
        route(Some(Control::Abort), &mut steering, &mut later),
        Err(AgentError::Aborted)
    );
    assert_eq!(steering, ["s"]);
    assert_eq!(later, ["f"]);
}

#[test]
fn calls_run_one_at_a_time_in_order() {
    let mut ran = Vec::new();
    let mut agent = plain(vec![calls(&["a", "b", "c"]), text("done")]);
    let mut events = Vec::new();
    run(
        &mut agent,
        "go",
        &mut |call| {
            ran.push(call.id.clone());
            (Ok(format!("ran {}", call.name)), Vec::new())
        },
        &mut events,
    )
    .unwrap();
    assert_eq!(ran, ["call_0", "call_1", "call_2"]);
    assert_eq!(tool_outputs(agent.messages()), ["ran a", "ran b", "ran c"]);
    // Each tool is announced, then its result is shown, before the next one.
    let kinds: Vec<&str> = events
        .iter()
        .map(|event| match event {
            Event::ToolCall { .. } => "call",
            Event::ToolResult { .. } => "result",
            _ => "other",
        })
        .collect();
    assert_eq!(kinds, ["call", "result", "call", "result", "call", "result", "other"]);
}

#[test]
fn an_exhausted_budget_stops_even_steering() {
    let mut agent = plain(vec![text("one")]).max_iterations(1);
    assert_eq!(run(&mut agent, "go", &mut no_tools, &mut Vec::new()).unwrap(), "one");
    agent.receive(steer("again")).unwrap();
    let error = step(&mut agent, &mut no_tools, &mut Vec::new()).unwrap_err();
    assert_eq!(error, AgentError::StepLimit(1));
    // The message was handed over all the same.
    assert_eq!(users(agent.messages()), ["go", "again"]);
}

#[test]
fn a_default_response_says_nothing() {
    let response = Response::default();
    assert!(response.text.is_none());
    assert!(response.tool_calls.is_empty());
    assert_eq!(JsonValue::Object(response.metadata).to_text(), "{}");
}

#[test]
fn a_conversation_that_cannot_be_prepared_ends_the_step() {
    let mut agent = plain(Vec::new());
    agent.push_user("go");
    assert!(matches!(agent.step(Input::Start).next, Next::Prepare));
    assert!(agent.preparing);
    match agent.step(Input::Prepared(Err("too long".to_string()))).next {
        Next::Failed(error) => {
            assert_eq!(error, AgentError::Context("too long".to_string()));
            assert_eq!(error.message(), "too long");
        }
        other => panic!("{other:?}"),
    }
    // The turn is used up, and nothing else has changed.
    assert!(!agent.preparing);
    assert_eq!(agent.turns, 1);
    assert_eq!(agent.messages().len(), 2);
}

#[test]
fn a_model_that_fails_ends_the_step() {
    let mut agent = plain(Vec::new());
    agent.push_user("go");
    agent.step(Input::Start);
    agent.step(Input::Prepared(Ok(())));
    match agent.step(Input::Reply(Err("api error 500".to_string()))).next {
        Next::Failed(error) => {
            assert_eq!(error, AgentError::Model("api error 500".to_string()));
            assert_eq!(error.message(), "api error 500");
        }
        other => panic!("{other:?}"),
    }
    assert_eq!(agent.messages().len(), 2);
    // The host may try again.
    assert!(matches!(agent.step(Input::Start).next, Next::Prepare));
    assert_eq!(agent.turns, 2);
}
