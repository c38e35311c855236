# agent

A minimal coding agent: a model loop over four tools — `read`, `write`, `edit`,
`exec` — that speaks the OpenAI-compatible Chat Completions API.

```
task → model → text or tool calls → run tools → feed results back → repeat → final answer
```

The library decides and computes, and every function of it is verified with
[Verus](https://github.com/verus-lang/verus) against the contract in its header.
It performs no input or output. The program around it asks the model, touches
files, runs commands and writes to the terminal.

## Layout

```
src/                the verified library
├── lib.rs          the vocabulary: messages, tool calls, events
├── agent.rs        the loop, one decision at a time
├── laws.rs         what holds of the loop whatever the host, the model and the tools do
├── context.rs      what the model is shown of a long conversation
├── llm.rs          configuration and requests
├── sse.rs          event streams: from bytes to payloads
├── stream.rs       one streamed turn: from fragments to the response
├── json.rs         JSON documents
├── text.rs         clipping, trimming, numerals, searching
├── cli.rs          the task, the key, and what reaches the terminal
└── tools/          the four tools: from a call to a job, and from what came of it to the output
tests/              ordinary tests of the library
app/                the `mini-agent` program
├── main.rs         arguments, configuration, writing
├── runtime.rs      the loop around the decisions; steering, following up, aborting
├── endpoint.rs     HTTP
├── wire.rs         the stream's events as serde reads them
├── local.rs        files and commands
└── history.rs      conversations that can be saved and restored
```

## How the loop works

`Agent::step` takes one input — a step begins, the host sent something, the
conversation is prepared, the model replied, a tool is done — and says what is
next: prepare the conversation, ask the model, run a tool, or stop. Its contract
gives the new state, the events to show and what is next as a function of the old
state and the input, `Session::stepped`. The laws are proved of that function, for
single inputs and for whole runs:

* tool calls and results stay paired, in the conversation and on the wire;
* queued input is delivered once, in order, steering before follow-ups;
* a steering message cancels the rest of the plan, and each call that never ran
  is answered as cancelled;
* model turns and tool runs stay within their budgets, and the model is asked only
  with a conversation that was prepared for that question;
* a failed step leaves no partial turn behind.

## What is trusted

A handful of calls are believed rather than proved: `String::push`,
`String::from_utf8_lossy`, `Path::components` and `{:?}` of std, and serde_json's
writing and reading of documents. Each stands behind one small function whose
comment says what is claimed of it.

Whether `\` separates the parts of a path rests on the machine. `Tools::new` asks
it once; `Tools::on` and `resolve_on` take the answer and are specified for both.
