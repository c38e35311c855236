//! What holds of the agent as a whole, whatever the host, the model and the
//! tools do.

use vstd::prelude::*;

use crate::agent::{
    AgentErrorView, ControlView, InputView, NextView, OutcomeView, Session, TurnView,
};
use crate::{CallView, EventView, MessageView, ResponseView, ResultView};

verus! {

// ---------------------------------------------------------- calls and results

/// Every call has its result, one each, in order.
pub open spec fn answered(calls: Seq<CallView>, results: Seq<ResultView>) -> bool {
    results.len() == calls.len() && crate::agent::answers(calls, results)
}

/// The message at `i` stands next to its counterpart, if it needs one: a turn
/// with tool calls is followed by their results, and results follow the turn
/// that asked for them.
pub open spec fn paired_at(messages: Seq<MessageView>, i: int) -> bool {
    match messages[i] {
        MessageView::Assistant { calls, .. } => calls.len() > 0 ==> i + 1 < messages.len()
            && messages[i + 1] is Tools,
        MessageView::Tools(results) => {
            &&& 0 < i
            &&& messages[i - 1] is Assistant
            &&& messages[i - 1]->calls.len() > 0
            &&& answered(messages[i - 1]->calls, results)
        },
        _ => true,
    }
}

/// Calls and results are paired throughout, which the protocol requires.
pub open spec fn paired(messages: Seq<MessageView>) -> bool {
    forall|i: int| 0 <= i < messages.len() ==> #[trigger] paired_at(messages, i)
}

/// The calls of the message at `i`, if it asked for any, are answered by the
/// message behind it, one result each, in order.
pub open spec fn calls_answered_at(messages: Seq<MessageView>, i: int) -> bool {
    messages[i] is Assistant && messages[i]->calls.len() > 0 ==> {
        &&& i + 1 < messages.len()
        &&& messages[i + 1] is Tools
        &&& answered(messages[i]->calls, messages[i + 1]->Tools_0)
    }
}

/// Every call is answered right behind the turn that asked for it.
pub open spec fn calls_answered(messages: Seq<MessageView>) -> bool {
    forall|i: int| 0 <= i < messages.len() ==> #[trigger] calls_answered_at(messages, i)
}

/// What a host can hand to an agent: the turn that comes with a tool's output has
/// that tool's call open, with everything before it answered, and a conversation
/// is reported as prepared only where it was to be.
pub open spec fn allowed(state: Session, input: InputView) -> bool {
    match input {
        InputView::Output(turn, _) => turn.pending(),
        InputView::Prepared(_) => state.preparing,
        _ => true,
    }
}

/// What any input adds to a conversation needs no counterpart, or is a turn and
/// all its results.
#[verifier::spinoff_prover]
proof fn lemma_what_is_added(state: Session, input: InputView)
    requires
        allowed(state, input),
    ensures
        ({
            let after = state.stepped(input).0.messages;
            let more = after.skip(state.messages.len() as int);
            &&& after == state.messages + more
            &&& (forall|i: int| 0 <= i < more.len() ==> stands_alone(#[trigger] more[i])) || (
            more.len() == 2 && more[0] is Assistant && more[0]->calls.len() > 0 && more[1] is Tools
                && answered(more[0]->calls, more[1]->Tools_0))
        }),
{
    let after = state.stepped(input).0.messages;
    let more = after.skip(state.messages.len() as int);
    assert(after == state.messages + more);
    match input {
        InputView::Reply(Ok(response)) => {
            if response.calls.len() > 0 && state.steering.len() > 0 {
                assert(more.len() == 2);
            }
        },
        InputView::Output(turn, output) => {
            let done = turn.with_output(crate::agent::tool_text(output));
            assert(crate::agent::answers(done.calls, done.results));
        },
        _ => {},
    }
}

/// A message that needs no counterpart.
pub open spec fn stands_alone(message: MessageView) -> bool {
    message is System || message is User || (message is Assistant && message->calls.len() == 0)
}

/// Every call has its result: whatever comes in, and whether the step goes on,
/// ends or fails, a conversation in which all calls are answered stays one.
pub proof fn steps_keep_calls_answered(state: Session, input: InputView)
    requires
        calls_answered(state.messages),
        allowed(state, input),
    ensures
        calls_answered(state.stepped(input).0.messages),
{
    lemma_what_is_added(state, input);
    let after = state.stepped(input).0.messages;
    let more = after.skip(state.messages.len() as int);
    assert forall|i: int| 0 <= i < after.len() implies #[trigger] calls_answered_at(after, i) by {
        if i < state.messages.len() {
            assert(calls_answered_at(state.messages, i));
        } else {
            assert(after[i] == more[i - state.messages.len()]);
            if i + 1 < after.len() {
                assert(after[i + 1] == more[i + 1 - state.messages.len()]);
            }
        }
    }
}

/// Messages that need no counterpart keep a conversation paired.
proof fn lemma_paired_append(messages: Seq<MessageView>, more: Seq<MessageView>)
    requires
        paired(messages),
        forall|i: int| 0 <= i < more.len() ==> stands_alone(#[trigger] more[i]),
    ensures
        paired(messages + more),
{
    let all = messages + more;
    assert forall|i: int| 0 <= i < all.len() implies #[trigger] paired_at(all, i) by {
        if i < messages.len() {
            assert(paired_at(messages, i));
        } else {
            assert(all[i] == more[i - messages.len()]);
        }
    }
}

/// A turn with all its results keeps a conversation paired.
proof fn lemma_paired_turn(state: Session, turn: TurnView)
    requires
        paired(state.messages),
        turn.calls.len() > 0,
        answered(turn.calls, turn.results),
    ensures
        paired(state.with_turn(turn).messages),
{
    let all = state.with_turn(turn).messages;
    assert forall|i: int| 0 <= i < all.len() implies #[trigger] paired_at(all, i) by {
        if i < state.messages.len() {
            assert(paired_at(state.messages, i));
        }
    }
}

proof fn lemma_paired_advance(state: Session, turn: TurnView)
    requires
        paired(state.messages),
        turn.calls.len() > 0,
        crate::agent::answers(turn.calls, turn.results),
    ensures
        paired(state.advanced(turn).0.messages),
{
    if turn.open_calls().len() == 0 {
        lemma_paired_turn(state, turn);
    } else if state.steering.len() > 0 {
        lemma_paired_turn(state, turn.with_rest_dropped());
    }
}

/// No step ever separates a tool call from its result: whatever comes in, a
/// conversation that is paired stays paired.
pub proof fn steps_keep_calls_and_results_paired(state: Session, input: InputView)
    requires
        paired(state.messages),
        allowed(state, input),
    ensures
        paired(state.stepped(input).0.messages),
{
    match input {
        InputView::Start => {
            if state.steering.len() > 0 {
                lemma_paired_append(
                    state.messages,
                    crate::agent::as_user(
                        crate::agent::handed_over(state.steering, state.steering_mode),
                    ),
                );
            } else {
                lemma_paired_append(
                    state.messages,
                    crate::agent::as_user(
                        crate::agent::handed_over(state.follow_up, state.follow_up_mode),
                    ),
                );
            }
        },
        InputView::Control(_) => {},
        InputView::Prepared(_) => {},
        InputView::Reply(Err(_)) => {},
        InputView::Reply(Ok(response)) => {
            if response.calls.len() == 0 {
                let after = state.replied(response).0.messages;
                assert(after == state.messages + seq![after.last()]);
                lemma_paired_append(state.messages, seq![after.last()]);
            } else {
                lemma_paired_advance(
                    state,
                    TurnView {
                        answer: match response.text {
                            Some(text) => text,
                            None => Seq::empty(),
                        },
                        calls: response.calls,
                        metadata: response.metadata,
                        results: Seq::empty(),
                    },
                );
            }
        },
        InputView::Output(turn, output) => {
            lemma_paired_advance(state, turn.with_output(crate::agent::tool_text(output)));
        },
    }
}

/// A turn that a step hands out has a call to run, and everything before that
/// call has its result.
pub proof fn a_running_turn_is_pending(state: Session, input: InputView)
    requires
        allowed(state, input),
    ensures
        state.stepped(input).2 matches NextView::Execute(turn) ==> turn.pending(),
{
}

/// A new task keeps a conversation paired.
pub proof fn a_task_keeps_calls_and_results_paired(state: Session, text: Seq<char>)
    requires
        paired(state.messages),
    ensures
        paired(state.with_task(text).messages),
{
    let after = state.with_task(text).messages;
    let more = after.skip(state.messages.len() as int);
    assert(after == state.messages + more);
    lemma_paired_append(state.messages, more);
}

/// A new task leaves every call answered.
pub proof fn a_task_keeps_calls_answered(state: Session, text: Seq<char>)
    requires
        calls_answered(state.messages),
    ensures
        calls_answered(state.with_task(text).messages),
{
    let after = state.with_task(text).messages;
    assert forall|i: int| 0 <= i < after.len() implies #[trigger] calls_answered_at(after, i) by {
        if i < state.messages.len() {
            assert(calls_answered_at(state.messages, i));
        }
    }
}

// ------------------------------------------------------------------ history

/// A step only ever adds to the conversation.
pub proof fn steps_never_rewrite_the_conversation(state: Session, input: InputView)
    ensures
        state.messages.is_prefix_of(state.stepped(input).0.messages),
{
}

/// A step that fails leaves nothing of the unfinished turn behind: apart from
/// queued input that was delivered, the conversation is as it was.
pub proof fn a_failed_step_leaves_no_partial_turn(state: Session, input: InputView)
    requires
        state.stepped(input).2 is Failed,
    ensures
        state.stepped(input).0.messages == state.messages || (input is Start && state.stepped(
            input,
        ).0.messages == state.delivered().messages),
{
}

/// Nothing a host queues is lost, repeated or reordered: what a step delivers,
/// followed by what stays queued, is what was queued.
pub proof fn queued_input_is_delivered_once_and_in_order(state: Session)
    ensures
        ({
            let after = state.delivered();
            let new = after.messages.skip(state.messages.len() as int);
            if state.steering.len() > 0 {
                &&& new + crate::agent::as_user(after.steering) == crate::agent::as_user(
                    state.steering,
                )
                &&& new.len() > 0
                &&& after.follow_up == state.follow_up
            } else {
                &&& new + crate::agent::as_user(after.follow_up) == crate::agent::as_user(
                    state.follow_up,
                )
                &&& after.steering == state.steering
            }
        }),
{
    let after = state.delivered();
    let new = after.messages.skip(state.messages.len() as int);
    if state.steering.len() > 0 {
        assert(new + crate::agent::as_user(after.steering) == crate::agent::as_user(
            state.steering,
        ));
    } else {
        assert(new + crate::agent::as_user(after.follow_up) == crate::agent::as_user(
            state.follow_up,
        ));
    }
}

/// Steering goes first: while any is queued, no follow-up is delivered.
pub proof fn steering_is_delivered_before_follow_ups(state: Session)
    requires
        state.steering.len() > 0,
    ensures
        state.delivered().follow_up == state.follow_up,
        state.delivered().steering.len() < state.steering.len(),
{
}

/// A follow-up waits until the current task is answered.
pub proof fn follow_ups_wait_for_the_answer(state: Session)
    requires
        crate::agent::owes_answer(state.messages),
    ensures
        state.delivered().follow_up == state.follow_up,
{
}

// -------------------------------------------------------------------- limits

/// Every model turn is paid for: preparing one uses up one turn of the budget,
/// nothing else does, and it never happens on an empty budget. The model is asked
/// only with a conversation that was prepared, and once for each preparation.
pub proof fn model_turns_stay_within_the_budget(state: Session, input: InputView)
    requires
        allowed(state, input),
    ensures
        ({
            let (after, _, next) = state.stepped(input);
            &&& next is Prepare ==> state.turns < state.max_iterations && after.turns == state.turns
                + 1 && after.preparing
            &&& !(next is Prepare) ==> after.turns == state.turns
            &&& after.max_iterations == state.max_iterations
            &&& next is Ask ==> state.preparing && !after.preparing
            &&& after.preparing && !state.preparing ==> next is Prepare
        }),
{
}

/// Every tool run is paid for: running a tool uses up one call of the budget,
/// nothing else does, and it never happens on an empty budget.
pub proof fn tool_runs_stay_within_the_budget(state: Session, input: InputView)
    ensures
        ({
            let (after, _, next) = state.stepped(input);
            &&& next is Execute ==> after.executed == state.executed + 1 && (
            state.max_tool_calls matches Some(max) ==> state.executed < max)
            &&& !(next is Execute) ==> after.executed == state.executed
            &&& after.max_tool_calls == state.max_tool_calls
        }),
{
}

/// A tool runs exactly when its event is shown.
pub proof fn a_tool_runs_exactly_when_announced(state: Session, input: InputView)
    ensures
        ({
            let (_, events, next) = state.stepped(input);
            next is Execute <==> events.len() > 0 && events.last() is ToolCall
        }),
{
    let (_, events, next) = state.stepped(input);
    if let InputView::Output(turn, output) = input {
        let text = crate::agent::tool_text(output);
        let later = state.advanced(turn.with_output(text)).1;
        let first = EventView::ToolResult { name: turn.open_calls()[0].name, output: text };
        assert(events == seq![first] + later);
        if later.len() == 0 {
            assert(events.last() == first);
        } else {
            assert(events.last() == later.last());
        }
    }
}

// ------------------------------------------------------------------ steering

/// A steering message cancels the rest of the plan: with one queued, no further
/// tool of the turn runs, and each call that was still open is answered as
/// cancelled.
pub proof fn steering_cancels_the_rest_of_the_plan(
    state: Session,
    turn: TurnView,
    output: Result<Seq<char>, Seq<char>>,
)
    requires
        state.steering.len() > 0,
        turn.pending(),
    ensures
        ({
            let (after, _, next) = state.stepped(InputView::Output(turn, output));
            let done = turn.with_output(crate::agent::tool_text(output));
            &&& next == NextView::Done(OutcomeView::Continue)
            &&& after.steering == state.steering
            &&& after.messages.last() is Tools
            &&& after.messages.last()->Tools_0 == done.results + crate::agent::dropped(
                done.open_calls(),
            )
        }),
{
    let done = turn.with_output(crate::agent::tool_text(output));
    assert(done.open_calls().len() == 0 ==> done.results + crate::agent::dropped(done.open_calls())
        == done.results);
}

/// A steering message is never passed over: the step that finds one queued hands
/// it to the conversation and then turns to the model, unless the budget is used
/// up.
pub proof fn steering_reaches_the_model(state: Session)
    requires
        state.steering.len() > 0,
    ensures
        ({
            let (after, _, next) = state.stepped(InputView::Start);
            &&& after.messages.len() > state.messages.len()
            &&& after.messages[state.messages.len() as int] == MessageView::User(state.steering[0])
            &&& next == if state.turns < state.max_iterations {
                NextView::Prepare
            } else {
                NextView::Failed(AgentErrorView::StepLimit(state.max_iterations))
            }
        }),
{
    assert(crate::agent::owes_answer(state.delivered().messages));
}

/// Aborting stops a step wherever it stands and changes nothing else.
pub proof fn abort_stops_the_run(state: Session)
    ensures
        state.stepped(InputView::Control(ControlView::Abort)) == (
            state,
            Seq::<EventView>::empty(),
            NextView::Failed(AgentErrorView::Aborted),
        ),
{
}

// ---------------------------------------------------------------- the answer

/// Once a step is idle, the next one is idle too, with the same answer, until
/// the host sends something.
pub proof fn idle_stays_idle(state: Session, input: InputView, answer: Seq<char>)
    requires
        state.stepped(input).2 == NextView::Done(OutcomeView::Idle(answer)),
    ensures
        state.stepped(input).0.stepped(InputView::Start) == (
            state.stepped(input).0,
            Seq::<EventView>::empty(),
            NextView::Done(OutcomeView::Idle(answer)),
        ),
{
    let after = state.stepped(input).0;
    match input {
        InputView::Start => {
            assert(after == state.delivered());
            assert(!crate::agent::owes_answer(after.messages));
            if state.steering.len() > 0 {
                assert(after.messages.last() is User);
            } else if !crate::agent::owes_answer(state.messages) && state.follow_up.len() > 0 {
                assert(after.messages.last() is User);
            }
        },
        _ => {},
    }
}

/// A step is idle only when nothing is pending: nothing queued, and nothing the
/// model owes.
pub proof fn idle_means_nothing_pending(state: Session, input: InputView)
    requires
        state.stepped(input).2 matches NextView::Done(OutcomeView::Idle(_)),
    ensures
        state.stepped(input).0.steering.len() == 0,
        state.stepped(input).0.follow_up.len() == 0,
        !crate::agent::owes_answer(state.stepped(input).0.messages),
{
    let after = state.stepped(input).0;
    if input is Start {
        if state.steering.len() > 0 {
            assert(after.messages.last() is User);
        } else if !crate::agent::owes_answer(state.messages) && state.follow_up.len() > 0 {
            assert(after.messages.last() is User);
        }
    }
}

/// A model turn without tool calls, and with nothing queued, is the answer.
pub proof fn a_plain_reply_is_the_answer(state: Session, response: ResponseView)
    requires
        response.calls.len() == 0,
        state.steering.len() == 0,
        state.follow_up.len() == 0,
    ensures
        state.stepped(InputView::Reply(Ok(response))).2 == NextView::Done(
            OutcomeView::Idle(
                match response.text {
                    Some(text) => text,
                    None => Seq::empty(),
                },
            ),
        ),
{
}

// ------------------------------------------------------------------ whole runs

/// Where inputs lead, one after the other.
pub open spec fn ran(state: Session, inputs: Seq<InputView>) -> Session
    decreases inputs.len(),
{
    if inputs.len() == 0 {
        state
    } else {
        ran(state, inputs.drop_last()).stepped(inputs.last()).0
    }
}

/// How often inputs make the agent ask the model.
pub open spec fn questions(state: Session, inputs: Seq<InputView>) -> nat
    decreases inputs.len(),
{
    if inputs.len() == 0 {
        0
    } else {
        let before = ran(state, inputs.drop_last());
        questions(state, inputs.drop_last()) + if before.stepped(inputs.last()).2 is Ask {
            1nat
        } else {
            0
        }
    }
}

/// How often inputs make the agent have the conversation prepared.
pub open spec fn preparations(state: Session, inputs: Seq<InputView>) -> nat
    decreases inputs.len(),
{
    if inputs.len() == 0 {
        0
    } else {
        let before = ran(state, inputs.drop_last());
        preparations(state, inputs.drop_last()) + if before.stepped(inputs.last()).2 is Prepare {
            1nat
        } else {
            0
        }
    }
}

/// How often inputs make the agent run a tool.
pub open spec fn tool_runs(state: Session, inputs: Seq<InputView>) -> nat
    decreases inputs.len(),
{
    if inputs.len() == 0 {
        0
    } else {
        let before = ran(state, inputs.drop_last());
        tool_runs(state, inputs.drop_last()) + if before.stepped(inputs.last()).2 is Execute {
            1nat
        } else {
            0
        }
    }
}

/// Inputs as a host can make them.
pub open spec fn possible(state: Session, inputs: Seq<InputView>) -> bool
    decreases inputs.len(),
{
    inputs.len() > 0 ==> possible(state, inputs.drop_last()) && allowed(
        ran(state, inputs.drop_last()),
        inputs.last(),
    )
}

/// However long a run goes on, and whatever the host, the model and the tools do
/// in it, calls and results stay paired.
pub proof fn runs_keep_calls_and_results_paired(state: Session, inputs: Seq<InputView>)
    requires
        paired(state.messages),
        possible(state, inputs),
    ensures
        paired(ran(state, inputs).messages),
    decreases inputs.len(),
{
    if inputs.len() > 0 {
        runs_keep_calls_and_results_paired(state, inputs.drop_last());
        steps_keep_calls_and_results_paired(ran(state, inputs.drop_last()), inputs.last());
    }
}

/// However long a run goes on, every call keeps its result.
pub proof fn runs_keep_calls_answered(state: Session, inputs: Seq<InputView>)
    requires
        calls_answered(state.messages),
        possible(state, inputs),
    ensures
        calls_answered(ran(state, inputs).messages),
    decreases inputs.len(),
{
    if inputs.len() > 0 {
        runs_keep_calls_answered(state, inputs.drop_last());
        steps_keep_calls_answered(ran(state, inputs.drop_last()), inputs.last());
    }
}

/// A task never asks the model more often than its budget of turns allows, and
/// never without having the conversation prepared first: each preparation is good
/// for one question.
pub proof fn a_task_stays_within_its_turns(
    state: Session,
    text: Seq<char>,
    inputs: Seq<InputView>,
)
    requires
        possible(state.with_task(text), inputs),
    ensures
        questions(state.with_task(text), inputs) <= preparations(state.with_task(text), inputs),
        preparations(state.with_task(text), inputs) <= state.max_iterations,
{
    lemma_turns_are_counted(state.with_task(text), inputs);
}

proof fn lemma_turns_are_counted(state: Session, inputs: Seq<InputView>)
    requires
        possible(state, inputs),
        !state.preparing,
    ensures
        ran(state, inputs).max_iterations == state.max_iterations,
        ran(state, inputs).turns == state.turns + preparations(state, inputs),
        preparations(state, inputs) > 0 ==> ran(state, inputs).turns <= state.max_iterations,
        questions(state, inputs) + (if ran(state, inputs).preparing {
            1int
        } else {
            0
        }) <= preparations(state, inputs),
    decreases inputs.len(),
{
    if inputs.len() > 0 {
        lemma_turns_are_counted(state, inputs.drop_last());
        model_turns_stay_within_the_budget(ran(state, inputs.drop_last()), inputs.last());
    }
}

/// The model is asked right behind a preparation that succeeded, and nowhere
/// else; a preparation that failed ends the step with its error.
pub proof fn questions_follow_preparations(state: Session, input: InputView)
    ensures
        state.stepped(input).2 is Ask <==> input is Prepared && input->Prepared_0 is Ok,
        input matches InputView::Prepared(Err(error)) ==> state.stepped(input).2
            == NextView::Failed(AgentErrorView::Context(error)),
        input is Prepared ==> state.stepped(input).0.messages == state.messages,
{
}

/// A model that fails ends the step with its error and leaves the conversation as
/// it was.
pub proof fn a_failed_model_ends_the_step(state: Session, error: Seq<char>)
    ensures
        state.stepped(InputView::Reply(Err(error))) == (
            state,
            Seq::<EventView>::empty(),
            NextView::Failed(AgentErrorView::Model(error)),
        ),
{
}

/// A task never runs more tools than its budget of tool calls allows.
pub proof fn a_task_stays_within_its_tool_calls(
    state: Session,
    text: Seq<char>,
    inputs: Seq<InputView>,
    max: usize,
)
    requires
        state.max_tool_calls == Some(max),
    ensures
        tool_runs(state.with_task(text), inputs) <= max,
{
    lemma_tool_runs_are_counted(state.with_task(text), inputs, max);
}

proof fn lemma_tool_runs_are_counted(state: Session, inputs: Seq<InputView>, max: usize)
    requires
        state.max_tool_calls == Some(max),
    ensures
        ran(state, inputs).max_tool_calls == Some(max),
        ran(state, inputs).executed == state.executed + tool_runs(state, inputs),
        tool_runs(state, inputs) > 0 ==> ran(state, inputs).executed <= max,
    decreases inputs.len(),
{
    if inputs.len() > 0 {
        lemma_tool_runs_are_counted(state, inputs.drop_last(), max);
        tool_runs_stay_within_the_budget(ran(state, inputs.drop_last()), inputs.last());
    }
}

/// A step has a shape: it begins by having the conversation prepared or by
/// ending, asks the model once it is prepared, goes on with tools or by ending,
/// and waits only where the host sent something in between.
pub proof fn a_step_asks_once_and_ends(state: Session, input: InputView)
    ensures
        ({
            let next = state.stepped(input).2;
            &&& input is Start ==> next is Prepare || next is Failed || (next is Done
                && next->Done_0 is Idle)
            &&& input is Prepared ==> next is Ask || next is Failed
            &&& input is Reply || input is Output ==> next is Execute || next is Failed
                || next is Done
            &&& input is Control ==> next is Wait || next is Failed
        }),
{
}

/// The calls of a turn are worked off one at a time, in order: where a turn goes
/// on behind a tool, it is the same turn with the result of that tool added.
pub proof fn calls_are_worked_off_in_order(
    state: Session,
    turn: TurnView,
    output: Result<Seq<char>, Seq<char>>,
    later: TurnView,
)
    requires
        turn.pending(),
        state.stepped(InputView::Output(turn, output)).2 == NextView::Execute(later),
    ensures
        later.calls == turn.calls,
        later.results.len() == turn.results.len() + 1,
        later.results.drop_last() == turn.results,
        later.results.last().output == crate::agent::tool_text(output),
        later.open_calls().len() < turn.open_calls().len(),
{
    assert(later.results.drop_last() == turn.results);
}

/// A failing tool does not fail the run: its error becomes its result, and the
/// turn goes on as with any other output.
pub proof fn a_failed_tool_is_a_result(state: Session, turn: TurnView, error: Seq<char>)
    requires
        turn.pending(),
    ensures
        state.stepped(InputView::Output(turn, Err(error))) == state.stepped(
            InputView::Output(turn, Ok("error: "@ + error)),
        ),
{
}

/// Replies, outputs and control messages never deliver queued input: it reaches
/// the conversation at the beginning of a step, before the model is asked.
pub proof fn queues_are_delivered_before_the_model_is_asked(state: Session, input: InputView)
    ensures
        input is Start ==> state.stepped(input).0.messages == state.delivered().messages,
        !(input is Start) ==> state.steering.is_prefix_of(state.stepped(input).0.steering)
            && state.follow_up.is_prefix_of(state.stepped(input).0.follow_up),
{
}

/// Starting over forgets what was said and queued, and keeps the settings.
pub proof fn clearing_forgets_everything_but_the_settings(state: Session)
    ensures
        state.cleared().cleared() == state.cleared(),
        state.cleared().stepped(InputView::Start).2 == NextView::Done(
            OutcomeView::Idle(Seq::empty()),
        ),
        state.cleared().system_prompt == state.system_prompt,
        state.cleared().max_iterations == state.max_iterations,
        state.cleared().max_tool_calls == state.max_tool_calls,
        state.cleared().steering_mode == state.steering_mode,
        state.cleared().follow_up_mode == state.follow_up_mode,
{
}

// ------------------------------------------------------- what each input does

/// What the model reads of a tool that ran: its output as it is, or its error
/// behind a mark.
pub open spec fn heard(output: Result<Seq<char>, Seq<char>>) -> Seq<char> {
    match output {
        Ok(text) => text,
        Err(error) => "error: "@ + error,
    }
}

/// What a model turn says; nothing if it only asks for tools.
pub open spec fn words(response: ResponseView) -> Seq<char> {
    match response.text {
        Some(text) => text,
        None => Seq::empty(),
    }
}

/// A turn of which the first calls have their results, as the host holds it.
pub open spec fn under_way(turn: TurnView) -> bool {
    &&& turn.results.len() < turn.calls.len()
    &&& forall|i: int|
        0 <= i < turn.results.len() ==> (#[trigger] turn.results[i]).id == turn.calls[i].id
            && turn.results[i].name == turn.calls[i].name
}

/// The budget allows one more tool.
pub open spec fn may_run_a_tool(state: Session) -> bool {
    match state.max_tool_calls {
        Some(max) => state.executed < max,
        None => true,
    }
}

/// A reply that asks for tools is taken up whole. Its first call is announced and
/// handed out with everything the reply said, or, with steering queued, the reply
/// enters the conversation as it came, each of its calls answered as cancelled.
/// Where the budget forbids the first call, nothing changes.
pub proof fn a_reply_with_calls_is_taken_up_whole(state: Session, response: ResponseView)
    requires
        response.calls.len() > 0,
    ensures
        ({
            let (after, events, next) = state.stepped(InputView::Reply(Ok(response)));
            let calls = response.calls;
            if state.steering.len() > 0 {
                &&& next == NextView::Done(OutcomeView::Continue)
                &&& after.messages.len() == state.messages.len() + 2
                &&& after.messages.take(state.messages.len() as int) == state.messages
                &&& after.messages[state.messages.len() as int] == (MessageView::Assistant {
                    text: words(response),
                    calls,
                    metadata: response.metadata,
                })
                &&& after.messages.last() == MessageView::Tools(
                    Seq::new(
                        calls.len(),
                        |i: int|
                            ResultView {
                                id: calls[i].id,
                                name: calls[i].name,
                                output: "cancelled: interrupted by steering message"@,
                            },
                    ),
                )
                &&& events == Seq::new(
                    calls.len(),
                    |i: int| EventView::ToolSkipped { name: calls[i].name },
                )
                &&& after == (Session { messages: after.messages, ..state })
            } else if may_run_a_tool(state) {
                &&& next == NextView::Execute(
                    TurnView {
                        answer: words(response),
                        calls,
                        metadata: response.metadata,
                        results: Seq::empty(),
                    },
                )
                &&& events == seq![
                    EventView::ToolCall { name: calls[0].name, arguments: calls[0].arguments },
                ]
                &&& after == (Session { executed: state.executed + 1, ..state })
            } else {
                &&& next == NextView::Failed(
                    AgentErrorView::ToolCallLimit(state.max_tool_calls->Some_0),
                )
                &&& events == Seq::<EventView>::empty()
                &&& after == state
            }
        }),
{
    let (after, events, next) = state.stepped(InputView::Reply(Ok(response)));
    let calls = response.calls;
    assert(calls.skip(0) == calls);
    if state.steering.len() > 0 {
        let results = Seq::new(
            calls.len(),
            |i: int|
                ResultView {
                    id: calls[i].id,
                    name: calls[i].name,
                    output: "cancelled: interrupted by steering message"@,
                },
        );
        assert(after.messages.last()->Tools_0 == results);
        assert(events == Seq::new(
            calls.len(),
            |i: int| EventView::ToolSkipped { name: calls[i].name },
        ));
        assert(after.messages.take(state.messages.len() as int) == state.messages);
    }
}

/// The output of a tool becomes the result of its call, under the call's id and
/// name, and nothing else of the turn changes. Then the next call is handed out,
/// or the whole turn enters the conversation: what the model said, its calls, what
/// it wants echoed back, and one result for each call, in order. With steering
/// queued, the calls that are still open are answered as cancelled.
pub proof fn an_output_becomes_the_result_of_its_call(
    state: Session,
    turn: TurnView,
    output: Result<Seq<char>, Seq<char>>,
)
    requires
        under_way(turn),
    ensures
        ({
            let (after, events, next) = state.stepped(InputView::Output(turn, output));
            let calls = turn.calls;
            let n = turn.results.len() as int;
            let told = EventView::ToolResult { name: calls[n].name, output: heard(output) };
            if n + 1 == calls.len() || state.steering.len() > 0 {
                &&& next == NextView::Done(OutcomeView::Continue)
                &&& after.messages.len() == state.messages.len() + 2
                &&& after.messages.take(state.messages.len() as int) == state.messages
                &&& after.messages[state.messages.len() as int] == (MessageView::Assistant {
                    text: turn.answer,
                    calls,
                    metadata: turn.metadata,
                })
                &&& after.messages.last() == MessageView::Tools(
                    Seq::new(
                        calls.len(),
                        |i: int|
                            ResultView {
                                id: calls[i].id,
                                name: calls[i].name,
                                output: if i < n {
                                    turn.results[i].output
                                } else if i == n {
                                    heard(output)
                                } else {
                                    "cancelled: interrupted by steering message"@
                                },
                            },
                    ),
                )
                &&& events == seq![told] + Seq::new(
                    (calls.len() - n - 1) as nat,
                    |i: int| EventView::ToolSkipped { name: calls[n + 1 + i].name },
                )
                &&& after == (Session { messages: after.messages, ..state })
            } else if may_run_a_tool(state) {
                &&& next == NextView::Execute(
                    TurnView {
                        results: turn.results.push(
                            ResultView {
                                id: calls[n].id,
                                name: calls[n].name,
                                output: heard(output),
                            },
                        ),
                        ..turn
                    },
                )
                &&& events == seq![
                    told,
                    EventView::ToolCall {
                        name: calls[n + 1].name,
                        arguments: calls[n + 1].arguments,
                    },
                ]
                &&& after == (Session { executed: state.executed + 1, ..state })
            } else {
                &&& next == NextView::Failed(
                    AgentErrorView::ToolCallLimit(state.max_tool_calls->Some_0),
                )
                &&& events == seq![told]
                &&& after == state
            }
        }),
{
    let (after, events, next) = state.stepped(InputView::Output(turn, output));
    let calls = turn.calls;
    let n = turn.results.len() as int;
    let told = EventView::ToolResult { name: calls[n].name, output: heard(output) };
    let done = turn.with_output(crate::agent::tool_text(output));
    let skipped = Seq::new(
        (calls.len() - n - 1) as nat,
        |i: int| EventView::ToolSkipped { name: calls[n + 1 + i].name },
    );
    if n + 1 == calls.len() || state.steering.len() > 0 {
        let results = Seq::new(
            calls.len(),
            |i: int|
                ResultView {
                    id: calls[i].id,
                    name: calls[i].name,
                    output: if i < n {
                        turn.results[i].output
                    } else if i == n {
                        heard(output)
                    } else {
                        "cancelled: interrupted by steering message"@
                    },
                },
        );
        assert forall|i: int| 0 <= i < calls.len() implies after.messages.last()->Tools_0[i]
            == #[trigger] results[i] by {
            if i < n {
                assert(turn.results[i].id == calls[i].id);
            }
        }
        assert(after.messages.last()->Tools_0 == results);
        assert(events == seq![told] + skipped);
        assert(after.messages.take(state.messages.len() as int) == state.messages);
    } else if may_run_a_tool(state) {
        assert(events == seq![
            told,
            EventView::ToolCall { name: calls[n + 1].name, arguments: calls[n + 1].arguments },
        ]);
    } else {
        assert(events == seq![told]);
    }
}

/// A reply that asks for tools, and the outputs of its tools, one after the other.
pub open spec fn worked_off(
    state: Session,
    response: ResponseView,
    outputs: Seq<Result<Seq<char>, Seq<char>>>,
) -> (Session, NextView)
    decreases outputs.len(),
{
    if outputs.len() == 0 {
        let (after, _, next) = state.stepped(InputView::Reply(Ok(response)));
        (after, next)
    } else {
        let (before, running) = worked_off(state, response, outputs.drop_last());
        let (after, _, next) = before.stepped(
            InputView::Output(running->Execute_0, outputs.last()),
        );
        (after, next)
    }
}

/// The results that outputs make for the first calls.
pub open spec fn results_for(
    calls: Seq<CallView>,
    outputs: Seq<Result<Seq<char>, Seq<char>>>,
) -> Seq<ResultView> {
    Seq::new(
        outputs.len(),
        |i: int|
            ResultView { id: calls[i].id, name: calls[i].name, output: heard(outputs[i]) },
    )
}

proof fn lemma_worked_off(
    state: Session,
    response: ResponseView,
    outputs: Seq<Result<Seq<char>, Seq<char>>>,
)
    requires
        outputs.len() < response.calls.len(),
        state.steering.len() == 0,
        state.max_tool_calls matches Some(max) ==> state.executed + response.calls.len() <= max,
    ensures
        worked_off(state, response, outputs) == (
            (Session { executed: state.executed + outputs.len() + 1, ..state }),
            NextView::Execute(
                TurnView {
                    answer: words(response),
                    calls: response.calls,
                    metadata: response.metadata,
                    results: results_for(response.calls, outputs),
                },
            ),
        ),
    decreases outputs.len(),
{
    if outputs.len() == 0 {
        a_reply_with_calls_is_taken_up_whole(state, response);
        assert(results_for(response.calls, outputs) == Seq::<ResultView>::empty());
    } else {
        let fewer = outputs.drop_last();
        lemma_worked_off(state, response, fewer);
        let (before, running) = worked_off(state, response, fewer);
        an_output_becomes_the_result_of_its_call(before, running->Execute_0, outputs.last());
        assert(results_for(response.calls, outputs) == results_for(response.calls, fewer).push(
            ResultView {
                id: response.calls[fewer.len() as int].id,
                name: response.calls[fewer.len() as int].name,
                output: heard(outputs.last()),
            },
        ));
    }
}

/// Once every tool of a reply has run, the conversation holds two more messages:
/// what the model said along with its calls and what it wants echoed back, all
/// unchanged, and the output of each call, in order, under the call's id and name.
pub proof fn a_worked_off_turn_is_kept_whole(
    state: Session,
    response: ResponseView,
    outputs: Seq<Result<Seq<char>, Seq<char>>>,
)
    requires
        response.calls.len() > 0,
        outputs.len() == response.calls.len(),
        state.steering.len() == 0,
        state.max_tool_calls matches Some(max) ==> state.executed + response.calls.len() <= max,
    ensures
        ({
            let (after, next) = worked_off(state, response, outputs);
            &&& next == NextView::Done(OutcomeView::Continue)
            &&& after.messages == state.messages.push(
                MessageView::Assistant {
                    text: match response.text {
                        Some(text) => text,
                        None => Seq::empty(),
                    },
                    calls: response.calls,
                    metadata: response.metadata,
                },
            ).push(
                MessageView::Tools(
                    Seq::new(
                        outputs.len(),
                        |i: int|
                            ResultView {
                                id: response.calls[i].id,
                                name: response.calls[i].name,
                                output: match outputs[i] {
                                    Ok(text) => text,
                                    Err(error) => "error: "@ + error,
                                },
                            },
                    ),
                ),
            )
            &&& after.executed == state.executed + outputs.len()
        }),
{
    let fewer = outputs.drop_last();
    lemma_worked_off(state, response, fewer);
    let (before, running) = worked_off(state, response, fewer);
    an_output_becomes_the_result_of_its_call(before, running->Execute_0, outputs.last());
    let after = worked_off(state, response, outputs).0;
    let results = Seq::new(
        outputs.len(),
        |i: int|
            ResultView {
                id: response.calls[i].id,
                name: response.calls[i].name,
                output: match outputs[i] {
                    Ok(text) => text,
                    Err(error) => "error: "@ + error,
                },
            },
    );
    assert(after.messages.last()->Tools_0 == results);
    assert(after.messages == state.messages.push(
        after.messages[state.messages.len() as int],
    ).push(after.messages.last()));
}

/// A reply without calls is the last message of the conversation, as it came. It
/// ends the run with its text, unless something is queued.
pub proof fn a_plain_reply_is_kept_whole(state: Session, response: ResponseView)
    requires
        response.calls.len() == 0,
    ensures
        ({
            let (after, events, next) = state.stepped(InputView::Reply(Ok(response)));
            &&& after.messages == state.messages.push(
                MessageView::Assistant {
                    text: words(response),
                    calls: Seq::empty(),
                    metadata: response.metadata,
                },
            )
            &&& after == (Session { messages: after.messages, ..state })
            &&& events == Seq::<EventView>::empty()
            &&& state.steering.len() == 0 && state.follow_up.len() == 0 ==> next
                == NextView::Done(OutcomeView::Idle(words(response)))
            &&& state.steering.len() > 0 || state.follow_up.len() > 0 ==> next
                == NextView::Done(OutcomeView::Continue)
        }),
{
}

/// The model still owes an answer: the conversation ends with what the user said
/// or with what tools returned.
pub open spec fn answer_is_due(messages: Seq<MessageView>) -> bool {
    messages.len() > 0 && match messages.last() {
        MessageView::User(_) => true,
        MessageView::Tools(_) => true,
        _ => false,
    }
}

/// What queued texts become: one message of the user each, as they were sent. One
/// is taken, or all.
pub open spec fn takes_from(
    queue: Seq<Seq<char>>,
    mode: crate::agent::QueueMode,
    rest: Seq<Seq<char>>,
    new: Seq<MessageView>,
) -> bool {
    &&& queue.len() == new.len() + rest.len()
    &&& forall|i: int|
        0 <= i < new.len() ==> (#[trigger] new[i]) == MessageView::User(queue[i])
    &&& forall|i: int| 0 <= i < rest.len() ==> (#[trigger] rest[i]) == queue[new.len() + i]
    &&& mode is One ==> new.len() == 1
    &&& mode is All ==> rest.len() == 0
}

/// What the beginning of a step does with queued input: the front of the steering
/// queue goes into the conversation, each text as it was sent. Without steering,
/// the same goes for follow-ups, as soon as no answer is due. Nothing else of the
/// state changes.
pub proof fn queued_input_goes_into_the_conversation(state: Session)
    ensures
        ({
            let after = state.delivered();
            let new = after.messages.skip(state.messages.len() as int);
            &&& after.messages == state.messages + new
            &&& after == (Session {
                messages: after.messages,
                steering: after.steering,
                follow_up: after.follow_up,
                ..state
            })
            &&& if state.steering.len() > 0 {
                &&& takes_from(state.steering, state.steering_mode, after.steering, new)
                &&& after.follow_up == state.follow_up
            } else if state.follow_up.len() > 0 && !answer_is_due(state.messages) {
                &&& takes_from(state.follow_up, state.follow_up_mode, after.follow_up, new)
                &&& after.steering == state.steering
            } else {
                after == state
            }
        }),
{
    let after = state.delivered();
    let new = after.messages.skip(state.messages.len() as int);
    assert(after.messages == state.messages + new);
    if state.steering.len() > 0 {
        assert(takes_from(state.steering, state.steering_mode, after.steering, new));
    } else if state.follow_up.len() > 0 && !answer_is_due(state.messages) {
        assert(takes_from(state.follow_up, state.follow_up_mode, after.follow_up, new));
    }
}

/// What the beginning of a step leads to, behind the queued input: the next model
/// turn where an answer is due and the budget allows one, an error where it does
/// not, and otherwise the end, with the answer that the conversation ends with.
pub proof fn a_step_begins_with_what_is_due(state: Session)
    ensures
        ({
            let (after, events, next) = state.stepped(InputView::Start);
            let ready = state.delivered();
            &&& events == Seq::<EventView>::empty()
            &&& if !answer_is_due(ready.messages) {
                &&& after == ready
                &&& ready.messages.len() == 0 ==> next == NextView::Done(
                    OutcomeView::Idle(Seq::empty()),
                )
                &&& ready.messages.len() > 0 ==> next == NextView::Done(
                    OutcomeView::Idle(
                        match ready.messages.last() {
                            MessageView::Assistant { text, calls, .. } => if calls.len() == 0 {
                                text
                            } else {
                                Seq::empty()
                            },
                            _ => Seq::empty(),
                        },
                    ),
                )
            } else if state.turns < state.max_iterations {
                &&& next == NextView::Prepare
                &&& after == (Session { turns: state.turns + 1, preparing: true, ..ready })
            } else {
                &&& next == NextView::Failed(AgentErrorView::StepLimit(state.max_iterations))
                &&& after == ready
            }
        }),
{
}

/// A task is the last message of the conversation, as it was given, with a fresh
/// budget. In an empty conversation the system prompt, if there is one, stands
/// before it. What is queued stays queued, and the settings stay.
pub proof fn a_task_is_added_as_given(state: Session, text: Seq<char>)
    ensures
        ({
            let after = state.with_task(text);
            &&& after.messages == if state.messages.len() == 0 && state.system_prompt.len() > 0 {
                seq![MessageView::System(state.system_prompt), MessageView::User(text)]
            } else {
                state.messages.push(MessageView::User(text))
            }
            &&& after.turns == 0
            &&& after.executed == 0
            &&& !after.preparing
            &&& after == (Session {
                messages: after.messages,
                turns: 0,
                executed: 0,
                preparing: false,
                ..state
            })
        }),
{
    let after = state.with_task(text);
    if state.messages.len() == 0 && state.system_prompt.len() > 0 {
        assert(after.messages == seq![
            MessageView::System(state.system_prompt),
            MessageView::User(text),
        ]);
    }
}

/// What the host sends goes to the end of its queue, as it was sent, and changes
/// nothing else.
pub proof fn what_the_host_sends_is_queued(state: Session, text: Seq<char>)
    ensures
        state.stepped(InputView::Control(ControlView::Steer(text))) == (
            (Session { steering: state.steering.push(text), ..state }),
            Seq::<EventView>::empty(),
            NextView::Wait,
        ),
        state.stepped(InputView::Control(ControlView::FollowUp(text))) == (
            (Session { follow_up: state.follow_up.push(text), ..state }),
            Seq::<EventView>::empty(),
            NextView::Wait,
        ),
{
}

/// A prepared conversation is what the model is asked with: preparing only ends.
pub proof fn a_prepared_conversation_is_asked_with(state: Session)
    ensures
        state.stepped(InputView::Prepared(Ok(()))) == (
            (Session { preparing: false, ..state }),
            Seq::<EventView>::empty(),
            NextView::Ask,
        ),
{
}

/// No input changes the settings.
pub proof fn steps_leave_the_settings_alone(state: Session, input: InputView)
    ensures
        ({
            let after = state.stepped(input).0;
            &&& after.system_prompt == state.system_prompt
            &&& after.steering_mode == state.steering_mode
            &&& after.follow_up_mode == state.follow_up_mode
            &&& after.max_iterations == state.max_iterations
            &&& after.max_tool_calls == state.max_tool_calls
        }),
{
}

/// After starting over nothing is left of the conversation, of the queues and of
/// what was counted, and everything else is as it was.
pub proof fn clearing_leaves_the_settings_only(state: Session)
    ensures
        state.cleared().messages.len() == 0,
        state.cleared().steering.len() == 0,
        state.cleared().follow_up.len() == 0,
        state.cleared().turns == 0,
        state.cleared().executed == 0,
        !state.cleared().preparing,
        state.cleared() == (Session {
            messages: state.cleared().messages,
            steering: state.cleared().steering,
            follow_up: state.cleared().follow_up,
            turns: 0,
            executed: 0,
            preparing: false,
            ..state
        }),
{
}

/// A new agent has nothing to say and nothing queued, hands over one queued message
/// at a time, and may run as many tools as it is asked for.
pub proof fn a_new_agent_is_a_cleared_one()
    ensures
        Session::fresh().cleared() == Session::fresh(),
        Session::fresh().steering_mode is One,
        Session::fresh().follow_up_mode is One,
        Session::fresh().max_tool_calls is None,
        Session::fresh().max_iterations == 32,
{
}

/// The error of a limit tells the limit, and the words of the model and of the
/// context manager are passed on as they are.
pub proof fn errors_tell_what_happened(max: usize, words: Seq<char>)
    ensures
        AgentErrorView::StepLimit(max).text() == "agent stopped after "@ + crate::text::decimal(
            max as nat,
        ) + " steps without a final answer"@,
        AgentErrorView::ToolCallLimit(max).text()
            == "agent stopped after reaching the tool call limit ("@ + crate::text::decimal(
            max as nat,
        ) + ")"@,
        AgentErrorView::Aborted.text() == "agent aborted"@,
        AgentErrorView::Context(words).text() == words,
        AgentErrorView::Model(words).text() == words,
{
}

/// The state of an agent is what it holds: the conversation and the queues, one for
/// one, the settings and what was counted.
pub proof fn the_state_is_what_the_agent_holds<M, T, C>(agent: crate::agent::Agent<M, T, C>)
    ensures
        agent.state().messages.len() == agent.messages@.len(),
        forall|i: int|
            0 <= i < agent.messages@.len() ==> (#[trigger] agent.state().messages[i])
                == agent.messages@[i]@,
        agent.state().steering.len() == agent.steering@.len(),
        forall|i: int|
            0 <= i < agent.steering@.len() ==> (#[trigger] agent.state().steering[i])
                == agent.steering@[i]@,
        agent.state().follow_up.len() == agent.follow_up@.len(),
        forall|i: int|
            0 <= i < agent.follow_up@.len() ==> (#[trigger] agent.state().follow_up[i])
                == agent.follow_up@[i]@,
        agent.state().system_prompt == agent.system_prompt@,
        agent.state().steering_mode == agent.steering_mode,
        agent.state().follow_up_mode == agent.follow_up_mode,
        agent.state().max_iterations == agent.max_iterations,
        agent.state().max_tool_calls == agent.max_tool_calls,
        agent.state().turns == agent.turns,
        agent.state().executed == agent.executed,
        agent.state().preparing == agent.preparing,
{
}

/// An input is seen as the host made it.
pub proof fn inputs_are_seen_as_they_are(
    text: String,
    response: crate::Response,
    turn: crate::agent::Turn,
)
    ensures
        crate::agent::Input::Start@ is Start,
        crate::agent::Input::Control(crate::agent::Control::Steer(text))@ == InputView::Control(
            ControlView::Steer(text@),
        ),
        crate::agent::Input::Control(crate::agent::Control::FollowUp(text))@
            == InputView::Control(ControlView::FollowUp(text@)),
        crate::agent::Input::Control(crate::agent::Control::Abort)@ == InputView::Control(
            ControlView::Abort,
        ),
        crate::agent::Input::Prepared(Ok(()))@ is Prepared,
        crate::agent::Input::Prepared(Ok(()))@->Prepared_0 is Ok,
        crate::agent::Input::Prepared(Err(text))@ == InputView::Prepared(
            Err::<(), Seq<char>>(text@),
        ),
        crate::agent::Input::Reply(Ok(response))@ == InputView::Reply(
            Ok::<ResponseView, Seq<char>>(response@),
        ),
        crate::agent::Input::Reply(Err(text))@ == InputView::Reply(
            Err::<ResponseView, Seq<char>>(text@),
        ),
        crate::agent::Input::Output(turn, Ok(text))@ == InputView::Output(
            turn@,
            Ok::<Seq<char>, Seq<char>>(text@),
        ),
        crate::agent::Input::Output(turn, Err(text))@ == InputView::Output(
            turn@,
            Err::<Seq<char>, Seq<char>>(text@),
        ),
{
}

// ------------------------------------------------------------- all the way round

/// A task reaches the model as it was given: it is the last message of the next
/// request, in the user's name.
pub proof fn a_task_reaches_the_model_as_given(
    state: Session,
    text: Seq<char>,
    config: crate::llm::ConfigView,
    tools: Seq<crate::DefinitionView>,
)
    requires
        !config.extra_body.dom().contains("messages"@),
    ensures
        ({
            let sent = crate::llm::wire(config, state.with_task(text).messages, tools);
            &&& sent.len() > 0
            &&& crate::llm::speaks(sent.last(), "user"@, text)
        }),
{
    let messages = state.with_task(text).messages;
    let last = messages.len() - 1;
    a_task_is_added_as_given(state, text);
    crate::llm::the_whole_conversation_goes_out(config, messages, tools);
    let sent = crate::llm::wire(config, messages, tools);
    let at = crate::llm::place_on_wire(messages, last as nat);
    assert(messages[last] == MessageView::User(text));
    assert(crate::llm::is_entry(
        sent[crate::llm::place_on_wire(messages, last as nat) + 0int],
        messages[last],
        0,
    ));
    assert(crate::llm::place_on_wire(messages, messages.len()) == at + 1);
}

/// What a model streams in one turn is sent back to it with the next request, once
/// its tools have run: the contents of all fragments, in order, every call with the
/// pieces of its arguments put together, and then the output of each tool under the
/// id of its call.
pub proof fn a_streamed_turn_is_sent_back_whole(
    state: Session,
    deltas: Seq<crate::stream::DeltaView>,
    outputs: Seq<Result<Seq<char>, Seq<char>>>,
    config: crate::llm::ConfigView,
    tools: Seq<crate::DefinitionView>,
)
    requires
        outputs.len() > 0,
        outputs.len() == crate::stream::calls_spoken_of(crate::stream::call_fragments(deltas)),
        state.steering.len() == 0,
        state.max_tool_calls matches Some(max) ==> state.executed + outputs.len() <= max,
        !config.extra_body.dom().contains("messages"@),
    ensures
        ({
            let response = crate::stream::StreamView::empty().with_all(deltas).finished();
            let after = worked_off(state, response, outputs).0;
            let sent = crate::llm::wire(config, after.messages, tools);
            let said = crate::stream::contents(deltas);
            let at = crate::llm::place_on_wire(state.messages, state.messages.len());
            &&& sent.len() == at + 1 + outputs.len()
            &&& crate::llm::holds(sent[at as int], "role"@, crate::json::Json::Text("assistant"@))
            &&& said.len() > 0 ==> crate::llm::holds(
                sent[at as int],
                "content"@,
                crate::json::Json::Text(said),
            )
            &&& sent[at as int]->Object_0.dom().contains("tool_calls"@)
            &&& crate::llm::is_calls(
                sent[at as int]->Object_0["tool_calls"@],
                response.calls,
            )
            &&& forall|i: int|
                0 <= i < outputs.len() ==> crate::llm::is_result(
                    #[trigger] sent[at + 1 + i],
                    ResultView {
                        id: crate::stream::last_id(
                            crate::stream::call_fragments(deltas),
                            i as nat,
                        ),
                        name: response.calls[i].name,
                        output: heard(outputs[i]),
                    },
                )
        }),
{
    let response = crate::stream::StreamView::empty().with_all(deltas).finished();
    crate::stream::calls_are_put_together_from_their_fragments(deltas);
    crate::stream::the_text_is_every_content_in_order(deltas);
    crate::stream::what_is_echoed_is_what_came(deltas);
    a_worked_off_turn_is_kept_whole(state, response, outputs);
    let messages = worked_off(state, response, outputs).0.messages;
    let sent = crate::llm::wire(config, messages, tools);
    let n = state.messages.len();
    crate::llm::the_whole_conversation_goes_out(config, messages, tools);
    crate::llm::lemma_same_place_on_wire(state.messages, messages, n);
    let at = crate::llm::place_on_wire(messages, n);
    assert(crate::llm::place_on_wire(messages, (n + 1) as nat) == at + 1);
    assert(crate::llm::place_on_wire(messages, (n + 2) as nat) == at + 1 + outputs.len());
    assert(crate::llm::is_entry(
        sent[crate::llm::place_on_wire(messages, n as int as nat) + 0int],
        messages[n as int],
        0,
    ));
    reveal_strlit("reasoning_content");
    reveal_strlit("reasoning_details");
    reveal_strlit("role");
    reveal_strlit("content");
    reveal_strlit("tool_calls");
    assert("reasoning_content"@.len() == 17 && "reasoning_details"@.len() == 17);
    assert("role"@.len() == 4 && "content"@.len() == 7 && "tool_calls"@.len() == 10);
    assert(!response.metadata.dom().contains("role"@));
    assert(!response.metadata.dom().contains("content"@));
    assert(!response.metadata.dom().contains("tool_calls"@));
    assert forall|i: int| 0 <= i < outputs.len() implies crate::llm::is_result(
        #[trigger] sent[at + 1 + i],
        ResultView {
            id: crate::stream::last_id(crate::stream::call_fragments(deltas), i as nat),
            name: response.calls[i].name,
            output: heard(outputs[i]),
        },
    ) by {
        assert(crate::llm::is_entry(
            sent[crate::llm::place_on_wire(messages, (n + 1) as int as nat) + i],
            messages[(n + 1) as int],
            i,
        ));
    }
}

/// The call that the host is handed to run is the one that was announced, and what
/// it returns becomes the result under that call's id.
pub proof fn the_announced_call_runs_and_gets_its_result(
    state: Session,
    input: InputView,
    turn: TurnView,
    later: Session,
    output: Result<Seq<char>, Seq<char>>,
)
    requires
        input matches InputView::Output(before, _) ==> under_way(before),
        state.stepped(input).2 == NextView::Execute(turn),
    ensures
        state.stepped(input).1.len() > 0,
        state.stepped(input).1.last() == (EventView::ToolCall {
            name: turn.next_call().name,
            arguments: turn.next_call().arguments,
        }),
        later.stepped(InputView::Output(turn, output)).1[0] == (EventView::ToolResult {
            name: turn.next_call().name,
            output: heard(output),
        }),
        later.stepped(InputView::Output(turn, output)).2 matches NextView::Execute(next)
            ==> next.results.last() == (ResultView {
            id: turn.next_call().id,
            name: turn.next_call().name,
            output: heard(output),
        }),
{
    match input {
        InputView::Reply(Ok(response)) => {
            if response.calls.len() > 0 {
                a_reply_with_calls_is_taken_up_whole(state, response);
            }
        },
        InputView::Output(before, earlier) => {
            an_output_becomes_the_result_of_its_call(state, before, earlier);
        },
        _ => {},
    }
    assert(under_way(turn));
    an_output_becomes_the_result_of_its_call(later, turn, output);
}

} // verus!
