//! Built-in context managers.
//!
//! These decide what the model is shown each turn. A host with other needs
//! brings its own; nothing else in the crate changes.

use vstd::prelude::*;

use crate::{Message, MessageView};

verus! {

/// Does nothing at all: the conversation is sent as it is. This is the default,
/// so a plain agent never has to think about context.
#[derive(Debug, Clone, Copy)]
pub struct NoopContext;

impl Default for NoopContext {
    fn default() -> (manager: Self)
        ensures
            manager == NoopContext,
    {
        NoopContext
    }
}

impl NoopContext {
    /// Leave the conversation as it is.
    pub fn prepare(&self, messages: &mut Vec<Message>)
        ensures
            final(messages)@ == old(messages)@,
    {
    }
}

/// Keeps the first message (the system prompt) and the most recent `keep`
/// messages, dropping everything between them.
///
/// Trimming happens in whole groups: an assistant turn that asked for tool calls
/// is never separated from the tool results that answer it, because the protocol
/// requires the pair. The cut is also pushed back so the kept window never
/// starts with a bare tool result.
#[derive(Debug, Clone, Copy)]
pub struct KeepLast {
    pub keep: usize,
}

/// Where the window that is to start at `start` starts: tool results at its
/// beginning pull in what stands before them.
pub open spec fn window_start(messages: Seq<MessageView>, start: int) -> int
    decreases start,
{
    if start > 0 && messages[start] is Tools {
        window_start(messages, start - 1)
    } else {
        start
    }
}

/// The window of the last `keep` messages begins behind the first message with
/// something other than tool results, or there is no window.
pub open spec fn trimmable(messages: Seq<MessageView>, keep: nat) -> bool {
    messages.len() > keep + 1 && keep > 0 ==> window_start(messages, messages.len() - keep) > 0
}

/// The first message and the window of the last `keep`.
pub open spec fn trimmed_to(messages: Seq<MessageView>, keep: nat) -> Seq<MessageView> {
    if messages.len() <= keep + 1 {
        messages
    } else if keep == 0 {
        seq![messages[0]]
    } else {
        seq![messages[0]] + messages.skip(window_start(messages, messages.len() - keep))
    }
}

/// Where a window starts: no later than asked for, and not at tool results
/// unless that is the very beginning.
pub proof fn lemma_window_start(messages: Seq<MessageView>, start: int)
    requires
        0 <= start < messages.len(),
    ensures
        0 <= window_start(messages, start) <= start,
        window_start(messages, start) > 0 ==> !(messages[window_start(messages, start)] is Tools),
        forall|i: int|
            window_start(messages, start) < i <= start ==> (#[trigger] messages[i]) is Tools,
    decreases start,
{
    if start > 0 && messages[start] is Tools {
        lemma_window_start(messages, start - 1);
    }
}

fn is_tools(message: &Message) -> (yes: bool)
    ensures
        yes == (message@ is Tools),
{
    match message {
        Message::Tools(_) => true,
        _ => false,
    }
}

impl KeepLast {
    /// Keep this many messages besides the first.
    pub fn new(keep: usize) -> (manager: Self)
        ensures
            manager.keep == keep,
    {
        KeepLast { keep }
    }

    /// Where the kept window of a conversation starts.
    fn window(&self, messages: &Vec<Message>) -> (start: usize)
        requires
            0 < self.keep < messages.len(),
        ensures
            start == window_start(crate::messages_view(messages@), messages.len() - self.keep),
            start < messages.len(),
    {
        let mut start: usize = messages.len() - self.keep;
        while start > 0 && is_tools(&messages[start])
            invariant
                start < messages.len(),
                0 < self.keep < messages.len(),
                window_start(crate::messages_view(messages@), start as int) == window_start(
                    crate::messages_view(messages@),
                    messages.len() - self.keep,
                ),
            decreases start,
        {
            start = start - 1;
        }
        start
    }

    /// Whether a conversation can be trimmed.
    pub fn accepts(&self, messages: &Vec<Message>) -> (accepted: bool)
        ensures
            accepted == trimmable(crate::messages_view(messages@), self.keep as nat),
    {
        if messages.len() == 0 || messages.len() - 1 <= self.keep {
            return true;
        }
        self.keep == 0 || self.window(messages) > 0
    }

    /// Trim a conversation that is too long.
    pub fn prepare(&self, messages: &mut Vec<Message>)
        requires
            trimmable(crate::messages_view(old(messages)@), self.keep as nat),
        ensures
            crate::messages_view(final(messages)@) == trimmed_to(
                crate::messages_view(old(messages)@),
                self.keep as nat,
            ),
    {
        if messages.len() == 0 || messages.len() - 1 <= self.keep {
            return;
        }
        if self.keep == 0 {
            messages.truncate(1);
        } else {
            let start = self.window(messages);
            let mut window = messages.split_off(start);
            messages.truncate(1);
            messages.append(&mut window);
        }
        assert(crate::messages_view(messages@) == trimmed_to(
            crate::messages_view(old(messages)@),
            self.keep as nat,
        ));
    }
}

// --------------------------------------------------------------------- laws

/// Trimming never separates a tool call from its result: a paired conversation
/// stays paired. (The first message is kept by itself, so it must not be a turn
/// with tool calls.)
pub proof fn trimming_keeps_calls_and_results_paired(messages: Seq<MessageView>, keep: nat)
    requires
        crate::laws::paired(messages),
        trimmable(messages, keep),
        messages.len() > 0 && messages[0] is Assistant ==> messages[0]->calls.len() == 0,
    ensures
        crate::laws::paired(trimmed_to(messages, keep)),
{
    if messages.len() > keep + 1 && keep == 0 {
        let after = trimmed_to(messages, keep);
        assert(crate::laws::paired_at(messages, 0));
        assert forall|i: int| 0 <= i < after.len() implies #[trigger] crate::laws::paired_at(after, i) by {
            assert(after[i] == messages[0]);
        }
    } else if messages.len() > keep + 1 {
        let start = window_start(messages, messages.len() - keep);
        lemma_window_start(messages, messages.len() - keep);
        let after = trimmed_to(messages, keep);
        assert(crate::laws::paired_at(messages, 0));
        assert forall|i: int| 0 <= i < after.len() implies #[trigger] crate::laws::paired_at(after, i) by {
            if i > 0 {
                assert(crate::laws::paired_at(messages, start + i - 1));
                assert(after[i] == messages[start + i - 1]);
                if i == 1 {
                    assert(!(messages[start] is Tools));
                } else {
                    assert(after[i - 1] == messages[start + i - 2]);
                }
            }
        }
    }
}

/// Trimming leaves every call answered, too. (Again the first message is kept by
/// itself.)
pub proof fn trimming_keeps_calls_answered(messages: Seq<MessageView>, keep: nat)
    requires
        crate::laws::calls_answered(messages),
        trimmable(messages, keep),
        messages.len() > 0 && messages[0] is Assistant ==> messages[0]->calls.len() == 0,
    ensures
        crate::laws::calls_answered(trimmed_to(messages, keep)),
{
    if messages.len() > keep + 1 {
        let after = trimmed_to(messages, keep);
        let start = window_start(messages, messages.len() - keep);
        if keep > 0 {
            lemma_window_start(messages, messages.len() - keep);
        }
        assert forall|i: int| 0 <= i < after.len() implies #[trigger] crate::laws::calls_answered_at(
            after,
            i,
        ) by {
            if i > 0 {
                assert(crate::laws::calls_answered_at(messages, start + i - 1));
                assert(after[i] == messages[start + i - 1]);
                if i + 1 < after.len() {
                    assert(after[i + 1] == messages[start + i]);
                }
            }
        }
    }
}

/// A conversation in which calls and results are paired can always be trimmed.
pub proof fn paired_conversations_can_be_trimmed(messages: Seq<MessageView>, keep: nat)
    requires
        crate::laws::paired(messages),
    ensures
        trimmable(messages, keep),
{
    if messages.len() > keep + 1 && keep > 0 {
        let at = messages.len() - keep;
        assert(crate::laws::paired_at(messages, at));
        if messages[at] is Tools {
            assert(messages[at - 1] is Assistant);
            assert(window_start(messages, at - 1) == at - 1);
        }
    }
}

/// The first message and the last `keep` messages always survive, in order.
pub proof fn trimming_keeps_the_first_and_the_last(messages: Seq<MessageView>, keep: nat)
    requires
        trimmable(messages, keep),
        messages.len() > keep,
    ensures
        trimmed_to(messages, keep).len() > keep,
        trimmed_to(messages, keep)[0] == messages[0],
        trimmed_to(messages, keep).skip(trimmed_to(messages, keep).len() - keep) == messages.skip(
            messages.len() - keep,
        ),
{
    if messages.len() > keep + 1 && keep == 0 {
        assert(trimmed_to(messages, keep).skip(1) == messages.skip(messages.len() as int));
    } else if messages.len() > keep + 1 {
        lemma_window_start(messages, messages.len() - keep);
        assert(trimmed_to(messages, keep).skip(trimmed_to(messages, keep).len() - keep)
            == messages.skip(messages.len() - keep));
    }
}

/// A conversation that is short enough is left alone.
pub proof fn short_conversations_are_left_alone(messages: Seq<MessageView>, keep: nat)
    requires
        messages.len() <= keep + 1,
    ensures
        trimmable(messages, keep),
        trimmed_to(messages, keep) == messages,
{
}

/// Two conversations that agree up to a place have the same windows there, as
/// far as the second is the first with its middle cut out.
proof fn lemma_same_window(messages: Seq<MessageView>, start: int, at: int)
    requires
        0 < start <= at < messages.len(),
        !(messages[start] is Tools),
        forall|i: int| start < i <= at ==> (#[trigger] messages[i]) is Tools,
    ensures
        window_start(seq![messages[0]] + messages.skip(start), at - start + 1) == 1,
    decreases at,
{
    let after = seq![messages[0]] + messages.skip(start);
    assert(after[at - start + 1] == messages[at]);
    if start < at {
        lemma_same_window(messages, start, at - 1);
    }
}

/// Trimming twice is trimming once.
pub proof fn trimming_twice_is_trimming_once(messages: Seq<MessageView>, keep: nat)
    requires
        trimmable(messages, keep),
    ensures
        trimmable(trimmed_to(messages, keep), keep),
        trimmed_to(trimmed_to(messages, keep), keep) == trimmed_to(messages, keep),
{
    if messages.len() > keep + 1 && keep > 0 {
        let at = messages.len() - keep;
        let start = window_start(messages, at);
        lemma_window_start(messages, at);
        let after = trimmed_to(messages, keep);
        if after.len() > keep + 1 {
            lemma_same_window(messages, start, at);
            assert(after.len() - keep == at - start + 1);
            assert(seq![after[0]] + after.skip(1) == after);
        }
    }
}

/// What is left of a conversation that is too long: its first message, and its end
/// from one place on. That place is the one that leaves `keep` messages, unless
/// tool results stand there; then it is the last one before it where none do.
pub proof fn trimming_leaves_the_first_and_the_end(messages: Seq<MessageView>, keep: nat)
    requires
        messages.len() > keep + 1,
        keep > 0,
        trimmable(messages, keep),
    ensures
        exists|start: int|
            #![trigger messages.skip(start)]
            0 < start <= messages.len() - keep && trimmed_to(messages, keep) == seq![messages[0]]
                + messages.skip(start) && !(messages[start] is Tools) && forall|i: int|
                start < i <= messages.len() - keep ==> (#[trigger] messages[i]) is Tools,
{
    let start = window_start(messages, messages.len() - keep);
    lemma_window_start(messages, messages.len() - keep);
    assert(trimmed_to(messages, keep) == seq![messages[0]] + messages.skip(start));
}

/// Keeping none leaves the first message only.
pub proof fn keeping_none_leaves_the_first_only(messages: Seq<MessageView>)
    requires
        messages.len() > 0,
    ensures
        trimmed_to(messages, 0) == seq![messages[0]],
{
    assert(messages.len() == 1 ==> messages == seq![messages[0]]);
}

/// A conversation can be trimmed unless only tool results stand behind its first
/// message, up to where the window is to begin.
pub proof fn what_can_be_trimmed(messages: Seq<MessageView>, keep: nat)
    requires
        messages.len() > keep + 1,
        keep > 0,
    ensures
        trimmable(messages, keep) <==> exists|i: int|
            0 < i <= messages.len() - keep && !((#[trigger] messages[i]) is Tools),
{
    let start = window_start(messages, messages.len() - keep);
    lemma_window_start(messages, messages.len() - keep);
    if start > 0 {
        assert(!(messages[start] is Tools));
    }
}

/// A conversation that is to lose everything but its first message can be trimmed.
pub proof fn keeping_none_is_always_possible(messages: Seq<MessageView>)
    ensures
        trimmable(messages, 0),
{
}

} // verus!
