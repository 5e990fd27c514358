//! Session-level decisions of the agent loop: merging streamed content deltas,
//! finalizing the assistant message, validating hook replacements of a final
//! message, and recognising slash commands.

use vstd::prelude::*;
use crate::message::{
    join_seq, join_text, text_parts, AssistantMessage, Message, MessageContent, StopReason, Usage,
    UserMessage,
};
use crate::event::{AgentEvent, MessageDelta};
use crate::hooks::{ProviderEvent, ToolCallOutcome};
use crate::text::{
    chars_of, first_whitespace, is_whitespace, lemma_first_whitespace, push_str, slice_chars,
    spec_is_whitespace, string_from_chars, trim_start_chars, trim_start_seq,
};

verus! {

#[derive(Clone, Copy, Debug, PartialEq, Eq, Structural)]
pub enum SessionStatus {
    Idle,
    Running,
    Fatal,
    Closed,
}

#[verifier::external_type_specification]
#[verifier::external_body]
pub struct ExPathBuf(std::path::PathBuf);

#[derive(Debug)]
pub struct SessionMetadata {
    pub session_id: String,
    pub path: std::path::PathBuf,
    pub cwd: std::path::PathBuf,
}

/// A read-only view of a session: identity, history and status.
pub trait SessionView {
    fn metadata(&self) -> SessionMetadata;
    fn messages(&self) -> Vec<Message>;
    fn status(&self) -> SessionStatus;
}

/// A content block under construction, keyed by its block index.
pub type Block = (usize, MessageContent);

/// Block indices strictly increase, as in an ordered map.
pub open spec fn blocks_sorted(b: Seq<Block>) -> bool {
    forall|i: int, j: int| 0 <= i < j < b.len() ==> #[trigger] b[i].0 < #[trigger] b[j].0
}

/// Number of blocks whose index is below `index` (the position `index` has or would take).
pub open spec fn key_position(b: Seq<Block>, index: usize) -> int
    decreases b.len(),
{
    if b.len() == 0 {
        0
    } else if b[0].0 < index {
        1 + key_position(b.drop_first(), index)
    } else {
        0
    }
}

proof fn lemma_key_position(b: Seq<Block>, index: usize, k: int)
    requires
        0 <= k <= b.len(),
        forall|j: int| 0 <= j < k ==> #[trigger] b[j].0 < index,
        k == b.len() || b[k].0 >= index,
    ensures
        key_position(b, index) == k,
    decreases k,
{
    if k > 0 {
        let t = b.drop_first();
        assert forall|j: int| 0 <= j < k - 1 implies #[trigger] t[j].0 < index by {
            assert(t[j] == b[j + 1]);
        }
        assert(k - 1 == t.len() || t[k - 1] == b[k]);
        lemma_key_position(t, index, k - 1);
    }
}

/// `new` is `old` extended by the streamed `delta`: text and thinking blocks
/// grow by the delta's text; any other pairing is replaced by the delta.
pub open spec fn merged_block(old: MessageContent, delta: MessageContent, new: MessageContent) -> bool {
    match (old, delta) {
        (MessageContent::Text { text: t }, MessageContent::Text { text: d }) => {
            &&& new is Text
            &&& new->Text_text@ == t@ + d@
        },
        (MessageContent::Thinking { thinking: t, signature }, MessageContent::Thinking { thinking: d, .. }) => {
            &&& new is Thinking
            &&& new->Thinking_thinking@ == t@ + d@
            &&& new->Thinking_signature == signature
        },
        _ => new == delta,
    }
}

/// What `merge_delta` leaves: the block at `index` merged with `delta`, or
/// `delta` inserted at its ordered position when there was no such block.
pub open spec fn merge_delta_post(old: Seq<Block>, index: usize, delta: MessageContent, new: Seq<Block>) -> bool {
    let p = key_position(old, index);
    if p < old.len() && old[p].0 == index {
        &&& new.len() == old.len()
        &&& forall|j: int| 0 <= j < old.len() && j != p ==> new[j] == old[j]
        &&& new[p].0 == index
        &&& merged_block(old[p].1, delta, new[p].1)
    } else {
        new == old.insert(p, (index, delta))
    }
}

/// Merge one streamed content delta into the blocks of the message being built.
pub fn merge_delta(blocks: &mut Vec<Block>, index: usize, delta: MessageContent)
    requires
        blocks_sorted(old(blocks)@),
    ensures
        blocks_sorted(final(blocks)@),
        merge_delta_post(old(blocks)@, index, delta, final(blocks)@),
{
    let ghost b0 = blocks@;
    let mut i: usize = 0;
    while i < blocks.len() && blocks[i].0 < index
        invariant
            i <= blocks@.len(),
            blocks@ == b0,
            forall|j: int| 0 <= j < i ==> #[trigger] blocks@[j].0 < index,
        decreases blocks@.len() - i,
    {
        i += 1;
    }
    proof {
        lemma_key_position(b0, index, i as int);
    }
    if i < blocks.len() && blocks[i].0 == index {
        let merged = match (&blocks[i].1, delta) {
            (MessageContent::Text { text }, MessageContent::Text { text: d }) => {
                let mut t = text.clone();
                push_str(&mut t, d.as_str());
                MessageContent::Text { text: t }
            },
            (MessageContent::Thinking { thinking, signature }, MessageContent::Thinking { thinking: d, .. }) => {
                let mut t = thinking.clone();
                push_str(&mut t, d.as_str());
                MessageContent::Thinking { thinking: t, signature: signature.clone() }
            },
            (_, d) => d,
        };
        blocks.set(i, (index, merged));
    } else {
        blocks.insert(i, (index, delta));
        proof {
            assert forall|a: int, c: int| 0 <= a < c < blocks@.len() implies #[trigger] blocks@[a].0
                < #[trigger] blocks@[c].0 by {
                if c < i {
                } else if a < i && c == i {
                } else if a < i {
                    assert(blocks@[c] == b0[c - 1]);
                } else if a == i {
                    assert(blocks@[c] == b0[c - 1]);
                } else {
                    assert(blocks@[c] == b0[c - 1]);
                    assert(blocks@[a] == b0[a - 1]);
                }
            }
        }
    }
}

pub open spec fn block_values(b: Seq<Block>) -> Seq<MessageContent> {
    b.map_values(|e: Block| e.1)
}

pub open spec fn has_tool_use(content: Seq<MessageContent>) -> bool {
    exists|i: int| 0 <= i < content.len() && (#[trigger] content[i]) is ToolUse
}

proof fn lemma_has_tool_use_push(s: Seq<MessageContent>, c: MessageContent)
    ensures
        has_tool_use(s.push(c)) == (has_tool_use(s) || c is ToolUse),
{
    let t = s.push(c);
    if has_tool_use(s) {
        let j = choose|j: int| 0 <= j < s.len() && (#[trigger] s[j]) is ToolUse;
        assert(t[j] == s[j]);
    }
    if c is ToolUse {
        assert(t[s.len() as int] == c);
    }
    if has_tool_use(t) {
        let j = choose|j: int| 0 <= j < t.len() && (#[trigger] t[j]) is ToolUse;
        if j < s.len() {
            assert(t[j] == s[j]);
        }
    }
}

pub open spec fn is_terminal_failure(reason: StopReason) -> bool {
    reason == StopReason::Error || reason == StopReason::Aborted
}

/// The stop reason a finished stream is recorded with: a response that asks
/// for tools continues the loop unless the provider failed or was aborted.
pub open spec fn final_stop_reason(content: Seq<MessageContent>, reason: StopReason) -> StopReason {
    if has_tool_use(content) && !is_terminal_failure(reason) {
        StopReason::ToolUse
    } else {
        reason
    }
}

/// The assistant message that ends one provider stream.
pub fn finalize_assistant(
    blocks: Vec<Block>,
    stop_reason: StopReason,
    usage: Option<Usage>,
    error_message: Option<String>,
    terminal: bool,
) -> (r: AssistantMessage)
    ensures
        r.content@ == block_values(blocks@),
        r.stop_reason == final_stop_reason(block_values(blocks@), stop_reason),
        r.usage == usage,
        terminal ==> r.error_message == error_message,
        !terminal ==> (r.error_message matches Some(m)
            && m@ == "provider stream ended without a terminal event"@),
{
    let ghost b0 = blocks@;
    let mut content: Vec<MessageContent> = Vec::new();
    let mut tool_use = false;
    let mut blocks = blocks;
    let mut rest: Vec<MessageContent> = Vec::new();
    let n = blocks.len();
    // Take the blocks out from the back, then restore their order.
    while blocks.len() > 0
        invariant
            blocks@.len() + rest@.len() == n,
            n == b0.len(),
            blocks@ == b0.take(blocks@.len() as int),
            forall|j: int| 0 <= j < rest@.len() ==> #[trigger] rest@[j] == b0[n - 1 - j].1,
        decreases blocks@.len(),
    {
        let (_, c) = blocks.pop().unwrap();
        rest.push(c);
        assert(b0.take(blocks@.len() as int) =~= b0.take(blocks@.len() + 1int).drop_last());
    }
    while rest.len() > 0
        invariant
            content@.len() + rest@.len() == n,
            n == b0.len(),
            forall|j: int| 0 <= j < rest@.len() ==> #[trigger] rest@[j] == b0[n - 1 - j].1,
            forall|j: int| 0 <= j < content@.len() ==> #[trigger] content@[j] == b0[j].1,
            tool_use == has_tool_use(content@),
        decreases rest@.len(),
    {
        let c = rest.pop().unwrap();
        let ghost before = content@;
        let is_tool = match &c {
            MessageContent::ToolUse { .. } => true,
            _ => false,
        };
        content.push(c);
        proof {
            lemma_has_tool_use_push(before, c);
        }
        tool_use = tool_use || is_tool;
    }
    assert(content@ =~= block_values(b0));
    let stop_reason = if tool_use && !(stop_reason == StopReason::Error || stop_reason == StopReason::Aborted) {
        StopReason::ToolUse
    } else {
        stop_reason
    };
    let error_message = if terminal {
        error_message
    } else {
        Some("provider stream ended without a terminal event".to_owned())
    };
    AssistantMessage { content, stop_reason, usage, error_message }
}

pub open spec fn spec_role(m: Message) -> Seq<char> {
    match m {
        Message::User(_) => "user"@,
        Message::Assistant(_) => "assistant"@,
        Message::ToolResult(_) => "tool_result"@,
    }
}

pub open spec fn same_role(a: Message, b: Message) -> bool {
    (a is User && b is User) || (a is Assistant && b is Assistant) || (a is ToolResult && b is ToolResult)
}

/// The wire name of a message's role.
pub fn role(message: &Message) -> (r: &'static str)
    ensures
        r@ == spec_role(*message),
{
    match message {
        Message::User(_) => "user",
        Message::Assistant(_) => "assistant",
        Message::ToolResult(_) => "tool_result",
    }
}

/// Why a hook's replacement `message` of the finalized `original` is refused, if it is.
pub open spec fn final_message_error(original: Message, message: Message) -> Option<Seq<char>> {
    if !same_role(original, message) {
        Some("message role cannot change"@)
    } else {
        match message {
            Message::User(u) => if u.content@.len() == 0 {
                Some("user content cannot be empty"@)
            } else {
                None
            },
            Message::Assistant(a) => if original matches Message::Assistant(o) && is_terminal_failure(
                o.stop_reason,
            ) && a.stop_reason != o.stop_reason {
                Some("assistant terminal stop reason cannot change"@)
            } else if a.stop_reason == StopReason::Error && (a.error_message is None
                || a.error_message->0@.len() == 0) {
                Some("error assistant requires error_message"@)
            } else {
                None
            },
            Message::ToolResult(t) => if t.tool_use_id@.len() == 0 || t.content@.len() == 0 {
                Some("tool result requires id and content"@)
            } else {
                None
            },
        }
    }
}

/// Check a hook's replacement of a message about to be persisted: the role is
/// fixed, a failed or aborted assistant keeps its stop reason, and the result
/// must carry what its role requires.
pub fn validate_final_message(original: &Message, message: &Message) -> (r: Result<(), String>)
    ensures
        r is Ok <==> final_message_error(*original, *message) is None,
        r matches Err(e) ==> final_message_error(*original, *message) == Some(e@),
{
    let same = match (original, message) {
        (Message::User(_), Message::User(_)) => true,
        (Message::Assistant(_), Message::Assistant(_)) => true,
        (Message::ToolResult(_), Message::ToolResult(_)) => true,
        _ => false,
    };
    if !same {
        return Err("message role cannot change".to_owned());
    }
    match message {
        Message::User(u) => {
            if u.content.len() == 0 {
                return Err("user content cannot be empty".to_owned());
            }
        },
        Message::Assistant(a) => {
            if let Message::Assistant(o) = original {
                if (o.stop_reason == StopReason::Error || o.stop_reason == StopReason::Aborted)
                    && a.stop_reason != o.stop_reason {
                    return Err("assistant terminal stop reason cannot change".to_owned());
                }
            }
            if a.stop_reason == StopReason::Error {
                let missing = match &a.error_message {
                    None => true,
                    Some(m) => m.as_str().is_empty(),
                };
                if missing {
                    return Err("error assistant requires error_message".to_owned());
                }
            }
        },
        Message::ToolResult(t) => {
            if t.tool_use_id.as_str().is_empty() || t.content.len() == 0 {
                return Err("tool result requires id and content".to_owned());
            }
        },
    }
    Ok(())
}

/// The text of a user message: its text blocks joined by newlines.
pub fn message_text(message: &UserMessage) -> (r: String)
    ensures
        r@ == join_seq(text_parts(message.content@), seq!['\n']),
{
    let r = join_text(message.content.as_slice(), "\n");
    proof {
        reveal_strlit("\n");
        assert("\n"@ =~= seq!['\n']);
    }
    r
}

/// The text blocks of `content`, concatenated.
pub fn message_text_content(content: &[MessageContent]) -> (r: String)
    ensures
        r@ == join_seq(text_parts(content@), Seq::<char>::empty()),
{
    let r = join_text(content, "");
    proof {
        reveal_strlit("");
    }
    assert(""@ =~= Seq::<char>::empty());
    r
}

/// A slash command: after leading white space, `/name` up to the first white
/// space, then the arguments with their leading white space removed.
pub open spec fn spec_parse_command(input: Seq<char>) -> Option<(Seq<char>, Seq<char>)> {
    let t = trim_start_seq(input);
    if t.len() == 0 || t[0] != '/' {
        None
    } else {
        let c = t.drop_first();
        let split = first_whitespace(c);
        Some((c.take(split), trim_start_seq(c.skip(split))))
    }
}

/// Recognise `/name args` in a prompt.
pub fn parse_command(input: &str) -> (r: Option<(String, String)>)
    ensures
        r is Some <==> spec_parse_command(input@) is Some,
        r matches Some((name, args)) ==> spec_parse_command(input@) == Some((name@, args@)),
{
    let chars = chars_of(input);
    let t = trim_start_chars(&chars);
    if t.len() == 0 || t[0] != '/' {
        return None;
    }
    let c = slice_chars(&t, 1, t.len());
    assert(c@ =~= t@.drop_first());
    let mut split: usize = 0;
    while split < c.len() && !is_whitespace(c[split])
        invariant
            split <= c@.len(),
            forall|j: int| 0 <= j < split ==> !spec_is_whitespace(#[trigger] c@[j]),
        decreases c@.len() - split,
    {
        split += 1;
    }
    proof {
        lemma_first_whitespace(c@, split as int);
    }
    let name = slice_chars(&c, 0, split);
    let rest = slice_chars(&c, split, c.len());
    let args = trim_start_chars(&rest);
    assert(name@ =~= c@.take(split as int));
    assert(rest@ =~= c@.skip(split as int));
    Some((string_from_chars(name.as_slice()), string_from_chars(args.as_slice())))
}

/// The update published for one streamed content delta.
pub open spec fn delta_of(c: MessageContent) -> MessageDelta {
    match c {
        MessageContent::Text { text } => MessageDelta::Text(text),
        MessageContent::Thinking { thinking, .. } => MessageDelta::Thinking(thinking),
        MessageContent::ToolUse { input, .. } => MessageDelta::ToolCallInput(input),
    }
}

/// One provider stream being read into an assistant message.
pub struct StreamState {
    pub blocks: Vec<Block>,
    pub usage: Option<Usage>,
    pub stop_reason: StopReason,
    pub error_message: Option<String>,
    /// Whether the stream said how it ended.
    pub terminal: bool,
}

/// What follows one stream event: an update to publish, nothing, or the end
/// of the stream.
#[derive(Debug)]
pub enum StreamStep {
    Publish { block_index: usize, delta: MessageDelta },
    Continue,
    Finish,
}

impl StreamState {
    /// No blocks yet; a stream that ends without saying how counts as an error.
    pub fn new() -> (r: Self)
        ensures
            r.blocks@ == Seq::<Block>::empty(),
            r.usage is None,
            r.stop_reason == StopReason::Error,
            r.error_message is None,
            !r.terminal,
    {
        StreamState {
            blocks: Vec::new(),
            usage: None,
            stop_reason: StopReason::Error,
            error_message: None,
            terminal: false,
        }
    }

    /// Reads one provider event: content is merged and published, usage is
    /// kept, and an end, an error or an abort finishes the stream.
    pub fn on_event(&mut self, event: ProviderEvent) -> (r: StreamStep)
        requires
            blocks_sorted(old(self).blocks@),
        ensures
            blocks_sorted(final(self).blocks@),
            match event {
                ProviderEvent::ContentDelta { block_index, delta } => {
                    &&& merge_delta_post(old(self).blocks@, block_index, delta, final(self).blocks@)
                    &&& r == (StreamStep::Publish { block_index, delta: delta_of(delta) })
                    &&& final(self).usage == old(self).usage
                    &&& final(self).stop_reason == old(self).stop_reason
                    &&& final(self).error_message == old(self).error_message
                    &&& final(self).terminal == old(self).terminal
                },
                ProviderEvent::Usage(u) => {
                    &&& r is Continue
                    &&& final(self).blocks@ == old(self).blocks@
                    &&& final(self).usage == Some(u)
                    &&& final(self).stop_reason == old(self).stop_reason
                    &&& final(self).error_message == old(self).error_message
                    &&& final(self).terminal == old(self).terminal
                },
                ProviderEvent::Done(reason) => {
                    &&& r is Finish
                    &&& final(self).blocks@ == old(self).blocks@
                    &&& final(self).usage == old(self).usage
                    &&& final(self).stop_reason == reason
                    &&& final(self).error_message == old(self).error_message
                    &&& final(self).terminal
                },
                ProviderEvent::Error(e) => {
                    &&& r is Finish
                    &&& final(self).blocks@ == old(self).blocks@
                    &&& final(self).usage == old(self).usage
                    &&& final(self).stop_reason == StopReason::Error
                    &&& final(self).error_message == Some(e)
                    &&& final(self).terminal
                },
                ProviderEvent::Aborted => {
                    &&& r is Finish
                    &&& final(self).blocks@ == old(self).blocks@
                    &&& final(self).usage == old(self).usage
                    &&& final(self).stop_reason == StopReason::Aborted
                    &&& final(self).error_message == old(self).error_message
                    &&& final(self).terminal
                },
            },
    {
        match event {
            ProviderEvent::ContentDelta { block_index, delta } => {
                let published = match &delta {
                    MessageContent::Text { text } => MessageDelta::Text(text.clone()),
                    MessageContent::Thinking { thinking, .. } => MessageDelta::Thinking(thinking.clone()),
                    MessageContent::ToolUse { input, .. } => MessageDelta::ToolCallInput(input.clone()),
                };
                merge_delta(&mut self.blocks, block_index, delta);
                StreamStep::Publish { block_index, delta: published }
            },
            ProviderEvent::Usage(u) => {
                self.usage = Some(u);
                StreamStep::Continue
            },
            ProviderEvent::Done(reason) => {
                self.stop_reason = reason;
                self.terminal = true;
                StreamStep::Finish
            },
            ProviderEvent::Error(e) => {
                self.stop_reason = StopReason::Error;
                self.error_message = Some(e);
                self.terminal = true;
                StreamStep::Finish
            },
            ProviderEvent::Aborted => {
                self.stop_reason = StopReason::Aborted;
                self.terminal = true;
                StreamStep::Finish
            },
        }
    }

    /// The run was cancelled while the stream was read or awaited.
    pub fn cancel(&mut self)
        ensures
            final(self).blocks@ == old(self).blocks@,
            final(self).usage == old(self).usage,
            final(self).stop_reason == StopReason::Aborted,
            final(self).error_message == old(self).error_message,
            final(self).terminal,
    {
        self.stop_reason = StopReason::Aborted;
        self.terminal = true;
    }

    /// The provider could not start the stream.
    pub fn fail_to_start(&mut self, error: String)
        ensures
            final(self).blocks@ == old(self).blocks@,
            final(self).usage == old(self).usage,
            final(self).stop_reason == old(self).stop_reason,
            final(self).error_message == Some(error),
            final(self).terminal,
    {
        self.error_message = Some(error);
        self.terminal = true;
    }

    /// The assistant message the stream produced.
    pub fn finish(self) -> (r: AssistantMessage)
        ensures
            r.content@ == block_values(self.blocks@),
            r.stop_reason == final_stop_reason(block_values(self.blocks@), self.stop_reason),
            r.usage == self.usage,
            self.terminal ==> r.error_message == self.error_message,
            !self.terminal ==> (r.error_message matches Some(m)
                && m@ == "provider stream ended without a terminal event"@),
    {
        finalize_assistant(self.blocks, self.stop_reason, self.usage, self.error_message, self.terminal)
    }
}

/// Whether a tool call may run: a hook's block wins, then a failed
/// validation; the error is what the tool result reports.
pub fn tool_call_verdict(outcome: ToolCallOutcome, validation: Result<(), String>) -> (r: Result<(), String>)
    ensures
        match outcome {
            ToolCallOutcome::Block(reason) => r == Err::<(), String>(reason),
            ToolCallOutcome::Continue => r == validation,
        },
{
    match outcome {
        ToolCallOutcome::Block(reason) => Err(reason),
        ToolCallOutcome::Continue => validation,
    }
}

/// The tool result message for a call's outcome: the tool's content, or its
/// error as the text the model sees.
pub fn tool_result_message(id: String, custom: bool, result: Result<crate::message::ToolOutput, String>) -> (r: crate::message::ToolResultMessage)
    ensures
        r.tool_use_id == id,
        r.custom == custom,
        match result {
            Ok(output) => r.content@ == output.content@ && !r.is_error,
            Err(e) => r.content@ == seq![MessageContent::Text { text: e }] && r.is_error,
        },
{
    match result {
        Ok(output) => crate::message::ToolResultMessage { tool_use_id: id, content: output.content, is_error: false, custom },
        Err(e) => {
            let m = crate::message::ToolResultMessage::error(id, e);
            crate::message::ToolResultMessage { custom, ..m }
        },
    }
}

/// The part of a turn a message belongs to.
#[derive(Debug)]
pub enum TurnPart {
    User,
    /// A message a hook added, numbered by the history's length.
    Injected(usize),
    Assistant,
    /// The result of the tool call with this id.
    Tool(String),
    Steer,
}

pub open spec fn part_text(part: TurnPart) -> Seq<char> {
    match part {
        TurnPart::User => "user"@,
        TurnPart::Injected(n) => "injected:"@ + crate::text::decimal(n as nat),
        TurnPart::Assistant => "assistant"@,
        TurnPart::Tool(id) => "tool:"@ + id@,
        TurnPart::Steer => "steer"@,
    }
}

/// `run:turn:part`, the id under which a message of a turn is published and
/// stored.
pub open spec fn spec_message_id(run_id: usize, turn_index: usize, part: TurnPart) -> Seq<char> {
    crate::text::decimal(run_id as nat) + ":"@ + crate::text::decimal(turn_index as nat) + ":"@
        + part_text(part)
}

pub fn message_id(run_id: usize, turn_index: usize, part: TurnPart) -> (r: String)
    ensures
        r@ == spec_message_id(run_id, turn_index, part),
{
    let mut r = crate::text::usize_to_decimal(run_id);
    push_str(&mut r, ":");
    push_str(&mut r, crate::text::usize_to_decimal(turn_index).as_str());
    push_str(&mut r, ":");
    match &part {
        TurnPart::User => push_str(&mut r, "user"),
        TurnPart::Injected(n) => {
            push_str(&mut r, "injected:");
            push_str(&mut r, crate::text::usize_to_decimal(*n).as_str());
        },
        TurnPart::Assistant => push_str(&mut r, "assistant"),
        TurnPart::Tool(id) => {
            push_str(&mut r, "tool:");
            push_str(&mut r, id.as_str());
        },
        TurnPart::Steer => push_str(&mut r, "steer"),
    }
    assert(r@ =~= spec_message_id(run_id, turn_index, part));
    r
}

/// One line of a stored session: a message, or an extension's custom entry.
#[derive(Debug)]
pub enum SessionEntry {
    Message { message: Message },
    Custom { custom_type: String, data: crate::json::JsonValue },
}

/// The status a goal-state entry records: `data.goal.status`.
pub open spec fn goal_status(data: crate::json::JsonValue) -> Option<Seq<char>> {
    match crate::json::field(data, "goal"@) {
        Some(goal) => crate::json::str_field(goal, "status"@),
        None => None,
    }
}

/// Whether the last goal-state entry records an active goal.
pub open spec fn spec_goal_active(entries: Seq<SessionEntry>) -> bool
    decreases entries.len(),
{
    if entries.len() == 0 {
        false
    } else {
        match entries.last() {
            SessionEntry::Custom { custom_type, data } if custom_type@ == "goal-state"@ => goal_status(
                data,
            ) == Some("active"@),
            _ => spec_goal_active(entries.drop_last()),
        }
    }
}

/// Whether the last goal-state entry records an active goal.
pub fn goal_active(entries: &[SessionEntry]) -> (r: bool)
    ensures
        r == spec_goal_active(entries@),
{
    let mut i = entries.len();
    assert(entries@.take(entries@.len() as int) =~= entries@);
    while i > 0
        invariant
            i <= entries@.len(),
            spec_goal_active(entries@) == spec_goal_active(entries@.take(i as int)),
        decreases i,
    {
        assert(entries@.take(i as int).drop_last() =~= entries@.take(i - 1));
        assert(entries@.take(i as int).last() == entries@[i - 1]);
        match &entries[i - 1] {
            SessionEntry::Custom { custom_type, data } => {
                if crate::json::text_eq(custom_type.as_str(), "goal-state") {
                    let status = match data.get("goal") {
                        Some(goal) => match goal.get_str("status") {
                            Some(s) => crate::json::text_eq(s.as_str(), "active"),
                            None => false,
                        },
                        None => false,
                    };
                    return status;
                }
            },
            _ => {},
        }
        i -= 1;
    }
    assert(entries@.take(0) =~= Seq::<SessionEntry>::empty());
    false
}

/// A restored message stays in the history: while a goal is active, calls
/// to tools and their results are left out, to be redone.
pub open spec fn kept(m: Message, goal_active: bool) -> bool {
    !goal_active || match m {
        Message::Assistant(a) => !has_tool_use(a.content@),
        Message::ToolResult(_) => false,
        Message::User(_) => true,
    }
}

/// The indices of the message entries that stay in the restored history.
pub open spec fn kept_indices(entries: Seq<SessionEntry>, active: bool) -> Seq<usize>
    decreases entries.len(),
{
    if entries.len() == 0 {
        seq![]
    } else {
        let rest = kept_indices(entries.drop_last(), active);
        match entries.last() {
            SessionEntry::Message { message } => if kept(message, active) {
                rest.push((entries.len() - 1) as usize)
            } else {
                rest
            },
            _ => rest,
        }
    }
}

fn has_tool_use_in(content: &Vec<MessageContent>) -> (r: bool)
    ensures
        r == has_tool_use(content@),
{
    let mut i: usize = 0;
    while i < content.len()
        invariant
            i <= content@.len(),
            forall|j: int| 0 <= j < i ==> !(#[trigger] content@[j] is ToolUse),
        decreases content@.len() - i,
    {
        match &content[i] {
            MessageContent::ToolUse { .. } => {
                assert(content@[i as int] is ToolUse);
                return true;
            },
            _ => {},
        }
        i += 1;
    }
    false
}

/// Which stored messages a resumed session keeps, as indices into `entries`.
pub fn restored_messages(entries: &[SessionEntry]) -> (r: Vec<usize>)
    ensures
        r@ == kept_indices(entries@, spec_goal_active(entries@)),
{
    let active = goal_active(entries);
    let mut r: Vec<usize> = Vec::new();
    let mut i: usize = 0;
    while i < entries.len()
        invariant
            i <= entries@.len(),
            active == spec_goal_active(entries@),
            r@ == kept_indices(entries@.take(i as int), active),
        decreases entries@.len() - i,
    {
        assert(entries@.take(i + 1).drop_last() =~= entries@.take(i as int));
        assert(entries@.take(i + 1).last() == entries@[i as int]);
        match &entries[i] {
            SessionEntry::Message { message } => {
                let keep = !active || match message {
                    Message::Assistant(a) => !has_tool_use_in(&a.content),
                    Message::ToolResult(_) => false,
                    Message::User(_) => true,
                };
                if keep {
                    r.push(i);
                }
            },
            _ => {},
        }
        i += 1;
    }
    assert(entries@.take(entries@.len() as int) =~= entries@);
    r
}

/// The ids of the results among `ms`.
pub open spec fn answered(ms: Seq<Message>) -> Seq<Seq<char>>
    decreases ms.len(),
{
    if ms.len() == 0 {
        seq![]
    } else {
        let rest = answered(ms.drop_last());
        match ms.last() {
            Message::ToolResult(r) => rest.push(r.tool_use_id@),
            _ => rest,
        }
    }
}

/// The ids of the tool calls among `cs` that no result in `done` answers.
pub open spec fn open_calls(cs: Seq<MessageContent>, done: Seq<Seq<char>>) -> Seq<Seq<char>>
    decreases cs.len(),
{
    if cs.len() == 0 {
        seq![]
    } else {
        let rest = open_calls(cs.drop_last(), done);
        match cs.last() {
            MessageContent::ToolUse { id, .. } => if done.contains(id@) {
                rest
            } else {
                rest.push(id@)
            },
            _ => rest,
        }
    }
}

/// The calls of `ms` without a result among `all`, in order.
pub open spec fn dangling(ms: Seq<Message>, all: Seq<Message>) -> Seq<Seq<char>>
    decreases ms.len(),
{
    if ms.len() == 0 {
        seq![]
    } else {
        dangling(ms.drop_last(), all) + open_calls(crate::message::content_of(ms.last()), answered(all))
    }
}

fn contains_text(v: &Vec<String>, s: &str) -> (r: bool)
    ensures
        r == v@.map_values(|x: String| x@).contains(s@),
{
    let ghost vv = v@.map_values(|x: String| x@);
    let mut i: usize = 0;
    while i < v.len()
        invariant
            i <= v@.len(),
            vv == v@.map_values(|x: String| x@),
            forall|j: int| 0 <= j < i ==> vv[j] != s@,
        decreases v@.len() - i,
    {
        if crate::json::text_eq(v[i].as_str(), s) {
            assert(vv[i as int] == s@);
            return true;
        }
        i += 1;
    }
    false
}

/// The ids of the tool calls in `messages` that no result answers: each
/// gets an interruption result when a session is resumed.
pub fn interrupted_calls(messages: &[Message]) -> (r: Vec<String>)
    ensures
        r@.map_values(|s: String| s@) == dangling(messages@, messages@),
{
    let mut done: Vec<String> = Vec::new();
    let mut i: usize = 0;
    while i < messages.len()
        invariant
            i <= messages@.len(),
            done@.map_values(|s: String| s@) == answered(messages@.take(i as int)),
        decreases messages@.len() - i,
    {
        assert(messages@.take(i + 1).drop_last() =~= messages@.take(i as int));
        match &messages[i] {
            Message::ToolResult(result) => {
                let ghost before = done@;
                done.push(result.tool_use_id.clone());
                assert(done@.map_values(|s: String| s@) =~= before.map_values(|s: String| s@).push(
                    result.tool_use_id@,
                ));
            },
            _ => {},
        }
        i += 1;
    }
    assert(messages@.take(messages@.len() as int) =~= messages@);
    let ghost all = answered(messages@);
    let mut r: Vec<String> = Vec::new();
    let mut k: usize = 0;
    while k < messages.len()
        invariant
            k <= messages@.len(),
            done@.map_values(|s: String| s@) == all,
            all == answered(messages@),
            r@.map_values(|s: String| s@) == dangling(messages@.take(k as int), messages@),
        decreases messages@.len() - k,
    {
        assert(messages@.take(k + 1).drop_last() =~= messages@.take(k as int));
        let content = messages[k].content();
        let ghost base = r@.map_values(|s: String| s@);
        let mut j: usize = 0;
        while j < content.len()
            invariant
                j <= content@.len(),
                content@ == crate::message::content_of(messages@[k as int]),
                done@.map_values(|s: String| s@) == all,
                r@.map_values(|s: String| s@) == base + open_calls(content@.take(j as int), all),
            decreases content@.len() - j,
        {
            assert(content@.take(j + 1).drop_last() =~= content@.take(j as int));
            match &content[j] {
                MessageContent::ToolUse { id, .. } => {
                    if !contains_text(&done, id.as_str()) {
                        let ghost before = r@;
                        r.push(id.clone());
                        assert(r@.map_values(|s: String| s@) =~= before.map_values(|s: String| s@).push(id@));
                    }
                },
                _ => {},
            }
            j += 1;
        }
        assert(content@.take(content@.len() as int) =~= content@);
        k += 1;
    }
    assert(messages@.take(messages@.len() as int) =~= messages@);
    r
}

/// The data of the last goal-state entry, if any.
pub open spec fn last_goal(entries: Seq<SessionEntry>) -> Option<crate::json::JsonValue>
    decreases entries.len(),
{
    if entries.len() == 0 {
        None
    } else {
        match entries.last() {
            SessionEntry::Custom { custom_type, data } if custom_type@ == "goal-state"@ => Some(data),
            _ => last_goal(entries.drop_last()),
        }
    }
}

/// The text of `data.goal.<key>` when it is a string.
pub open spec fn goal_text(data: crate::json::JsonValue, key: Seq<char>) -> Option<Seq<char>> {
    match crate::json::field(data, "goal"@) {
        Some(goal) => crate::json::str_field(goal, key),
        None => None,
    }
}

/// The follow-up that resumes an active goal after a restart: the last
/// goal-state entry must be active and name the goal's id and objective.
pub open spec fn spec_resume_prompt(entries: Seq<SessionEntry>) -> Option<Seq<char>> {
    match last_goal(entries) {
        Some(data) => if goal_status(data) == Some("active"@) {
            match (goal_text(data, "id"@), goal_text(data, "text"@)) {
                (Some(id), Some(text)) => Some(
                    "Resume the active goal after process restart. Objective: "@ + text
                        + "\nUse the current goal_id "@ + id + " when completing it."@,
                ),
                _ => None,
            }
        } else {
            None
        },
        None => None,
    }
}

fn goal_field<'a>(data: &'a crate::json::JsonValue, key: &str) -> (r: Option<&'a String>)
    ensures
        crate::text::opt_string_view(
            match r {
                Some(s) => Some(*s),
                None => None,
            },
        ) == goal_text(*data, key@),
{
    match data.get("goal") {
        Some(goal) => goal.get_str(key),
        None => None,
    }
}

/// The follow-up a resumed session queues for its active goal, if any.
pub fn resume_prompt(entries: &[SessionEntry]) -> (r: Option<String>)
    ensures
        crate::text::opt_string_view(r) == spec_resume_prompt(entries@),
{
    let mut i = entries.len();
    assert(entries@.take(entries@.len() as int) =~= entries@);
    while i > 0
        invariant
            i <= entries@.len(),
            last_goal(entries@) == last_goal(entries@.take(i as int)),
        decreases i,
    {
        assert(entries@.take(i as int).drop_last() =~= entries@.take(i - 1));
        assert(entries@.take(i as int).last() == entries@[i - 1]);
        match &entries[i - 1] {
            SessionEntry::Custom { custom_type, data } => {
                if crate::json::text_eq(custom_type.as_str(), "goal-state") {
                    let active = match goal_field(data, "status") {
                        Some(s) => crate::json::text_eq(s.as_str(), "active"),
                        None => false,
                    };
                    if !active {
                        return None;
                    }
                    return match (goal_field(data, "id"), goal_field(data, "text")) {
                        (Some(id), Some(text)) => {
                            let mut r = String::new();
                            push_str(&mut r, "Resume the active goal after process restart. Objective: ");
                            push_str(&mut r, text.as_str());
                            push_str(&mut r, "\nUse the current goal_id ");
                            push_str(&mut r, id.as_str());
                            push_str(&mut r, " when completing it.");
                            Some(r)
                        },
                        _ => None,
                    };
                }
            },
            _ => {},
        }
        i -= 1;
    }
    assert(entries@.take(0) =~= Seq::<SessionEntry>::empty());
    None
}

/// What the host does for an extension's action: store a custom entry,
/// queue a user message, or both.
#[derive(Debug)]
pub enum HostWrite {
    AppendCustom { kind: String, data: crate::json::JsonValue },
    Enqueue(crate::queue::QueuedMessage),
}

/// A write as values: a custom entry's kind and data, or a queued message's
/// kind (steer or not) and text.
pub enum WriteView {
    Custom(Seq<char>, crate::json::JsonValue),
    Queue(bool, Seq<char>),
}

pub open spec fn write_view(w: HostWrite) -> WriteView {
    match w {
        HostWrite::AppendCustom { kind, data } => WriteView::Custom(kind@, data),
        HostWrite::Enqueue(q) => match q {
            crate::queue::QueuedMessage::Steer(m) => WriteView::Queue(true, crate::message::join_seq(
                crate::message::text_parts(m.content@),
                seq!['\n'],
            )),
            crate::queue::QueuedMessage::FollowUp(m) => WriteView::Queue(false, crate::message::join_seq(
                crate::message::text_parts(m.content@),
                seq!['\n'],
            )),
        },
    }
}

/// The writes an action asks for: an entry as it is; a user message queued
/// as a steer when so delivered, else as a follow-up; a custom message
/// stored under its `customType` (or `extension-message`) and, when it
/// triggers a turn, its `content` text queued the same way.
pub open spec fn action_writes(action: crate::hooks::HostAction) -> Seq<WriteView> {
    match action {
        crate::hooks::HostAction::AppendEntry { kind, data } => seq![WriteView::Custom(kind@, data)],
        crate::hooks::HostAction::SendUserMessage { text, deliver_as } => seq![
            WriteView::Queue(deliver_as@ == "steer"@, text@),
        ],
        crate::hooks::HostAction::SendMessage { message, deliver_as, trigger_turn } => {
            let kind = match crate::json::str_field(message, "customType"@) {
                Some(k) => k,
                None => "extension-message"@,
            };
            let stored = seq![WriteView::Custom(kind, message)];
            if trigger_turn {
                let text = match crate::json::str_field(message, "content"@) {
                    Some(t) => t,
                    None => seq![],
                };
                stored.push(WriteView::Queue(deliver_as@ == "steer"@, text))
            } else {
                stored
            }
        },
    }
}

fn queue_text(text: String, steer: bool) -> (r: HostWrite)
    ensures
        write_view(r) == WriteView::Queue(steer, text@),
{
    let m = UserMessage::text(text);
    proof {
        reveal_with_fuel(crate::message::text_parts, 2);
        reveal_with_fuel(crate::message::join_seq, 2);
    }
    if steer {
        HostWrite::Enqueue(crate::queue::QueuedMessage::Steer(m))
    } else {
        HostWrite::Enqueue(crate::queue::QueuedMessage::FollowUp(m))
    }
}

/// The writes the host carries out for one extension action.
pub fn host_action_writes(action: crate::hooks::HostAction) -> (r: Vec<HostWrite>)
    ensures
        r@.map_values(|w: HostWrite| write_view(w)) == action_writes(action),
{
    let ghost a = action;
    let mut r: Vec<HostWrite> = Vec::new();
    match action {
        crate::hooks::HostAction::AppendEntry { kind, data } => {
            r.push(HostWrite::AppendCustom { kind, data });
        },
        crate::hooks::HostAction::SendUserMessage { text, deliver_as } => {
            let steer = crate::json::text_eq(deliver_as.as_str(), "steer");
            r.push(queue_text(text, steer));
        },
        crate::hooks::HostAction::SendMessage { message, deliver_as, trigger_turn } => {
            let kind = match message.get_str("customType") {
                Some(k) => k.clone(),
                None => String::from_str("extension-message"),
            };
            let text = match message.get_str("content") {
                Some(t) => t.clone(),
                None => String::new(),
            };
            r.push(HostWrite::AppendCustom { kind, data: message });
            if trigger_turn {
                let steer = crate::json::text_eq(deliver_as.as_str(), "steer");
                r.push(queue_text(text, steer));
            }
        },
    }
    assert(r@.map_values(|w: HostWrite| write_view(w)) =~= action_writes(a));
    r
}

/// The system prompt of a run: the session's prompt, the time and the
/// directory, then each extension's prompt on a line of its own.
pub open spec fn spec_system_prompt(base: Seq<char>, now: Seq<char>, cwd: Seq<char>, extra: Seq<Seq<char>>) -> Seq<char>
    decreases extra.len(),
{
    if extra.len() == 0 {
        base + "\n当前时间为:"@ + now + "\n当前目录为:"@ + cwd
    } else {
        spec_system_prompt(base, now, cwd, extra.drop_last()) + seq!['\n'] + extra.last()
    }
}

pub fn build_system_prompt(base: &str, now: &str, cwd: &str, extra: &[String]) -> (r: String)
    ensures
        r@ == spec_system_prompt(base@, now@, cwd@, extra@.map_values(|s: String| s@)),
{
    let ghost ev = extra@.map_values(|s: String| s@);
    let mut r = String::new();
    push_str(&mut r, base);
    push_str(&mut r, "\n当前时间为:");
    push_str(&mut r, now);
    push_str(&mut r, "\n当前目录为:");
    push_str(&mut r, cwd);
    assert(ev.take(0) =~= Seq::<Seq<char>>::empty());
    let mut i: usize = 0;
    while i < extra.len()
        invariant
            i <= extra@.len(),
            ev == extra@.map_values(|s: String| s@),
            r@ == spec_system_prompt(base@, now@, cwd@, ev.take(i as int)),
        decreases extra@.len() - i,
    {
        assert(ev.take(i + 1).drop_last() =~= ev.take(i as int));
        assert(ev.take(i + 1).last() == extra@[i as int]@);
        crate::text::push_char(&mut r, '\n');
        push_str(&mut r, extra[i].as_str());
        i += 1;
    }
    assert(ev.take(extra@.len() as int) =~= ev);
    r
}


/// A tool call the model asked for, with what its result needs.
#[derive(Debug)]
pub struct ToolCallPlan {
    pub id: String,
    pub name: String,
    pub input: String,
    /// Whether it is a custom tool call rather than a function call.
    pub custom: bool,
}

impl ToolCallPlan {
    pub fn copy(&self) -> (r: Self)
        ensures
            r == *self,
    {
        ToolCallPlan { id: self.id.clone(), name: self.name.clone(), input: self.input.clone(), custom: self.custom }
    }
}

/// The tool calls among `content`, in order.
pub open spec fn tool_calls(content: Seq<MessageContent>) -> Seq<ToolCallPlan>
    decreases content.len(),
{
    if content.len() == 0 {
        seq![]
    } else {
        let rest = tool_calls(content.drop_last());
        match content.last() {
            MessageContent::ToolUse { id, name, input, custom, .. } => rest.push(
                ToolCallPlan { id, name, input, custom },
            ),
            _ => rest,
        }
    }
}

pub fn tool_calls_of(content: &[MessageContent]) -> (r: Vec<ToolCallPlan>)
    ensures
        r@ == tool_calls(content@),
{
    let mut r: Vec<ToolCallPlan> = Vec::new();
    let mut i: usize = 0;
    while i < content.len()
        invariant
            i <= content@.len(),
            r@ == tool_calls(content@.take(i as int)),
        decreases content@.len() - i,
    {
        assert(content@.take(i + 1).drop_last() =~= content@.take(i as int));
        match &content[i] {
            MessageContent::ToolUse { id, name, input, custom, .. } => {
                r.push(ToolCallPlan { id: id.clone(), name: name.clone(), input: input.clone(), custom: *custom });
            },
            _ => {},
        }
        i += 1;
    }
    assert(content@.take(content@.len() as int) =~= content@);
    r
}

/// What a run does next. Before each step the run publishes the events that
/// come with it.
#[derive(Debug)]
pub enum LoopStep {
    /// Ask the model for the answer of this turn.
    CallModel { turn_index: usize },
    /// Hand this tool call to the `tool_call` hook, then validate the call as
    /// the hook left it against the tools' definitions.
    CheckTool(ToolCallPlan),
    /// The checked call goes to the tool executor.
    RunTool(ToolCallPlan),
    /// Store this result of the current call (after the `tool_result` hook)
    /// under this id.
    StoreResult { message_id: String, message: crate::message::ToolResultMessage },
    /// Store a waiting steering message under this id, if there is one.
    TakeSteer { message_id: String },
    /// The run is over: the last answer asked for no tool.
    Finish,
}

/// Where a run stands: what it waits for.
#[derive(Clone, Copy, Debug, PartialEq, Eq, Structural)]
pub enum LoopPhase {
    Answer,
    Check,
    Run,
    Store,
    Steer,
    Done,
}

/// What a failed `tool_call` hook becomes: the reason the call is blocked.
pub open spec fn hook_failure(error: Seq<char>) -> Seq<char> {
    "tool hook failed: "@ + error
}

/// Whether a checked call may run, and if not, why: a failed hook blocks it,
/// then a hook's block, then a failed validation.
pub open spec fn call_verdict(hook: Result<ToolCallOutcome, String>, validation: Result<(), String>) -> Result<(), Seq<char>> {
    match hook {
        Err(e) => Err(hook_failure(e@)),
        Ok(ToolCallOutcome::Block(reason)) => Err(reason@),
        Ok(ToolCallOutcome::Continue) => match validation {
            Err(e) => Err(e@),
            Ok(()) => Ok(()),
        },
    }
}

/// The `tool_call` hook errors a check publishes: the hook's failure, then
/// the validation's.
pub open spec fn check_errors(hook: Result<ToolCallOutcome, String>, validation: Result<(), String>) -> Seq<Seq<char>> {
    let first: Seq<Seq<char>> = match hook {
        Err(e) => seq![hook_failure(e@)],
        Ok(_) => seq![],
    };
    match validation {
        Err(e) => first.push(e@),
        Ok(()) => first,
    }
}

pub open spec fn is_tool_call_error(event: AgentEvent, error: Seq<char>) -> bool {
    event matches AgentEvent::HookError { hook, error: e } && hook@ == "tool_call"@ && e@ == error
}

pub open spec fn is_execution_start(event: AgentEvent, call: ToolCallPlan) -> bool {
    event == AgentEvent::ToolExecutionStart { id: call.id, name: call.name, input: call.input }
}

/// The result message for a call's outcome, as [`tool_result_message`] makes it.
pub open spec fn result_for(m: crate::message::ToolResultMessage, id: String, custom: bool, result: Result<crate::message::ToolOutput, Seq<char>>) -> bool {
    &&& m.tool_use_id == id
    &&& m.custom == custom
    &&& match result {
        Ok(output) => m.content@ == output.content@ && !m.is_error,
        Err(e) => m.is_error && m.content@.len() == 1 && (m.content@[0] matches MessageContent::Text { text } && text@ == e),
    }
}

/// The step that stores `result` for `call` in turn `turn` of run `run`.
pub open spec fn is_store_step(step: LoopStep, run: usize, turn: usize, call: ToolCallPlan, result: Result<crate::message::ToolOutput, Seq<char>>) -> bool {
    step matches LoopStep::StoreResult { message_id, message } && message_id@ == spec_message_id(run, turn, TurnPart::Tool(call.id))
        && result_for(message, call.id, call.custom, result)
}

/// The turns of one run. Each answer's tool calls are taken one after
/// another in the order the model gave them: each is checked, then either
/// run or answered at once with its refusal, then its result is stored and a
/// steering message taken; only when every call has its result does the next
/// turn ask the model again. An answer without tool calls ends the run.
#[derive(Debug)]
pub struct AgentLoop {
    run_id: usize,
    turn_index: usize,
    calls: Vec<ToolCallPlan>,
    answered: usize,
    phase: LoopPhase,
}

impl AgentLoop {
    pub closed spec fn run_view(&self) -> usize {
        self.run_id
    }

    pub closed spec fn turn_view(&self) -> usize {
        self.turn_index
    }

    /// The tool calls of the current turn's answer.
    pub closed spec fn calls_view(&self) -> Seq<ToolCallPlan> {
        self.calls@
    }

    /// How many of them have their result stored.
    pub closed spec fn answered_view(&self) -> usize {
        self.answered
    }

    pub closed spec fn phase_view(&self) -> LoopPhase {
        self.phase
    }

    /// The call being checked, run or answered.
    pub open spec fn current_call(&self) -> ToolCallPlan {
        self.calls_view()[self.answered_view() as int]
    }

    /// The calls in hand are the ones not yet answered.
    pub open spec fn well_formed(&self) -> bool {
        &&& (self.phase_view() == LoopPhase::Check || self.phase_view() == LoopPhase::Run
            || self.phase_view() == LoopPhase::Store) ==> self.answered_view() < self.calls_view().len()
        &&& self.phase_view() == LoopPhase::Steer ==> 0 < self.answered_view() <= self.calls_view().len()
    }

    /// A run that starts its first turn by asking the model.
    pub fn new(run_id: usize) -> (r: (Self, LoopStep, Vec<AgentEvent>))
        ensures
            r.0.well_formed(),
            r.0.run_view() == run_id,
            r.0.turn_view() == 0,
            r.0.calls_view().len() == 0,
            r.0.answered_view() == 0,
            r.0.phase_view() == LoopPhase::Answer,
            r.1 == (LoopStep::CallModel { turn_index: 0 }),
            r.2@ == seq![AgentEvent::TurnStart { run_id, turn_index: 0 }],
    {
        let mut events: Vec<AgentEvent> = Vec::new();
        events.push(AgentEvent::TurnStart { run_id, turn_index: 0 });
        (
            AgentLoop { run_id, turn_index: 0, calls: Vec::new(), answered: 0, phase: LoopPhase::Answer },
            LoopStep::CallModel { turn_index: 0 },
            events,
        )
    }

    pub fn run_id(&self) -> (r: usize)
        ensures
            r == self.run_view(),
    {
        self.run_id
    }

    pub fn turn_index(&self) -> (r: usize)
        ensures
            r == self.turn_view(),
    {
        self.turn_index
    }

    pub fn phase(&self) -> (r: LoopPhase)
        ensures
            r == self.phase_view(),
    {
        self.phase
    }

    /// The model answered (and the answer is stored): its tool calls are
    /// this turn's work, the first of them checked next; without any the turn
    /// ends and so does the run.
    pub fn on_answer(&mut self, answer: &AssistantMessage) -> (r: (LoopStep, Vec<AgentEvent>))
        requires
            old(self).phase_view() == LoopPhase::Answer,
        ensures
            final(self).well_formed(),
            final(self).run_view() == old(self).run_view(),
            final(self).turn_view() == old(self).turn_view(),
            final(self).calls_view() == tool_calls(answer.content@),
            final(self).answered_view() == 0,
            tool_calls(answer.content@).len() == 0 ==> {
                &&& final(self).phase_view() == LoopPhase::Done
                &&& r.0 == LoopStep::Finish
                &&& r.1@ == seq![AgentEvent::TurnEnd { run_id: old(self).run_view(), turn_index: old(self).turn_view() }]
            },
            tool_calls(answer.content@).len() > 0 ==> {
                &&& final(self).phase_view() == LoopPhase::Check
                &&& r.0 == LoopStep::CheckTool(tool_calls(answer.content@)[0])
                &&& r.1@.len() == 1
                &&& is_execution_start(r.1@[0], tool_calls(answer.content@)[0])
            },
    {
        self.calls = tool_calls_of(answer.content.as_slice());
        self.answered = 0;
        let mut events: Vec<AgentEvent> = Vec::new();
        if self.calls.len() == 0 {
            self.phase = LoopPhase::Done;
            events.push(AgentEvent::TurnEnd { run_id: self.run_id, turn_index: self.turn_index });
            (LoopStep::Finish, events)
        } else {
            self.phase = LoopPhase::Check;
            let c = self.calls[0].copy();
            events.push(AgentEvent::ToolExecutionStart { id: c.id.clone(), name: c.name.clone(), input: c.input.clone() });
            (LoopStep::CheckTool(c), events)
        }
    }

    /// The current call has been through the `tool_call` hook (`hook`, with
    /// `call` as the hook left it) and validation. A call that the hook
    /// blocked, whose hook failed, or that is invalid never runs: it is
    /// answered at once with an error result giving the reason. Otherwise the
    /// call as the hook left it runs. Each failure is published as a
    /// `tool_call` hook error.
    pub fn on_checked(&mut self, hook: Result<ToolCallOutcome, String>, call: crate::hooks::ToolCall, validation: Result<(), String>) -> (r: (LoopStep, Vec<AgentEvent>))
        requires
            old(self).well_formed(),
            old(self).phase_view() == LoopPhase::Check,
        ensures
            final(self).well_formed(),
            final(self).run_view() == old(self).run_view(),
            final(self).turn_view() == old(self).turn_view(),
            final(self).calls_view() == old(self).calls_view(),
            final(self).answered_view() == old(self).answered_view(),
            r.1@.len() == check_errors(hook, validation).len(),
            forall|i: int| 0 <= i < r.1@.len() ==> is_tool_call_error(#[trigger] r.1@[i], check_errors(hook, validation)[i]),
            match call_verdict(hook, validation) {
                Err(reason) => {
                    &&& final(self).phase_view() == LoopPhase::Store
                    &&& is_store_step(r.0, old(self).run_view(), old(self).turn_view(), old(self).current_call(), Err(reason))
                },
                Ok(()) => {
                    &&& final(self).phase_view() == LoopPhase::Run
                    &&& r.0 == LoopStep::RunTool(ToolCallPlan {
                        id: old(self).current_call().id,
                        name: call.name,
                        input: call.input,
                        custom: old(self).current_call().custom,
                    })
                },
            },
    {
        let current = self.calls[self.answered].copy();
        let mut events: Vec<AgentEvent> = Vec::new();
        let outcome = match hook {
            Ok(o) => o,
            Err(e) => {
                let mut message = String::from_str("tool hook failed: ");
                push_str(&mut message, e.as_str());
                events.push(AgentEvent::HookError { hook: String::from_str("tool_call"), error: message.clone() });
                ToolCallOutcome::Block(message)
            },
        };
        let ghost hook_events = events@;
        let checked = match validation {
            Ok(()) => Ok(()),
            Err(e) => {
                events.push(AgentEvent::HookError { hook: String::from_str("tool_call"), error: e.clone() });
                Err(e)
            },
        };
        proof {
            assert(hook_events.len() == (match hook { Err(_) => 1int, Ok(_) => 0int }));
            assert(check_errors(hook, validation) =~= (match hook {
                Err(e) => seq![hook_failure(e@)],
                Ok(_) => Seq::<Seq<char>>::empty(),
            }) + (match validation {
                Err(e) => seq![e@],
                Ok(()) => Seq::<Seq<char>>::empty(),
            }));
        }
        match tool_call_verdict(outcome, checked) {
            Err(reason) => {
                self.phase = LoopPhase::Store;
                let id = message_id(self.run_id, self.turn_index, TurnPart::Tool(current.id.clone()));
                let message = tool_result_message(current.id, current.custom, Err(reason));
                (LoopStep::StoreResult { message_id: id, message }, events)
            },
            Ok(()) => {
                self.phase = LoopPhase::Run;
                (LoopStep::RunTool(ToolCallPlan { id: current.id, name: call.name, input: call.input, custom: current.custom }), events)
            },
        }
    }

    /// The executor answered the current call (or it was cancelled, which is
    /// the error "aborted"): its result is stored next.
    pub fn on_tool_output(&mut self, result: Result<crate::message::ToolOutput, String>) -> (r: LoopStep)
        requires
            old(self).well_formed(),
            old(self).phase_view() == LoopPhase::Run,
        ensures
            final(self).well_formed(),
            final(self).run_view() == old(self).run_view(),
            final(self).turn_view() == old(self).turn_view(),
            final(self).calls_view() == old(self).calls_view(),
            final(self).answered_view() == old(self).answered_view(),
            final(self).phase_view() == LoopPhase::Store,
            is_store_step(r, old(self).run_view(), old(self).turn_view(), old(self).current_call(), match result {
                Ok(o) => Ok(o),
                Err(e) => Err(e@),
            }),
    {
        let current = self.calls[self.answered].copy();
        self.phase = LoopPhase::Store;
        let id = message_id(self.run_id, self.turn_index, TurnPart::Tool(current.id.clone()));
        let message = tool_result_message(current.id, current.custom, result);
        LoopStep::StoreResult { message_id: id, message }
    }

    /// The current call's result is stored: a waiting steering message is
    /// taken next.
    pub fn on_result_stored(&mut self) -> (r: LoopStep)
        requires
            old(self).well_formed(),
            old(self).phase_view() == LoopPhase::Store,
        ensures
            final(self).well_formed(),
            final(self).run_view() == old(self).run_view(),
            final(self).turn_view() == old(self).turn_view(),
            final(self).calls_view() == old(self).calls_view(),
            final(self).answered_view() == old(self).answered_view() + 1,
            final(self).phase_view() == LoopPhase::Steer,
            r matches LoopStep::TakeSteer { message_id } && message_id@ == spec_message_id(
                old(self).run_view(),
                old(self).turn_view(),
                TurnPart::Steer,
            ),
    {
        let n = self.calls.len();
        assert(self.answered < n);
        self.answered = self.answered + 1;
        self.phase = LoopPhase::Steer;
        LoopStep::TakeSteer { message_id: message_id(self.run_id, self.turn_index, TurnPart::Steer) }
    }

    /// The steering message, if any, is stored: the next call of the answer
    /// is checked, or, once every call has its result, the turn ends and the
    /// next one asks the model.
    pub fn on_steer_taken(&mut self) -> (r: (LoopStep, Vec<AgentEvent>))
        requires
            old(self).well_formed(),
            old(self).phase_view() == LoopPhase::Steer,
            old(self).turn_view() < usize::MAX,
        ensures
            final(self).well_formed(),
            final(self).run_view() == old(self).run_view(),
            old(self).answered_view() < old(self).calls_view().len() ==> {
                &&& final(self).turn_view() == old(self).turn_view()
                &&& final(self).calls_view() == old(self).calls_view()
                &&& final(self).answered_view() == old(self).answered_view()
                &&& final(self).phase_view() == LoopPhase::Check
                &&& r.0 == LoopStep::CheckTool(old(self).calls_view()[old(self).answered_view() as int])
                &&& r.1@.len() == 1
                &&& is_execution_start(r.1@[0], old(self).calls_view()[old(self).answered_view() as int])
            },
            old(self).answered_view() == old(self).calls_view().len() ==> {
                &&& final(self).turn_view() == old(self).turn_view() + 1
                &&& final(self).calls_view().len() == 0
                &&& final(self).answered_view() == 0
                &&& final(self).phase_view() == LoopPhase::Answer
                &&& r.0 == (LoopStep::CallModel { turn_index: (old(self).turn_view() + 1) as usize })
                &&& r.1@ == seq![
                    AgentEvent::TurnEnd { run_id: old(self).run_view(), turn_index: old(self).turn_view() },
                    AgentEvent::TurnStart { run_id: old(self).run_view(), turn_index: (old(self).turn_view() + 1) as usize },
                ]
            },
    {
        let mut events: Vec<AgentEvent> = Vec::new();
        if self.answered < self.calls.len() {
            self.phase = LoopPhase::Check;
            let c = self.calls[self.answered].copy();
            events.push(AgentEvent::ToolExecutionStart { id: c.id.clone(), name: c.name.clone(), input: c.input.clone() });
            (LoopStep::CheckTool(c), events)
        } else {
            events.push(AgentEvent::TurnEnd { run_id: self.run_id, turn_index: self.turn_index });
            self.turn_index = self.turn_index + 1;
            self.calls = Vec::new();
            self.answered = 0;
            self.phase = LoopPhase::Answer;
            events.push(AgentEvent::TurnStart { run_id: self.run_id, turn_index: self.turn_index });
            (LoopStep::CallModel { turn_index: self.turn_index }, events)
        }
    }
}

/// A tool call that its hook blocked, whose hook failed, or that failed
/// validation never reaches the executor: the check answers it with an
/// error result carrying the reason.
pub proof fn law_refused_call_never_runs(hook: Result<ToolCallOutcome, String>, validation: Result<(), String>)
    requires
        (hook is Err || hook matches Ok(ToolCallOutcome::Block(_)) || validation is Err),
    ensures
        call_verdict(hook, validation) is Err,
        hook is Err ==> call_verdict(hook, validation) == Err::<(), Seq<char>>(hook_failure(hook->Err_0@)),
{
}

/// What persisting a message stores once the finalizing hook has had it: the
/// hook's version when the hook succeeded and that version passes
/// [`validate_final_message`], the original otherwise; with the hook error to
/// report, if there is one.
pub fn finalized_message(original: Message, hook: Result<Message, String>) -> (r: (Message, Option<String>))
    ensures
        match hook {
            Err(e) => r.0 == original && r.1 == Some(e),
            Ok(m) => match final_message_error(original, m) {
                None => r.0 == m && r.1 is None,
                Some(e) => r.0 == original && (r.1 matches Some(x) && x@ == e),
            },
        },
{
    match hook {
        Err(e) => (original, Some(e)),
        Ok(m) => match validate_final_message(&original, &m) {
            Ok(()) => (m, None),
            Err(e) => (original, Some(e)),
        },
    }
}

/// A session that cannot persist a message stops for good: its status
/// becomes `Fatal`, and it announces the persistence error, that it is
/// fatal, and its shutdown, in that order.
pub fn fatal_outcome(error: String) -> (r: (SessionStatus, Vec<AgentEvent>))
    ensures
        r.0 == SessionStatus::Fatal,
        r.1@ == seq![
            AgentEvent::PersistenceError { error },
            AgentEvent::SessionFatal { error },
            AgentEvent::SessionShutdown,
        ],
{
    let mut events: Vec<AgentEvent> = Vec::new();
    events.push(AgentEvent::PersistenceError { error: error.clone() });
    events.push(AgentEvent::SessionFatal { error });
    events.push(AgentEvent::SessionShutdown);
    (SessionStatus::Fatal, events)
}


/// The first tool of `tools` named `name`.
pub open spec fn first_tool(tools: Seq<crate::message::ToolDef>, name: Seq<char>) -> Option<int>
    decreases tools.len(),
{
    if tools.len() == 0 {
        None
    } else if tools[0].name@ == name {
        Some(0)
    } else {
        match first_tool(tools.drop_first(), name) {
            Some(i) => Some(i + 1),
            None => None,
        }
    }
}

proof fn lemma_first_tool(tools: Seq<crate::message::ToolDef>, name: Seq<char>, k: int)
    requires
        0 <= k <= tools.len(),
        forall|m: int| 0 <= m < k ==> tools[m].name@ != name,
    ensures
        k < tools.len() && tools[k].name@ == name ==> first_tool(tools, name) == Some(k),
        k == tools.len() ==> first_tool(tools, name) is None,
    decreases k,
{
    if k > 0 {
        lemma_first_tool(tools.drop_first(), name, k - 1);
    }
}

/// Checks a tool call before it may run, as far as the library can: the
/// tool must be one of `tools` (the first of that name), and a JSON tool's
/// input must parse as JSON. For a JSON tool it returns the tool's index and
/// the parsed input, which must then meet the tool's schema (that check is a
/// JSON Schema validator's); for a text or grammar tool, nothing more.
pub fn validate_tool_call(call: &crate::hooks::ToolCall, tools: &[crate::message::ToolDef]) -> (r: Result<Option<(usize, crate::json::JsonValue)>, String>)
    ensures
        match first_tool(tools@, call.name@) {
            None => r matches Err(e) && e@ == "unknown tool "@ + call.name@,
            Some(i) => match tools@[i].input {
                crate::message::ToolInput::Json(_) => match crate::json::json_parse(call.input@) {
                    Some(v) => r == Ok::<Option<(usize, crate::json::JsonValue)>, String>(Some((i as usize, v))),
                    None => r matches Err(e) && "invalid JSON tool input: "@.is_prefix_of(e@),
                },
                _ => r == Ok::<Option<(usize, crate::json::JsonValue)>, String>(None),
            },
        },
{
    let mut k: usize = 0;
    while k < tools.len()
        invariant
            k <= tools@.len(),
            forall|m: int| 0 <= m < k ==> tools@[m].name@ != call.name@,
        decreases tools@.len() - k,
    {
        if crate::json::text_eq(tools[k].name.as_str(), call.name.as_str()) {
            proof {
                lemma_first_tool(tools@, call.name@, k as int);
            }
            return match &tools[k].input {
                crate::message::ToolInput::Json(_) => match crate::json::parse_json(call.input.as_str()) {
                    Ok(v) => Ok(Some((k, v))),
                    Err(e) => {
                        let mut m = String::from_str("invalid JSON tool input: ");
                        let ghost prefix = m@;
                        push_str(&mut m, e.as_str());
                        assert(m@.subrange(0, prefix.len() as int) =~= prefix);
                        Err(m)
                    },
                },
                _ => Ok(None),
            };
        }
        k += 1;
    }
    proof {
        lemma_first_tool(tools@, call.name@, k as int);
    }
    let mut m = String::from_str("unknown tool ");
    push_str(&mut m, call.name.as_str());
    Err(m)
}


/// Whether a host action names a delivery, and which.
pub open spec fn action_delivery(action: crate::hooks::HostAction) -> Option<Seq<char>> {
    match action {
        crate::hooks::HostAction::AppendEntry { .. } => None,
        crate::hooks::HostAction::SendUserMessage { deliver_as, .. } => Some(deliver_as@),
        crate::hooks::HostAction::SendMessage { deliver_as, .. } => Some(deliver_as@),
    }
}

/// A message an action queues steers the running turn exactly when the
/// action delivers it as `steer`, and waits as a follow-up otherwise; a
/// custom message that triggers a turn is queued by the same rule as a user
/// message with the same delivery, after its entry is stored, and one that
/// does not trigger a turn queues nothing.
pub proof fn law_delivery_decides_steering(
    action: crate::hooks::HostAction,
    message: crate::json::JsonValue,
    text: String,
    deliver_as: String,
)
    ensures
        forall|i: int|
            0 <= i < action_writes(action).len() ==> (#[trigger] action_writes(action)[i] matches WriteView::Queue(steer, _)
                ==> action_delivery(action) == Some(deliver_as_of(action)) && steer == (deliver_as_of(action) == "steer"@)),
        ({
            let custom = action_writes(crate::hooks::HostAction::SendMessage { message, deliver_as, trigger_turn: true });
            let user = action_writes(crate::hooks::HostAction::SendUserMessage { text, deliver_as });
            &&& custom.len() == 2 && user.len() == 1
            &&& custom[0] is Custom
            &&& (custom[1] matches WriteView::Queue(a, _) && user[0] matches WriteView::Queue(b, _) && a == b)
            &&& (user[0] matches WriteView::Queue(b, _) && (b <==> deliver_as@ == "steer"@))
        }),
        action_writes(crate::hooks::HostAction::SendMessage { message, deliver_as, trigger_turn: false }).len() == 1,
        action_writes(crate::hooks::HostAction::SendMessage { message, deliver_as, trigger_turn: false })[0] is Custom,
{
}

/// The delivery an action names (empty for an entry).
pub open spec fn deliver_as_of(action: crate::hooks::HostAction) -> Seq<char> {
    match action_delivery(action) {
        Some(d) => d,
        None => seq![],
    }
}

} // verus!
