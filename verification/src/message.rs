//! Conversation history: the role of a message is its variant, so role-specific
//! data (stop reason, tool-use id) has a home of its own.

use vstd::prelude::*;

verus! {

/// Why a response ended.
#[derive(Clone, Copy, Debug, PartialEq, Eq, Structural)]
pub enum StopReason {
    /// The model finished its turn.
    Stop,
    /// The model wants tools executed and the loop to continue.
    ToolUse,
    /// Output hit a token limit; the content is truncated.
    Length,
    /// The model declined to answer.
    Refusal,
    /// The provider failed; the message carries an error message.
    Error,
    /// The run was cancelled before the provider finished.
    Aborted,
}

impl Default for StopReason {
    fn default() -> (r: Self)
        ensures
            r == StopReason::Stop,
    {
        StopReason::Stop
    }
}

#[derive(Clone, Copy, Debug, PartialEq, Eq, Structural)]
pub struct Usage {
    pub input_tokens: u64,
    pub output_tokens: u64,
}

impl Default for Usage {
    fn default() -> (r: Self)
        ensures
            r.input_tokens == 0 && r.output_tokens == 0,
    {
        Usage { input_tokens: 0, output_tokens: 0 }
    }
}

#[derive(Debug)]
pub enum MessageContent {
    Text { text: String },
    /// Model reasoning; `signature` lets some providers replay the block later.
    Thinking { thinking: String, signature: Option<String> },
    /// A tool call requested by the model, answered by a tool result with the same id.
    ToolUse { id: String, name: String, input: String, custom: bool, item_id: Option<String> },
}

impl Clone for MessageContent {
    fn clone(&self) -> (r: Self)
        ensures
            r == *self,
    {
        match self {
            MessageContent::Text { text } => MessageContent::Text { text: text.clone() },
            MessageContent::Thinking { thinking, signature } => MessageContent::Thinking {
                thinking: thinking.clone(),
                signature: signature.clone(),
            },
            MessageContent::ToolUse { id, name, input, custom, item_id } => MessageContent::ToolUse {
                id: id.clone(),
                name: name.clone(),
                input: input.clone(),
                custom: *custom,
                item_id: item_id.clone(),
            },
        }
    }
}

impl MessageContent {
    pub fn text(text: String) -> (r: Self)
        ensures
            r == (MessageContent::Text { text }),
    {
        MessageContent::Text { text }
    }
}

pub fn clone_contents(v: &Vec<MessageContent>) -> (r: Vec<MessageContent>)
    ensures
        r@ == v@,
{
    let r = v.clone();
    assert(r@ =~= v@);
    r
}

#[derive(Clone, Debug)]
pub struct UserMessage {
    pub content: Vec<MessageContent>,
}

impl UserMessage {
    /// A user message holding one text block.
    pub fn text(text: String) -> (r: Self)
        ensures
            r.content@ == seq![MessageContent::Text { text }],
    {
        let mut content = Vec::new();
        content.push(MessageContent::Text { text });
        UserMessage { content }
    }

    pub fn copy(&self) -> (r: Self)
        ensures
            r.content@ == self.content@,
    {
        UserMessage { content: clone_contents(&self.content) }
    }
}

#[derive(Clone, Debug)]
pub struct AssistantMessage {
    pub content: Vec<MessageContent>,
    /// Why the model stopped: tells "wants a tool" from "done" from "truncated".
    pub stop_reason: StopReason,
    /// Absent when the provider does not report token counts.
    pub usage: Option<Usage>,
    /// Why the provider failed, when `stop_reason` is `Error`.
    pub error_message: Option<String>,
}

#[derive(Clone, Debug)]
pub struct ToolResultMessage {
    /// The id of the tool call this answers.
    pub tool_use_id: String,
    pub content: Vec<MessageContent>,
    /// The tool ran but reported failure; the content still goes to the model.
    pub is_error: bool,
    /// Whether this answers a custom tool call rather than a function call.
    pub custom: bool,
}

impl ToolResultMessage {
    /// A successful text result.
    pub fn text(tool_use_id: String, text: String) -> (r: Self)
        ensures
            r.tool_use_id == tool_use_id,
            r.content@ == seq![MessageContent::Text { text }],
            !r.is_error,
            !r.custom,
    {
        let mut content = Vec::new();
        content.push(MessageContent::Text { text });
        ToolResultMessage { tool_use_id, content, is_error: false, custom: false }
    }

    /// A failed result; the message is what the model sees.
    pub fn error(tool_use_id: String, message: String) -> (r: Self)
        ensures
            r.tool_use_id == tool_use_id,
            r.content@ == seq![MessageContent::Text { text: message }],
            r.is_error,
            !r.custom,
    {
        let mut content = Vec::new();
        content.push(MessageContent::Text { text: message });
        ToolResultMessage { tool_use_id, content, is_error: true, custom: false }
    }
}

/// What a tool hands back: the content the model sees, and structured
/// details for the host.
#[derive(Debug)]
pub struct ToolOutput {
    pub content: Vec<MessageContent>,
    pub details: Option<crate::json::JsonValue>,
}

/// One entry in the conversation history.
#[derive(Clone, Debug)]
pub enum Message {
    User(UserMessage),
    Assistant(AssistantMessage),
    /// The host's answer to one tool call.
    ToolResult(ToolResultMessage),
}

pub open spec fn content_of(m: Message) -> Seq<MessageContent> {
    match m {
        Message::User(u) => u.content@,
        Message::Assistant(a) => a.content@,
        Message::ToolResult(t) => t.content@,
    }
}

/// `(id, name, input)` of every tool call among `content`, in order.
pub open spec fn tool_use_triples(content: Seq<MessageContent>) -> Seq<(String, String, String)>
    decreases content.len(),
{
    if content.len() == 0 {
        seq![]
    } else {
        let rest = tool_use_triples(content.drop_last());
        match content.last() {
            MessageContent::ToolUse { id, name, input, .. } => rest.push((id, name, input)),
            _ => rest,
        }
    }
}

/// The texts of the text blocks among `content`, in order.
pub open spec fn text_parts(content: Seq<MessageContent>) -> Seq<Seq<char>>
    decreases content.len(),
{
    if content.len() == 0 {
        seq![]
    } else {
        let rest = text_parts(content.drop_last());
        match content.last() {
            MessageContent::Text { text } => rest.push(text@),
            _ => rest,
        }
    }
}

/// `parts` joined by `sep`.
pub open spec fn join_seq(parts: Seq<Seq<char>>, sep: Seq<char>) -> Seq<char>
    decreases parts.len(),
{
    if parts.len() == 0 {
        seq![]
    } else if parts.len() == 1 {
        parts[0]
    } else {
        join_seq(parts.drop_last(), sep) + sep + parts.last()
    }
}

impl Message {
    pub fn content(&self) -> (r: &[MessageContent])
        ensures
            r@ == content_of(*self),
    {
        match self {
            Message::User(m) => m.content.as_slice(),
            Message::Assistant(m) => m.content.as_slice(),
            Message::ToolResult(m) => m.content.as_slice(),
        }
    }

    /// The tool calls this message asks the host to run.
    pub fn tool_uses(&self) -> (r: Vec<(String, String, String)>)
        ensures
            r@ == tool_use_triples(content_of(*self)),
    {
        let content = self.content();
        let mut r: Vec<(String, String, String)> = Vec::new();
        let mut i: usize = 0;
        while i < content.len()
            invariant
                i <= content@.len(),
                content@ == content_of(*self),
                r@ == tool_use_triples(content@.take(i as int)),
            decreases content@.len() - i,
        {
            assert(content@.take(i + 1).drop_last() =~= content@.take(i as int));
            match &content[i] {
                MessageContent::ToolUse { id, name, input, .. } => {
                    r.push((id.clone(), name.clone(), input.clone()));
                },
                _ => {},
            }
            i += 1;
        }
        assert(content@.take(content@.len() as int) =~= content@);
        r
    }
}

/// The text blocks of `content` joined by `sep`.
pub fn join_text(content: &[MessageContent], sep: &str) -> (r: String)
    ensures
        r@ == join_seq(text_parts(content@), sep@),
{
    let mut r = String::new();
    let mut any = false;
    let mut i: usize = 0;
    while i < content.len()
        invariant
            i <= content@.len(),
            any == (text_parts(content@.take(i as int)).len() > 0),
            r@ == join_seq(text_parts(content@.take(i as int)), sep@),
        decreases content@.len() - i,
    {
        let ghost prev = content@.take(i as int);
        assert(content@.take(i + 1).drop_last() =~= prev);
        match &content[i] {
            MessageContent::Text { text } => {
                if any {
                    crate::text::push_str(&mut r, sep);
                }
                any = true;
                crate::text::push_str(&mut r, text.as_str());
                proof {
                    let parts = text_parts(content@.take(i + 1));
                    assert(parts.drop_last() =~= text_parts(prev));
                    if text_parts(prev).len() == 0 {
                        assert(r@ =~= parts[0]);
                    }
                }
            },
            _ => {},
        }
        i += 1;
    }
    assert(content@.take(content@.len() as int) =~= content@);
    r
}

/// How a tool takes its input: JSON matching a schema, free text, or text in
/// a Lark grammar.
#[derive(Debug)]
pub enum ToolInput {
    Json(crate::json::JsonValue),
    Text,
    Lark(String),
}

/// A tool as the model is told of it.
#[derive(Debug)]
pub struct ToolDef {
    pub name: String,
    pub description: String,
    pub input: ToolInput,
}

} // verus!
