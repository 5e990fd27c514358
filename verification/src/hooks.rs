//! What hooks and lifecycle handlers receive and answer, commands and host
//! actions of extensions, provider stream events, and session identity.

use vstd::prelude::*;
use crate::json::JsonValue;
use crate::message::{Message, MessageContent, StopReason, Usage};

verus! {

/// Whether input goes on to the agent or an extension handled it.
#[derive(Clone, Copy, Debug, PartialEq, Eq, Structural)]
pub enum InputOutcome {
    Continue,
    Handled,
}

/// What a hook may change before the agent starts a run.
#[derive(Debug)]
pub struct BeforeAgentStart {
    pub prompt: String,
    pub system_prompt: String,
    pub messages: Vec<Message>,
}

/// A tool call a hook may inspect or rewrite before it runs.
#[derive(Debug)]
pub struct ToolCall {
    pub id: String,
    pub name: String,
    pub input: String,
}

#[derive(Debug, PartialEq, Eq)]
pub enum ToolCallOutcome {
    Continue,
    Block(String),
}

#[derive(Debug)]
#[allow(inconsistent_fields)]
pub enum LifecycleEvent {
    SessionStart,
    Input { text: String, source: String },
    BeforeAgentStart { prompt: String, system_prompt: String },
    AgentStart,
    TurnStart { turn_index: usize },
    MessageStart { message: Message },
    MessageEnd { message: Message },
    ToolCall { id: String, name: String, input: String },
    ToolExecutionEnd { id: String, name: String, result: JsonValue, is_error: bool },
    TurnEnd { turn_index: usize, message: Option<Message>, tool_results: Vec<Message> },
    AgentEnd { messages: Vec<Message>, error: Option<String> },
    AgentSettled,
    SessionShutdown,
}

#[derive(Debug)]
pub enum LifecycleEffect {
    Unchanged,
    TransformInput { text: String },
    Handled,
    BeforeAgentStart { system_prompt: String, messages: Vec<Message> },
    BlockTool { reason: String },
}

impl Default for LifecycleEffect {
    fn default() -> (r: Self)
        ensures
            r is Unchanged,
    {
        LifecycleEffect::Unchanged
    }
}

/// A slash command an extension provides.
#[derive(Debug, PartialEq, Eq)]
pub struct CommandDef {
    pub name: String,
    pub description: String,
}

impl Clone for CommandDef {
    fn clone(&self) -> (r: Self)
        ensures
            r == *self,
    {
        CommandDef { name: self.name.clone(), description: self.description.clone() }
    }
}

/// What an extension asks the host to do after a call.
#[derive(Debug)]
pub enum HostAction {
    AppendEntry { kind: String, data: JsonValue },
    SendUserMessage { text: String, deliver_as: String },
    SendMessage { message: JsonValue, deliver_as: String, trigger_turn: bool },
}

/// One event of a provider's response stream.
#[derive(Debug)]
pub enum ProviderEvent {
    ContentDelta { block_index: usize, delta: MessageContent },
    Usage(Usage),
    Done(StopReason),
    Error(String),
    Aborted,
}

/// Process-local identity of one host session.
#[derive(Clone, Copy, Debug, PartialEq, Eq, PartialOrd, Ord, Hash, Structural)]
pub struct SessionId(pub u64);

impl SessionId {
    /// The id of a session restored from its persisted form.
    pub fn from_persisted(value: u64) -> (r: Self)
        ensures
            r == SessionId(value),
    {
        SessionId(value)
    }
}

impl Default for SessionId {
    fn default() -> (r: Self)
        ensures
            r == SessionId(0),
    {
        SessionId(0)
    }
}

} // verus!
