//! Events a session publishes while it runs.

use vstd::prelude::*;
use crate::json::JsonValue;
use crate::message::{Message, MessageContent, Usage};

verus! {

#[derive(Clone, Debug)]
pub enum MessageDelta {
    Text(String),
    Thinking(String),
    ToolCallInput(String),
    Content(MessageContent),
}

#[derive(Clone, Debug)]
pub enum AgentEvent {
    SessionStart { session_id: String },
    QueueUpdate { pending: usize },
    AgentStart { run_id: usize },
    TurnStart { run_id: usize, turn_index: usize },
    MessageStart { message_id: String, message: Message },
    MessageUpdate { message_id: String, block_index: usize, delta: MessageDelta, usage: Option<Usage> },
    MessageEnd { message_id: String, message: Message },
    ToolExecutionStart { id: String, name: String, input: String },
    ToolExecutionUpdate { id: String, update: JsonValue },
    ToolExecutionEnd { id: String, name: String, result: JsonValue, is_error: bool },
    TurnEnd { run_id: usize, turn_index: usize },
    AgentEnd { run_id: usize },
    AgentSettled { run_id: usize },
    HookError { hook: String, error: String },
    PersistenceError { error: String },
    SessionFatal { error: String },
    SessionShutdown,
}

} // verus!
