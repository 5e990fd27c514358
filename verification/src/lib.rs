//! Verified core of an agent runtime: conversation messages, the session
//! message queue, the embedded-asset codec, extension policies, the terminal
//! UI model (ANSI parsing, semantic frames, focus, reducer) and the UI broker.

pub mod ansi;
pub mod broker;
pub mod component;
pub mod editing;
pub mod event;
pub mod hooks;
pub mod input;
pub mod json;
pub mod lzss;
pub mod markdown;
pub mod message;
pub mod pi_compat;
pub mod pi_ui;
pub mod policy;
pub mod provider;
pub mod queue;
pub mod reducer;
pub mod render;
pub mod renderers;
pub mod session;
pub mod state;
pub mod terminal;
pub mod text;
pub mod transcript;
pub mod ui_protocol;
