//! Renderer-neutral input events.

use vstd::prelude::*;

verus! {

#[derive(Clone, Copy, Debug, PartialEq, Eq, Structural)]
pub enum KeyCode {
    Enter,
    Esc,
    Char(char),
    Backspace,
    Delete,
    Left,
    Right,
    Up,
    Down,
    Home,
    End,
    PageUp,
    PageDown,
}

#[derive(Clone, Copy, Debug, PartialEq, Eq, Structural)]
pub struct Modifiers {
    pub ctrl: bool,
    pub alt: bool,
    pub shift: bool,
}

impl Default for Modifiers {
    fn default() -> (r: Self)
        ensures
            !r.ctrl && !r.alt && !r.shift,
    {
        Modifiers { ctrl: false, alt: false, shift: false }
    }
}

#[derive(Clone, Copy, Debug, PartialEq, Eq, Structural)]
pub enum KeyKind {
    Press,
    Repeat,
    Release,
}

#[derive(Clone, Copy, Debug, PartialEq, Eq, Structural)]
pub struct KeyEvent {
    pub code: KeyCode,
    pub modifiers: Modifiers,
    pub kind: KeyKind,
}

#[derive(Clone, Copy, Debug, PartialEq, Eq, Structural)]
pub enum MouseButton {
    Left,
    Right,
    Middle,
}

#[derive(Clone, Copy, Debug, PartialEq, Eq, Structural)]
pub enum MouseKind {
    Down,
    Up,
    Drag,
    Move,
    ScrollUp,
    ScrollDown,
}

#[derive(Clone, Copy, Debug, PartialEq, Eq, Structural)]
pub struct MouseEvent {
    pub kind: MouseKind,
    pub column: u16,
    pub row: u16,
    pub button: Option<MouseButton>,
}

#[derive(Debug, PartialEq, Eq)]
pub enum InputEvent {
    Key(KeyEvent),
    Text(String),
    Paste(String),
    Mouse(MouseEvent),
    Resize { columns: u16, rows: u16 },
    FocusGained,
    FocusLost,
}

impl Clone for InputEvent {
    fn clone(&self) -> (r: Self)
        ensures
            r == *self,
    {
        match self {
            InputEvent::Key(k) => InputEvent::Key(*k),
            InputEvent::Text(t) => InputEvent::Text(t.clone()),
            InputEvent::Paste(t) => InputEvent::Paste(t.clone()),
            InputEvent::Mouse(m) => InputEvent::Mouse(*m),
            InputEvent::Resize { columns, rows } => InputEvent::Resize { columns: *columns, rows: *rows },
            InputEvent::FocusGained => InputEvent::FocusGained,
            InputEvent::FocusLost => InputEvent::FocusLost,
        }
    }
}

#[derive(Debug, PartialEq, Eq)]
pub struct CommandId(pub String);

impl Clone for CommandId {
    fn clone(&self) -> (r: Self)
        ensures
            r == *self,
    {
        CommandId(self.0.clone())
    }
}

} // verus!
