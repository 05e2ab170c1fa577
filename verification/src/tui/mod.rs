//! Terminal events as the application sees them, and the rules of the event task.
pub mod app;
pub mod utils;

use vstd::prelude::*;

verus! {

/// The key of a key event: a character, or any other key.
#[derive(Debug, Clone, Copy, PartialEq, Eq, Structural)]
pub enum KeyCode {
    Char(char),
    Other,
}

#[derive(Debug, Clone, Copy, PartialEq, Eq, Structural)]
pub enum KeyEventKind {
    Press,
    Repeat,
    Release,
}

#[derive(Debug, Clone, Copy, PartialEq, Eq, Structural)]
pub struct KeyEvent {
    pub code: KeyCode,
    pub kind: KeyEventKind,
}

/// Where the mouse was when the event happened.
#[derive(Debug, Clone, Copy, PartialEq, Eq, Structural)]
pub struct MouseEvent {
    pub column: u16,
    pub row: u16,
}

#[derive(Debug, Clone, PartialEq, Eq)]
pub enum Event {
    Init,
    Quit,
    Error,
    Closed,
    Tick,
    Render,
    FocusGained,
    FocusLost,
    Paste(String),
    Key(KeyEvent),
    Mouse(MouseEvent),
    Resize(u16, u16),
}

impl Event {
    /// Whether the event task passes a terminal event on: key events only when the key
    /// is pressed, every other event always.
    pub fn is_forwarded(&self) -> (r: bool)
        ensures
            r == (match *self {
                Event::Key(k) => k.kind == KeyEventKind::Press,
                _ => true,
            }),
    {
        match self {
            Event::Key(k) => k.kind == KeyEventKind::Press,
            _ => true,
        }
    }
}

/// What stopping the event task does after waiting `waited_ms` milliseconds for it to
/// finish: abort it once more than 50 have passed, give up waiting once more than 100.
#[derive(Debug, Clone, Copy, PartialEq, Eq, Structural)]
pub struct StopStep {
    pub abort: bool,
    pub give_up: bool,
}

pub fn stop_step(waited_ms: u32) -> (r: StopStep)
    ensures
        r.abort == (waited_ms > 50),
        r.give_up == (waited_ms > 100),
{
    StopStep { abort: waited_ms > 50, give_up: waited_ms > 100 }
}

} // verus!
