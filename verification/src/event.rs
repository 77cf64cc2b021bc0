//! What a key press does to the interface.

use vstd::prelude::*;
use crate::app::{erased, input_taken, scrolled_down, scrolled_up, typed, App};

verus! {

/// The keys the interface tells apart.
#[derive(Clone, Copy, Debug, PartialEq, Eq, Structural)]
pub enum KeyCode {
    Char(char),
    Backspace,
    Enter,
    Up,
    Down,
    Esc,
    /// Any other key.
    Other,
}

/// A key press.
#[derive(Clone, Copy, Debug, PartialEq, Eq, Structural)]
pub struct KeyEvent {
    pub code: KeyCode,
}

/// What the main loop does after a key press.
#[derive(Debug, PartialEq, Eq)]
pub enum EventResult {
    Continue,
    Exit,
    SendMessage(String),
}

/// Applies a key press to the interface: a character is typed, backspace
/// deletes the last typed character, the arrows scroll the transcript, enter
/// sends the typed line (when there is one) and escape quits.
pub fn handle_key(app: &mut App, key: KeyEvent) -> (r: EventResult)
    requires
        key.code == KeyCode::Down ==> old(app)@.scroll_pos < u16::MAX,
    ensures
        match key.code {
            KeyCode::Char(c) => r == EventResult::Continue && final(app)@ == typed(old(app)@, c),
            KeyCode::Backspace => r == EventResult::Continue && final(app)@ == erased(old(app)@),
            KeyCode::Enter => if old(app)@.input.len() == 0 {
                r == EventResult::Continue && final(app)@ == old(app)@
            } else {
                r matches EventResult::SendMessage(m) && m@ == old(app)@.input
                    && final(app)@ == input_taken(old(app)@)
            },
            KeyCode::Up => r == EventResult::Continue && final(app)@ == scrolled_up(old(app)@),
            KeyCode::Down => r == EventResult::Continue && final(app)@ == scrolled_down(old(app)@),
            KeyCode::Esc => r == EventResult::Exit && final(app)@ == old(app)@,
            KeyCode::Other => r == EventResult::Continue && final(app)@ == old(app)@,
        },
{
    match key.code {
        KeyCode::Char(c) => {
            app.push_input_char(c);
            EventResult::Continue
        },
        KeyCode::Backspace => {
            app.pop_input();
            EventResult::Continue
        },
        KeyCode::Enter => {
            if let Some(msg) = app.take_input() {
                EventResult::SendMessage(msg)
            } else {
                EventResult::Continue
            }
        },
        KeyCode::Up => {
            app.scroll_up();
            EventResult::Continue
        },
        KeyCode::Down => {
            app.scroll_down();
            EventResult::Continue
        },
        KeyCode::Esc => EventResult::Exit,
        KeyCode::Other => EventResult::Continue,
    }
}

} // verus!
