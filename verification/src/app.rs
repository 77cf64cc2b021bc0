//! State of the terminal interface: the line being typed, the transcript of
//! messages and the scroll position of the transcript.

use vstd::prelude::*;
use crate::strings::{pop_char, push_char};

verus! {

/// One entry of the transcript shown to the user.
#[derive(Clone, Debug)]
pub enum Message {
    User(String),
    Assistant(String),
    Error(String),
}

/// The interface state.
pub struct App {
    input: String,
    width: u16,
    messages: Vec<Message>,
    messages_scroll_pos: u16,
    messages_area_height: u16,
    max_scroll: u16,
}

/// The mathematical model of an [`App`].
pub struct AppView {
    pub input: Seq<char>,
    pub width: u16,
    pub messages: Seq<Message>,
    pub scroll_pos: u16,
    pub area_height: u16,
    pub max_scroll: u16,
}

impl View for App {
    type V = AppView;

    closed spec fn view(&self) -> AppView {
        AppView {
            input: self.input@,
            width: self.width,
            messages: self.messages@,
            scroll_pos: self.messages_scroll_pos,
            area_height: self.messages_area_height,
            max_scroll: self.max_scroll,
        }
    }
}

/// The interface after typing `c`.
pub open spec fn typed(v: AppView, c: char) -> AppView {
    AppView { input: v.input.push(c), ..v }
}

/// The interface after erasing the last typed character (nothing to erase
/// leaves it as it is).
pub open spec fn erased(v: AppView) -> AppView {
    AppView {
        input: if v.input.len() > 0 {
            v.input.drop_last()
        } else {
            v.input
        },
        ..v
    }
}

/// The interface after scrolling one row up, stopping at the top.
pub open spec fn scrolled_up(v: AppView) -> AppView {
    AppView {
        scroll_pos: if v.scroll_pos > 0 {
            (v.scroll_pos - 1) as u16
        } else {
            0
        },
        ..v
    }
}

/// The interface after scrolling one row down, stopping at `max_scroll`.
pub open spec fn scrolled_down(v: AppView) -> AppView {
    AppView {
        scroll_pos: if v.scroll_pos + 1 <= v.max_scroll {
            (v.scroll_pos + 1) as u16
        } else {
            v.max_scroll
        },
        ..v
    }
}

/// The interface after the typed line was handed out.
pub open spec fn input_taken(v: AppView) -> AppView {
    AppView { input: Seq::empty(), ..v }
}

/// Erasing right after typing a character gives back the interface as it was.
pub proof fn law_erase_undoes_type(v: AppView, c: char)
    ensures
        erased(typed(v, c)) == v,
{
    assert(v.input.push(c).drop_last() =~= v.input);
}

/// Scrolling down never goes past `max_scroll`, and moves one row when there
/// is room.
pub proof fn law_scroll_down_bounded(v: AppView)
    ensures
        scrolled_down(v).scroll_pos <= v.max_scroll,
        v.scroll_pos < v.max_scroll ==> scrolled_down(v).scroll_pos == v.scroll_pos + 1,
{
}

/// Scrolling up after a scroll down that had room gives back the interface
/// as it was.
pub proof fn law_scroll_up_undoes_down(v: AppView)
    requires
        v.scroll_pos < v.max_scroll,
    ensures
        scrolled_up(scrolled_down(v)) == v,
{
}

/// Scrolling up at the top changes nothing.
pub proof fn law_scroll_up_stops_at_top(v: AppView)
    requires
        v.scroll_pos == 0,
    ensures
        scrolled_up(v) == v,
{
}

impl Default for App {
    fn default() -> (r: Self)
        ensures
            r@ == (AppView {
                input: Seq::<char>::empty(),
                width: 80,
                messages: Seq::<Message>::empty(),
                scroll_pos: 0,
                area_height: 60,
                max_scroll: 0,
            }),
    {
        App {
            input: String::new(),
            messages: Vec::new(),
            messages_scroll_pos: 0,
            messages_area_height: 60,
            width: 80,
            max_scroll: 0,
        }
    }
}

impl App {
    /// Appends a character to the line being typed.
    pub fn push_input_char(&mut self, c: char)
        ensures
            final(self)@ == typed(old(self)@, c),
    {
        push_char(&mut self.input, c);
    }

    /// Removes the last character of the line being typed, if there is one.
    pub fn pop_input(&mut self)
        ensures
            final(self)@ == erased(old(self)@),
    {
        let _ = pop_char(&mut self.input);
    }

    /// Moves the transcript view one line up, stopping at the top.
    pub fn scroll_up(&mut self)
        ensures
            final(self)@ == scrolled_up(old(self)@),
    {
        self.messages_scroll_pos = self.messages_scroll_pos.saturating_sub(1);
    }

    /// Moves the transcript view one line down, but never past `max_scroll`.
    pub fn scroll_down(&mut self)
        requires
            old(self)@.scroll_pos < u16::MAX,
        ensures
            final(self)@ == scrolled_down(old(self)@),
    {
        let next: u16 = self.messages_scroll_pos + 1;
        self.messages_scroll_pos = if next <= self.max_scroll {
            next
        } else {
            self.max_scroll
        };
    }

    /// Hands out the typed line and clears it; `None` when nothing was typed.
    pub fn take_input(&mut self) -> (r: Option<String>)
        ensures
            old(self)@.input.len() == 0 ==> r is None && final(self)@ == old(self)@,
            old(self)@.input.len() > 0 ==> r is Some && r->0@ == old(self)@.input
                && final(self)@ == input_taken(old(self)@),
    {
        if self.input.as_str().is_empty() {
            None
        } else {
            let mut taken = String::new();
            std::mem::swap(&mut taken, &mut self.input);
            Some(taken)
        }
    }

    /// The line being typed.
    pub fn input(&self) -> (r: &str)
        ensures
            r@ == self@.input,
    {
        self.input.as_str()
    }

    /// The transcript, oldest message first.
    pub fn messages(&self) -> (r: &[Message])
        ensures
            r@ == self@.messages,
    {
        self.messages.as_slice()
    }

    /// How many lines the transcript view is scrolled down.
    pub fn scroll_pos(&self) -> (r: u16)
        ensures
            r == self@.scroll_pos,
    {
        self.messages_scroll_pos
    }

    /// The terminal width the interface was last laid out for.
    pub fn width(&self) -> (r: u16)
        ensures
            r == self@.width,
    {
        self.width
    }

    /// The height of the transcript area at the last layout.
    pub fn messages_area_height(&self) -> (r: u16)
        ensures
            r == self@.area_height,
    {
        self.messages_area_height
    }

    /// How far the transcript can be scrolled down.
    pub fn max_scroll(&self) -> (r: u16)
        ensures
            r == self@.max_scroll,
    {
        self.max_scroll
    }

    /// Records the terminal width of a new layout.
    pub fn set_width(&mut self, width: u16)
        ensures
            final(self)@ == (AppView { width, ..old(self)@ }),
    {
        self.width = width;
    }

    /// Records the height of the transcript area and how many rows the
    /// transcript takes (kept as a `u16`, its low 16 bits): the transcript can
    /// be scrolled down by the rows that do not fit.
    pub fn set_messages_area(&mut self, height: u16, transcript_rows: usize)
        ensures
            final(self)@ == (AppView {
                area_height: height,
                max_scroll: if (transcript_rows as u16) > height {
                    ((transcript_rows as u16) - height) as u16
                } else {
                    0
                },
                ..old(self)@
            }),
    {
        self.messages_area_height = height;
        let rows: u16 = transcript_rows as u16;
        self.max_scroll = rows.saturating_sub(height);
    }

    /// Appends a message to the transcript.
    pub fn push_message(&mut self, msg: Message)
        ensures
            final(self)@ == (AppView { messages: old(self)@.messages.push(msg), ..old(self)@ }),
    {
        self.messages.push(msg);
    }
}

} // verus!
