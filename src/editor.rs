//! The decisions of the editing session: which buffer operation each
//! keystroke performs, whether the screen must be redrawn, and when the
//! session ends. Reading keys, drawing and writing files are the caller's.

use vstd::prelude::*;
use crate::buffer::{Buffer, BufferView};

verus! {

/// A keystroke, as the session sees it.
#[derive(Clone, Copy, Debug, PartialEq, Eq, Structural)]
pub enum Key {
    /// A character key; `ctrl` tells whether Control was held.
    Char { c: char, ctrl: bool },
    Backspace,
    Enter,
    Left,
    Right,
    Up,
    Down,
    Esc,
    /// Any key the editor does not bind.
    Other,
}

/// What the caller has to do after a keystroke.
#[derive(Clone, Copy, Debug, PartialEq, Eq, Structural)]
pub enum Action {
    /// Nothing beyond placing the terminal cursor at the end of the tick.
    Nothing,
    /// Clear the screen and draw the whole buffer again.
    Redraw,
    /// Write the buffer's contents to its path.
    Save,
    /// Leave the loop.
    Quit,
}

/// Whether the session still takes keys.
#[derive(Clone, Copy, Debug, PartialEq, Eq, Structural)]
pub enum LoopState {
    Running,
    Quitting,
}

/// The key that saves when pressed with Control.
pub const SAVE_KEY: char = 's';

/// The buffer after `key` and what the caller must do, for a running session.
pub open spec fn step(v: BufferView, key: Key) -> (BufferView, Action) {
    match key {
        Key::Char { c, ctrl } => {
            if c == SAVE_KEY && ctrl {
                (v, Action::Save)
            } else if c == '\n' {
                (v, Action::Nothing)
            } else {
                (v.inserted(c), Action::Redraw)
            }
        },
        Key::Backspace => {
            if v.lines.len() == 0 {
                (v, Action::Nothing)
            } else {
                (v.removed(), Action::Redraw)
            }
        },
        Key::Enter => (v.split(), Action::Redraw),
        Key::Left => (v.moved_left(), Action::Nothing),
        Key::Right => (v.moved_right(), Action::Nothing),
        Key::Up => (v.moved_up(), Action::Nothing),
        Key::Down => (v.moved_down(), Action::Nothing),
        Key::Esc => (v, Action::Quit),
        Key::Other => (v, Action::Nothing),
    }
}

/// An editing session: the buffer and whether keys are still taken.
pub struct EventLoop {
    buffer: Buffer,
    state: LoopState,
}

impl EventLoop {
    /// The buffer being edited.
    pub closed spec fn buffer_view(&self) -> BufferView {
        self.buffer@
    }

    /// The session's state.
    pub closed spec fn state(&self) -> LoopState {
        self.state
    }

    /// A running session over `buffer`.
    pub fn new(buffer: Buffer) -> (r: EventLoop)
        requires
            buffer@.wf(),
        ensures
            r.buffer_view() == buffer@,
            r.state() == LoopState::Running,
    {
        EventLoop { buffer, state: LoopState::Running }
    }

    /// Handles one keystroke. A running session applies it to the buffer as
    /// `step` says, and stops on Escape; a stopped one ignores it.
    pub fn dispatch(&mut self, key: Key) -> (r: Action)
        requires
            old(self).buffer_view().wf(),
        ensures
            final(self).buffer_view().wf(),
            old(self).state() == LoopState::Running ==> (final(self).buffer_view(), r) == step(
                old(self).buffer_view(),
                key,
            ),
            old(self).state() == LoopState::Running ==> (final(self).state() == LoopState::Quitting
                <==> key == Key::Esc),
            old(self).state() == LoopState::Quitting ==> final(self).buffer_view()
                == old(self).buffer_view() && final(self).state() == LoopState::Quitting && r
                == Action::Nothing,
    {
        if let LoopState::Quitting = self.state {
            return Action::Nothing;
        }
        match key {
            Key::Char { c, ctrl } => {
                if c == SAVE_KEY && ctrl {
                    Action::Save
                } else if c == '\n' {
                    Action::Nothing
                } else {
                    self.buffer.insert_char(c);
                    Action::Redraw
                }
            },
            Key::Backspace => {
                if self.buffer.line_count() == 0 {
                    Action::Nothing
                } else {
                    self.buffer.remove_char();
                    Action::Redraw
                }
            },
            Key::Enter => {
                self.buffer.new_line();
                Action::Redraw
            },
            Key::Left => {
                self.buffer.move_left();
                Action::Nothing
            },
            Key::Right => {
                self.buffer.move_right();
                Action::Nothing
            },
            Key::Up => {
                self.buffer.move_up();
                Action::Nothing
            },
            Key::Down => {
                self.buffer.move_down();
                Action::Nothing
            },
            Key::Esc => {
                self.state = LoopState::Quitting;
                Action::Quit
            },
            Key::Other => Action::Nothing,
        }
    }

    /// Whether the session still takes keys.
    pub fn is_running(&self) -> (r: bool)
        ensures
            r <==> self.state() == LoopState::Running,
    {
        match self.state {
            LoopState::Running => true,
            LoopState::Quitting => false,
        }
    }

    /// The buffer being edited.
    pub fn buffer(&self) -> (r: &Buffer)
        ensures
            r@ == self.buffer_view(),
    {
        &self.buffer
    }
}

} // verus!
