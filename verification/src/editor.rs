//! The editor state machine: a buffer, a cursor, the transient status
//! message, and the pending quit confirmation, driven one input event at a
//! time.
//!
//! `dispatch` maps an input event to the buffer mutation or cursor movement
//! the event calls for and reports what the surrounding loop must do next:
//! keep running, stop, or write a file. The whole transition is the spec
//! function `step_state`, and the loop's obligation is `step_effect`; the
//! contract of `dispatch` is exactly those two functions.

use vstd::prelude::*;
use vstd::string::StringExecFns;
use crate::buffer::{Buffer, BufferView, SavePlan};
use crate::clamp_column;
use crate::text::join_lines;

verus! {

/// One input event, as the dispatch table distinguishes them: the quit key,
/// the save and interrupt shortcuts, a typed character, the structural and
/// movement keys, and everything else (ignored).
#[derive(Clone, Copy)]
pub enum Key {
    Quit,
    Save,
    Interrupt,
    Char(char),
    Enter,
    Backspace,
    Left,
    Right,
    Up,
    Down,
    Other,
}

/// What the surrounding loop must do after one dispatch: keep running, stop,
/// or write this content to this file (and report back through
/// `Editor::confirm_saved`).
pub enum Action {
    Continue,
    Exit,
    Write { filename: String, content: String },
}

/// The mathematical content of an `Action`.
pub enum Effect {
    KeepRunning,
    Stop,
    Write { filename: Seq<char>, content: Seq<char> },
}

impl View for Action {
    type V = Effect;

    open spec fn view(&self) -> Effect {
        match self {
            Action::Continue => Effect::KeepRunning,
            Action::Exit => Effect::Stop,
            Action::Write { filename, content } => Effect::Write {
                filename: filename@,
                content: content@,
            },
        }
    }
}

/// The mathematical content of the editor state.
#[verifier::ext_equal]
pub struct EditorView {
    pub buf: BufferView,
    pub row: int,
    pub col: int,
    pub msg: Seq<char>,
    pub pending_quit: bool,
}

impl EditorView {
    /// Well-formedness: the buffer is well-formed, the cursor row addresses
    /// a line, and the column lies within that line (one past its last
    /// character at most).
    pub open spec fn wf(self) -> bool {
        &&& self.buf.wf()
        &&& 0 <= self.row < self.buf.lines.len()
        &&& 0 <= self.col <= self.buf.lines[self.row].len()
    }
}

/// The warning shown on the first quit attempt with unsaved changes.
pub open spec fn quit_warning() -> Seq<char> {
    "Modified. Press q again to quit without saving or s to save."@
}

/// The informational message for a save without a filename.
pub open spec fn msg_no_filename() -> Seq<char> {
    "No filename"@
}

/// The informational message for a save of a read-only buffer.
pub open spec fn msg_read_only() -> Seq<char> {
    "File is read-only"@
}

/// The confirmation shown after a completed save.
pub open spec fn msg_saved() -> Seq<char> {
    "Saved"@
}

/// The editor state after dispatching one event, per the dispatch table.
/// Every event first clears the transient message and the pending quit
/// confirmation; the quit key with a dirty buffer then posts the warning and
/// arms the confirmation, a refused save posts its message, a typed
/// character, Enter and Backspace mutate the buffer and mark it dirty, and
/// the arrow keys move the cursor within bounds.
pub open spec fn step_state(pre: EditorView, key: Key) -> EditorView {
    let cleared = EditorView { msg: Seq::<char>::empty(), pending_quit: false, ..pre };
    match key {
        Key::Quit => {
            if pre.buf.modified && !pre.pending_quit {
                EditorView { msg: quit_warning(), pending_quit: true, ..pre }
            } else {
                cleared
            }
        },
        Key::Save => {
            match pre.buf.filename {
                None => EditorView { msg: msg_no_filename(), ..cleared },
                Some(_) => {
                    if pre.buf.readonly {
                        EditorView { msg: msg_read_only(), ..cleared }
                    } else {
                        cleared
                    }
                },
            }
        },
        Key::Interrupt => cleared,
        Key::Char(c) => {
            if c == '\n' {
                cleared
            } else {
                EditorView {
                    buf: BufferView {
                        lines: pre.buf.lines.update(
                            pre.row,
                            pre.buf.lines[pre.row].insert(pre.col, c),
                        ),
                        modified: true,
                        ..pre.buf
                    },
                    col: pre.col + 1,
                    ..cleared
                }
            }
        },
        Key::Enter => EditorView {
            buf: BufferView {
                lines: pre.buf.lines.update(pre.row, pre.buf.lines[pre.row].take(pre.col)).insert(
                    pre.row + 1,
                    pre.buf.lines[pre.row].skip(pre.col),
                ),
                modified: true,
                ..pre.buf
            },
            row: pre.row + 1,
            col: 0,
            ..cleared
        },
        Key::Backspace => {
            if pre.col > 0 {
                EditorView {
                    buf: BufferView {
                        lines: pre.buf.lines.update(
                            pre.row,
                            pre.buf.lines[pre.row].remove(pre.col - 1),
                        ),
                        modified: true,
                        ..pre.buf
                    },
                    col: pre.col - 1,
                    ..cleared
                }
            } else if pre.row > 0 {
                EditorView {
                    buf: BufferView {
                        lines: pre.buf.lines.update(
                            pre.row - 1,
                            pre.buf.lines[pre.row - 1] + pre.buf.lines[pre.row],
                        ).remove(pre.row),
                        modified: true,
                        ..pre.buf
                    },
                    row: pre.row - 1,
                    col: pre.buf.lines[pre.row - 1].len() as int,
                    ..cleared
                }
            } else {
                cleared
            }
        },
        Key::Left => {
            if pre.col > 0 {
                EditorView { col: pre.col - 1, ..cleared }
            } else if pre.row > 0 {
                EditorView {
                    row: pre.row - 1,
                    col: pre.buf.lines[pre.row - 1].len() as int,
                    ..cleared
                }
            } else {
                cleared
            }
        },
        Key::Right => {
            if pre.col < pre.buf.lines[pre.row].len() {
                EditorView { col: pre.col + 1, ..cleared }
            } else if pre.row + 1 < pre.buf.lines.len() {
                EditorView { row: pre.row + 1, col: 0, ..cleared }
            } else {
                cleared
            }
        },
        Key::Up => {
            if pre.row > 0 {
                EditorView {
                    row: pre.row - 1,
                    col: clamped(pre.col, pre.buf.lines[pre.row - 1].len() as int),
                    ..cleared
                }
            } else {
                cleared
            }
        },
        Key::Down => {
            if pre.row + 1 < pre.buf.lines.len() {
                EditorView {
                    row: pre.row + 1,
                    col: clamped(pre.col, pre.buf.lines[pre.row + 1].len() as int),
                    ..cleared
                }
            } else {
                cleared
            }
        },
        Key::Other => cleared,
    }
}

/// A column clamped to a line length, for vertical movement.
pub open spec fn clamped(col: int, line_len: int) -> int {
    if col <= line_len {
        col
    } else {
        line_len
    }
}

/// What the loop must do after dispatching one event: stop on a clean or
/// confirmed quit and on the interrupt shortcut, write the buffer's text on
/// a save that has a writable file to go to, and keep running otherwise.
pub open spec fn step_effect(pre: EditorView, key: Key) -> Effect {
    match key {
        Key::Quit => {
            if pre.buf.modified && !pre.pending_quit {
                Effect::KeepRunning
            } else {
                Effect::Stop
            }
        },
        Key::Interrupt => Effect::Stop,
        Key::Save => {
            match pre.buf.filename {
                Some(f) => {
                    if pre.buf.readonly {
                        Effect::KeepRunning
                    } else {
                        Effect::Write { filename: f, content: join_lines(pre.buf.lines) }
                    }
                },
                None => Effect::KeepRunning,
            }
        },
        _ => Effect::KeepRunning,
    }
}

pub struct Editor {
    pub buffer: Buffer,
    pub row: usize,
    pub col: usize,
    pub msg: String,
    pub pending_quit: bool,
}

impl View for Editor {
    type V = EditorView;

    open spec fn view(&self) -> EditorView {
        EditorView {
            buf: self.buffer@,
            row: self.row as int,
            col: self.col as int,
            msg: self.msg@,
            pending_quit: self.pending_quit,
        }
    }
}

impl Editor {
    pub open spec fn wf(&self) -> bool {
        self@.wf()
    }

    /// The initial editor state over a freshly loaded buffer: cursor at the
    /// origin, no message, no pending confirmation.
    pub fn new(buffer: Buffer) -> (e: Editor)
        requires
            buffer.wf(),
        ensures
            e@.buf == buffer@,
            e@.row == 0,
            e@.col == 0,
            e@.msg == Seq::<char>::empty(),
            !e@.pending_quit,
            e.wf(),
    {
        Editor { buffer, row: 0, col: 0, msg: String::new(), pending_quit: false }
    }

    /// Dispatch one input event: the state moves exactly as `step_state`
    /// says, and the returned action is exactly what `step_effect` demands
    /// of the loop.
    pub fn dispatch(&mut self, key: Key) -> (a: Action)
        requires
            old(self).wf(),
        ensures
            final(self)@ == step_state(old(self)@, key),
            a@ == step_effect(old(self)@, key),
            final(self).wf(),
    {
        let ghost pre = self@;
        self.msg = String::new();
        let was_pending = self.pending_quit;
        self.pending_quit = false;
        let a = match key {
            Key::Quit => {
                if self.buffer.modified && !was_pending {
                    self.msg = String::from_str(
                        "Modified. Press q again to quit without saving or s to save.",
                    );
                    self.pending_quit = true;
                    Action::Continue
                } else {
                    Action::Exit
                }
            },
            Key::Save => {
                match self.buffer.save_plan() {
                    SavePlan::NoFilename => {
                        self.msg = String::from_str("No filename");
                        Action::Continue
                    },
                    SavePlan::ReadOnly => {
                        self.msg = String::from_str("File is read-only");
                        Action::Continue
                    },
                    SavePlan::Write { filename, content } => Action::Write { filename, content },
                }
            },
            Key::Interrupt => Action::Exit,
            Key::Char(c) => {
                if c == '\n' {
                    Action::Continue
                } else {
                    self.buffer.insert_char(self.row, self.col, c);
                    let new_len = self.buffer.line_len(self.row);
                    assert(self.col < new_len);
                    self.col = self.col + 1;
                    Action::Continue
                }
            },
            Key::Enter => {
                self.buffer.split_line(self.row, self.col);
                let n = self.buffer.line_count();
                assert(self.row < n);
                self.row = self.row + 1;
                self.col = 0;
                Action::Continue
            },
            Key::Backspace => {
                if self.col > 0 {
                    self.buffer.delete_char(self.row, self.col);
                    self.col = self.col - 1;
                } else if self.row > 0 {
                    let plen = self.buffer.line_len(self.row - 1);
                    self.buffer.merge_lines(self.row);
                    self.row = self.row - 1;
                    self.col = plen;
                }
                Action::Continue
            },
            Key::Left => {
                if self.col > 0 {
                    self.col = self.col - 1;
                } else if self.row > 0 {
                    self.row = self.row - 1;
                    self.col = self.buffer.line_len(self.row);
                }
                Action::Continue
            },
            Key::Right => {
                let len = self.buffer.line_len(self.row);
                if self.col < len {
                    self.col = self.col + 1;
                } else {
                    let n = self.buffer.line_count();
                    if self.row + 1 < n {
                        self.row = self.row + 1;
                        self.col = 0;
                    }
                }
                Action::Continue
            },
            Key::Up => {
                if self.row > 0 {
                    self.row = self.row - 1;
                    self.col = clamp_column(self.col, self.buffer.line_len(self.row));
                }
                Action::Continue
            },
            Key::Down => {
                let n = self.buffer.line_count();
                if self.row + 1 < n {
                    self.row = self.row + 1;
                    self.col = clamp_column(self.col, self.buffer.line_len(self.row));
                }
                Action::Continue
            },
            Key::Other => Action::Continue,
        };
        proof {
            assert(self@ =~~= step_state(pre, key));
        }
        a
    }

    /// Record a completed save: the buffer is clean and the confirmation
    /// message is posted. Nothing else changes.
    pub fn confirm_saved(&mut self)
        requires
            old(self).wf(),
        ensures
            final(self)@ == (EditorView {
                buf: BufferView { modified: false, ..old(self)@.buf },
                msg: msg_saved(),
                ..old(self)@
            }),
            final(self).wf(),
    {
        self.buffer.mark_saved();
        self.msg = String::from_str("Saved");
        proof {
            assert(self@ =~~= EditorView {
                buf: BufferView { modified: false, ..old(self)@.buf },
                msg: msg_saved(),
                ..old(self)@
            });
        }
    }
}

} // verus!
