//! The document buffer: the ordered lines of text being edited, the file
//! identity they came from, and the dirty and read-only flags.
//!
//! The buffer never holds zero lines: an empty document is one empty line.
//! Every content mutation marks the buffer dirty; only a completed save
//! clears the flag. Saving itself is split in two: `save_plan` decides — no
//! filename, read-only, or the exact text to write — and the caller that
//! performed the write reports back through `mark_saved`.

use vstd::prelude::*;
use crate::text::{
    all_lines_ok,
    join_lines,
    join_to_chars,
    line_ok,
    loaded_lines,
    split_content,
    string_from_chars,
};

verus! {

/// The mathematical content of a buffer: the file identity and lines as
/// character sequences, and the two flags.
#[verifier::ext_equal]
pub struct BufferView {
    pub filename: Option<Seq<char>>,
    pub lines: Seq<Seq<char>>,
    pub modified: bool,
    pub readonly: bool,
}

impl BufferView {
    /// Well-formedness: at least one line, and no line holds a newline.
    pub open spec fn wf(self) -> bool {
        &&& self.lines.len() >= 1
        &&& all_lines_ok(self.lines)
    }
}

/// The identity of an optional file name, as an optional character sequence.
pub open spec fn opt_str_view(o: Option<String>) -> Option<Seq<char>> {
    match o {
        Some(s) => Some(s@),
        None => None,
    }
}

pub struct Buffer {
    pub filename: Option<String>,
    pub lines: Vec<Vec<char>>,
    pub modified: bool,
    pub readonly: bool,
}

impl View for Buffer {
    type V = BufferView;

    open spec fn view(&self) -> BufferView {
        BufferView {
            filename: opt_str_view(self.filename),
            lines: self.lines.deep_view(),
            modified: self.modified,
            readonly: self.readonly,
        }
    }
}

/// What a save attempt amounts to: an informational refusal, or the exact
/// file name and text to write.
pub enum SavePlan {
    NoFilename,
    ReadOnly,
    Write { filename: String, content: String },
}

impl Buffer {
    pub open spec fn wf(&self) -> bool {
        self@.wf()
    }

    /// Build the buffer a load produces: with no content (no path given, or
    /// the file was unreadable) a single empty line, clean and writable;
    /// with content, the lines the content splits into, and the read-only
    /// flag as the file's permissions showed it at this moment.
    pub fn new(filename: Option<String>, content: Option<String>, readonly: bool) -> (b: Buffer)
        ensures
            b@.filename == opt_str_view(filename),
            b@.lines == match content {
                Some(text) => loaded_lines(text@),
                None => seq![Seq::<char>::empty()],
            },
            !b@.modified,
            b@.readonly == (content is Some && readonly),
            b.wf(),
    {
        match content {
            Some(text) => {
                let lines = split_content(text.as_str());
                Buffer { filename, lines, modified: false, readonly }
            },
            None => {
                let mut lines: Vec<Vec<char>> = Vec::new();
                lines.push(Vec::new());
                proof {
                    assert(lines.deep_view() =~~= seq![Seq::<char>::empty()]);
                    assert(line_ok(Seq::<char>::empty()));
                }
                Buffer { filename, lines, modified: false, readonly: false }
            },
        }
    }

    pub fn line_count(&self) -> (n: usize)
        ensures
            n == self@.lines.len(),
    {
        self.lines.len()
    }

    pub fn line_len(&self, row: usize) -> (n: usize)
        requires
            row < self@.lines.len(),
        ensures
            n == self@.lines[row as int].len(),
    {
        self.lines[row].len()
    }

    /// One line's text, for display.
    pub fn line_string(&self, row: usize) -> (r: String)
        requires
            row < self@.lines.len(),
        ensures
            r@ == self@.lines[row as int],
    {
        string_from_chars(&self.lines[row])
    }

    /// The full text a save writes: every line followed by a newline.
    pub fn content_string(&self) -> (r: String)
        ensures
            r@ == join_lines(self@.lines),
    {
        let cs = join_to_chars(&self.lines);
        string_from_chars(&cs)
    }

    /// Insert one character into a line, marking the buffer dirty.
    pub fn insert_char(&mut self, row: usize, col: usize, ch: char)
        requires
            old(self).wf(),
            ch != '\n',
            row < old(self)@.lines.len(),
            col <= old(self)@.lines[row as int].len(),
        ensures
            final(self)@.lines == old(self)@.lines.update(
                row as int,
                old(self)@.lines[row as int].insert(col as int, ch),
            ),
            final(self)@.filename == old(self)@.filename,
            final(self)@.readonly == old(self)@.readonly,
            final(self)@.modified,
            final(self).wf(),
    {
        let ghost old_lines = self.lines.deep_view();
        let ghost old_line = old_lines[row as int];
        let mut line = self.lines.remove(row);
        line.insert(col, ch);
        self.lines.insert(row, line);
        self.modified = true;
        proof {
            let target = old_lines.update(row as int, old_line.insert(col as int, ch));
            old_line.insert_ensures(col as int, ch);
            assert(self.lines.deep_view() =~~= target);
            assert(line_ok(old_line.insert(col as int, ch)));
            assert(all_lines_ok(target));
        }
    }

    /// Remove the character before the given column, marking the buffer
    /// dirty.
    pub fn delete_char(&mut self, row: usize, col: usize)
        requires
            old(self).wf(),
            row < old(self)@.lines.len(),
            1 <= col <= old(self)@.lines[row as int].len(),
        ensures
            final(self)@.lines == old(self)@.lines.update(
                row as int,
                old(self)@.lines[row as int].remove(col - 1),
            ),
            final(self)@.filename == old(self)@.filename,
            final(self)@.readonly == old(self)@.readonly,
            final(self)@.modified,
            final(self).wf(),
    {
        let ghost old_lines = self.lines.deep_view();
        let ghost old_line = old_lines[row as int];
        let mut line = self.lines.remove(row);
        line.remove(col - 1);
        self.lines.insert(row, line);
        self.modified = true;
        proof {
            let target = old_lines.update(row as int, old_line.remove(col - 1));
            old_line.remove_ensures(col - 1);
            assert(self.lines.deep_view() =~~= target);
            assert(line_ok(old_line.remove(col - 1)));
            assert(all_lines_ok(target));
        }
    }

    /// Split a line at a column: the line keeps the part before the column,
    /// and the part from the column on becomes a new line right below it.
    pub fn split_line(&mut self, row: usize, col: usize)
        requires
            old(self).wf(),
            row < old(self)@.lines.len(),
            col <= old(self)@.lines[row as int].len(),
        ensures
            final(self)@.lines == old(self)@.lines.update(
                row as int,
                old(self)@.lines[row as int].take(col as int),
            ).insert(row + 1, old(self)@.lines[row as int].skip(col as int)),
            final(self)@.filename == old(self)@.filename,
            final(self)@.readonly == old(self)@.readonly,
            final(self)@.modified,
            final(self).wf(),
    {
        let ghost old_lines = self.lines.deep_view();
        let ghost old_line = old_lines[row as int];
        let n = self.lines.len();
        assert(row < n);
        let mut line = self.lines.remove(row);
        let rest = line.split_off(col);
        self.lines.insert(row, line);
        self.lines.insert(row + 1, rest);
        self.modified = true;
        proof {
            let target = old_lines.update(row as int, old_line.take(col as int)).insert(
                row + 1,
                old_line.skip(col as int),
            );
            target.insert_ensures(row + 1, old_line.skip(col as int));
            assert(self.lines.deep_view() =~~= target);
            assert(line_ok(old_line.take(col as int)));
            assert(line_ok(old_line.skip(col as int)));
            assert forall|i: int| 0 <= i < target.len() implies line_ok(#[trigger] target[i]) by {
                old_lines.update(row as int, old_line.take(col as int)).insert_ensures(
                    row + 1,
                    old_line.skip(col as int),
                );
            }
        }
    }

    /// Merge a line into the one above it: the upper line takes the lower
    /// line's content, and the lower line disappears.
    pub fn merge_lines(&mut self, row: usize)
        requires
            old(self).wf(),
            1 <= row < old(self)@.lines.len(),
        ensures
            final(self)@.lines == old(self)@.lines.update(
                row - 1,
                old(self)@.lines[row - 1] + old(self)@.lines[row as int],
            ).remove(row as int),
            final(self)@.filename == old(self)@.filename,
            final(self)@.readonly == old(self)@.readonly,
            final(self)@.modified,
            final(self).wf(),
    {
        let ghost old_lines = self.lines.deep_view();
        let mut cur = self.lines.remove(row);
        let mut prev = self.lines.remove(row - 1);
        prev.append(&mut cur);
        self.lines.insert(row - 1, prev);
        self.modified = true;
        proof {
            let merged = old_lines[row - 1] + old_lines[row as int];
            let target = old_lines.update(row - 1, merged).remove(row as int);
            old_lines.update(row - 1, merged).remove_ensures(row as int);
            assert(self.lines.deep_view() =~~= target);
            assert(line_ok(merged));
            assert forall|i: int| 0 <= i < target.len() implies line_ok(#[trigger] target[i]) by {
                old_lines.update(row - 1, merged).remove_ensures(row as int);
            }
        }
    }

    /// Decide what a save amounts to, without touching anything: a buffer
    /// with no identity reports the missing filename, a read-only buffer
    /// refuses, and otherwise the plan carries the exact name and text to
    /// write.
    pub fn save_plan(&self) -> (r: SavePlan)
        ensures
            match r {
                SavePlan::NoFilename => (self@.filename is None),
                SavePlan::ReadOnly => ((self@.filename is Some) && self@.readonly),
                SavePlan::Write { filename, content } => {
                    &&& self@.filename == Some(filename@)
                    &&& !self@.readonly
                    &&& content@ == join_lines(self@.lines)
                },
            },
    {
        match &self.filename {
            None => SavePlan::NoFilename,
            Some(f) => {
                if self.readonly {
                    SavePlan::ReadOnly
                } else {
                    SavePlan::Write { filename: f.clone(), content: self.content_string() }
                }
            },
        }
    }

    /// Record that the planned write completed: the buffer is clean again,
    /// and nothing else changes.
    pub fn mark_saved(&mut self)
        ensures
            final(self)@ == (BufferView { modified: false, ..old(self)@ }),
    {
        self.modified = false;
    }
}

} // verus!
