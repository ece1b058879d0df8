//! A minimal line-based text editor core: a document buffer holding the text
//! as a sequence of lines, and the dispatch state machine that maps input
//! events to buffer mutations and cursor movement.
//!
//! All file and terminal I/O lives outside this crate; the library works on
//! plain values (line contents, cursor coordinates, the text to be written on
//! a save) and states exactly how each operation transforms them.

use vstd::prelude::*;

pub mod buffer;
pub mod editor;
pub mod laws;
pub mod render;
pub mod text;

verus! {

/// Clamp a cursor column to the length of a line, as vertical cursor movement
/// requires: the column keeps its value when the destination line is long
/// enough and otherwise snaps to the line's end.
pub fn clamp_column(col: usize, line_len: usize) -> (r: usize)
    ensures
        r == if col <= line_len {
            col as int
        } else {
            line_len as int
        },
{
    if col <= line_len {
        col
    } else {
        line_len
    }
}

} // verus!
