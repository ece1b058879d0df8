//! The laws the editor keeps, stated over the dispatch state machine and
//! proved once and for all: well-formedness survives every event, typing
//! builds exactly the typed text, split and merge are inverses, and a save
//! that a missing filename or the read-only flag refuses changes nothing and
//! demands no write.

use vstd::prelude::*;
use crate::editor::{step_state, step_effect, EditorView, Effect, Key};
use crate::editor::{msg_no_filename, msg_read_only};

verus! {

/// No event breaks the editor's well-formedness: in particular the buffer
/// never loses its last line, and the cursor stays within the text.
pub proof fn lemma_step_preserves_wf(pre: EditorView, key: Key)
    requires
        pre.wf(),
    ensures
        step_state(pre, key).wf(),
        step_state(pre, key).buf.lines.len() >= 1,
{
    let post = step_state(pre, key);
    let lines = pre.buf.lines;
    let row = pre.row;
    let col = pre.col;
    match key {
        Key::Char(c) => {
            if c != '\n' {
                lines[row].insert_ensures(col, c);
                assert forall|i: int| 0 <= i < post.buf.lines.len() implies crate::text::line_ok(
                    #[trigger] post.buf.lines[i],
                ) by {
                    if i == row {
                        assert(post.buf.lines[i] == lines[row].insert(col, c));
                    } else {
                        assert(post.buf.lines[i] == lines[i]);
                    }
                }
            }
        },
        Key::Enter => {
            let upper = lines[row].take(col);
            let lower = lines[row].skip(col);
            let mid = lines.update(row, upper);
            mid.insert_ensures(row + 1, lower);
            assert forall|i: int| 0 <= i < post.buf.lines.len() implies crate::text::line_ok(
                #[trigger] post.buf.lines[i],
            ) by {
                if i < row + 1 {
                    assert(post.buf.lines[i] == mid[i]);
                } else if i == row + 1 {
                    assert(post.buf.lines[i] == lower);
                } else {
                    assert(post.buf.lines[i] == mid[i - 1]);
                }
            }
        },
        Key::Backspace => {
            if col > 0 {
                lines[row].remove_ensures(col - 1);
                assert forall|i: int| 0 <= i < post.buf.lines.len() implies crate::text::line_ok(
                    #[trigger] post.buf.lines[i],
                ) by {
                    if i == row {
                        assert(post.buf.lines[i] == lines[row].remove(col - 1));
                    } else {
                        assert(post.buf.lines[i] == lines[i]);
                    }
                }
            } else if row > 0 {
                let merged = lines[row - 1] + lines[row];
                let mid = lines.update(row - 1, merged);
                mid.remove_ensures(row);
                assert forall|i: int| 0 <= i < post.buf.lines.len() implies crate::text::line_ok(
                    #[trigger] post.buf.lines[i],
                ) by {
                    if i < row {
                        assert(post.buf.lines[i] == mid[i]);
                    } else {
                        assert(post.buf.lines[i] == mid[i + 1]);
                    }
                }
                assert(post.col == merged.len() - lines[row].len());
            }
        },
        _ => {},
    }
}

/// A sequence of plain character insertions: every key types a character,
/// and none of them a newline.
pub open spec fn is_char_key(k: Key) -> bool {
    k matches Key::Char(c) && c != '\n'
}

pub open spec fn all_char_keys(keys: Seq<Key>) -> bool {
    forall|i: int| 0 <= i < keys.len() ==> is_char_key(#[trigger] keys[i])
}

/// The text a sequence of character keys types, in order.
pub open spec fn typed_text(keys: Seq<Key>) -> Seq<char>
    decreases keys.len(),
{
    if keys.len() == 0 {
        Seq::<char>::empty()
    } else {
        match keys[0] {
            Key::Char(c) => seq![c] + typed_text(keys.drop_first()),
            _ => typed_text(keys.drop_first()),
        }
    }
}

/// The editor state after dispatching a sequence of events in order.
pub open spec fn run_keys(pre: EditorView, keys: Seq<Key>) -> EditorView
    decreases keys.len(),
{
    if keys.len() == 0 {
        pre
    } else {
        run_keys(step_state(pre, keys[0]), keys.drop_first())
    }
}

/// Well-formedness survives any sequence of events: however the editor is
/// driven, the buffer keeps at least one line and the cursor stays in
/// bounds.
pub proof fn lemma_run_keys_preserves_wf(pre: EditorView, keys: Seq<Key>)
    requires
        pre.wf(),
    ensures
        run_keys(pre, keys).wf(),
        run_keys(pre, keys).buf.lines.len() >= 1,
    decreases keys.len(),
{
    if keys.len() != 0 {
        lemma_step_preserves_wf(pre, keys[0]);
        lemma_run_keys_preserves_wf(step_state(pre, keys[0]), keys.drop_first());
    }
}

/// Typing characters with the cursor at the end of the only line appends
/// them to that line, in order, and moves the column past them.
proof fn lemma_typing_extends(pre: EditorView, keys: Seq<Key>)
    requires
        pre.wf(),
        pre.buf.lines.len() == 1,
        pre.row == 0,
        pre.col == pre.buf.lines[0].len(),
        all_char_keys(keys),
    ensures
        run_keys(pre, keys).buf.lines == seq![pre.buf.lines[0] + typed_text(keys)],
        run_keys(pre, keys).row == 0,
        run_keys(pre, keys).col == pre.col + keys.len(),
    decreases keys.len(),
{
    if keys.len() == 0 {
        assert(pre.buf.lines[0] + typed_text(keys) =~= pre.buf.lines[0]);
        assert(seq![pre.buf.lines[0] + typed_text(keys)] =~~= pre.buf.lines);
    } else {
        let k0 = keys[0];
        assert(is_char_key(k0));
        let c = k0->Char_0;
        assert(k0 is Char && c != '\n');
        let mid = step_state(pre, k0);
        lemma_step_preserves_wf(pre, k0);
        pre.buf.lines[0].insert_ensures(pre.col, c);
        assert(mid.buf.lines[0] =~= pre.buf.lines[0].push(c));
        assert(mid.buf.lines =~~= seq![pre.buf.lines[0].push(c)]);
        assert(mid.col == mid.buf.lines[0].len());
        assert(all_char_keys(keys.drop_first())) by {
            assert forall|i: int| 0 <= i < keys.drop_first().len() implies is_char_key(
                #[trigger] keys.drop_first()[i],
            ) by {
                assert(keys.drop_first()[i] == keys[i + 1]);
            }
        }
        lemma_typing_extends(mid, keys.drop_first());
        assert(run_keys(pre, keys) == run_keys(mid, keys.drop_first()));
        assert(typed_text(keys) == seq![c] + typed_text(keys.drop_first()));
        assert(mid.buf.lines[0] + typed_text(keys.drop_first()) =~= pre.buf.lines[0] + typed_text(
            keys,
        ));
        assert(run_keys(pre, keys).buf.lines =~~= seq![pre.buf.lines[0] + typed_text(keys)]);
    }
}

/// Typing any sequence of characters into a fresh empty buffer, with no
/// structural edits, leaves a single line equal to the characters typed in
/// order, with the cursor column equal to their count.
pub proof fn lemma_typing_from_empty(pre: EditorView, keys: Seq<Key>)
    requires
        pre.wf(),
        pre.buf.lines == seq![Seq::<char>::empty()],
        pre.row == 0,
        pre.col == 0,
        all_char_keys(keys),
    ensures
        run_keys(pre, keys).buf.lines == seq![typed_text(keys)],
        run_keys(pre, keys).col == keys.len(),
        run_keys(pre, keys).row == 0,
{
    lemma_typing_extends(pre, keys);
    assert(pre.buf.lines[0] + typed_text(keys) =~= typed_text(keys));
    assert(seq![pre.buf.lines[0] + typed_text(keys)] =~~= seq![typed_text(keys)]);
}

/// Enter followed immediately by Backspace restores the lines and the cursor
/// exactly: splitting a line and merging the two halves back are inverses.
/// Both halves mark the buffer dirty.
pub proof fn lemma_split_merge_inverse(pre: EditorView)
    requires
        pre.wf(),
    ensures
        ({
            let post = step_state(step_state(pre, Key::Enter), Key::Backspace);
            &&& post.buf.lines == pre.buf.lines
            &&& post.row == pre.row
            &&& post.col == pre.col
            &&& post.buf.modified
            &&& post.buf.filename == pre.buf.filename
            &&& post.buf.readonly == pre.buf.readonly
        }),
{
    let lines = pre.buf.lines;
    let row = pre.row;
    let col = pre.col;
    let upper = lines[row].take(col);
    let lower = lines[row].skip(col);
    let mid = step_state(pre, Key::Enter);
    lemma_step_preserves_wf(pre, Key::Enter);
    lines.update(row, upper).insert_ensures(row + 1, lower);
    assert(mid.buf.lines[row] == upper);
    assert(mid.buf.lines[row + 1] == lower);
    assert(mid.row == row + 1 && mid.col == 0);
    let post = step_state(mid, Key::Backspace);
    let merged = mid.buf.lines[row] + mid.buf.lines[row + 1];
    assert(merged =~= lines[row]);
    mid.buf.lines.update(row, merged).remove_ensures(row + 1);
    assert forall|i: int| 0 <= i < post.buf.lines.len() implies post.buf.lines[i] == lines[i] by {
        let withnew = mid.buf.lines.update(row, merged);
        if i < row {
            assert(post.buf.lines[i] == withnew[i]);
            assert(withnew[i] == lines[i]);
        } else if i == row {
            assert(post.buf.lines[i] == withnew[i]);
        } else {
            assert(post.buf.lines[i] == withnew[i + 1]);
            assert(withnew[i + 1] == lines.update(row, upper).insert(row + 1, lower)[i + 1]);
            assert(withnew[i + 1] == lines[i]);
        }
    }
    assert(post.buf.lines =~~= lines);
    assert(post.col == upper.len());
}

/// A save with no filename posts the missing-filename message, leaves the
/// whole editor state otherwise as the cleared dispatch leaves it, and
/// demands no write of the loop: the filesystem is never touched.
pub proof fn lemma_save_without_filename(pre: EditorView)
    requires
        pre.wf(),
        pre.buf.filename is None,
    ensures
        step_effect(pre, Key::Save) == Effect::KeepRunning,
        step_state(pre, Key::Save).msg == msg_no_filename(),
        step_state(pre, Key::Save).buf == pre.buf,
        step_state(pre, Key::Save).row == pre.row,
        step_state(pre, Key::Save).col == pre.col,
{
}

/// A save of a read-only buffer posts the read-only message, changes neither
/// the buffer nor the cursor, and demands no write of the loop: the file on
/// disk stays as it is.
pub proof fn lemma_save_read_only(pre: EditorView)
    requires
        pre.wf(),
        pre.buf.filename is Some,
        pre.buf.readonly,
    ensures
        step_effect(pre, Key::Save) == Effect::KeepRunning,
        step_state(pre, Key::Save).msg == msg_read_only(),
        step_state(pre, Key::Save).buf == pre.buf,
        step_state(pre, Key::Save).row == pre.row,
        step_state(pre, Key::Save).col == pre.col,
{
}

} // verus!



