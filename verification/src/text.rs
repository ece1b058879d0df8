//! The text model: how a document's flat character content relates to the
//! buffer's sequence of lines.
//!
//! Loading cuts the content at every newline character and drops the final
//! empty segment (the one a trailing newline, or empty content, produces).
//! Saving joins the lines back, terminating every line — the last one
//! included — with a newline. Loading what a save produced gives the lines
//! back unchanged, so saving twice writes the same text twice.

use vstd::prelude::*;
use vstd::string::StrSliceExecFns;

verus! {

/// A line of the document: a sequence of characters with no embedded newline.
pub open spec fn line_ok(l: Seq<char>) -> bool {
    forall|i: int| 0 <= i < l.len() ==> l[i] != '\n'
}

/// Every line of the sequence is newline-free.
pub open spec fn all_lines_ok(lines: Seq<Seq<char>>) -> bool {
    forall|i: int| 0 <= i < lines.len() ==> line_ok(#[trigger] lines[i])
}

/// Cut a text at every newline character. The result always has one more
/// segment than the text has newlines; in particular empty text gives one
/// empty segment.
pub open spec fn split_segments(text: Seq<char>) -> Seq<Seq<char>>
    decreases text.len(),
{
    if text.len() == 0 {
        seq![Seq::<char>::empty()]
    } else if text.last() == '\n' {
        split_segments(text.drop_last()).push(Seq::<char>::empty())
    } else {
        let prev = split_segments(text.drop_last());
        prev.update(prev.len() - 1, prev.last().push(text.last()))
    }
}

/// The lines a content splits into: the newline-separated segments, with the
/// trailing empty segment (from a trailing newline, or from empty content)
/// dropped.
pub open spec fn content_lines(text: Seq<char>) -> Seq<Seq<char>> {
    let segs = split_segments(text);
    if segs.last().len() == 0 {
        segs.drop_last()
    } else {
        segs
    }
}

/// The line sequence of a freshly loaded buffer: the content's lines, except
/// that a content with no lines at all loads as one empty line.
pub open spec fn loaded_lines(text: Seq<char>) -> Seq<Seq<char>> {
    if content_lines(text).len() == 0 {
        seq![Seq::<char>::empty()]
    } else {
        content_lines(text)
    }
}

/// The text a buffer saves as: every line followed by a newline.
pub open spec fn join_lines(lines: Seq<Seq<char>>) -> Seq<char>
    decreases lines.len(),
{
    if lines.len() == 0 {
        Seq::<char>::empty()
    } else {
        join_lines(lines.drop_last()) + lines.last() + seq!['\n']
    }
}

pub proof fn lemma_split_segments_len(text: Seq<char>)
    ensures
        split_segments(text).len() >= 1,
    decreases text.len(),
{
    if text.len() != 0 {
        lemma_split_segments_len(text.drop_last());
    }
}

/// Every segment the split produces is newline-free.
pub proof fn lemma_split_segments_ok(text: Seq<char>)
    ensures
        all_lines_ok(split_segments(text)),
    decreases text.len(),
{
    if text.len() == 0 {
        assert(line_ok(Seq::<char>::empty()));
    } else if text.last() == '\n' {
        lemma_split_segments_ok(text.drop_last());
        assert(line_ok(Seq::<char>::empty()));
    } else {
        lemma_split_segments_ok(text.drop_last());
        lemma_split_segments_len(text.drop_last());
        let prev = split_segments(text.drop_last());
        assert(line_ok(prev.last().push(text.last())));
    }
}

/// The split's last segment is empty exactly when the text is empty or ends
/// with a newline.
pub proof fn lemma_split_last_segment(text: Seq<char>)
    ensures
        split_segments(text).last().len() == 0 <==> (text.len() == 0 || text.last() == '\n'),
{
    if text.len() != 0 && text.last() != '\n' {
        lemma_split_segments_len(text.drop_last());
    }
}

/// Joining the raw segments of a text restores the text, with one newline
/// appended.
pub proof fn lemma_join_split(text: Seq<char>)
    ensures
        join_lines(split_segments(text)) == text.push('\n'),
    decreases text.len(),
{
    if text.len() == 0 {
        let segs = split_segments(text);
        assert(segs.drop_last() =~= Seq::<Seq<char>>::empty());
        assert(join_lines(Seq::<Seq<char>>::empty()) == Seq::<char>::empty());
        assert(join_lines(segs) == join_lines(segs.drop_last()) + segs.last() + seq!['\n']);
        assert(join_lines(segs) =~= text.push('\n'));
    } else if text.last() == '\n' {
        lemma_join_split(text.drop_last());
        let prev = split_segments(text.drop_last());
        let segs = prev.push(Seq::<char>::empty());
        assert(segs.drop_last() =~= prev);
        assert(segs.last() == Seq::<char>::empty());
        assert(join_lines(segs) == join_lines(prev) + segs.last() + seq!['\n']);
        assert(text =~= text.drop_last().push('\n'));
        assert(join_lines(segs) =~= text.push('\n'));
    } else {
        lemma_join_split(text.drop_last());
        lemma_split_segments_len(text.drop_last());
        let t = text.drop_last();
        let c = text.last();
        let prev = split_segments(t);
        let segs = prev.update(prev.len() - 1, prev.last().push(c));
        assert(segs.drop_last() =~= prev.drop_last());
        assert(segs.last() == prev.last().push(c));
        // The induction hypothesis, with the final newline peeled off both
        // sides, gives the joined prefix.
        assert(join_lines(prev) == t.push('\n'));
        assert(join_lines(prev.drop_last()) + prev.last() =~= t) by {
            assert((join_lines(prev.drop_last()) + prev.last() + seq!['\n']).drop_last() =~= join_lines(
                prev.drop_last(),
            ) + prev.last());
            assert(t.push('\n').drop_last() =~= t);
        }
        assert(join_lines(segs) == join_lines(segs.drop_last()) + segs.last() + seq!['\n']);
        assert(join_lines(segs.drop_last()) == join_lines(prev.drop_last()));
        assert(join_lines(prev.drop_last()) + prev.last().push(c) =~= t.push(c));
        assert(text =~= t.push(c));
        assert(join_lines(segs) =~= text.push('\n'));
    }
}

/// Loading a content and saving it back reproduces the content exactly,
/// except that a missing trailing newline is added (empty content saves as a
/// single newline, the one empty line it loads as).
pub proof fn lemma_load_save_round_trip(text: Seq<char>)
    ensures
        join_lines(loaded_lines(text)) == if text.len() > 0 && text.last() == '\n' {
            text
        } else {
            text.push('\n')
        },
{
    lemma_join_split(text);
    lemma_split_segments_len(text);
    lemma_split_last_segment(text);
    let segs = split_segments(text);
    if segs.last().len() == 0 {
        if segs.len() == 1 {
            // One empty segment: only empty text splits so, and it loads as
            // one empty line, which saves as a single newline.
            if text.len() != 0 {
                lemma_split_segments_len(text.drop_last());
                assert(false);
            }
            assert(content_lines(text).len() == 0);
            let one = seq![Seq::<char>::empty()];
            assert(one.drop_last() =~= Seq::<Seq<char>>::empty());
            assert(join_lines(loaded_lines(text)) =~= text.push('\n'));
        } else {
            // Trailing newline: the empty last segment is dropped and the
            // join restores the text exactly.
            assert(content_lines(text) == segs.drop_last());
            assert(content_lines(text).len() >= 1);
            assert(join_lines(segs) == join_lines(segs.drop_last()) + segs.last() + seq!['\n']);
            assert(join_lines(segs.drop_last()) + segs.last() =~= join_lines(segs.drop_last()));
            assert(join_lines(segs.drop_last()) =~= text) by {
                assert((join_lines(segs.drop_last()) + seq!['\n']).drop_last() =~= join_lines(
                    segs.drop_last(),
                ));
                assert(join_lines(segs.drop_last()) + segs.last() + seq!['\n'] =~= join_lines(
                    segs.drop_last(),
                ) + seq!['\n']);
                assert(text.push('\n').drop_last() =~= text);
            }
        }
    }
}

/// Appending newline-free characters to a text extends its split's last
/// segment by those characters and changes nothing else.
pub proof fn lemma_split_append_line(t: Seq<char>, l: Seq<char>)
    requires
        line_ok(l),
    ensures
        split_segments(t + l) == {
            let segs = split_segments(t);
            segs.update(segs.len() - 1, segs.last() + l)
        },
    decreases l.len(),
{
    lemma_split_segments_len(t);
    let segs = split_segments(t);
    if l.len() == 0 {
        assert(t + l =~= t);
        assert(segs.last() + l =~= segs.last());
        assert(segs.update(segs.len() - 1, segs.last() + l) =~~= segs);
    } else {
        lemma_split_append_line(t, l.drop_last());
        let c = l.last();
        assert(c != '\n');
        assert((t + l).len() > 0);
        assert((t + l).last() == c);
        assert((t + l).drop_last() =~= t + l.drop_last());
        let mid = segs.update(segs.len() - 1, segs.last() + l.drop_last());
        assert(split_segments(t + l.drop_last()) == mid);
        assert(split_segments(t + l) == mid.update(mid.len() - 1, mid.last().push(c)));
        assert(mid.last().push(c) =~= segs.last() + l);
        assert(mid.update(mid.len() - 1, mid.last().push(c)) =~~= segs.update(
            segs.len() - 1,
            segs.last() + l,
        ));
    }
}

/// Splitting a joined line sequence gives the lines back, with one empty
/// trailing segment from the final newline.
pub proof fn lemma_split_join(lines: Seq<Seq<char>>)
    requires
        all_lines_ok(lines),
    ensures
        split_segments(join_lines(lines)) == lines.push(Seq::<char>::empty()),
    decreases lines.len(),
{
    if lines.len() == 0 {
        assert(join_lines(lines).len() == 0);
        assert(split_segments(join_lines(lines)) =~~= lines.push(Seq::<char>::empty()));
    } else {
        let rest = lines.drop_last();
        let l = lines.last();
        assert(all_lines_ok(rest));
        lemma_split_join(rest);
        assert(line_ok(l));
        lemma_split_append_line(join_lines(rest), l);
        let segs = split_segments(join_lines(rest));
        assert(segs == rest.push(Seq::<char>::empty()));
        assert(segs.last() =~= Seq::<char>::empty());
        assert(segs.last() + l =~= l);
        assert(segs.update(segs.len() - 1, segs.last() + l) =~~= rest.push(l));
        assert(split_segments(join_lines(rest) + l) == rest.push(l));
        let text = join_lines(lines);
        assert(text == join_lines(rest) + l + seq!['\n']);
        assert(text.len() > 0);
        assert(text.last() == '\n');
        assert(text.drop_last() =~= join_lines(rest) + l);
        assert(split_segments(text) == rest.push(l).push(Seq::<char>::empty()));
        assert(rest.push(l) =~~= lines);
    }
}

/// Loading the text a buffer saved gives exactly the buffer's lines back: a
/// second save writes the same text again.
pub proof fn lemma_load_after_save(lines: Seq<Seq<char>>)
    requires
        lines.len() >= 1,
        all_lines_ok(lines),
    ensures
        loaded_lines(join_lines(lines)) == lines,
{
    lemma_split_join(lines);
    let segs = split_segments(join_lines(lines));
    assert(segs.last().len() == 0);
    assert(segs.drop_last() =~~= lines);
}

/// The loaded form of any content is a well-formed line sequence: at least
/// one line, none with an embedded newline.
pub proof fn lemma_loaded_lines_wf(text: Seq<char>)
    ensures
        loaded_lines(text).len() >= 1,
        all_lines_ok(loaded_lines(text)),
{
    lemma_split_segments_ok(text);
    lemma_split_segments_len(text);
    let segs = split_segments(text);
    assert(line_ok(Seq::<char>::empty()));
    if content_lines(text).len() != 0 {
        assert forall|i: int| 0 <= i < loaded_lines(text).len() implies line_ok(
            #[trigger] loaded_lines(text)[i],
        ) by {
            assert(loaded_lines(text)[i] == segs[i]);
        }
    }
}

/// The characters of a string slice, in order.
pub(crate) fn str_chars(s: &str) -> (r: Vec<char>)
    ensures
        r@ == s@,
{
    let n = s.unicode_len();
    let mut r: Vec<char> = Vec::new();
    let mut i: usize = 0;
    while i < n
        invariant
            n == s@.len(),
            i <= n,
            r@ =~= s@.take(i as int),
        decreases n - i,
    {
        r.push(s.get_char(i));
        i = i + 1;
    }
    proof {
        assert(r@ =~= s@);
    }
    r
}

/// Relies on `String: FromIterator<char>`: collecting characters builds the
/// string of exactly those characters in order.
#[verifier::external_body]
pub(crate) fn string_from_chars(cs: &Vec<char>) -> (r: String)
    ensures
        r@ == cs@,
{
    cs.iter().collect()
}

/// Split a content into the lines it loads as.
pub fn split_content(text: &str) -> (r: Vec<Vec<char>>)
    ensures
        r.deep_view() == loaded_lines(text@),
        r@.len() >= 1,
        all_lines_ok(r.deep_view()),
{
    let cs = str_chars(text);
    let n = cs.len();
    let mut done: Vec<Vec<char>> = Vec::new();
    let mut cur: Vec<char> = Vec::new();
    let mut i: usize = 0;
    while i < n
        invariant
            n == cs@.len(),
            cs@ == text@,
            i <= n,
            split_segments(text@.take(i as int)) == done.deep_view().push(cur@),
        decreases n - i,
    {
        let c = cs[i];
        proof {
            let pre = text@.take(i as int);
            let post = text@.take(i + 1);
            assert(post.drop_last() =~= pre);
            assert(post.last() == text@[i as int]);
        }
        if c == '\n' {
            let ghost old_done = done.deep_view();
            let ghost old_cur = cur@;
            done.push(cur);
            cur = Vec::new();
            proof {
                assert(done.deep_view() =~~= old_done.push(old_cur));
                assert(done.deep_view().push(cur@) =~~= old_done.push(old_cur).push(
                    Seq::<char>::empty(),
                ));
            }
        } else {
            let ghost old_cur = cur@;
            cur.push(c);
            proof {
                let segs = done.deep_view().push(old_cur);
                assert(split_segments(text@.take(i + 1)) == segs.update(
                    segs.len() - 1,
                    segs.last().push(c),
                ));
                assert(segs.last() == old_cur);
                assert(segs.update(segs.len() - 1, old_cur.push(c)) =~~= done.deep_view().push(
                    cur@,
                ));
            }
        }
        i = i + 1;
    }
    proof {
        assert(text@.take(n as int) =~= text@);
        lemma_split_segments_ok(text@);
        lemma_split_segments_len(text@);
    }
    let r = if cur.len() == 0 {
        proof {
            let segs = split_segments(text@);
            assert(segs.drop_last() =~~= done.deep_view());
        }
        if done.len() == 0 {
            let mut one: Vec<Vec<char>> = Vec::new();
            one.push(Vec::new());
            proof {
                assert(one.deep_view() =~~= loaded_lines(text@));
            }
            one
        } else {
            done
        }
    } else {
        done.push(cur);
        proof {
            assert(done.deep_view() =~~= split_segments(text@));
        }
        done
    };
    proof {
        lemma_loaded_lines_wf(text@);
    }
    r
}

/// Join a buffer's lines into the text a save writes: every line followed by
/// a newline.
pub fn join_to_chars(lines: &Vec<Vec<char>>) -> (r: Vec<char>)
    ensures
        r@ == join_lines(lines.deep_view()),
{
    let mut out: Vec<char> = Vec::new();
    let n = lines.len();
    let mut i: usize = 0;
    while i < n
        invariant
            n == lines@.len(),
            i <= n,
            out@ == join_lines(lines.deep_view().take(i as int)),
        decreases n - i,
    {
        let line = &lines[i];
        let m = line.len();
        let ghost base = out@;
        let mut j: usize = 0;
        while j < m
            invariant
                m == line@.len(),
                j <= m,
                out@ == base + line@.take(j as int),
            decreases m - j,
        {
            proof {
                assert(line@.take(j + 1) =~= line@.take(j as int).push(line@[j as int]));
            }
            out.push(line[j]);
            j = j + 1;
        }
        out.push('\n');
        proof {
            let dv = lines.deep_view();
            assert(line@.take(m as int) =~= line@);
            assert(line@ == dv[i as int]);
            let t = dv.take(i + 1);
            assert(t.drop_last() =~= dv.take(i as int));
            assert(t.last() == dv[i as int]);
            assert(join_lines(t) == join_lines(dv.take(i as int)) + dv[i as int] + seq!['\n']);
            assert(out@ =~= join_lines(t));
        }
        i = i + 1;
    }
    proof {
        assert(lines.deep_view().take(n as int) =~= lines.deep_view());
    }
    out
}

} // verus!
