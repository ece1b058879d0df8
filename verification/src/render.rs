//! What a redraw computes from the editor state: the status line shown below
//! the document, including the decimal rendering of the line count. The
//! actual terminal writes stay outside the library; this module pins down
//! the text they print.

use vstd::prelude::*;
use crate::buffer::{Buffer, BufferView};
use crate::text::{str_chars, string_from_chars};

verus! {

/// The character for one decimal digit.
pub open spec fn digit_char(d: int) -> char {
    if d == 0 {
        '0'
    } else if d == 1 {
        '1'
    } else if d == 2 {
        '2'
    } else if d == 3 {
        '3'
    } else if d == 4 {
        '4'
    } else if d == 5 {
        '5'
    } else if d == 6 {
        '6'
    } else if d == 7 {
        '7'
    } else if d == 8 {
        '8'
    } else {
        '9'
    }
}

/// The decimal representation of a number: most significant digit first, no
/// leading zeros (zero itself is the single digit `0`).
pub open spec fn dec_rep(n: nat) -> Seq<char>
    decreases n,
{
    if n < 10 {
        seq![digit_char(n as int)]
    } else {
        dec_rep(n / 10).push(digit_char((n % 10) as int))
    }
}

fn digit_char_exec(d: usize) -> (c: char)
    requires
        d < 10,
    ensures
        c == digit_char(d as int),
{
    match d {
        0 => '0',
        1 => '1',
        2 => '2',
        3 => '3',
        4 => '4',
        5 => '5',
        6 => '6',
        7 => '7',
        8 => '8',
        _ => '9',
    }
}

/// The decimal digits of a number, most significant first.
pub fn decimal_chars(n: usize) -> (r: Vec<char>)
    ensures
        r@ == dec_rep(n as nat),
{
    let mut m: usize = n;
    let mut out: Vec<char> = Vec::new();
    let d = m % 10;
    out.insert(0, digit_char_exec(d));
    m = m / 10;
    proof {
        assert(Seq::<char>::empty().insert(0, digit_char(d as int)) =~= seq![
            digit_char(d as int),
        ]);
        if m > 0 {
            assert(dec_rep(n as nat) == dec_rep((n as nat) / 10).push(
                digit_char(((n as nat) % 10) as int),
            ));
            assert(dec_rep((m as nat)) + out@ =~= dec_rep(n as nat));
        }
    }
    while m > 0
        invariant
            m > 0 ==> dec_rep(n as nat) == dec_rep(m as nat) + out@,
            m == 0 ==> dec_rep(n as nat) == out@,
        decreases m,
    {
        let d = m % 10;
        let ghost old_out = out@;
        let ghost mm = m as nat;
        out.insert(0, digit_char_exec(d));
        m = m / 10;
        proof {
            assert(old_out.insert(0, digit_char(d as int)) =~= seq![digit_char(d as int)]
                + old_out);
            if mm >= 10 {
                assert(dec_rep(mm) == dec_rep(mm / 10).push(digit_char((mm % 10) as int)));
                assert(dec_rep(mm / 10) + (seq![digit_char((mm % 10) as int)] + old_out) =~= dec_rep(
                    mm,
                ) + old_out);
            } else {
                assert(dec_rep(mm) == seq![digit_char(mm as int)]);
                assert(seq![digit_char((mm % 10) as int)] + old_out =~= dec_rep(mm) + old_out);
            }
        }
    }
    out
}

/// The name the status line shows: the file identity, or the placeholder for
/// an unnamed buffer.
pub open spec fn display_name(filename: Option<Seq<char>>) -> Seq<char> {
    match filename {
        Some(f) => f,
        None => "[No Name]"@,
    }
}

/// The status line: the buffer's name, its line count, and the modified
/// marker when it has unsaved changes.
pub open spec fn status_text_spec(b: BufferView) -> Seq<char> {
    " "@ + display_name(b.filename) + " - "@ + dec_rep(b.lines.len()) + " lines "@ + (if b.modified {
        "(modified)"@
    } else {
        Seq::<char>::empty()
    })
}

fn push_str_chars(out: &mut Vec<char>, s: &str)
    ensures
        final(out)@ == old(out)@ + s@,
{
    let mut cs = str_chars(s);
    out.append(&mut cs);
}

/// The status line a redraw prints for this buffer.
pub fn status_text(buf: &Buffer) -> (r: String)
    ensures
        r@ == status_text_spec(buf@),
{
    let mut cs: Vec<char> = Vec::new();
    push_str_chars(&mut cs, " ");
    match &buf.filename {
        Some(f) => push_str_chars(&mut cs, f.as_str()),
        None => push_str_chars(&mut cs, "[No Name]"),
    }
    push_str_chars(&mut cs, " - ");
    let mut digits = decimal_chars(buf.line_count());
    cs.append(&mut digits);
    push_str_chars(&mut cs, " lines ");
    if buf.modified {
        push_str_chars(&mut cs, "(modified)");
    }
    proof {
        assert(cs@ =~= status_text_spec(buf@));
    }
    string_from_chars(&cs)
}

} // verus!
