//! What typing a character and deleting it again do together.

use vstd::prelude::*;
use crate::buffer::Buffer;
use crate::window::Window;
use crate::editing::{brace_indent, indent_of, newline_inserted, deleted_forward, backspaced, char_inserted, in_bounds, indented, leading_spaces, outdented, prev_grapheme_start, splice};
use crate::lines::{
    count_nl, line_len, line_of, line_start, num_lines, lemma_count_nl_concat,
    lemma_line_start_after_nl, lemma_line_start_bounds, lemma_line_start_prefix,
    lemma_line_start_strict, lemma_line_start_suffix,
};

verus! {

/// The line feeds before a cursor that lies within line `row` are
/// exactly `row`.
pub(crate) proof fn lemma_row_of_cursor(t: Seq<char>, row: nat, col: nat)
    requires
        row < num_lines(t),
        col <= line_len(t, row),
    ensures
        line_start(t, row) + col <= t.len(),
        count_nl(t.take((line_start(t, row) + col) as int)) == row,
{
    let ls = line_start(t, row);
    let p = ls + col;
    crate::lines::lemma_line_len_bound(t, row);
    let a = t.take(p as int);
    let bb = t.skip(p as int);
    assert(t =~= a + bb);
    lemma_count_nl_concat(a, bb);
    let j = count_nl(a);
    if j < row {
        lemma_line_start_suffix(a, bb, row);
        if bb.len() == 0 {
            assert(a + bb =~= a);
        } else {
            assert(line_start(bb, (row - j) as nat) >= 1);
        }
    } else if j > row {
        lemma_line_start_prefix(a, bb, row + 1);
        lemma_line_start_bounds(a, row + 1);
        lemma_line_start_after_nl(t, row + 1);
        lemma_line_start_strict(t, row);
    }
}

/// Line `row` after a char other than a line feed is inserted at column
/// `col` of it.
proof fn lemma_line_after_insert(t: Seq<char>, row: nat, col: nat, ch: char)
    requires
        ch != '\n',
        row < num_lines(t),
        col <= line_len(t, row),
    ensures
        ({
            let p = line_start(t, row) + col;
            let m = splice(t, p as int, p as int, seq![ch]);
            &&& p <= t.len()
            &&& count_nl(m) == count_nl(t)
            &&& line_start(m, row) == line_start(t, row)
            &&& line_of(m, row) == splice(line_of(t, row), col as int, col as int, seq![ch])
        }),
{
    let ls = line_start(t, row);
    let p = ls + col;
    lemma_row_of_cursor(t, row, col);
    let a = t.take(p as int);
    let bb = t.skip(p as int);
    let cb = seq![ch] + bb;
    let m = splice(t, p as int, p as int, seq![ch]);
    assert(m =~= a + cb);
    assert(t =~= a + bb);
    assert(cb.drop_first() =~= bb);
    assert(count_nl(seq![ch]) == 0) by {
        reveal_with_fuel(count_nl, 2);
        assert(seq![ch].drop_first() =~= Seq::<char>::empty());
    }
    lemma_count_nl_concat(seq![ch], bb);
    lemma_count_nl_concat(a, cb);
    lemma_count_nl_concat(a, bb);
    lemma_line_start_prefix(a, cb, row);
    lemma_line_start_prefix(a, bb, row);
    lemma_line_start_suffix(a, cb, row + 1);
    lemma_line_start_suffix(a, bb, row + 1);
    assert(line_start(cb, 1) == 1 + line_start(bb, 1));
    let e = line_start(t, row + 1);
    assert(line_start(m, row + 1) == e + 1);
    lemma_line_start_bounds(t, row);
    crate::lines::lemma_line_len_bound(t, row);
    let lt = line_of(t, row);
    let lm = line_of(m, row);
    if bb.len() == 0 {
        assert(line_start(bb, 1) == 0);
        assert(m[p as int] == ch);
        if e > ls && t[e - 1] == '\n' {
            assert(lt.len() == e - 1 - ls);
        }
        assert(lt =~= t.subrange(ls as int, p as int));
        assert(lm =~= m.subrange(ls as int, (p + 1) as int));
    } else {
        assert(line_start(bb, 1) >= 1);
        lemma_line_start_bounds(t, row + 1);
        assert(m[e as int] == cb[e - p]);
        assert(cb[e - p] == bb[e - p - 1]);
        assert(m[e as int] == t[e - 1]);
        if t[e - 1] == '\n' {
            assert(lt =~= t.subrange(ls as int, e - 1));
            assert(lm =~= m.subrange(ls as int, e as int));
        } else {
            assert(lt =~= t.subrange(ls as int, e as int));
            assert(lm =~= m.subrange(ls as int, (e + 1) as int));
        }
    }
    assert(lm =~= splice(lt, col as int, col as int, seq![ch]));
}

/// Typing a character other than a line feed and deleting it with
/// backspace gives back the text and the cursor position, when the
/// cursor was within its line and the character starts a grapheme of its
/// own there (a combining mark joins the grapheme before it, which
/// backspace then removes whole).
pub proof fn lemma_backspace_undoes_insert(
    w0: Window,
    b0: Buffer,
    ch: char,
    w1: Window,
    b1: Buffer,
    w2: Window,
    b2: Buffer,
)
    requires
        ch != '\n',
        in_bounds(w0, b0),
        w0.col <= line_len(b0.text(), w0.row as nat),
        w0.col < usize::MAX,
        char_inserted(w0, w1, b0, b1, ch),
        prev_grapheme_start(line_of(b1.text(), w0.row as nat), (w0.col + 1) as nat) == w0.col,
        backspaced(w1, w2, b1, b2),
    ensures
        b2.text() == b0.text(),
        w2.row == w0.row,
        w2.col == w0.col,
{
    let t = b0.text();
    let row = w0.row as nat;
    let col = w0.col as nat;
    lemma_line_after_insert(t, row, col, ch);
    let ls = line_start(t, row);
    let p = ls + col;
    let m = b1.text();
    assert(m == splice(t, p as int, p as int, seq![ch]));
    assert(in_bounds(w1, b1));
    assert(line_len(m, row) == line_len(t, row) + 1);
    assert(crate::editing::clamped_col(m, row, w1.col as nat) == col + 1);
    assert(line_start(m, row) == ls);
    let t2 = splice(m, p as int, (p + 1) as int, Seq::empty());
    assert(t2 =~= t);
}

/// Four spaces put at the start of line `row`: the line count and the
/// line's start stay, the line gains the spaces in front.
proof fn lemma_indent_line(t: Seq<char>, row: nat)
    requires
        row < num_lines(t),
    ensures
        ({
            let p = line_start(t, row);
            let m = splice(t, p as int, p as int, seq![' ', ' ', ' ', ' ']);
            &&& count_nl(m) == count_nl(t)
            &&& line_start(m, row) == p
            &&& line_of(m, row) == seq![' ', ' ', ' ', ' '] + line_of(t, row)
            &&& p <= t.len()
        }),
{
    let p = line_start(t, row);
    lemma_line_after_insert(t, row, 0, ' ');
    let t1 = splice(t, p as int, p as int, seq![' ']);
    lemma_line_after_insert(t1, row, 0, ' ');
    let t2 = splice(t1, p as int, p as int, seq![' ']);
    lemma_line_after_insert(t2, row, 0, ' ');
    let t3 = splice(t2, p as int, p as int, seq![' ']);
    lemma_line_after_insert(t3, row, 0, ' ');
    let t4 = splice(t3, p as int, p as int, seq![' ']);
    assert(t4 =~= splice(t, p as int, p as int, seq![' ', ' ', ' ', ' ']));
    assert(splice(line_of(t, row), 0, 0, seq![' ']) =~= seq![' '] + line_of(t, row));
    assert(splice(line_of(t1, row), 0, 0, seq![' ']) =~= seq![' '] + line_of(t1, row));
    assert(splice(line_of(t2, row), 0, 0, seq![' ']) =~= seq![' '] + line_of(t2, row));
    assert(splice(line_of(t3, row), 0, 0, seq![' ']) =~= seq![' '] + line_of(t3, row));
    assert(line_of(t4, row) =~= seq![' ', ' ', ' ', ' '] + line_of(t, row));
}

/// Outdenting a line just indented gives back the text and the cursor
/// position (off the text both do nothing).
pub proof fn lemma_outdent_undoes_indent(w0: Window, b0: Buffer, w1: Window, b1: Buffer, w2: Window, b2: Buffer)
    requires
        w0.col + 4 <= usize::MAX,
        indented(w0, w1, b0, b1),
        outdented(w1, w2, b1, b2),
    ensures
        b2.text() == b0.text(),
        w2.row == w0.row,
        w2.col == w0.col,
{
    if in_bounds(w0, b0) {
        let t = b0.text();
        let row = w0.row as nat;
        lemma_indent_line(t, row);
        let m = b1.text();
        let l = line_of(t, row);
        let sp = seq![' ', ' ', ' ', ' '];
        assert(line_of(m, row) == sp + l);
        assert(leading_spaces(sp + l) >= 4) by {
            reveal_with_fuel(leading_spaces, 5);
            assert((sp + l).drop_first() =~= seq![' ', ' ', ' '] + l);
            assert((seq![' ', ' ', ' '] + l).drop_first() =~= seq![' ', ' '] + l);
            assert((seq![' ', ' '] + l).drop_first() =~= seq![' '] + l);
            assert((seq![' '] + l).drop_first() =~= l);
        }
        assert(in_bounds(w1, b1));
        let p = line_start(t, row);
        assert(splice(m, p as int, (p + 4) as int, Seq::empty()) =~= t);
    }
}

/// Every char of `s` is ASCII and none is a carriage return.
pub open spec fn ascii_no_cr(s: Seq<char>) -> bool {
    forall|i: int| 0 <= i < s.len() ==> (#[trigger] s[i] as u32) < 0x80 && s[i] != '\r'
}

proof fn lemma_line_ascii(t: Seq<char>, k: nat)
    requires
        ascii_no_cr(t),
    ensures
        ascii_no_cr(line_of(t, k)),
{
    lemma_line_start_bounds(t, k);
    lemma_line_start_bounds(t, k + 1);
    let l = line_of(t, k);
    let a = line_start(t, k);
    assert forall|i: int| 0 <= i < l.len() implies (#[trigger] l[i] as u32) < 0x80 && l[i] != '\r' by {
        assert(l[i] == t[a + i]);
    }
}

/// On ASCII text without carriage returns, typing a printable ASCII char
/// within a line and deleting it with backspace gives back the text and
/// the cursor position.
pub proof fn lemma_backspace_undoes_ascii_insert(
    w0: Window,
    b0: Buffer,
    ch: char,
    w1: Window,
    b1: Buffer,
    w2: Window,
    b2: Buffer,
)
    requires
        0x20 <= (ch as u32) < 0x7f,
        ascii_no_cr(b0.text()),
        in_bounds(w0, b0),
        w0.col <= line_len(b0.text(), w0.row as nat),
        w0.col < usize::MAX,
        char_inserted(w0, w1, b0, b1, ch),
        backspaced(w1, w2, b1, b2),
    ensures
        b2.text() == b0.text(),
        w2.row == w0.row,
        w2.col == w0.col,
{
    let t = b0.text();
    let row = w0.row as nat;
    let col = w0.col as nat;
    lemma_line_after_insert(t, row, col, ch);
    lemma_line_ascii(t, row);
    let l = line_of(t, row);
    let nl = splice(l, col as int, col as int, seq![ch]);
    assert(line_of(b1.text(), row) == nl);
    assert(ascii_no_cr(nl)) by {
        assert forall|i: int| 0 <= i < nl.len() implies (#[trigger] nl[i] as u32) < 0x80 && nl[i] != '\r' by {
            if i < col {
                assert(nl[i] == l[i]);
            } else if i > col {
                assert(nl[i] == l[i - 1]);
            }
        }
    }
    assert(crate::unicode::plain_ascii(nl));
    assert(line_len(b1.text(), row) == line_len(t, row) + 1);
    assert(crate::editing::clamped_col(b1.text(), row, w1.col as nat) == col + 1);
    assert(prev_grapheme_start(line_of(b1.text(), row), (col + 1) as nat) == col);
    lemma_backspace_undoes_insert(w0, b0, ch, w1, b1, w2, b2);
}

/// On ASCII text without carriage returns, deleting forward within a
/// line removes exactly the char at the cursor.
pub proof fn lemma_ascii_delete_forward(w0: Window, b0: Buffer, w1: Window, b1: Buffer)
    requires
        ascii_no_cr(b0.text()),
        in_bounds(w0, b0),
        w0.col < line_len(b0.text(), w0.row as nat),
        deleted_forward(w0, w1, b0, b1),
    ensures
        ({
            let t = b0.text();
            let p = line_start(t, w0.row as nat) + w0.col;
            b1.text() == t.take(p as int) + t.skip(p + 1)
        }),
        w1.row == w0.row,
        w1.col == w0.col,
{
    let t = b0.text();
    let row = w0.row as nat;
    lemma_line_ascii(t, row);
    let l = line_of(t, row);
    assert(crate::unicode::plain_ascii(l));
    let p = line_start(t, row) + w0.col;
    assert(splice(t, p as int, (p + 1) as int, Seq::empty()) =~= t.take(p as int) + t.skip(p + 1));
}

/// Enter after an opening brace indents the new line four spaces more
/// than the old one: four spaces come exactly when the text before the
/// cursor, trailing blanks dropped, ends with `{`; the cursor lands just
/// after the new line's indentation.
pub proof fn lemma_newline_indent(w0: Window, b0: Buffer, w1: Window, b1: Buffer)
    requires
        in_bounds(w0, b0),
        w0.row < usize::MAX,
        indent_of(line_of(b0.text(), w0.row as nat)).len() + 4 <= usize::MAX,
        newline_inserted(w0, w1, b0, b1),
    ensures
        ({
            let t = b0.text();
            let row = w0.row as nat;
            let line = line_of(t, row);
            let c = crate::editing::clamped_col(t, row, w0.col as nat);
            let bt = crate::text::trim_end_ws(line.take(c as int));
            let opens = bt.len() > 0 && bt[bt.len() - 1] == '{';
            &&& w1.row == w0.row + 1
            &&& opens ==> brace_indent(bt) == seq![' ', ' ', ' ', ' '] && w1.col == indent_of(line).len() + 4
            &&& !opens ==> brace_indent(bt).len() == 0 && w1.col == indent_of(line).len()
        }),
{
}

} // verus!
