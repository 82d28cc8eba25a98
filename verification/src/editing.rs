//! Text editing operations — grapheme-safe, char-offset implementation.
//!
//! Every function takes `(&mut Window, &mut Buffer)` so that cursor state
//! lives on the Window while text mutations live on the Buffer.
//! `win.col` is strictly a char index (number of chars from line start).

use crate::buffer::{marks_dirty, opt_view, syntax_language_spec, Buffer};
use crate::lines::{
    count_nl, lemma_line_len_bound, lemma_line_start_after_nl, lemma_line_start_bounds,
    lemma_line_start_mono, line_len, line_of, line_start, num_lines,
};
use crate::rope::{rope_chars, rope_char, rope_insert, rope_len_chars, rope_line_to_char, rope_remove};
use crate::text::{
    leading_ws, push_str, string_push, trim_end_crlf, trim_end_crlf_index, trim_end_ws, trim_end_ws_index,
    trim_start_ws, trim_start_ws_index,
};
use crate::visual::{
    char_at_visual, char_idx_from_visual_col, grapheme_width_in_line, line_visual_width,
    visual_col, visual_col_from_char_idx, width_at_walk,
};
use crate::unicode::grapheme_split;
use crate::window::Window;
use vstd::prelude::*;
use vstd::string::StrSliceExecFns;

verus! {

/// Record of a single edit operation for LSP incremental sync.
#[derive(Debug, Clone, Default)]
pub struct Edit {
    pub start: usize,
    pub end: usize,
    pub inserted_text: String,
}

/// `s` with the chars in `start..end` replaced by `ins`.
pub open spec fn splice(s: Seq<char>, start: int, end: int, ins: Seq<char>) -> Seq<char> {
    s.take(start) + ins + s.skip(end)
}

/// `new` is `old` after an edit that left text `t`: marked modified when
/// its kind allows it, nothing else changed.
pub open spec fn after_edit(old: Buffer, new: Buffer, t: Seq<char>) -> bool {
    &&& new.text() == t
    &&& new.modified == (old.modified || marks_dirty(old.kind, old.wgrep_mode))
    &&& new == (Buffer { rope: new.rope, modified: new.modified, ..old })
}

/// As `after_edit`, and the syntax language selected again.
pub open spec fn after_edit_reparsed(old: Buffer, new: Buffer, t: Seq<char>) -> bool {
    &&& new.text() == t
    &&& new.modified == (old.modified || marks_dirty(old.kind, old.wgrep_mode))
    &&& new.language_id matches Some(l) && l@ == syntax_language_spec(
        old.kind,
        old.wgrep_mode,
        opt_view(old.filename),
    )
    &&& new == (Buffer {
        rope: new.rope,
        modified: new.modified,
        language_id: new.language_id,
        ..old
    })
}

/// `new` is `old` with the cursor moved to `(row, col)` and desired
/// column `desired`.
pub open spec fn moved(old: Window, new: Window, row: int, col: int, desired: int) -> bool {
    new == (Window { row: row as usize, col: col as usize, desired_col: desired as usize, ..old })
}

/// Visual column of `(row, col)` in text `t` with tab stops every `tab`.
pub open spec fn vcol_in(t: Seq<char>, row: int, col: int, tab: int) -> int {
    visual_col(line_of(t, row as nat), col as nat, tab as nat) as int
}

/// Is the cursor of `win` on a line of `buf`?
pub open spec fn in_bounds(win: Window, buf: Buffer) -> bool {
    win.row < num_lines(buf.text())
}

/// Char index of the cursor of `win` in the text of `buf`.
pub open spec fn cursor_pos(win: Window, buf: Buffer) -> int {
    line_start(buf.text(), win.row as nat) + win.col
}

fn cursor_in_bounds(win: &Window, buf: &Buffer) -> (b: bool)
    ensures
        b == in_bounds(*win, *buf),
{
    win.row < buf.len_lines()
}

fn desired_for(buf: &Buffer, row: usize, col: usize) -> (d: usize)
    requires
        buf.tab_size > 0,
    ensures
        d == vcol_in(buf.text(), row as int, col as int, buf.tab_size as int),
{
    let line = buf.line_text(row);
    visual_col_from_char_idx(line.as_str(), col, buf.tab_size)
}

/// `(nw, nb)` is `(ow, ob)` after typing `ch`: inserted at the cursor,
/// which moves past it; nothing happens when the cursor is off the text.
pub open spec fn char_inserted(ow: Window, nw: Window, ob: Buffer, nb: Buffer, ch: char) -> bool {
    if !in_bounds(ow, ob) {
        nw == ow && nb == ob
    } else {
        let t = ob.text();
        let p = cursor_pos(ow, ob);
        let t2 = splice(t, p as int, p as int, seq![ch]);
        &&& after_edit_reparsed(ob, nb, t2)
        &&& moved(ow, nw, ow.row as int, ow.col + 1, vcol_in(t2, ow.row as int, ow.col + 1, ob.tab_size as int))
    }
}

pub fn insert_char(win: &mut Window, buf: &mut Buffer, ch: char)
    requires
        old(buf).tab_size > 0,
        in_bounds(*old(win), *old(buf)) ==> cursor_pos(*old(win), *old(buf)) <= old(buf).text().len(),
    ensures
        char_inserted(*old(win), *final(win), *old(buf), *final(buf), ch),
{
    if !cursor_in_bounds(win, buf) {
        return;
    }
    let _ = rope_len_chars(&buf.rope);
    let line_start = rope_line_to_char(&buf.rope, win.row);
    let insert_pos = line_start + win.col;
    let mut ch_str = String::new();
    string_push(&mut ch_str, ch);
    rope_insert(&mut buf.rope, insert_pos, ch_str.as_str());
    let _ = rope_len_chars(&buf.rope);
    proof {
        assert(Seq::<char>::empty().push(ch) =~= seq![ch]);
    }
    win.col = win.col + 1;
    buf.mark_modified();
    buf.parse_syntax();
    win.desired_col = desired_for(buf, win.row, win.col);
}

/// Indent the current line by one level (4 spaces).
/// `(nw, nb)` is `(ow, ob)` after indenting the cursor line by four
/// spaces, the cursor moving with the text; nothing happens off the text.
pub open spec fn indented(ow: Window, nw: Window, ob: Buffer, nb: Buffer) -> bool {
    if !in_bounds(ow, ob) {
        nw == ow && nb == ob
    } else {
        let t = ob.text();
        let p = line_start(t, ow.row as nat);
        let t2 = splice(t, p as int, p as int, seq![' ', ' ', ' ', ' ']);
        &&& after_edit(ob, nb, t2)
        &&& moved(ow, nw, ow.row as int, ow.col + 4, vcol_in(t2, ow.row as int, ow.col + 4, ob.tab_size as int))
    }
}

pub fn indent_line(win: &mut Window, buf: &mut Buffer)
    requires
        old(buf).tab_size > 0,
        in_bounds(*old(win), *old(buf)) ==> old(win).col + 4 <= usize::MAX,
    ensures
        indented(*old(win), *final(win), *old(buf), *final(buf)),
{
    if !cursor_in_bounds(win, buf) {
        return;
    }
    let line_start = rope_line_to_char(&buf.rope, win.row);
    proof {
        lemma_line_start_bounds(buf.text(), win.row as nat);
        reveal_strlit("    ");
    }
    rope_insert(&mut buf.rope, line_start, "    ");
    assert("    "@ =~= seq![' ', ' ', ' ', ' ']);
    win.col = win.col + 4;
    buf.mark_modified();
    win.desired_col = desired_for(buf, win.row, win.col);
}

} // verus!

verus! {

/// Number of `' '` chars at the start of `s`.
pub open spec fn leading_spaces(s: Seq<char>) -> nat
    decreases s.len(),
{
    if s.len() > 0 && s[0] == ' ' {
        1 + leading_spaces(s.drop_first())
    } else {
        0
    }
}

fn count_leading_spaces(v: &Vec<char>) -> (n: usize)
    ensures
        n == leading_spaces(v@),
        n <= v@.len(),
{
    let mut i: usize = 0;
    proof {
        assert(v@.skip(0) =~= v@);
    }
    while i < v.len() && v[i] == ' '
        invariant
            i <= v@.len(),
            leading_spaces(v@) == i + leading_spaces(v@.skip(i as int)),
        decreases v@.len() - i,
    {
        proof {
            assert(v@.skip(i as int).drop_first() =~= v@.skip(i + 1));
        }
        i = i + 1;
    }
    i
}

/// Insert a tab (4 spaces).
pub fn insert_tab(win: &mut Window, buf: &mut Buffer)
    requires
        old(buf).tab_size > 0,
        in_bounds(*old(win), *old(buf)) ==> cursor_pos(*old(win), *old(buf)) <= old(buf).text().len(),
    ensures
        !in_bounds(*old(win), *old(buf)) ==> *final(win) == *old(win) && *final(buf) == *old(buf),
        in_bounds(*old(win), *old(buf)) ==> {
            let t = old(buf).text();
            let p = cursor_pos(*old(win), *old(buf));
            let t2 = splice(t, p, p, seq![' ', ' ', ' ', ' ']);
            &&& after_edit_reparsed(*old(buf), *final(buf), t2)
            &&& moved(
                *old(win),
                *final(win),
                old(win).row as int,
                old(win).col + 4,
                vcol_in(t2, old(win).row as int, old(win).col + 4, old(buf).tab_size as int),
            )
        },
{
    if !cursor_in_bounds(win, buf) {
        return;
    }
    let _ = rope_len_chars(&buf.rope);
    let line_start = rope_line_to_char(&buf.rope, win.row);
    let insert_pos = line_start + win.col;
    proof {
        reveal_strlit("    ");
    }
    rope_insert(&mut buf.rope, insert_pos, "    ");
    let _ = rope_len_chars(&buf.rope);
    assert("    "@ =~= seq![' ', ' ', ' ', ' ']);
    win.col = win.col + 4;
    buf.mark_modified();
    buf.parse_syntax();
    win.desired_col = desired_for(buf, win.row, win.col);
}

/// `nw`, `nb` are `ow`, `ob` after pasting `text` inline at the cursor
/// (kept to its line); nothing changes when the cursor is off the text.
pub open spec fn pasted_inline(ow: Window, nw: Window, ob: Buffer, nb: Buffer, text: Seq<char>) -> bool {
    if !in_bounds(ow, ob) {
        nw == ow && nb == ob
    } else {
        let t = ob.text();
        let row = ow.row as nat;
        let col = if ow.col <= line_len(t, row) {
            ow.col as int
        } else {
            line_len(t, row) as int
        };
        let p = line_start(t, row) + col;
        let t2 = splice(t, p, p, text);
        &&& after_edit_reparsed(ob, nb, t2)
        &&& moved(ow, nw, row as int, col + text.len(), vcol_in(t2, row as int, col + text.len(), ob.tab_size as int))
    }
}

/// `nw`, `nb` are `ow`, `ob` after pasting the lines `text` below the
/// cursor line; nothing changes when the cursor is off the text.
pub open spec fn pasted_below(ow: Window, nw: Window, ob: Buffer, nb: Buffer, text: Seq<char>) -> bool {
    let t = ob.text();
    let row = ow.row as nat;
    let (t1, pos) = below_point(t, row);
    let t2 = splice(t1, pos, pos, text);
    if !in_bounds(ow, ob) {
        nw == ow && nb == ob
    } else {
        &&& after_edit_reparsed(ob, nb, t2)
        &&& moved(ow, nw, (row + 1) as int, 0, 0)
    }
}

/// Paste plain text inline at the cursor position.
pub fn paste_text(win: &mut Window, buf: &mut Buffer, text: &str)
    requires
        old(buf).tab_size > 0,
    ensures
        pasted_inline(*old(win), *final(win), *old(buf), *final(buf), text@),
{
    if !cursor_in_bounds(win, buf) {
        return;
    }
    let _ = rope_len_chars(&buf.rope);
    let line_len = buf.line_char_len(win.row);
    let col = if win.col <= line_len { win.col } else { line_len };
    let line_start = rope_line_to_char(&buf.rope, win.row);
    proof {
        lemma_line_len_bound(buf.text(), win.row as nat);
    }
    let insert_offset = line_start + col;
    let char_count = text.unicode_len();
    rope_insert(&mut buf.rope, insert_offset, text);
    let _ = rope_len_chars(&buf.rope);
    win.col = col + char_count;
    buf.mark_modified();
    buf.parse_syntax();
    win.desired_col = desired_for(buf, win.row, win.col);
}

/// Delete from the cursor to the end of the current line (vim `D`/`d$`).
pub fn delete_to_end_of_line(win: &mut Window, buf: &mut Buffer)
    requires
        old(buf).tab_size > 0,
    ensures
        !in_bounds(*old(win), *old(buf)) || old(win).col >= line_len(
            old(buf).text(),
            old(win).row as nat,
        ) ==> *final(win) == *old(win) && *final(buf) == *old(buf),
        in_bounds(*old(win), *old(buf)) && old(win).col < line_len(
            old(buf).text(),
            old(win).row as nat,
        ) ==> {
            let t = old(buf).text();
            let row = old(win).row as nat;
            let ls = line_start(t, row);
            let t2 = splice(t, ls + old(win).col, (ls + line_len(t, row)) as int, Seq::empty());
            &&& after_edit(*old(buf), *final(buf), t2)
            &&& moved(
                *old(win),
                *final(win),
                row as int,
                old(win).col as int,
                vcol_in(t2, row as int, old(win).col as int, old(buf).tab_size as int),
            )
        },
{
    if !cursor_in_bounds(win, buf) {
        return;
    }
    let _ = rope_len_chars(&buf.rope);
    let line_start = rope_line_to_char(&buf.rope, win.row);
    let line_char_len = buf.line_char_len(win.row);
    if win.col >= line_char_len {
        return;
    }
    proof {
        lemma_line_len_bound(buf.text(), win.row as nat);
    }
    let del_start = line_start + win.col;
    rope_remove(&mut buf.rope, del_start, line_start + line_char_len);
    proof {
        let t = old(buf).text();
        assert(t.take(del_start as int) + Seq::<char>::empty() =~= t.take(del_start as int));
    }
    buf.mark_modified();
    win.desired_col = desired_for(buf, win.row, win.col);
}

/// Outdent the current line by up to one level.
/// `(nw, nb)` is `(ow, ob)` after outdenting the cursor line: up to four
/// leading spaces go, the cursor moving back with the text (not before
/// the line's start); nothing happens off the text or without them.
pub open spec fn outdented(ow: Window, nw: Window, ob: Buffer, nb: Buffer) -> bool {
    let t = ob.text();
    let row = ow.row as nat;
    let n = leading_spaces(line_of(t, row));
    if !in_bounds(ow, ob) || n == 0 {
        nw == ow && nb == ob
    } else {
        let k = if n <= 4 { n } else { 4 };
        let ls = line_start(t, row);
        let t2 = splice(t, ls as int, (ls + k) as int, Seq::empty());
        let col = if ow.col >= k { ow.col - k } else { 0 };
        &&& after_edit(ob, nb, t2)
        &&& moved(ow, nw, row as int, col, vcol_in(t2, row as int, col, ob.tab_size as int))
    }
}

pub fn outdent_line(win: &mut Window, buf: &mut Buffer)
    requires
        old(buf).tab_size > 0,
    ensures
        outdented(*old(win), *final(win), *old(buf), *final(buf)),
{
    if !cursor_in_bounds(win, buf) {
        return;
    }
    let line_text = buf.line_text(win.row);
    let chars = crate::text::chars_of(line_text.as_str());
    let leading_spaces = count_leading_spaces(&chars);
    if leading_spaces > 0 {
        let _ = rope_len_chars(&buf.rope);
        let to_remove = if leading_spaces <= 4 { leading_spaces } else { 4 };
        let line_start = rope_line_to_char(&buf.rope, win.row);
        proof {
            lemma_line_len_bound(buf.text(), win.row as nat);
        }
        rope_remove(&mut buf.rope, line_start, line_start + to_remove);
        proof {
            let t = old(buf).text();
            assert(t.take(line_start as int) + Seq::<char>::empty() =~= t.take(line_start as int));
        }
        win.col = win.col.saturating_sub(to_remove);
        buf.mark_modified();
        win.desired_col = desired_for(buf, win.row, win.col);
    }
}

/// **Tab-aware** visual width of a line in the buffer.
pub fn line_display_width(buf: &Buffer, row: usize) -> (w: usize)
    requires
        buf.tab_size > 0,
    ensures
        w == if row >= num_lines(buf.text()) {
            0
        } else {
            visual_col(line_of(buf.text(), row as nat), line_len(buf.text(), row as nat), buf.tab_size as nat)
        },
{
    if row >= buf.len_lines() {
        return 0;
    }
    let line = buf.line_text(row);
    line_visual_width(line.as_str(), buf.tab_size)
}

/// Put the cursor at the char nearest to visual column
/// `target_visual_col` on its line, remembering that column.
pub fn move_to_display_column(win: &mut Window, buf: &mut Buffer, target_visual_col: usize)
    requires
        old(buf).tab_size > 0,
    ensures
        *final(buf) == *old(buf),
        *final(win) == (Window {
            col: char_at_visual(
                line_of(old(buf).text(), old(win).row as nat),
                target_visual_col as nat,
                old(buf).tab_size as nat,
            ) as usize,
            desired_col: target_visual_col,
            ..*old(win)
        }),
{
    let line_text = buf.line_text(win.row);
    win.col = char_idx_from_visual_col(line_text.as_str(), target_visual_col, buf.tab_size);
    win.desired_col = target_visual_col;
}

/// Returns the visual width of the grapheme at the given char index.
pub fn grapheme_width_at_char(buf: &Buffer, row: usize, char_idx: usize) -> (w: usize)
    requires
        buf.tab_size > 0,
    ensures
        w == if row >= num_lines(buf.text()) {
            1
        } else {
            let line = line_of(buf.text(), row as nat);
            width_at_walk(line, grapheme_split(line), char_idx as nat, buf.tab_size as nat, 0)
        },
{
    if row >= buf.len_lines() {
        return 1;
    }
    let line_text = buf.line_text(row);
    grapheme_width_in_line(line_text.as_str(), char_idx, buf.tab_size)
}

} // verus!

verus! {

/// Start of the grapheme before char index `col`, walking graphemes `gs`
/// from char index `ci` with `prev` the start of the last one passed.
pub open spec fn prev_grapheme_walk(gs: Seq<Seq<char>>, col: nat, ci: nat, prev: nat) -> nat
    decreases gs.len(),
{
    if gs.len() == 0 || ci == col {
        prev
    } else {
        prev_grapheme_walk(gs.drop_first(), col, ci + gs[0].len(), ci)
    }
}

/// Start of the grapheme that ends at char index `col` of `line`.
pub open spec fn prev_grapheme_start(line: Seq<char>, col: nat) -> nat {
    prev_grapheme_walk(grapheme_split(line), col, 0, 0)
}

/// Length of the grapheme that starts at char index `col`, walking from
/// char index `ci`; 1 when none starts there.
pub open spec fn grapheme_len_walk(gs: Seq<Seq<char>>, col: nat, ci: nat) -> nat
    decreases gs.len(),
{
    if gs.len() == 0 {
        1
    } else if ci == col {
        gs[0].len()
    } else {
        grapheme_len_walk(gs.drop_first(), col, ci + gs[0].len())
    }
}

/// Length of the grapheme that starts at char index `col` of `line`.
pub open spec fn grapheme_len_at(line: Seq<char>, col: nat) -> nat {
    grapheme_len_walk(grapheme_split(line), col, 0)
}

/// The cursor column clamped to the length of its line.
pub open spec fn clamped_col(t: Seq<char>, row: nat, col: nat) -> nat {
    if col <= line_len(t, row) {
        col
    } else {
        line_len(t, row)
    }
}

proof fn lemma_skip_step_g(gs: Seq<Seq<char>>, i: int)
    requires
        0 <= i < gs.len(),
    ensures
        gs.skip(i)[0] == gs[i],
        gs.skip(i).drop_first() =~= gs.skip(i + 1),
        gs.skip(i).flatten() =~= gs[i] + gs.skip(i + 1).flatten(),
{
    assert(gs.skip(i).drop_first() =~= gs.skip(i + 1));
}

/// On a run of one-char graphemes, the grapheme that ends at `col` starts
/// just before it.
proof fn lemma_prev_walk_units(gs: Seq<Seq<char>>, col: nat, ci: nat, prev: nat)
    requires
        forall|k: int| 0 <= k < gs.len() ==> (#[trigger] gs[k]).len() == 1,
        ci < col <= ci + gs.len(),
    ensures
        prev_grapheme_walk(gs, col, ci, prev) == col - 1,
    decreases gs.len(),
{
    assert(gs[0].len() == 1);
    if ci + 1 < col {
        assert forall|k: int| 0 <= k < gs.drop_first().len() implies (#[trigger] gs.drop_first()[k]).len() == 1 by {
            assert(gs.drop_first()[k] == gs[k + 1]);
        }
        lemma_prev_walk_units(gs.drop_first(), col, ci + 1, ci);
    } else {
        reveal_with_fuel(prev_grapheme_walk, 2);
    }
}

fn prev_grapheme_start_exec(line: &str, col: usize) -> (p: usize)
    ensures
        p == prev_grapheme_start(line@, col as nat),
        p <= line@.len(),
        crate::unicode::plain_ascii(line@) && 0 < col <= line@.len() ==> prev_grapheme_start(line@, col as nat) == col - 1,
{
    let total = line.unicode_len();
    let gs = crate::unicode::graphemes_of(line);
    let ghost sp = grapheme_split(line@);
    proof {
        assert(gs@.map_values(|x: String| x@) =~= sp);
        assert(sp.skip(0) =~= sp);
    }
    let ghost units = crate::unicode::plain_ascii(line@) && 0 < col <= line@.len() ==> prev_grapheme_start(line@, col as nat) == col - 1;
    proof {
        if crate::unicode::plain_ascii(line@) && 0 < col <= line@.len() {
            let u = crate::unicode::singletons(line@);
            assert(sp == u);
            assert forall|k: int| 0 <= k < u.len() implies (#[trigger] u[k]).len() == 1 by {}
            lemma_prev_walk_units(u, col as nat, 0, 0);
            assert(prev_grapheme_walk(sp, col as nat, 0, 0) == col - 1);
            assert(prev_grapheme_start(line@, col as nat) == col - 1);
        }
        assert(units);
    }
    let mut char_idx: usize = 0;
    let mut prev: usize = 0;
    let mut i: usize = 0;
    while i < gs.len()
        invariant
            sp == grapheme_split(line@),
            gs@.len() == sp.len(),
            forall|k: int| 0 <= k < gs@.len() ==> #[trigger] gs@[k]@ == sp[k],
            i <= gs@.len(),
            total == line@.len(),
            char_idx + sp.skip(i as int).flatten().len() == total,
            prev <= total,
            units,
            prev_grapheme_start(line@, col as nat) == prev_grapheme_walk(
                sp.skip(i as int),
                col as nat,
                char_idx as nat,
                prev as nat,
            ),
        ensures
            prev_grapheme_start(line@, col as nat) == prev,
            prev <= total,
        decreases gs@.len() - i,
    {
        if char_idx == col {
            break;
        }
        proof {
            lemma_skip_step_g(sp, i as int);
        }
        let glen = gs[i].as_str().unicode_len();
        assert(gs@[i as int]@ == sp[i as int]);
        prev = char_idx;
        char_idx = char_idx + glen;
        i = i + 1;
        proof {
            if i == gs@.len() {
                assert(sp.skip(i as int).len() == 0);
            }
        }
    }
    prev
}

/// On a run of one-char graphemes, the grapheme at `col` has one char.
proof fn lemma_len_walk_units(gs: Seq<Seq<char>>, col: nat, ci: nat)
    requires
        forall|k: int| 0 <= k < gs.len() ==> (#[trigger] gs[k]).len() == 1,
        ci <= col < ci + gs.len(),
    ensures
        grapheme_len_walk(gs, col, ci) == 1,
    decreases gs.len(),
{
    assert(gs[0].len() == 1);
    if ci < col {
        assert forall|k: int| 0 <= k < gs.drop_first().len() implies (#[trigger] gs.drop_first()[k]).len() == 1 by {
            assert(gs.drop_first()[k] == gs[k + 1]);
        }
        lemma_len_walk_units(gs.drop_first(), col, ci + 1);
    }
}

fn grapheme_len_at_exec(line: &str, col: usize) -> (n: usize)
    ensures
        n == grapheme_len_at(line@, col as nat),
        col < line@.len() ==> col + n <= line@.len(),
        crate::unicode::plain_ascii(line@) && col < line@.len() ==> n == 1,
{
    let total = line.unicode_len();
    let gs = crate::unicode::graphemes_of(line);
    let ghost sp = grapheme_split(line@);
    proof {
        assert(gs@.map_values(|x: String| x@) =~= sp);
        assert(sp.skip(0) =~= sp);
    }
    let ghost units = crate::unicode::plain_ascii(line@) && col < line@.len() ==> grapheme_len_at(line@, col as nat) == 1;
    proof {
        if crate::unicode::plain_ascii(line@) && col < line@.len() {
            let u = crate::unicode::singletons(line@);
            assert(sp == u);
            assert forall|k: int| 0 <= k < u.len() implies (#[trigger] u[k]).len() == 1 by {}
            lemma_len_walk_units(u, col as nat, 0);
        }
        assert(units);
    }
    let mut char_idx: usize = 0;
    let mut i: usize = 0;
    while i < gs.len()
        invariant
            sp == grapheme_split(line@),
            gs@.len() == sp.len(),
            forall|k: int| 0 <= k < gs@.len() ==> #[trigger] gs@[k]@ == sp[k],
            i <= gs@.len(),
            total == line@.len(),
            units,
            units == (crate::unicode::plain_ascii(line@) && col < line@.len() ==> grapheme_len_at(line@, col as nat) == 1),
            char_idx + sp.skip(i as int).flatten().len() == total,
            grapheme_len_at(line@, col as nat) == grapheme_len_walk(
                sp.skip(i as int),
                col as nat,
                char_idx as nat,
            ),
        decreases gs@.len() - i,
    {
        proof {
            lemma_skip_step_g(sp, i as int);
        }
        let glen = gs[i].as_str().unicode_len();
        assert(gs@[i as int]@ == sp[i as int]);
        if char_idx == col {
            return glen;
        }
        char_idx = char_idx + glen;
        i = i + 1;
    }
    proof {
        assert(sp.skip(i as int).len() == 0);
    }
    1
}

/// `(nw, nb)` is `(ow, ob)` after a backspace: the grapheme before the
/// cursor (clamped to its line) is removed, or at a line's start the line
/// joins the one above; nothing happens at the very start or off the text.
pub open spec fn backspaced(ow: Window, nw: Window, ob: Buffer, nb: Buffer) -> bool {
    let t = ob.text();
    let row = ow.row as nat;
    let c = clamped_col(t, row, ow.col as nat);
    if !in_bounds(ow, ob) || (c == 0 && row == 0) {
        nw == ow && nb == ob
    } else if c > 0 {
        let p = prev_grapheme_start(line_of(t, row), c);
        let ls = line_start(t, row);
        let t2 = splice(t, (ls + p) as int, (ls + c) as int, Seq::empty());
        &&& (crate::unicode::plain_ascii(line_of(t, row)) ==> p == c - 1)
        &&& after_edit_reparsed(ob, nb, t2)
        &&& moved(
            ow,
            nw,
            row as int,
            p as int,
            vcol_in(t2, row as int, p as int, ob.tab_size as int),
        )
    } else {
        let np = line_start(t, row) - 1;
        let t2 = splice(t, np, np + 1, Seq::empty());
        let pl = line_len(t, (row - 1) as nat);
        &&& after_edit_reparsed(ob, nb, t2)
        &&& moved(
            ow,
            nw,
            row - 1,
            pl as int,
            vcol_in(t2, row - 1, pl as int, ob.tab_size as int),
        )
    }
}

pub fn backspace(win: &mut Window, buf: &mut Buffer)
    requires
        old(buf).tab_size > 0,
        in_bounds(*old(win), *old(buf)) ==> prev_grapheme_start(
            line_of(old(buf).text(), old(win).row as nat),
            clamped_col(old(buf).text(), old(win).row as nat, old(win).col as nat),
        ) <= clamped_col(old(buf).text(), old(win).row as nat, old(win).col as nat),
    ensures
        backspaced(*old(win), *final(win), *old(buf), *final(buf)),
{
    if !cursor_in_bounds(win, buf) {
        return;
    }
    let _ = rope_len_chars(&buf.rope);
    let line_len = buf.line_char_len(win.row);
    let col = if win.col <= line_len { win.col } else { line_len };
    proof {
        lemma_line_len_bound(buf.text(), win.row as nat);
    }
    if col > 0 {
        let line_start = rope_line_to_char(&buf.rope, win.row);
        let text = buf.line_text(win.row);
        let prev_char_idx = prev_grapheme_start_exec(text.as_str(), col);
        let start_offset = line_start + prev_char_idx;
        let end_offset = line_start + col;
        rope_remove(&mut buf.rope, start_offset, end_offset);
        proof {
            let t = old(buf).text();
            assert(t.take(start_offset as int) + Seq::<char>::empty() =~= t.take(start_offset as int));
        }
        win.col = prev_char_idx;
        buf.mark_modified();
        buf.parse_syntax();
        win.desired_col = desired_for(buf, win.row, win.col);
    } else if win.row > 0 {
        proof {
            lemma_line_start_after_nl(buf.text(), win.row as nat);
        }
        let newline_pos = rope_line_to_char(&buf.rope, win.row) - 1;
        let prev_line_len = buf.line_char_len(win.row - 1);
        rope_remove(&mut buf.rope, newline_pos, newline_pos + 1);
        proof {
            let t = old(buf).text();
            assert(t.take(newline_pos as int) + Seq::<char>::empty() =~= t.take(newline_pos as int));
        }
        win.row = win.row - 1;
        win.col = prev_line_len;
        buf.mark_modified();
        buf.parse_syntax();
        win.desired_col = desired_for(buf, win.row, win.col);
    }
}

/// Delete the grapheme at the cursor position. Joins lines at line end.
/// `(nw, nb)` is `(ow, ob)` after deleting forward: the grapheme at the
/// cursor (clamped to its line) goes, or at a line's end the next line
/// joins it; nothing happens off the text or at its very end.
pub open spec fn deleted_forward(ow: Window, nw: Window, ob: Buffer, nb: Buffer) -> bool {
    let t = ob.text();
    let row = ow.row as nat;
    let c = clamped_col(t, row, ow.col as nat);
    let ls = line_start(t, row);
    if !in_bounds(ow, ob) {
        nw == ow && nb == ob
    } else if c < line_len(t, row) {
        let t2 = splice(t, (ls + c) as int, (ls + c + grapheme_len_at(line_of(t, row), c)) as int, Seq::empty());
        &&& (crate::unicode::plain_ascii(line_of(t, row)) ==> grapheme_len_at(line_of(t, row), c) == 1)
        &&& after_edit_reparsed(ob, nb, t2)
        &&& moved(
            ow,
            nw,
            row as int,
            ow.col as int,
            vcol_in(t2, row as int, ow.col as int, ob.tab_size as int),
        )
    } else if row + 1 < num_lines(t) {
        let np = line_start(t, row + 1) - 1;
        let t2 = splice(t, np, np + 1, Seq::empty());
        &&& after_edit_reparsed(ob, nb, t2)
        &&& moved(
            ow,
            nw,
            row as int,
            ow.col as int,
            vcol_in(t2, row as int, ow.col as int, ob.tab_size as int),
        )
    } else {
        &&& nb == ob
        &&& moved(
            ow,
            nw,
            row as int,
            ow.col as int,
            vcol_in(t, row as int, ow.col as int, ob.tab_size as int),
        )
    }
}

pub fn delete_char_forward(win: &mut Window, buf: &mut Buffer)
    requires
        old(buf).tab_size > 0,
    ensures
        deleted_forward(*old(win), *final(win), *old(buf), *final(buf)),
{
    if !cursor_in_bounds(win, buf) {
        return;
    }
    let _ = rope_len_chars(&buf.rope);
    let line_len = buf.line_char_len(win.row);
    let col = if win.col <= line_len { win.col } else { line_len };
    proof {
        lemma_line_len_bound(buf.text(), win.row as nat);
    }
    if col < line_len {
        let line_start = rope_line_to_char(&buf.rope, win.row);
        let text = buf.line_text(win.row);
        let grapheme_len = grapheme_len_at_exec(text.as_str(), col);
        let start_offset = line_start + col;
        let end_offset = line_start + col + grapheme_len;
        rope_remove(&mut buf.rope, start_offset, end_offset);
        proof {
            let t = old(buf).text();
            assert(t.take(start_offset as int) + Seq::<char>::empty() =~= t.take(start_offset as int));
        }
        buf.mark_modified();
        buf.parse_syntax();
    } else if win.row < buf.len_lines() - 1 {
        proof {
            lemma_line_start_after_nl(buf.text(), (win.row + 1) as nat);
        }
        let newline_pos = rope_line_to_char(&buf.rope, win.row + 1) - 1;
        rope_remove(&mut buf.rope, newline_pos, newline_pos + 1);
        proof {
            let t = old(buf).text();
            assert(t.take(newline_pos as int) + Seq::<char>::empty() =~= t.take(newline_pos as int));
        }
        buf.mark_modified();
        buf.parse_syntax();
    }
    win.desired_col = desired_for(buf, win.row, win.col);
}

/// Delete the entire current line.
pub fn delete_current_line(win: &mut Window, buf: &mut Buffer)
    requires
        old(buf).tab_size > 0,
    ensures
        ({
            let t = old(buf).text();
            let row = old(win).row as nat;
            if !in_bounds(*old(win), *old(buf)) {
                *final(win) == *old(win) && *final(buf) == *old(buf)
            } else if num_lines(t) <= 1 {
                &&& after_edit(*old(buf), *final(buf), seq!['\n'])
                &&& moved(*old(win), *final(win), row as int, 0, 0)
            } else {
                let t2 = splice(t, line_start(t, row) as int, line_start(t, row + 1) as int, Seq::empty());
                let r2: nat = if row >= num_lines(t2) { (num_lines(t2) - 1) as nat } else { row };
                let c2 = clamped_col(t2, r2, old(win).col as nat);
                &&& after_edit_reparsed(*old(buf), *final(buf), t2)
                &&& moved(
                    *old(win),
                    *final(win),
                    r2 as int,
                    c2 as int,
                    vcol_in(t2, r2 as int, c2 as int, old(buf).tab_size as int),
                )
            }
        }),
{
    if !cursor_in_bounds(win, buf) {
        return;
    }
    if buf.len_lines() <= 1 {
        let n = rope_len_chars(&buf.rope);
        rope_remove(&mut buf.rope, 0, n);
        proof {
            reveal_strlit("\n");
        }
        rope_insert(&mut buf.rope, 0, "\n");
        proof {
            let t = old(buf).text();
            assert(t.take(0) + t.skip(n as int) =~= Seq::<char>::empty());
            assert(buf.text() =~= seq!['\n']);
        }
        win.col = 0;
        win.desired_col = 0;
        buf.mark_modified();
        return;
    }
    let line_start = rope_line_to_char(&buf.rope, win.row);
    let next_line_start = rope_line_to_char(&buf.rope, win.row + 1);
    proof {
        lemma_line_start_bounds(buf.text(), win.row as nat);
        lemma_line_start_bounds(buf.text(), (win.row + 1) as nat);
    }
    rope_remove(&mut buf.rope, line_start, next_line_start);
    proof {
        let t = old(buf).text();
        assert(t.take(line_start as int) + Seq::<char>::empty() =~= t.take(line_start as int));
    }
    let n = buf.len_lines();
    if win.row >= n {
        win.row = n - 1;
    }
    let l = buf.line_char_len(win.row);
    win.col = if win.col <= l { win.col } else { l };
    buf.mark_modified();
    buf.parse_syntax();
    win.desired_col = desired_for(buf, win.row, win.col);
}

} // verus!

verus! {

/// Four spaces when `s` ends with `{`, nothing otherwise.
pub open spec fn brace_indent(s: Seq<char>) -> Seq<char> {
    if s.len() > 0 && s.last() == '{' {
        seq![' ', ' ', ' ', ' ']
    } else {
        Seq::empty()
    }
}

/// The leading whitespace of `s`.
pub open spec fn indent_of(s: Seq<char>) -> Seq<char> {
    s.take(leading_ws(s) as int)
}

/// Text with a line feed added at the end when it has chars and does not
/// already end with one.
pub open spec fn with_final_nl(t: Seq<char>) -> Seq<char> {
    if t.len() > 0 && t.last() != '\n' {
        t.push('\n')
    } else {
        t
    }
}

fn brace_extra(v: &Vec<char>, e: usize) -> (r: bool)
    requires
        e <= v@.len(),
    ensures
        r == (brace_indent(v@.take(e as int)) == seq![' ', ' ', ' ', ' ']),
{
    if e > 0 && v[e - 1] == '{' {
        true
    } else {
        proof {
            assert(brace_indent(v@.take(e as int)) =~= Seq::<char>::empty());
            assert(seq![' ', ' ', ' ', ' '].len() == 4);
        }
        false
    }
}

fn chars_range(v: &Vec<char>, lo: usize, hi: usize) -> (s: String)
    requires
        lo <= hi <= v@.len(),
    ensures
        s@ == v@.subrange(lo as int, hi as int),
{
    let r = vstd::slice::slice_subrange(v.as_slice(), lo, hi);
    crate::text::string_from_chars(r)
}

/// `(nw, nb)` is `(ow, ob)` after Enter: the cursor line is split at the
/// cursor (clamped to the line), trailing blanks before it and leading
/// blanks after it dropped; the new line starts with the old line's
/// indentation, four spaces more after an opening brace, and the cursor
/// goes just after that indentation.  Nothing happens off the text.
pub open spec fn newline_inserted(ow: Window, nw: Window, ob: Buffer, nb: Buffer) -> bool {
    let t = ob.text();
    let row = ow.row as nat;
    let line = line_of(t, row);
    let c = clamped_col(t, row, ow.col as nat);
    let bt = trim_end_ws(line.take(c as int));
    let ind = indent_of(line) + brace_indent(bt);
    let line2 = ind + trim_end_crlf(trim_start_ws(line.skip(c as int)));
    let t2 = splice(
        t,
        line_start(t, row) as int,
        line_start(t, row + 1) as int,
        bt + seq!['\n'] + line2 + seq!['\n'],
    );
    if !in_bounds(ow, ob) {
        nw == ow && nb == ob
    } else {
        &&& after_edit(ob, nb, t2)
        &&& moved(
            ow,
            nw,
            (row + 1) as int,
            ind.len() as int,
            vcol_in(t2, (row + 1) as int, ind.len() as int, ob.tab_size as int),
        )
    }
}

/// Insert a newline at the cursor position, auto-copying indentation.
#[verifier::spinoff_prover]
#[verifier::rlimit(40)]
pub fn insert_newline(win: &mut Window, buf: &mut Buffer)
    requires
        old(buf).tab_size > 0,
    ensures
        newline_inserted(*old(win), *final(win), *old(buf), *final(buf)),
{
    if !cursor_in_bounds(win, buf) {
        return;
    }
    let nl = buf.len_lines();
    let row = win.row;
    let line_text = buf.line_text(row);
    let chars = crate::text::chars_of(line_text.as_str());
    let col = if win.col <= chars.len() { win.col } else { chars.len() };
    let be = trim_end_ws_index(&chars, 0, col);
    let base_n = crate::text::count_leading_ws(&chars);
    proof {
        crate::text::lemma_leading_ws_bound(chars@);
    }
    let mut new_indent = chars_range(&chars, 0, base_n);
    if brace_extra(&chars, be) {
        push_str(&mut new_indent, "    ");
        proof {
            reveal_strlit("    ");
        }
    } else {
        assert(new_indent@ + brace_indent(chars@.take(be as int)) =~= new_indent@);
    }
    let ab = trim_start_ws_index(&chars, col, chars.len());
    let ae = trim_end_crlf_index(&chars, ab, chars.len());
    let mut ins = chars_range(&chars, 0, be);
    string_push(&mut ins, '\n');
    push_str(&mut ins, new_indent.as_str());
    let tail = chars_range(&chars, ab, ae);
    push_str(&mut ins, tail.as_str());
    string_push(&mut ins, '\n');
    let indent_len = new_indent.as_str().unicode_len();
    let start_char = rope_line_to_char(&buf.rope, row);
    let end_char = if row + 1 >= nl {
        rope_len_chars(&buf.rope)
    } else {
        rope_line_to_char(&buf.rope, row + 1)
    };
    proof {
        let t = old(buf).text();
        lemma_line_start_after_nl(t, (row + 1) as nat);
        lemma_line_start_bounds(t, row as nat);
        let line = line_of(t, row as nat);
        assert(chars@.take(col as int).subrange(0, be as int) =~= chars@.subrange(0, be as int));
        assert(chars@.subrange(0, be as int) =~= chars@.take(be as int));
        assert(chars@.take(col as int) =~= chars@.subrange(0, col as int));
        assert(chars@.subrange(col as int, chars@.len() as int) =~= chars@.skip(col as int));
        assert(chars@.subrange(0, base_n as int) =~= indent_of(chars@));
    }
    rope_remove(&mut buf.rope, start_char, end_char);
    rope_insert(&mut buf.rope, start_char, ins.as_str());
    proof {
        let t = old(buf).text();
        assert(t.take(start_char as int) + t.skip(end_char as int) == buf.text() || true);
        assert((t.take(start_char as int) + t.skip(end_char as int)).take(start_char as int) =~= t.take(start_char as int));
        assert((t.take(start_char as int) + t.skip(end_char as int)).skip(start_char as int) =~= t.skip(end_char as int));
    }
    proof {
        let t = old(buf).text();
        let rw = row as nat;
        let line = line_of(t, rw);
        let c = clamped_col(t, rw, old(win).col as nat);
        assert(line == chars@);
        assert(c == col);
        let bt = trim_end_ws(line.take(c as int));
        assert(bt == chars@.subrange(0, be as int));
        let ind = indent_of(line) + brace_indent(bt);
        assert(ind == new_indent@);
        let line2 = ind + trim_end_crlf(trim_start_ws(line.skip(c as int)));
        assert(tail@ == trim_end_crlf(trim_start_ws(line.skip(c as int))));
        assert(ins@ =~= bt + seq!['\n'] + line2 + seq!['\n']);
        assert(buf.text() == splice(t, line_start(t, rw) as int, line_start(t, rw + 1) as int, ins@));
    }
    win.row = row + 1;
    win.col = indent_len;
    let _ = rope_len_chars(&buf.rope);
    win.desired_col = desired_for(buf, win.row, win.col);
    buf.mark_modified();
}

} // verus!

verus! {

/// Char index where a new line goes below row `row` of `t`, and the text
/// once a missing final line feed was added (only when `row` is the last
/// line).
pub open spec fn below_point(t: Seq<char>, row: nat) -> (Seq<char>, int) {
    if row + 1 >= num_lines(t) {
        (with_final_nl(t), with_final_nl(t).len() as int)
    } else {
        (t, line_start(t, row + 1) as int)
    }
}

/// Makes sure the rope ends with a line feed when it has text, then
/// returns the char index just below row `row`.
fn prepare_below(buf: &mut Buffer, row: usize) -> (pos: usize)
    requires
        row < num_lines(old(buf).text()),
    ensures
        final(buf).text() == below_point(old(buf).text(), row as nat).0,
        pos == below_point(old(buf).text(), row as nat).1,
        pos <= final(buf).text().len(),
        *final(buf) == (Buffer { rope: final(buf).rope, ..*old(buf) }),
{
    let nl = buf.len_lines();
    if row + 1 >= nl {
        let last = rope_len_chars(&buf.rope);
        if last > 0 && rope_char(&buf.rope, last - 1) != '\n' {
            proof {
                reveal_strlit("\n");
            }
            rope_insert(&mut buf.rope, last, "\n");
            proof {
                let t = old(buf).text();
                assert(t.take(last as int) + "\n"@ + t.skip(last as int) =~= t.push('\n'));
            }
        }
        rope_len_chars(&buf.rope)
    } else {
        proof {
            lemma_line_start_bounds(buf.text(), (row + 1) as nat);
        }
        rope_line_to_char(&buf.rope, row + 1)
    }
}

pub fn insert_newline_below(win: &mut Window, buf: &mut Buffer)
    requires
        old(buf).tab_size > 0,
    ensures
        ({
            let t = old(buf).text();
            let row = old(win).row as nat;
            let l = crate::patch::trim_nl(line_of(t, row));
            let ind = indent_of(l) + brace_indent(trim_end_ws(l));
            let (t1, pos) = below_point(t, row);
            let t2 = splice(t1, pos, pos, ind + seq!['\n']);
            if !in_bounds(*old(win), *old(buf)) {
                *final(win) == *old(win) && *final(buf) == *old(buf)
            } else {
                &&& after_edit(*old(buf), *final(buf), t2)
                &&& moved(
                    *old(win),
                    *final(win),
                    (row + 1) as int,
                    ind.len() as int,
                    vcol_in(t2, (row + 1) as int, ind.len() as int, old(buf).tab_size as int),
                )
            }
        }),
{
    if !cursor_in_bounds(win, buf) {
        return;
    }
    let nl = buf.len_lines();
    let row = win.row;
    let raw_line = buf.line_text(row);
    let line_text = crate::patch::trim_trailing_newlines(raw_line.as_str());
    let chars = crate::text::chars_of(line_text.as_str());
    let indent_n = crate::text::count_leading_ws(&chars);
    proof {
        crate::text::lemma_leading_ws_bound(chars@);
    }
    let mut new_indent = chars_range(&chars, 0, indent_n);
    let te = trim_end_ws_index(&chars, 0, chars.len());
    proof {
        assert(chars@.subrange(0, chars@.len() as int) =~= chars@);
        assert(chars@.subrange(0, te as int) =~= chars@.take(te as int));
        assert(chars@.subrange(0, indent_n as int) =~= indent_of(chars@));
    }
    if brace_extra(&chars, te) {
        push_str(&mut new_indent, "    ");
        proof {
            reveal_strlit("    ");
        }
    } else {
        assert(new_indent@ + brace_indent(chars@.take(te as int)) =~= new_indent@);
    }
    let mut new_line = String::new();
    push_str(&mut new_line, new_indent.as_str());
    string_push(&mut new_line, '\n');
    let indent_len = new_indent.as_str().unicode_len();
    let insert_pos = prepare_below(buf, row);
    rope_insert(&mut buf.rope, insert_pos, new_line.as_str());
    proof {
        assert(new_line@ =~= new_indent@ + seq!['\n']);
        let t = old(buf).text();
        let l = crate::patch::trim_nl(line_of(t, row as nat));
        assert(l == chars@);
        assert(indent_of(l) + brace_indent(trim_end_ws(l)) == new_indent@);
        let (t1, pos) = below_point(t, row as nat);
        assert(buf.text() == splice(t1, pos, pos, new_indent@ + seq!['\n']));
    }
    win.row = row + 1;
    win.col = indent_len;
    let _ = rope_len_chars(&buf.rope);
    win.desired_col = desired_for(buf, win.row, win.col);
    buf.mark_modified();
}

pub fn insert_newline_above(win: &mut Window, buf: &mut Buffer)
    requires
        old(buf).tab_size > 0,
    ensures
        ({
            let t = old(buf).text();
            let row = old(win).row as nat;
            let ind = indent_of(crate::patch::trim_nl(line_of(t, row)));
            let p = line_start(t, row) as int;
            let t2 = splice(t, p, p, ind + seq!['\n']);
            if !in_bounds(*old(win), *old(buf)) {
                *final(win) == *old(win) && *final(buf) == *old(buf)
            } else {
                &&& after_edit(*old(buf), *final(buf), t2)
                &&& moved(
                    *old(win),
                    *final(win),
                    row as int,
                    ind.len() as int,
                    vcol_in(t2, row as int, ind.len() as int, old(buf).tab_size as int),
                )
            }
        }),
{
    if !cursor_in_bounds(win, buf) {
        return;
    }
    let row = win.row;
    let raw_line = buf.line_text(row);
    let line_text = crate::patch::trim_trailing_newlines(raw_line.as_str());
    let chars = crate::text::chars_of(line_text.as_str());
    let indent_n = crate::text::count_leading_ws(&chars);
    proof {
        crate::text::lemma_leading_ws_bound(chars@);
        assert(chars@.subrange(0, indent_n as int) =~= indent_of(chars@));
    }
    let mut new_line = chars_range(&chars, 0, indent_n);
    string_push(&mut new_line, '\n');
    let insert_pos = rope_line_to_char(&buf.rope, row);
    proof {
        lemma_line_start_bounds(buf.text(), row as nat);
    }
    rope_insert(&mut buf.rope, insert_pos, new_line.as_str());
    let _ = rope_len_chars(&buf.rope);
    proof {
        let t = old(buf).text();
        let l = crate::patch::trim_nl(line_of(t, row as nat));
        assert(l == chars@);
        assert(new_line@ =~= indent_of(l) + seq!['\n']);
        assert(indent_of(l).len() == indent_n);
    }
    win.row = row;
    win.col = indent_n;
    win.desired_col = desired_for(buf, win.row, win.col);
    buf.mark_modified();
}

/// Paste a line-yanked sequence below the current line.
pub fn paste_line_below(win: &mut Window, buf: &mut Buffer, text: &str)
    ensures
        pasted_below(*old(win), *final(win), *old(buf), *final(buf), text@),
{
    if !cursor_in_bounds(win, buf) {
        return;
    }
    let nl = buf.len_lines();
    let next_line_row = win.row + 1;
    let insert_offset = prepare_below(buf, win.row);
    rope_insert(&mut buf.rope, insert_offset, text);
    win.row = next_line_row;
    win.col = 0;
    win.desired_col = 0;
    buf.mark_modified();
    buf.parse_syntax();
}

} // verus!
