//! A bracketed paste from the terminal: typed into the command line, or
//! put into the buffer in one go.

use crate::buffer::{marks_dirty, opt_view, syntax_language_spec, Buffer};
use crate::cmdline::{char_at_byte, char_boundary, lemma_char_at_byte};
use crate::editing::{line_display_width, paste_line_below, paste_text, pasted_below, pasted_inline};
use crate::editor::{Editor, Mode};
use crate::lines::{count_nl, line_len, line_of, num_lines};
use crate::rope::{rope_char, rope_insert, rope_len_chars};
use crate::tag::{byte_pos, lemma_byte_pos_step, utf8_width};
use crate::text::chars_of;
use crate::visual::visual_col;
use crate::window::Window;
use vstd::prelude::*;

verus! {

/// All chars of `s` but the last are ASCII.
pub open spec fn ascii_but_last(s: Seq<char>) -> bool {
    forall|i: int| 0 <= i < s.len() - 1 ==> (#[trigger] s[i] as u32) < 0x80
}

/// Where the cursor lands after typing `s` from `(row, col)`: a line feed
/// starts the next row, a carriage return is skipped.
pub open spec fn walk(s: Seq<char>, row: nat, col: nat) -> (nat, nat)
    decreases s.len(),
{
    if s.len() == 0 {
        (row, col)
    } else if s[0] == '\n' {
        walk(s.drop_first(), row + 1, 0)
    } else if s[0] == '\r' {
        walk(s.drop_first(), row, col)
    } else {
        walk(s.drop_first(), row, col + 1)
    }
}

/// A paste ending in a line break goes in as whole lines.
pub open spec fn linewise(s: Seq<char>) -> bool {
    s.len() > 0 && (s.last() == '\n' || s.last() == '\r')
}

/// `nw`, `nb` are `mw`, `mb` (the window and buffer just after the paste
/// went in) once the cursor is put after the pasted text (kept inside the
/// text, the column by screen width), a final line feed is ensured and
/// the syntax language selected again.
#[verifier::opaque]
pub open spec fn paste_finished(
    mw: Window,
    mb: Buffer,
    nw: Window,
    nb: Buffer,
    text: Seq<char>,
    row: nat,
    col: nat,
) -> bool {
    let t = mb.text();
    let last = (num_lines(t) - 1) as nat;
    let (r0, c0) = if linewise(text) {
        (row + count_nl(text), 0nat)
    } else {
        walk(text, row, col)
    };
    let fr: nat = if r0 < last { r0 } else { last };
    let vw = visual_col(line_of(t, fr), line_len(t, fr), mb.tab_size as nat);
    let fc: nat = if c0 < vw { c0 } else { vw };
    let needs_nl = t.len() == 0 || t.last() != '\n';
    &&& nw == (Window { row: fr as usize, col: fc as usize, desired_col: fc as usize, ..mw })
    &&& nb.text() == (if needs_nl { t.push('\n') } else { t })
    &&& nb.modified == (mb.modified || (needs_nl && marks_dirty(mb.kind, mb.wgrep_mode)))
    &&& nb.language_id matches Some(l) && l@ == syntax_language_spec(mb.kind, mb.wgrep_mode, opt_view(mb.filename))
    &&& nb == (Buffer { rope: nb.rope, modified: nb.modified, language_id: nb.language_id, ..mb })
}

proof fn lemma_walk_bound(s: Seq<char>, row: nat, col: nat)
    ensures
        walk(s, row, col).0 <= row + s.len(),
        walk(s, row, col).1 <= col + s.len(),
    decreases s.len(),
{
    if s.len() > 0 {
        if s[0] == '\n' {
            lemma_walk_bound(s.drop_first(), row + 1, 0);
        } else if s[0] == '\r' {
            lemma_walk_bound(s.drop_first(), row, col);
        } else {
            lemma_walk_bound(s.drop_first(), row, col + 1);
        }
    }
}

proof fn lemma_count_nl_bound(s: Seq<char>)
    ensures
        count_nl(s) <= s.len(),
    decreases s.len(),
{
    if s.len() > 0 {
        lemma_count_nl_bound(s.drop_first());
    }
}

/// The byte after an ASCII char put in at char `k` is again a char
/// boundary, one char further on.
proof fn lemma_ascii_insert(s: Seq<char>, k: int, c: char)
    requires
        0 <= k <= s.len(),
        (c as u32) < 0x80,
    ensures
        ({
            let s2 = s.take(k) + seq![c] + s.skip(k);
            &&& byte_pos(s2, k + 1) == byte_pos(s, k) + 1
            &&& char_boundary(s2, (byte_pos(s, k) + 1) as int)
            &&& char_at_byte(s2, (byte_pos(s, k) + 1) as int) == k + 1
        }),
{
    let s2 = s.take(k) + seq![c] + s.skip(k);
    assert(s2.take(k) =~= s.take(k));
    assert(s2[k] == c);
    lemma_byte_pos_step(s2, k);
    vstd::utf8::char_is_scalar(c);
    assert(utf8_width(c) == 1);
    lemma_char_at_byte(s2, k + 1);
}

fn walk_exec(text: &Vec<char>, row: usize, col: usize) -> (r: (usize, usize))
    requires
        row + text@.len() <= usize::MAX,
        col + text@.len() <= usize::MAX,
    ensures
        (r.0 as nat, r.1 as nat) == walk(text@, row as nat, col as nat),
{
    let mut r = row;
    let mut c = col;
    let mut i: usize = 0;
    proof {
        assert(text@.skip(0) =~= text@);
        lemma_walk_bound(text@, row as nat, col as nat);
    }
    while i < text.len()
        invariant
            i <= text@.len(),
            row + text@.len() <= usize::MAX,
            col + text@.len() <= usize::MAX,
            r <= row + i,
            c <= col + i,
            walk(text@.skip(i as int), r as nat, c as nat) == walk(text@, row as nat, col as nat),
        decreases text@.len() - i,
    {
        proof {
            assert(text@.skip(i as int).drop_first() =~= text@.skip(i + 1));
            assert(text@.skip(i as int)[0] == text@[i as int]);
        }
        if text[i] == '\n' {
            r = r + 1;
            c = 0;
        } else if text[i] != '\r' {
            c = c + 1;
        }
        i = i + 1;
    }
    proof {
        assert(text@.skip(i as int).len() == 0);
    }
    (r, c)
}

fn count_nl_exec(text: &Vec<char>) -> (n: usize)
    ensures
        n == count_nl(text@),
{
    let mut n: usize = 0;
    let mut i = text.len();
    proof {
        assert(text@.skip(text@.len() as int) =~= Seq::<char>::empty());
        lemma_count_nl_bound(text@);
    }
    let len = text.len();
    while i > 0
        invariant
            i <= text@.len(),
            len == text@.len(),
            n == count_nl(text@.skip(i as int)),
            n <= text@.len() - i,
        decreases i,
    {
        proof {
            assert(text@.skip(i - 1).drop_first() =~= text@.skip(i as int));
            assert(text@.skip(i - 1)[0] == text@[i - 1]);
        }
        if text[i - 1] == '\n' {
            n = n + 1;
        }
        i = i - 1;
    }
    proof {
        assert(text@.skip(0) =~= text@);
    }
    n
}

/// The cursor and the final line feed after a paste (see
/// `paste_finished`).
fn finish_paste(win: &mut Window, buf: &mut Buffer, text: &Vec<char>, row: usize, col: usize)
    requires
        old(buf).tab_size > 0,
        row + text@.len() <= usize::MAX,
        col + text@.len() <= usize::MAX,
    ensures
        paste_finished(*old(win), *old(buf), *final(win), *final(buf), text@, row as nat, col as nat),
        final(buf).id == old(buf).id,
        final(win).buf_id == old(win).buf_id,
{
    reveal(paste_finished);
    let n = buf.len_lines();
    let last = n - 1;
    let lw = text.len() > 0 && (text[text.len() - 1] == '\n' || text[text.len() - 1] == '\r');
    let (r0, c0) = if lw {
        proof {
            lemma_count_nl_bound(text@);
        }
        (row + count_nl_exec(text), 0)
    } else {
        walk_exec(text, row, col)
    };
    let fr = if r0 < last {
        r0
    } else {
        last
    };
    let vw = line_display_width(buf, fr);
    let fc = if c0 < vw {
        c0
    } else {
        vw
    };
    let ghost t = buf.text();
    let len = rope_len_chars(&buf.rope);
    if len == 0 || rope_char(&buf.rope, len - 1) != '\n' {
        rope_insert(&mut buf.rope, len, "\n");
        proof {
            reveal_strlit("\n");
            assert(buf.text() =~= t.push('\n'));
        }
        buf.mark_modified();
    }
    win.row = fr;
    win.col = fc;
    win.desired_col = fc;
    buf.parse_syntax();
}

impl Editor {
    /// Type `text` into the command line at its cursor, one char at a time.
    fn paste_into_command(&mut self, text: &str)
        requires
            char_boundary(old(self).command@, old(self).command_cursor as int),
            ascii_but_last(text@),
            old(self).command_cursor + text@.len() <= usize::MAX,
        ensures
            ({
                let k = char_at_byte(old(self).command@, old(self).command_cursor as int);
                final(self).command@ == old(self).command@.take(k) + text@ + old(self).command@.skip(k)
            }),
            final(self).command_cursor == old(self).command_cursor + text@.len(),
            *final(self) == (Editor {
                command: final(self).command,
                command_cursor: final(self).command_cursor,
                ..*old(self)
            }),
    {
        let ghost o = *self;
        let ghost k0 = char_at_byte(o.command@, o.command_cursor as int);
        let v = chars_of(text);
        let mut i: usize = 0;
        proof {
            assert(o.command@.take(k0) + text@.take(0) + o.command@.skip(k0) =~= o.command@);
        }
        while i < v.len()
            invariant
                i <= v@.len(),
                v@ == text@,
                ascii_but_last(text@),
                o.command_cursor + text@.len() <= usize::MAX,
                0 <= k0 <= o.command@.len(),
                self.command@ == o.command@.take(k0) + text@.take(i as int) + o.command@.skip(k0),
                self.command_cursor == o.command_cursor + i,
                i < v@.len() ==> char_boundary(self.command@, self.command_cursor as int)
                    && char_at_byte(self.command@, self.command_cursor as int) == k0 + i,
                *self == (Editor { command: self.command, command_cursor: self.command_cursor, ..o }),
            decreases v@.len() - i,
        {
            let ghost before = self.command@;
            let ghost cur = self.command_cursor;
            let c = v[i];
            self.push_command(c);
            proof {
                assert(text@.take(i + 1) =~= text@.take(i as int).push(c));
                assert(self.command@ =~= o.command@.take(k0) + text@.take(i + 1) + o.command@.skip(k0));
                if i + 1 < v@.len() {
                    assert((text@[i as int] as u32) < 0x80);
                    let kk = k0 + i;
                    lemma_char_at_byte(before, kk);
                    assert(byte_pos(before, kk) == cur);
                    lemma_ascii_insert(before, kk, c);
                }
            }
            i = i + 1;
        }
        proof {
            assert(text@.take(text@.len() as int) =~= text@);
        }
    }

    /// Put `text` (chars `v`) into the active buffer at the cursor.
    #[verifier::spinoff_prover]
    #[verifier::rlimit(60)]
    fn paste_into_buffer(&mut self, text: &str, v: &Vec<char>)
        requires
            old(self).wf(),
            v@ == text@,
            v@.len() > 0,
            old(self).cur_buf().tab_size > 0,
            old(self).win().row + text@.len() <= usize::MAX,
            old(self).win().col + text@.len() <= usize::MAX,
        ensures
            final(self).wf(),
            ({
                let o = *old(self);
                let n = *final(self);
                let ci = o.cur_idx();
                let aw = o.active_window_idx as int;
                &&& exists|mw: Window, mb: Buffer|
                    #![trigger paste_finished(mw, mb, n.windows@[aw], n.buffers@[ci], text@, o.win().row as nat, o.win().col as nat)]
                    (if linewise(text@) {
                        pasted_below(o.win(), mw, o.cur_buf(), mb, text@)
                    } else {
                        pasted_inline(o.win(), mw, o.cur_buf(), mb, text@)
                    }) && paste_finished(
                        mw,
                        mb,
                        n.windows@[aw],
                        n.buffers@[ci],
                        text@,
                        o.win().row as nat,
                        o.win().col as nat,
                    )
                &&& n.buffers@ == o.buffers@.update(ci, n.buffers@[ci])
                &&& n.windows@ == o.windows@.update(aw, n.windows@[aw])
                &&& n == (Editor { buffers: n.buffers, windows: n.windows, ..o })
            }),
    {
        let ghost o = *self;
        proof {
            self.lemma_cur_idx();
        }
        let bi = self.active_buf_idx();
        let aw = self.active_window_idx;
        let row = self.windows[aw].row;
        let col = self.windows[aw].col;
        let mut win = self.windows[aw];
        let lw = v[v.len() - 1] == '\n' || v[v.len() - 1] == '\r';
        proof {
            assert(lw == linewise(text@));
        }
        if lw {
            paste_line_below(&mut win, &mut self.buffers[bi], text);
        } else {
            paste_text(&mut win, &mut self.buffers[bi], text);
        }
        let ghost mw = win;
        let ghost mb = self.buffers@[bi as int];
        finish_paste(&mut win, &mut self.buffers[bi], v, row, col);
        self.windows.set(aw, win);
        proof {
            let bfin = self.buffers@[bi as int];
            assert(self.buffers@ =~= o.buffers@.update(bi as int, bfin));
            assert(self.windows@ =~= o.windows@.update(aw as int, win));
            assert(bfin.id == o.buffers@[bi as int].id);
            assert forall|w: int| 0 <= w < self.windows@.len() implies self.has_buf(
                #[trigger] self.windows@[w].buf_id,
            ) by {
                assert(o.has_buf(o.windows@[w].buf_id));
                let k = choose|k: int| 0 <= k < o.buffers@.len() && o.buffers@[k].id == o.windows@[w].buf_id;
                assert(self.buffers@[k].id == o.buffers@[k].id);
            }
            assert(paste_finished(mw, mb, self.windows@[aw as int], self.buffers@[o.cur_idx()], text@, row as nat, col as nat));
        }
    }

    /// A paste from the terminal: typed into the command line in command
    /// and search mode; otherwise put into the buffer at the cursor (as
    /// whole lines below it when it ends in a line break), the cursor after
    /// it and a final line feed kept.
    pub fn handle_paste(&mut self, text: &str)
        requires
            paste_allowed(*old(self), text@),
        ensures
            final(self).wf(),
            paste_done(*old(self), *final(self), text@),
    {
        let v = chars_of(text);
        if v.len() == 0 {
            return;
        }
        if self.mode == Mode::Command || self.mode == Mode::Search {
            self.paste_into_command(text);
            return;
        }
        self.paste_into_buffer(text, &v);
    }

    /// Same as `handle_paste`.
    pub fn insert_str(&mut self, text: &str)
        requires
            paste_allowed(*old(self), text@),
        ensures
            final(self).wf(),
            paste_done(*old(self), *final(self), text@),
    {
        self.handle_paste(text);
    }
}

/// What a paste needs: a well-formed editor, a tab size, room for the
/// cursor to move, and in the command line a char boundary at the cursor
/// and only ASCII before the last pasted char.
pub open spec fn paste_allowed(o: Editor, text: Seq<char>) -> bool {
    &&& o.wf()
    &&& o.cur_buf().tab_size > 0
    &&& o.win().row + text.len() <= usize::MAX
    &&& o.win().col + text.len() <= usize::MAX
    &&& (o.mode == Mode::Command || o.mode == Mode::Search) ==> {
        &&& char_boundary(o.command@, o.command_cursor as int)
        &&& ascii_but_last(text)
        &&& o.command_cursor + text.len() <= usize::MAX
    }
}

/// `n` is `o` after pasting `text` (see `handle_paste`).
pub open spec fn paste_done(o: Editor, n: Editor, text: Seq<char>) -> bool {
    if text.len() == 0 {
        n == o
    } else if o.mode == Mode::Command || o.mode == Mode::Search {
        let k = char_at_byte(o.command@, o.command_cursor as int);
        &&& n.command@ == o.command@.take(k) + text + o.command@.skip(k)
        &&& n.command_cursor == o.command_cursor + text.len()
        &&& n == (Editor { command: n.command, command_cursor: n.command_cursor, ..o })
    } else {
        let ci = o.cur_idx();
        let aw = o.active_window_idx as int;
        &&& exists|mw: Window, mb: Buffer|
            #![trigger paste_finished(mw, mb, n.windows@[aw], n.buffers@[ci], text, o.win().row as nat, o.win().col as nat)]
            (if linewise(text) {
                pasted_below(o.win(), mw, o.cur_buf(), mb, text)
            } else {
                pasted_inline(o.win(), mw, o.cur_buf(), mb, text)
            }) && paste_finished(mw, mb, n.windows@[aw], n.buffers@[ci], text, o.win().row as nat, o.win().col as nat)
        &&& n.buffers@ == o.buffers@.update(ci, n.buffers@[ci])
        &&& n.windows@ == o.windows@.update(aw, n.windows@[aw])
        &&& n == (Editor { buffers: n.buffers, windows: n.windows, ..o })
    }
}

} // verus!
