//! Deleting (or changing) a text object: the word-like run under the
//! cursor, or a range the syntax tree gives.

use crate::editing::after_edit;
use crate::editor::{entered_insert, Editor, MessageKind};
use crate::lines::{lemma_line_len_bound, line_len, line_of, line_start, num_lines};
use crate::rope::{rope_len_chars, rope_line_to_char, rope_remove};
use crate::buffer::Buffer;
use crate::text::{chars_of, char_is_whitespace, is_word_char, spec_is_whitespace, word_char};
use crate::window::Window;
use vstd::prelude::*;

verus! {

/// What a text object covers at the cursor.
pub enum TextObjectRange {
    /// The run of word chars, whitespace or one repeated other char under
    /// the cursor, found here.
    Word,
    /// From `(row, col)` to `(row, col)`, as the syntax tree gives it.
    Span(usize, usize, usize, usize),
    /// The syntax tree found no such object.
    NotFound,
}

/// `b` belongs to the run that `a` starts: word chars with word chars,
/// whitespace with whitespace, any other char with itself.
pub open spec fn same_class(a: char, b: char) -> bool {
    if is_word_char(a) {
        is_word_char(b)
    } else if spec_is_whitespace(a) {
        spec_is_whitespace(b)
    } else {
        b == a
    }
}

/// Start of the run of `a`'s class that ends at `s`.
pub open spec fn run_back(cs: Seq<char>, s: nat, a: char) -> nat
    decreases s,
{
    if s > 0 && s <= cs.len() && same_class(a, cs[s - 1]) {
        run_back(cs, (s - 1) as nat, a)
    } else {
        s
    }
}

/// End of the run of `a`'s class that starts at `e`.
pub open spec fn run_fwd(cs: Seq<char>, e: nat, a: char) -> nat
    decreases cs.len() - e,
{
    if e < cs.len() && same_class(a, cs[e as int]) {
        run_fwd(cs, e + 1, a)
    } else {
        e
    }
}

/// End of the whitespace that starts at `e`.
pub open spec fn ws_fwd(cs: Seq<char>, e: nat) -> nat
    decreases cs.len() - e,
{
    if e < cs.len() && spec_is_whitespace(cs[e as int]) {
        ws_fwd(cs, e + 1)
    } else {
        e
    }
}

/// Char range of the word object at column `c` of line `cs`: the run
/// under the cursor, and, for "around" on a non-blank run, the blanks
/// after it.
pub open spec fn word_object(cs: Seq<char>, c: nat, inside: bool) -> (nat, nat) {
    let a = cs[c as int];
    let s = run_back(cs, c, a);
    let e = run_fwd(cs, c + 1, a);
    (s, if !inside && !spec_is_whitespace(a) { ws_fwd(cs, e) } else { e })
}

proof fn lemma_run_back_max(cs: Seq<char>, s: nat, a: char)
    requires
        s <= cs.len(),
    ensures
        ({
            let r = run_back(cs, s, a);
            &&& r <= s
            &&& forall|j: int| r <= j < s ==> same_class(a, #[trigger] cs[j])
            &&& r == 0 || !same_class(a, cs[r - 1])
        }),
    decreases s,
{
    if s > 0 && same_class(a, cs[s - 1]) {
        lemma_run_back_max(cs, (s - 1) as nat, a);
    }
}

proof fn lemma_run_fwd_max(cs: Seq<char>, e: nat, a: char)
    requires
        e <= cs.len(),
    ensures
        ({
            let r = run_fwd(cs, e, a);
            &&& e <= r <= cs.len()
            &&& forall|j: int| e <= j < r ==> same_class(a, #[trigger] cs[j])
            &&& r == cs.len() || !same_class(a, cs[r as int])
        }),
    decreases cs.len() - e,
{
    if e < cs.len() && same_class(a, cs[e as int]) {
        lemma_run_fwd_max(cs, e + 1, a);
    }
}

proof fn lemma_ws_fwd_max(cs: Seq<char>, e: nat)
    requires
        e <= cs.len(),
    ensures
        ({
            let r = ws_fwd(cs, e);
            &&& e <= r <= cs.len()
            &&& forall|j: int| e <= j < r ==> spec_is_whitespace(#[trigger] cs[j])
            &&& r == cs.len() || !spec_is_whitespace(cs[r as int])
        }),
    decreases cs.len() - e,
{
    if e < cs.len() && spec_is_whitespace(cs[e as int]) {
        lemma_ws_fwd_max(cs, e + 1);
    }
}

/// The word object under the cursor is the whole run of chars of the
/// cursor char's class around it (word chars, blanks, or one repeated
/// other char), no char of that class just before or after it; "around"
/// a non-blank run adds the blanks that follow it, all of them.
pub proof fn lemma_word_object(cs: Seq<char>, c: nat, inside: bool)
    requires
        c < cs.len(),
    ensures
        ({
            let a = cs[c as int];
            let (s, e) = word_object(cs, c, inside);
            let e0 = run_fwd(cs, c + 1, a);
            &&& s <= c < e0 <= e <= cs.len()
            &&& forall|j: int| s <= j < e0 ==> same_class(a, #[trigger] cs[j])
            &&& s == 0 || !same_class(a, cs[s - 1])
            &&& e0 == cs.len() || !same_class(a, cs[e0 as int])
            &&& (inside || spec_is_whitespace(a)) ==> e == e0
            &&& (!inside && !spec_is_whitespace(a)) ==> (forall|j: int| e0 <= j < e ==> spec_is_whitespace(
                #[trigger] cs[j],
            )) && (e == cs.len() || !spec_is_whitespace(cs[e as int]))
        }),
{
    let a = cs[c as int];
    lemma_run_back_max(cs, c, a);
    lemma_run_fwd_max(cs, c + 1, a);
    let e0 = run_fwd(cs, c + 1, a);
    lemma_ws_fwd_max(cs, e0);
    assert(same_class(a, a)) by {
        assert(same_class(a, cs[c as int]));
    }
}

proof fn lemma_runs(cs: Seq<char>, c: nat, a: char)
    requires
        c < cs.len(),
    ensures
        run_back(cs, c, a) <= c,
        c + 1 <= run_fwd(cs, c + 1, a) <= cs.len(),
        run_fwd(cs, c + 1, a) <= ws_fwd(cs, run_fwd(cs, c + 1, a)) <= cs.len(),
{
    lemma_back(cs, c, a);
    lemma_fwd(cs, c + 1, a);
    lemma_ws(cs, run_fwd(cs, c + 1, a));
}

proof fn lemma_back(cs: Seq<char>, s: nat, a: char)
    ensures
        run_back(cs, s, a) <= s,
    decreases s,
{
    if s > 0 && s <= cs.len() && same_class(a, cs[s - 1]) {
        lemma_back(cs, (s - 1) as nat, a);
    }
}

proof fn lemma_fwd(cs: Seq<char>, e: nat, a: char)
    requires
        e <= cs.len(),
    ensures
        e <= run_fwd(cs, e, a) <= cs.len(),
    decreases cs.len() - e,
{
    if e < cs.len() && same_class(a, cs[e as int]) {
        lemma_fwd(cs, e + 1, a);
    }
}

proof fn lemma_ws(cs: Seq<char>, e: nat)
    requires
        e <= cs.len(),
    ensures
        e <= ws_fwd(cs, e) <= cs.len(),
    decreases cs.len() - e,
{
    if e < cs.len() && spec_is_whitespace(cs[e as int]) {
        lemma_ws(cs, e + 1);
    }
}

fn same_class_exec(a: char, b: char) -> (r: bool)
    ensures
        r == same_class(a, b),
{
    if word_char(a) {
        word_char(b)
    } else if char_is_whitespace(a) {
        char_is_whitespace(b)
    } else {
        b == a
    }
}

/// See `word_object`.
fn word_object_exec(cs: &Vec<char>, c: usize, inside: bool) -> (r: (usize, usize))
    requires
        c < cs@.len(),
    ensures
        (r.0 as nat, r.1 as nat) == word_object(cs@, c as nat, inside),
        r.0 <= c < r.1 <= cs@.len(),
{
    let a = cs[c];
    let len = cs.len();
    proof {
        lemma_runs(cs@, c as nat, a);
    }
    let mut s = c;
    while s > 0 && same_class_exec(a, cs[s - 1])
        invariant
            s <= c < cs@.len(),
            run_back(cs@, s as nat, a) == run_back(cs@, c as nat, a),
        decreases s,
    {
        s = s - 1;
    }
    let mut e = c + 1;
    while e < cs.len() && same_class_exec(a, cs[e])
        invariant
            c < e <= cs@.len(),
            run_fwd(cs@, e as nat, a) == run_fwd(cs@, (c + 1) as nat, a),
        decreases cs@.len() - e,
    {
        e = e + 1;
    }
    if !inside && !char_is_whitespace(a) {
        while e < cs.len() && char_is_whitespace(cs[e])
            invariant
                c < e <= cs@.len(),
                ws_fwd(cs@, e as nat) == ws_fwd(cs@, run_fwd(cs@, (c + 1) as nat, a)),
            decreases cs@.len() - e,
        {
            e = e + 1;
        }
    }
    (s, e)
}

/// `n` is `o` after deleting chars `start .. end` of the active buffer's
/// text, the cursor put at `(row, col)` kept to that line, and insert
/// mode entered when `change`.
pub open spec fn object_deleted(o: Editor, n: Editor, start: nat, end: nat, row: nat, col: nat, change: bool) -> bool {
    let t = o.cur_buf().text();
    let t2 = t.take(start as int) + t.skip(end as int);
    let lc = line_len(t2, row);
    let w = Window { row: row as usize, col: (if col < lc { col } else { lc }) as usize, ..o.win() };
    let m = Editor { buffers: n.buffers, windows: n.windows, ..o };
    &&& after_edit(o.cur_buf(), n.buffers@[o.cur_idx()], t2)
    &&& n.buffers@ == o.buffers@.update(o.cur_idx(), n.buffers@[o.cur_idx()])
    &&& n.windows@ == o.windows@.update(o.active_window_idx as int, w)
    &&& if change {
        entered_insert(m, n)
    } else {
        n == m
    }
}

/// `a + b`, held at `usize::MAX`.
pub open spec fn add_sat(a: nat, b: nat) -> nat {
    if a + b > usize::MAX {
        usize::MAX as nat
    } else {
        a + b
    }
}

impl Editor {
    fn delete_object(&mut self, so: usize, eo: usize, row: usize, col: usize, change: bool)
        requires
            old(self).wf(),
            so < eo <= old(self).cur_buf().text().len(),
        ensures
            final(self).wf(),
            object_deleted(*old(self), *final(self), so as nat, eo as nat, row as nat, col as nat, change),
    {
        let ghost o = *self;
        proof {
            self.lemma_cur_idx();
        }
        let bi = self.active_buf_idx();
        rope_remove(&mut self.buffers[bi].rope, so, eo);
        let lc = self.buffers[bi].line_char_len(row);
        let aw = self.active_window_idx;
        self.windows[aw].row = row;
        self.windows[aw].col = if col < lc {
            col
        } else {
            lc
        };
        self.buffers[bi].mark_modified();
        let ghost bfin = self.buffers@[bi as int];
        proof {
            assert(self.buffers@ =~= o.buffers@.update(bi as int, bfin));
            assert(self.windows@ =~= o.windows@.update(
                aw as int,
                Window { row, col: self.windows@[aw as int].col, ..o.win() },
            ));
            Editor::lemma_wf_update_buf(o, *self, bi as int, bfin);
        }
        if change {
            self.enter_insert();
        }
    }

    /// Delete the text object `obj` at the cursor (see `TextObjectRange`),
    /// `inside` for the inner object; `change` then enters insert mode.
    pub fn edit_text_object(&mut self, obj: TextObjectRange, inside: bool, change: bool)
        requires
            old(self).wf(),
        ensures
            final(self).wf(),
            ({
                let o = *old(self);
                let t = o.cur_buf().text();
                let row = o.win().row as nat;
                let col = o.win().col as nat;
                match obj {
                    TextObjectRange::Word => if row >= num_lines(t) || line_len(t, row) == 0 {
                        crate::hunks::only_status(o, *final(self), "No text object found"@, MessageKind::Error)
                    } else {
                        let cs = line_of(t, row);
                        let c = if col < cs.len() - 1 { col } else { (cs.len() - 1) as nat };
                        let (s, e) = word_object(cs, c, inside);
                        let ls = line_start(t, row);
                        object_deleted(o, *final(self), ls + s, ls + e, row, s, change)
                    },
                    TextObjectRange::Span(sr, sc, er, ec) => {
                        let so = add_sat(line_start(t, sr as nat), sc as nat);
                        let eo = add_sat(line_start(t, er as nat), ec as nat);
                        if sr >= num_lines(t) || er >= num_lines(t) || eo <= so || eo > t.len() {
                            crate::hunks::only_status(o, *final(self), "Invalid text object range"@, MessageKind::Error)
                        } else {
                            object_deleted(o, *final(self), so, eo, sr as nat, sc as nat, change)
                        }
                    },
                    TextObjectRange::NotFound => crate::hunks::only_status(
                        o,
                        *final(self),
                        "No text object found"@,
                        MessageKind::Error,
                    ),
                }
            }),
    {
        let ghost o = *self;
        proof {
            self.lemma_cur_idx();
        }
        let row = self.windows[self.active_window_idx].row;
        let col = self.windows[self.active_window_idx].col;
        let n = self.buf().len_lines();
        let total = rope_len_chars(&self.buf().rope);
        match obj {
            TextObjectRange::Word => {
                if row >= n {
                    self.set_status_msg("No text object found", MessageKind::Error);
                    return;
                }
                let line = self.buf().line_text(row);
                let cs = chars_of(line.as_str());
                if cs.len() == 0 {
                    self.set_status_msg("No text object found", MessageKind::Error);
                    return;
                }
                let c = if col < cs.len() - 1 {
                    col
                } else {
                    cs.len() - 1
                };
                let (s, e) = word_object_exec(&cs, c, inside);
                let ls = rope_line_to_char(&self.buf().rope, row);
                proof {
                    lemma_line_len_bound(o.cur_buf().text(), row as nat);
                }
                self.delete_object(ls + s, ls + e, row, s, change);
            },
            TextObjectRange::Span(sr, sc, er, ec) => {
                if sr >= n || er >= n {
                    self.set_status_msg("Invalid text object range", MessageKind::Error);
                    return;
                }
                let so = rope_line_to_char(&self.buf().rope, sr).saturating_add(sc);
                let eo = rope_line_to_char(&self.buf().rope, er).saturating_add(ec);
                if eo <= so || eo > total {
                    self.set_status_msg("Invalid text object range", MessageKind::Error);
                    return;
                }
                self.delete_object(so, eo, sr, sc, change);
            },
            TextObjectRange::NotFound => {
                self.set_status_msg("No text object found", MessageKind::Error);
            },
        }
    }
}

} // verus!
