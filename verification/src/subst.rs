//! Search and replace over buffer lines (`:s`, `:%s`), either all at once
//! or match by match with confirmation.

use crate::buffer::{Buffer, opt_view, syntax_language_spec, marks_dirty, readonly_kind, bounded_push, UNDO_LIMIT};
use crate::editor::{Editor, MessageKind, Key};
use crate::lines::{line_of, line_start, num_lines, line_len, lemma_line_len_bound, lemma_line_start_bounds};
use crate::rope::{rope_insert, rope_remove, rope_line_to_char, rope_len_chars};
use crate::text::{chars_of, occurs_at, push_str, push_decimal, decimal, string_from_chars};
use crate::window::Window;
use vstd::prelude::*;

verus! {

/// State of an interactive (confirming) substitution.
pub struct SubstitutionState {
    pub pattern: String,
    pub replacement: String,
    pub global: bool,
    pub current_row: usize,
    /// Char index (not byte index) on `current_row`.
    pub current_col: usize,
    /// One past the last row to visit.
    pub end_row: usize,
    pub replace_all: bool,
    pub replacements_made: usize,
}

/// First occurrence of `w` in `s` at char index `from` or later.
pub open spec fn first_occ_from(s: Seq<char>, w: Seq<char>, from: int) -> Option<int>
    decreases s.len() + 1 - from,
{
    if from < 0 || from + w.len() > s.len() {
        None
    } else if occurs_at(s, w, from) {
        Some(from)
    } else {
        first_occ_from(s, w, from + 1)
    }
}

/// `first_occ_from` finds the leftmost occurrence at or after `from`.
pub proof fn lemma_first_occ(s: Seq<char>, w: Seq<char>, from: int)
    requires
        0 <= from,
    ensures
        first_occ_from(s, w, from) matches Some(p) ==> from <= p && occurs_at(s, w, p) && forall|q: int|
            from <= q < p ==> !#[trigger] occurs_at(s, w, q),
        first_occ_from(s, w, from) is None ==> forall|q: int| from <= q ==> !#[trigger] occurs_at(s, w, q),
    decreases s.len() + 1 - from,
{
    if from + w.len() > s.len() {
    } else if occurs_at(s, w, from) {
    } else {
        lemma_first_occ(s, w, from + 1);
    }
}

pub(crate) fn occurs_at_exec(v: &Vec<char>, w: &Vec<char>, p: usize) -> (b: bool)
    requires
        p + w@.len() <= v@.len(),
    ensures
        b == occurs_at(v@, w@, p as int),
{
    let m = w.len();
    let n = v.len();
    let mut j: usize = 0;
    while j < m
        invariant
            m == w@.len(),
            n == v@.len(),
            p + m <= v@.len(),
            j <= m,
            forall|i: int| 0 <= i < j ==> v@[p + i] == w@[i],
        decreases m - j,
    {
        if v[p + j] != w[j] {
            assert(v@.subrange(p as int, p + m)[j as int] != w@[j as int]);
            return false;
        }
        j = j + 1;
    }
    assert(v@.subrange(p as int, p + m) =~= w@);
    true
}

/// Leftmost occurrence of `w` in `v` at `from` or later.
pub fn find_from(v: &Vec<char>, w: &Vec<char>, from: usize) -> (r: Option<usize>)
    ensures
        r matches Some(p) ==> first_occ_from(v@, w@, from as int) == Some(p as int),
        r is None ==> first_occ_from(v@, w@, from as int) is None,
{
    let n = v.len();
    let m = w.len();
    if m > n {
        return None;
    }
    let last = n - m;
    let mut p = from;
    loop
        invariant
            n == v@.len(),
            m == w@.len(),
            last == n - m,
            from <= p,
            first_occ_from(v@, w@, from as int) == first_occ_from(v@, w@, p as int),
        ensures
            first_occ_from(v@, w@, from as int) is None,
        decreases last + 1 - p,
    {
        if p > last {
            break;
        }
        if occurs_at_exec(v, w, p) {
            return Some(p);
        }
        if p == last {
            assert(first_occ_from(v@, w@, p + 1) is None);
            break;
        }
        p = p + 1;
    }
    None
}

/// Char index of the first occurrence of `pattern` in `text` at char
/// `start_char` or later (from the end of `text` when `start_char` is
/// past it).
pub fn find_char_pos_from(text: &str, pattern: &str, start_char: usize) -> (r: Option<usize>)
    ensures
        ({
            let from = if start_char <= text@.len() {
                start_char as int
            } else {
                text@.len() as int
            };
            match first_occ_from(text@, pattern@, from) {
                Some(p) => r == Some(p as usize),
                None => r is None,
            }
        }),
{
    let tv = chars_of(text);
    let pv = chars_of(pattern);
    let n = tv.len();
    let from = if start_char <= n {
        start_char
    } else {
        n
    };
    find_from(&tv, &pv, from)
}

/// `s` from char `i` on with the non-overlapping, leftmost occurrences of
/// `w` replaced by `rep`: all of them when `global`, otherwise only the
/// first one unless `done` says it was already replaced.
pub open spec fn repl(s: Seq<char>, w: Seq<char>, rep: Seq<char>, i: nat, global: bool, done: bool) -> Seq<char>
    decreases s.len() - i,
{
    if w.len() == 0 || i >= s.len() {
        s.subrange(i as int, s.len() as int)
    } else if (global || !done) && occurs_at(s, w, i as int) {
        rep + repl(s, w, rep, i + w.len(), global, true)
    } else {
        seq![s[i as int]] + repl(s, w, rep, i + 1, global, done)
    }
}

/// How many replacements `repl` makes.
pub open spec fn repl_count(s: Seq<char>, w: Seq<char>, i: nat, global: bool, done: bool) -> nat
    decreases s.len() - i,
{
    if w.len() == 0 || i >= s.len() {
        0
    } else if (global || !done) && occurs_at(s, w, i as int) {
        1 + repl_count(s, w, i + w.len(), global, true)
    } else {
        repl_count(s, w, i + 1, global, done)
    }
}

proof fn lemma_repl_count_bound(s: Seq<char>, w: Seq<char>, i: nat, global: bool, done: bool)
    ensures
        i <= s.len() ==> repl_count(s, w, i, global, done) <= s.len() - i,
    decreases s.len() - i,
{
    if w.len() == 0 || i >= s.len() {
    } else if (global || !done) && occurs_at(s, w, i as int) {
        lemma_repl_count_bound(s, w, i + w.len(), global, true);
    } else {
        lemma_repl_count_bound(s, w, i + 1, global, done);
    }
}

/// Once the single replacement is made, the rest is left as it is.
proof fn lemma_repl_done(s: Seq<char>, w: Seq<char>, rep: Seq<char>, i: nat)
    requires
        i <= s.len(),
    ensures
        repl(s, w, rep, i, false, true) == s.subrange(i as int, s.len() as int),
        repl_count(s, w, i, false, true) == 0,
    decreases s.len() - i,
{
    if w.len() > 0 && i < s.len() {
        lemma_repl_done(s, w, rep, i + 1);
        assert(seq![s[i as int]] + s.subrange((i + 1) as int, s.len() as int) =~= s.subrange(i as int, s.len() as int));
    }
}

proof fn lemma_repl_first(s: Seq<char>, w: Seq<char>, rep: Seq<char>, i: nat, p: nat)
    requires
        w.len() > 0,
        i <= p,
        occurs_at(s, w, p as int),
        forall|q: int| i <= q < p ==> !#[trigger] occurs_at(s, w, q),
    ensures
        repl(s, w, rep, i, false, false) == s.subrange(i as int, p as int) + rep + s.subrange(
            (p + w.len()) as int,
            s.len() as int,
        ),
        repl_count(s, w, i, false, false) == 1,
    decreases p - i,
{
    if i == p {
        lemma_repl_done(s, w, rep, p + w.len());
        assert(s.subrange(i as int, p as int) =~= Seq::<char>::empty());
        assert(Seq::<char>::empty() + rep + s.subrange((p + w.len()) as int, s.len() as int) =~= rep + s.subrange(
            (p + w.len()) as int,
            s.len() as int,
        ));
    } else {
        assert(!occurs_at(s, w, i as int));
        lemma_repl_first(s, w, rep, i + 1, p);
        assert(seq![s[i as int]] + (s.subrange((i + 1) as int, p as int) + rep + s.subrange((p + w.len()) as int, s.len() as int))
            =~= s.subrange(i as int, p as int) + rep + s.subrange((p + w.len()) as int, s.len() as int));
    }
}

proof fn lemma_repl_none(s: Seq<char>, w: Seq<char>, rep: Seq<char>, i: nat, global: bool, done: bool)
    requires
        i <= s.len(),
        forall|q: int| i <= q ==> !#[trigger] occurs_at(s, w, q),
    ensures
        repl(s, w, rep, i, global, done) == s.subrange(i as int, s.len() as int),
        repl_count(s, w, i, global, done) == 0,
    decreases s.len() - i,
{
    if w.len() > 0 && i < s.len() {
        assert(!occurs_at(s, w, i as int));
        lemma_repl_none(s, w, rep, i + 1, global, done);
        assert(seq![s[i as int]] + s.subrange((i + 1) as int, s.len() as int) =~= s.subrange(i as int, s.len() as int));
    }
}

/// `:s` without `g` replaces exactly the first occurrence of a non-empty
/// pattern: the text before it, the replacement, then the text after the
/// whole occurrence; without an occurrence the line is unchanged.
pub proof fn lemma_replace_first(s: Seq<char>, w: Seq<char>, rep: Seq<char>)
    requires
        w.len() > 0,
    ensures
        ({
            let r = repl(s, w, rep, 0, false, false);
            match first_occ_from(s, w, 0) {
                Some(p) => r == s.take(p) + rep + s.skip(p + w.len()) && repl_count(s, w, 0, false, false) == 1,
                None => r == s && repl_count(s, w, 0, false, false) == 0,
            }
        }),
{
    lemma_first_occ(s, w, 0);
    match first_occ_from(s, w, 0) {
        Some(p) => {
            lemma_repl_first(s, w, rep, 0, p as nat);
            assert(s.subrange(0, p) =~= s.take(p));
            assert(s.subrange(p + w.len(), s.len() as int) =~= s.skip(p + w.len()));
        },
        None => {
            lemma_repl_none(s, w, rep, 0, false, false);
            assert(s.subrange(0, s.len() as int) =~= s);
        },
    }
}

/// Replacing a pattern by itself, with or without `g`, leaves the text
/// as it is: each replacement takes out exactly the occurrence it puts
/// the replacement for.
pub proof fn lemma_replace_by_itself(s: Seq<char>, w: Seq<char>, i: nat, global: bool, done: bool)
    requires
        i <= s.len(),
    ensures
        repl(s, w, w, i, global, done) == s.subrange(i as int, s.len() as int),
    decreases s.len() - i,
{
    if w.len() == 0 || i >= s.len() {
    } else if (global || !done) && occurs_at(s, w, i as int) {
        lemma_replace_by_itself(s, w, i + w.len(), global, true);
        assert(w + s.subrange((i + w.len()) as int, s.len() as int) =~= s.subrange(i as int, s.len() as int));
    } else {
        lemma_replace_by_itself(s, w, i + 1, global, done);
        assert(seq![s[i as int]] + s.subrange((i + 1) as int, s.len() as int) =~= s.subrange(i as int, s.len() as int));
    }
}

/// The replaced text is as long as the original, plus the length change
/// of one replacement for each replacement counted.
pub proof fn lemma_repl_length(s: Seq<char>, w: Seq<char>, rep: Seq<char>, i: nat, global: bool, done: bool)
    requires
        i <= s.len(),
    ensures
        repl(s, w, rep, i, global, done).len() == (s.len() - i) + repl_count(s, w, i, global, done) * (rep.len()
            - w.len()),
    decreases s.len() - i,
{
    let d: int = rep.len() - w.len();
    if w.len() == 0 || i >= s.len() {
        let z = repl_count(s, w, i, global, done);
        assert(z == 0);
        assert(z * d == 0) by (nonlinear_arith)
            requires
                z == 0,
        ;
    } else if (global || !done) && occurs_at(s, w, i as int) {
        lemma_repl_length(s, w, rep, i + w.len(), global, true);
        let c = repl_count(s, w, i + w.len(), global, true);
        assert((1 + c) * d == d + c * d) by (nonlinear_arith);
        assert(repl_count(s, w, i, global, done) == 1 + c);
        assert(repl(s, w, rep, i, global, done).len() == rep.len() + repl(s, w, rep, i + w.len(), global, true).len());
    } else {
        lemma_repl_length(s, w, rep, i + 1, global, done);
        assert(repl(s, w, rep, i, global, done).len() == 1 + repl(s, w, rep, i + 1, global, done).len());
    }
}

/// `line` with the occurrences of `pat` replaced as `repl` says, and how
/// many were replaced.
pub fn replace_in_line(line: &Vec<char>, pat: &Vec<char>, rep: &Vec<char>, global: bool) -> (r: (
    Vec<char>,
    usize,
))
    ensures
        r.0@ == repl(line@, pat@, rep@, 0, global, false),
        r.1 == repl_count(line@, pat@, 0, global, false),
{
    let n = line.len();
    let m = pat.len();
    let mut out: Vec<char> = Vec::new();
    let mut count: usize = 0;
    let mut i: usize = 0;
    let mut done = false;
    proof {
        lemma_repl_count_bound(line@, pat@, 0, global, false);
    }
    if m == 0 {
        let mut k: usize = 0;
        while k < n
            invariant
                n == line@.len(),
                k <= n,
                out@ == line@.take(k as int),
            decreases n - k,
        {
            out.push(line[k]);
            k = k + 1;
            proof {
                assert(out@ =~= line@.take(k as int));
            }
        }
        proof {
            assert(line@.subrange(0, n as int) =~= line@.take(n as int));
        }
        return (out, 0);
    }
    while i < n
        invariant
            n == line@.len(),
            m == pat@.len(),
            m > 0,
            i <= n,
            out@ + repl(line@, pat@, rep@, i as nat, global, done) == repl(
                line@,
                pat@,
                rep@,
                0,
                global,
                false,
            ),
            count + repl_count(line@, pat@, i as nat, global, done) == repl_count(
                line@,
                pat@,
                0,
                global,
                false,
            ),
            repl_count(line@, pat@, 0, global, false) <= n,
        decreases n - i,
    {
        let hit = (global || !done) && m <= n - i && occurs_at_exec(line, pat, i);
        if hit {
            let mut j: usize = 0;
            let ghost before = out@;
            while j < rep.len()
                invariant
                    out@ == before + rep@.take(j as int),
                    j <= rep@.len(),
                decreases rep@.len() - j,
            {
                out.push(rep[j]);
                j = j + 1;
                proof {
                    assert(out@ =~= before + rep@.take(j as int));
                }
            }
            proof {
                assert(rep@.take(rep@.len() as int) =~= rep@);
                assert(before + (rep@ + repl(line@, pat@, rep@, (i + m) as nat, global, true)) =~= (
                before + rep@) + repl(line@, pat@, rep@, (i + m) as nat, global, true));
            }
            count = count + 1;
            i = i + m;
            done = true;
        } else {
            proof {
                if (global || !done) && i + m <= n {
                    assert(!occurs_at(line@, pat@, i as int));
                }
                let ghost before = out@;
                assert(before + (seq![line@[i as int]] + repl(line@, pat@, rep@, (i + 1) as nat, global, done)) =~= before.push(line@[i as int]) + repl(line@, pat@, rep@, (i + 1) as nat, global, done));
            }
            out.push(line[i]);
            i = i + 1;
        }
    }
    proof {
        assert(line@.subrange(i as int, n as int) =~= Seq::<char>::empty());
        assert(out@ + Seq::<char>::empty() =~= out@);
    }
    (out, count)
}

} // verus!

verus! {

/// Text `t` after substituting on rows `r..end` one row after another
/// (stopping at the last line), and the number of replacements made.
pub open spec fn subst_rows(t: Seq<char>, w: Seq<char>, rep: Seq<char>, global: bool, r: nat, end: nat) -> (Seq<char>, nat)
    decreases end - r,
{
    if r >= end || r >= num_lines(t) {
        (t, 0)
    } else {
        let line = line_of(t, r);
        let ls = line_start(t, r);
        let t2 = t.take(ls as int) + repl(line, w, rep, 0, global, false) + t.skip((ls + line.len()) as int);
        let rest = subst_rows(t2, w, rep, global, r + 1, end);
        (rest.0, repl_count(line, w, 0, global, false) + rest.1)
    }
}

/// `n` is buffer `o` after an undo step was recorded at `(row, col)` and
/// its text became `t`, marked modified and re-parsed.
pub open spec fn substituted(o: Buffer, n: Buffer, row: usize, col: usize, t: Seq<char>) -> bool {
    &&& n.text() == t
    &&& n.modified == (o.modified || marks_dirty(o.kind, o.wgrep_mode))
    &&& n.language_id matches Some(l) && l@ == syntax_language_spec(
        o.kind,
        o.wgrep_mode,
        opt_view(o.filename),
    )
    &&& readonly_kind(o.kind, o.wgrep_mode) ==> n.undo_stack == o.undo_stack && n.redo_stack
        == o.redo_stack
    &&& !readonly_kind(o.kind, o.wgrep_mode) ==> n.undo_view() == bounded_push(
        o.undo_view(),
        (o.text(), row, col, o.modified),
        UNDO_LIMIT as nat,
    ) && n.redo_stack@.len() == 0
    &&& n == (Buffer {
        rope: n.rope,
        modified: n.modified,
        language_id: n.language_id,
        undo_stack: n.undo_stack,
        redo_stack: n.redo_stack,
        ..o
    })
}

/// The status line after `n` substitutions: the count, or that nothing
/// matched.
pub open spec fn count_msg(n: nat) -> Seq<char> {
    if n > 0 {
        decimal(n) + " substitutions"@
    } else {
        "Pattern not found"@
    }
}

/// Success when something was replaced.
pub open spec fn count_kind(n: nat) -> MessageKind {
    if n > 0 {
        MessageKind::Success
    } else {
        MessageKind::Info
    }
}

/// `n` is `o` with its active buffer replaced by `b` and its status line
/// set to `msg` of kind `kind`.
pub open spec fn buf_and_status(o: Editor, n: Editor, b: Buffer, msg: Seq<char>, kind: MessageKind) -> bool {
    &&& n.buffers@ == o.buffers@.update(o.cur_idx(), b)
    &&& n.status_msg@ == msg
    &&& n == (Editor { buffers: n.buffers, status_msg: n.status_msg, status_kind: kind, ..o })
}

proof fn lemma_line_slice(t: Seq<char>, r: nat)
    requires
        r < num_lines(t),
    ensures
        line_start(t, r) + line_of(t, r).len() <= t.len(),
        line_of(t, r) == t.subrange(line_start(t, r) as int, (line_start(t, r) + line_of(t, r).len()) as int),
{
    lemma_line_len_bound(t, r);
    lemma_line_start_bounds(t, r);
    lemma_line_start_bounds(t, r + 1);
}

impl Editor {
    /// Replace, on rows `start_row..end_row` of the active buffer, the
    /// first (or, when `global`, every) occurrence of `pattern` on each
    /// line, after recording one undo step; report how many were made.
    pub fn execute_substitution_all(
        &mut self,
        pattern: &str,
        replacement: &str,
        global: bool,
        start_row: usize,
        end_row: usize,
    )
        requires
            old(self).wf(),
            subst_rows(old(self).cur_buf().text(), pattern@, replacement@, global, start_row as nat, end_row as nat).1 <= usize::MAX,
        ensures
            final(self).wf(),
            ({
                let o = *old(self);
                let res = subst_rows(o.cur_buf().text(), pattern@, replacement@, global, start_row as nat, end_row as nat);
                exists|b: Buffer|
                    substituted(o.cur_buf(), b, o.win().row, o.win().col, res.0)
                    && #[trigger] buf_and_status(o, *final(self), b, count_msg(res.1), count_kind(res.1))
            }),
    {
        let ghost o = *self;
        proof {
            self.lemma_cur_idx();
        }
        let bi = self.active_buf_idx();
        let row = self.windows[self.active_window_idx].row;
        let col = self.windows[self.active_window_idx].col;
        self.buffers[bi].push_undo(row, col);
        let ghost e1 = *self;
        let ghost b1 = self.buffers@[bi as int];
        let ghost total = subst_rows(o.cur_buf().text(), pattern@, replacement@, global, start_row as nat, end_row as nat);
        let pv = chars_of(pattern);
        let rv = chars_of(replacement);
        let mut count: usize = 0;
        let mut r = start_row;
        while r < end_row
            invariant
                bi < self.buffers@.len(),
                self.buffers@.len() == e1.buffers@.len(),
                e1.buffers@ == o.buffers@.update(bi as int, b1),
                self.buffers@ == e1.buffers@.update(bi as int, self.buffers@[bi as int]),
                self.buffers@[bi as int] == (Buffer { rope: self.buffers@[bi as int].rope, ..b1 }),
                *self == (Editor { buffers: self.buffers, ..e1 }),
                pv@ == pattern@,
                rv@ == replacement@,
                start_row <= r,
                total.0 == subst_rows(self.buffers@[bi as int].text(), pattern@, replacement@, global, r as nat, end_row as nat).0,
                count + subst_rows(self.buffers@[bi as int].text(), pattern@, replacement@, global, r as nat, end_row as nat).1 == total.1,
                total.1 <= usize::MAX,
            ensures
                r >= end_row || r >= num_lines(self.buffers@[bi as int].text()),
            decreases end_row - r,
        {
            if r >= self.buffers[bi].len_lines() {
                break;
            }
            let ghost t = self.buffers@[bi as int].text();
            let line = self.buffers[bi].line_text(r);
            let lv = chars_of(line.as_str());
            let (nl, c) = replace_in_line(&lv, &pv, &rv, global);
            let ls = rope_line_to_char(&self.buffers[bi].rope, r);
            let tl = rope_len_chars(&self.buffers[bi].rope);
            proof {
                lemma_line_slice(t, r as nat);
            }
            rope_remove(&mut self.buffers[bi].rope, ls, ls + lv.len());
            let ns = string_from_chars(nl.as_slice());
            rope_insert(&mut self.buffers[bi].rope, ls, ns.as_str());
            proof {
                let t2 = t.take(ls as int) + repl(line@, pattern@, replacement@, 0, global, false) + t.skip(ls + line@.len());
                assert(self.buffers@[bi as int].text() =~= t2);
            }
            count = count + c;
            r = r + 1;
        }
        self.buffers[bi].mark_modified();
        self.buffers[bi].parse_syntax();
        let ghost bfin = self.buffers@[bi as int];
        if count > 0 {
            let mut msg = String::new();
            push_decimal(&mut msg, count);
            push_str(&mut msg, " substitutions");
            self.set_status_msg(msg.as_str(), MessageKind::Success);
        } else {
            self.set_status_msg("Pattern not found", MessageKind::Info);
        }
        proof {
            let cur = bfin.text();
            assert(subst_rows(cur, pattern@, replacement@, global, r as nat, end_row as nat).1 == 0);
            assert(count == total.1);
            assert(cur == total.0);
            assert(self.buffers@ =~= o.buffers@.update(bi as int, bfin));
            Editor::lemma_wf_update_buf(o, *self, bi as int, bfin);
            assert(substituted(o.cur_buf(), bfin, o.win().row, o.win().col, total.0));
            if count > 0 {
                assert(self.status_msg@ =~= count_msg(total.1));
            }
            assert(buf_and_status(o, *self, bfin, count_msg(total.1), count_kind(total.1)));
        }
    }
}

} // verus!

verus! {

/// Next match of the interactive substitution, starting on row `r` at
/// char `c`: rows are visited in order up to `end`; without `global` a
/// row is left once a match on it was handled (`c > 0`).
pub open spec fn next_match(t: Seq<char>, w: Seq<char>, global: bool, r: nat, c: nat, end: nat) -> Option<(nat, nat)>
    decreases end - r,
{
    if r >= end {
        None
    } else if !global && c > 0 {
        next_match(t, w, global, r + 1, 0, end)
    } else {
        let line = line_of(t, r);
        let from = if c <= line.len() {
            c
        } else {
            line.len()
        };
        match first_occ_from(line, w, from as int) {
            Some(p) => Some((r, p as nat)),
            None => next_match(t, w, global, r + 1, 0, end),
        }
    }
}

/// The next match of an interactive substitution is an occurrence of
/// the pattern on a row of the range, not before the current position on
/// the current row.
pub proof fn lemma_next_match_occurs(t: Seq<char>, w: Seq<char>, global: bool, r: nat, c: nat, end: nat)
    ensures
        next_match(t, w, global, r, c, end) matches Some((r2, p)) ==> r <= r2 < end && occurs_at(
            line_of(t, r2),
            w,
            p as int,
        ) && (r2 == r ==> c <= p || c > line_of(t, r).len()),
    decreases end - r,
{
    if r < end {
        if !global && c > 0 {
            lemma_next_match_occurs(t, w, global, r + 1, 0, end);
        } else {
            let line = line_of(t, r);
            let from = if c <= line.len() { c } else { line.len() };
            lemma_first_occ(line, w, from as int);
            lemma_next_match_occurs(t, w, global, r + 1, 0, end);
        }
    }
}

/// Where the interactive substitution of `o` goes next.
pub open spec fn pending_match(o: Editor) -> Option<(nat, nat)> {
    let s = o.substitution_state->0;
    next_match(
        o.cur_buf().text(),
        s.pattern@,
        s.global,
        s.current_row as nat,
        s.current_col as nat,
        s.end_row as nat,
    )
}

pub open spec fn opt_str(o: Option<String>) -> Option<Seq<char>> {
    match o {
        Some(s) => Some(s@),
        None => None,
    }
}

/// `n` is `o` with the match at row `r`, char `p` selected: the cursor is
/// on it, it is the search highlight, and the prompt asks what to do.
pub open spec fn advanced(o: Editor, n: Editor, r: nat, p: nat) -> bool {
    let s = o.substitution_state->0;
    let ci = o.cur_idx();
    &&& n.windows@ == o.windows@.update(
        o.active_window_idx as int,
        Window { row: r as usize, col: p as usize, desired_col: p as usize, ..o.win() },
    )
    &&& opt_str(n.last_search_query) == Some(s.pattern@)
    &&& opt_str(n.buffers@[ci].search_pattern) == Some(s.pattern@)
    &&& n.buffers@ == o.buffers@.update(
        ci,
        Buffer { search_pattern: n.buffers@[ci].search_pattern, ..o.buffers@[ci] },
    )
    &&& n.status_msg@ == "replace (y/n/a/q)?"@
    &&& n.substitution_state == Some(
        SubstitutionState { current_row: r as usize, current_col: p as usize, ..s },
    )
    &&& n == (Editor {
        windows: n.windows,
        last_search_query: n.last_search_query,
        buffers: n.buffers,
        status_msg: n.status_msg,
        status_kind: MessageKind::Info,
        substitution_state: n.substitution_state,
        ..o
    })
}

/// The status line when a confirming substitution ends.
pub open spec fn finish_msg(n: nat) -> Seq<char> {
    decimal(n) + " substitutions"@
}

/// `n` is `o` after the interactive substitution ended: the search that
/// was active before it is restored and the count is reported.
pub open spec fn finished(o: Editor, n: Editor) -> bool {
    let count: nat = match o.substitution_state {
        Some(s) => s.replacements_made as nat,
        None => 0,
    };
    let ci = o.cur_idx();
    let b = o.buffers@[ci];
    &&& n.substitution_state is None
    &&& opt_str(n.last_search_query) == opt_str(o.prev_search_query)
    &&& n.prev_search_query is None
    &&& opt_str(n.buffers@[ci].search_pattern) == opt_str(o.prev_search_query)
    &&& n.buffers@[ci].language_id matches Some(l) && l@ == syntax_language_spec(
        b.kind,
        b.wgrep_mode,
        opt_view(b.filename),
    )
    &&& n.buffers@ == o.buffers@.update(
        ci,
        Buffer {
            search_pattern: n.buffers@[ci].search_pattern,
            language_id: n.buffers@[ci].language_id,
            ..b
        },
    )
    &&& n.status_msg@ == finish_msg(count)
    &&& n == (Editor {
        substitution_state: None,
        last_search_query: n.last_search_query,
        prev_search_query: None,
        buffers: n.buffers,
        status_msg: n.status_msg,
        status_kind: count_kind(count),
        ..o
    })
}

/// `n` is `o` after moving to the next match, or after ending the
/// substitution when there is none.
pub open spec fn advanced_or_finished(o: Editor, n: Editor) -> bool {
    match pending_match(o) {
        Some((r, p)) => advanced(o, n, r, p),
        None => finished(o, n),
    }
}

fn clone_opt(o: &Option<String>) -> (r: Option<String>)
    ensures
        opt_str(r) == opt_str(*o),
{
    match o {
        Some(s) => Some(s.clone()),
        None => None,
    }
}

impl Editor {
    /// Row and char of the next match on buffer `bi`.
    fn locate_match(
        &self,
        bi: usize,
        pattern: &str,
        global: bool,
        start_r: usize,
        start_c: usize,
        end_row: usize,
    ) -> (m: Option<(usize, usize)>)
        requires
            bi < self.buffers@.len(),
        ensures
            match next_match(
                self.buffers@[bi as int].text(),
                pattern@,
                global,
                start_r as nat,
                start_c as nat,
                end_row as nat,
            ) {
                Some((r, p)) => m == Some((r as usize, p as usize)) && r < end_row,
                None => m is None,
            },
    {
        let ghost t = self.buffers@[bi as int].text();
        let pv = chars_of(pattern);
        let mut r = start_r;
        let mut c = start_c;
        while r < end_row
            invariant
                bi < self.buffers@.len(),
                t == self.buffers@[bi as int].text(),
                pv@ == pattern@,
                next_match(t, pattern@, global, r as nat, c as nat, end_row as nat) == next_match(
                    t,
                    pattern@,
                    global,
                    start_r as nat,
                    start_c as nat,
                    end_row as nat,
                ),
            decreases end_row - r,
        {
            if !global && c > 0 {
                r = r + 1;
                c = 0;
                continue;
            }
            let line = self.buffers[bi].line_text(r);
            let lv = chars_of(line.as_str());
            let from = if c <= lv.len() {
                c
            } else {
                lv.len()
            };
            match find_from(&lv, &pv, from) {
                Some(p) => {
                    proof {
                        lemma_first_occ(lv@, pv@, from as int);
                        assert(next_match(t, pattern@, global, r as nat, c as nat, end_row as nat)
                            == Some((r as nat, p as nat)));
                    }
                    return Some((r, p));
                },
                None => {},
            }
            r = r + 1;
            c = 0;
        }
        None
    }

    /// Put the cursor on the match at row `r`, char `p`, highlight the
    /// pattern and prompt.
    fn select_match(&mut self, bi: usize, r: usize, p: usize, pattern: String)
        requires
            old(self).wf(),
            bi == old(self).cur_idx(),
            old(self).substitution_state matches Some(ss) && ss.pattern@ == pattern@,
        ensures
            final(self).wf(),
            advanced(*old(self), *final(self), r as nat, p as nat),
    {
        let ghost o = *self;
        proof {
            self.lemma_cur_idx();
        }
        let idx = self.active_window_idx;
        self.windows[idx].row = r;
        self.windows[idx].col = p;
        self.windows[idx].desired_col = p;
        self.last_search_query = Some(pattern.clone());
        self.buffers[bi].search_pattern = Some(pattern);
        self.set_status_msg("replace (y/n/a/q)?", MessageKind::Info);
        let mut st = match self.substitution_state.take() {
            Some(st) => st,
            None => return,
        };
        st.current_row = r;
        st.current_col = p;
        self.substitution_state = Some(st);
        proof {
            assert(self.buffers@ =~= o.buffers@.update(
                bi as int,
                Buffer { search_pattern: self.buffers@[bi as int].search_pattern, ..o.buffers@[bi as int] },
            ));
            Editor::lemma_wf_update_buf(o, *self, bi as int, self.buffers@[bi as int]);
            assert(self.windows@ =~= o.windows@.update(
                o.active_window_idx as int,
                Window { row: r, col: p, desired_col: p, ..o.win() },
            ));
        }
    }

    /// Find the next match and select it.  Returns `false` when there is
    /// none (or no substitution is under way), changing nothing.
    pub fn advance_substitution(&mut self) -> (found: bool)
        requires
            old(self).wf(),
        ensures
            final(self).wf(),
            old(self).substitution_state is None ==> !found && *final(self) == *old(self),
            old(self).substitution_state is Some ==> match pending_match(*old(self)) {
                Some((r, p)) => found && advanced(*old(self), *final(self), r, p),
                None => !found && *final(self) == *old(self),
            },
    {
        let (start_r, start_c, end_row, global, pattern) = match &self.substitution_state {
            Some(st) => (st.current_row, st.current_col, st.end_row, st.global, st.pattern.clone()),
            None => return false,
        };
        proof {
            self.lemma_cur_idx();
        }
        let bi = self.active_buf_idx();
        match self.locate_match(bi, pattern.as_str(), global, start_r, start_c, end_row) {
            Some((r, p)) => {
                self.select_match(bi, r, p, pattern);
                true
            },
            None => false,
        }
    }

    /// End the interactive substitution, restore the previous search and
    /// report how many replacements were made.
    pub fn finish_substitution(&mut self)
        requires
            old(self).wf(),
        ensures
            final(self).wf(),
            finished(*old(self), *final(self)),
    {
        let ghost o = *self;
        let count = match &self.substitution_state {
            Some(st) => st.replacements_made,
            None => 0,
        };
        self.substitution_state = None;
        proof {
            self.lemma_cur_idx();
        }
        let bi = self.active_buf_idx();
        self.last_search_query = self.prev_search_query.take();
        self.buffers[bi].search_pattern = clone_opt(&self.last_search_query);
        self.buffers[bi].parse_syntax();
        let mut msg = String::new();
        push_decimal(&mut msg, count);
        push_str(&mut msg, " substitutions");
        if count > 0 {
            self.set_status_msg(msg.as_str(), MessageKind::Success);
        } else {
            self.set_status_msg(msg.as_str(), MessageKind::Info);
        }
        proof {
            assert(self.status_msg@ =~= finish_msg(count as nat));
            assert(self.buffers@ =~= o.buffers@.update(bi as int, self.buffers@[bi as int]));
            Editor::lemma_wf_update_buf(o, *self, bi as int, self.buffers@[bi as int]);
        }
    }

    /// Move on to the next match, or end when there is none.
    pub fn advance_substitution_or_finish(&mut self)
        requires
            old(self).wf(),
            old(self).substitution_state is Some,
        ensures
            final(self).wf(),
            advanced_or_finished(*old(self), *final(self)),
    {
        if !self.advance_substitution() {
            self.finish_substitution();
        }
    }
}

} // verus!

verus! {

/// The current match of `o`'s interactive substitution lies inside the
/// text, and the count can still grow.
pub open spec fn replace_ok(o: Editor) -> bool {
    o.substitution_state matches Some(s) ==> {
        let t = o.cur_buf().text();
        &&& s.current_row <= num_lines(t)
        &&& line_start(t, s.current_row as nat) + s.current_col + s.pattern@.len() <= t.len()
        &&& s.replacements_made < usize::MAX
    }
}

/// `m` is `o` after its current match was replaced and counted, the
/// match position moved past the replacement.
pub open spec fn match_replaced(o: Editor, m: Editor) -> bool {
    let s = o.substitution_state->0;
    let ci = o.cur_idx();
    let b = o.buffers@[ci];
    let t = b.text();
    let start = line_start(t, s.current_row as nat) + s.current_col;
    let nb = m.buffers@[ci];
    &&& nb.text() == t.take(start) + s.replacement@ + t.skip(start + s.pattern@.len())
    &&& nb.modified == (b.modified || marks_dirty(b.kind, b.wgrep_mode))
    &&& nb.language_id matches Some(l) && l@ == syntax_language_spec(
        b.kind,
        b.wgrep_mode,
        opt_view(b.filename),
    )
    &&& nb == (Buffer { rope: nb.rope, modified: nb.modified, language_id: nb.language_id, ..b })
    &&& m.buffers@ == o.buffers@.update(ci, nb)
    &&& m.substitution_state == Some(
        SubstitutionState {
            replacements_made: (s.replacements_made + 1) as usize,
            current_col: (s.current_col + s.replacement@.len()) as usize,
            ..s
        },
    )
    &&& m == (Editor { buffers: m.buffers, substitution_state: m.substitution_state, ..o })
}

/// `n` is `o` after the prompt moved on: to the next match, or to the end
/// when there is none (or no substitution was under way).
pub open spec fn moved_on(o: Editor, n: Editor) -> bool {
    if o.substitution_state is Some {
        advanced_or_finished(o, n)
    } else {
        finished(o, n)
    }
}

fn contains_char(s: &str, c: char) -> (b: bool)
    ensures
        b == s@.contains(c),
{
    let v = chars_of(s);
    let mut i: usize = 0;
    while i < v.len()
        invariant
            v@ == s@,
            i <= v@.len(),
            forall|j: int| 0 <= j < i ==> v@[j] != c,
        decreases v@.len() - i,
    {
        if v[i] == c {
            assert(s@[i as int] == c);
            return true;
        }
        i = i + 1;
    }
    false
}

impl Editor {
    /// Move on after a skip or a replacement.
    fn move_on(&mut self)
        requires
            old(self).wf(),
        ensures
            final(self).wf(),
            moved_on(*old(self), *final(self)),
    {
        if !self.advance_substitution() {
            self.finish_substitution();
        }
    }

    /// Replace the current match, then move on to the next one.
    pub fn substitution_replace(&mut self)
        requires
            old(self).wf(),
            replace_ok(*old(self)),
        ensures
            final(self).wf(),
            old(self).substitution_state is None ==> *final(self) == *old(self),
            old(self).substitution_state is Some ==> exists|m: Editor|
                match_replaced(*old(self), m) && m.wf() && #[trigger] moved_on(m, *final(self)),
    {
        let ghost o = *self;
        let (r, c, pattern, replacement) = match &self.substitution_state {
            Some(st) => (st.current_row, st.current_col, st.pattern.clone(), st.replacement.clone()),
            None => return,
        };
        proof {
            self.lemma_cur_idx();
        }
        let bi = self.active_buf_idx();
        let ghost t = self.buffers@[bi as int].text();
        let pl = chars_of(pattern.as_str()).len();
        let rl = chars_of(replacement.as_str()).len();
        let ls = rope_line_to_char(&self.buffers[bi].rope, r);
        let tl = rope_len_chars(&self.buffers[bi].rope);
        let start = ls + c;
        let end = start + pl;
        rope_remove(&mut self.buffers[bi].rope, start, end);
        rope_insert(&mut self.buffers[bi].rope, start, replacement.as_str());
        let nl = rope_len_chars(&self.buffers[bi].rope);
        self.buffers[bi].mark_modified();
        self.buffers[bi].parse_syntax();
        let mut st = match self.substitution_state.take() {
            Some(st) => st,
            None => return,
        };
        st.replacements_made = st.replacements_made + 1;
        st.current_col = c + rl;
        self.substitution_state = Some(st);
        proof {
            assert(self.buffers@[bi as int].text() =~= t.take(start as int) + replacement@ + t.skip(
                end as int,
            ));
            assert(self.buffers@ =~= o.buffers@.update(bi as int, self.buffers@[bi as int]));
            Editor::lemma_wf_update_buf(o, *self, bi as int, self.buffers@[bi as int]);
            assert(match_replaced(o, *self));
        }
        let ghost m = *self;
        self.move_on();
        proof {
            assert(moved_on(m, *self));
        }
    }

    /// Leave the current match as it is and move on.
    pub fn substitution_skip(&mut self)
        requires
            old(self).wf(),
            old(self).substitution_state matches Some(s) ==> s.current_col < usize::MAX,
        ensures
            final(self).wf(),
            old(self).substitution_state is None ==> finished(*old(self), *final(self)),
            old(self).substitution_state matches Some(s) ==> exists|m: Editor|
                m == (Editor {
                    substitution_state: Some(
                        SubstitutionState { current_col: (s.current_col + 1) as usize, ..s },
                    ),
                    ..*old(self)
                }) && #[trigger] moved_on(m, *final(self)),
    {
        let ghost o = *self;
        let st = self.substitution_state.take();
        match st {
            Some(mut st) => {
                st.current_col = st.current_col + 1;
                self.substitution_state = Some(st);
            },
            None => {},
        }
        let ghost m = *self;
        self.move_on();
        proof {
            assert(moved_on(m, *self));
        }
    }

    /// Replace this match and every remaining one without asking.
    pub fn substitution_replace_all(&mut self)
        requires
            old(self).wf(),
            replace_ok(*old(self)),
        ensures
            final(self).wf(),
            old(self).substitution_state is None ==> *final(self) == *old(self),
            old(self).substitution_state matches Some(s) ==> exists|m: Editor|
                match_replaced(
                    Editor {
                        substitution_state: Some(SubstitutionState { replace_all: true, ..s }),
                        ..*old(self)
                    },
                    m,
                ) && m.wf() && #[trigger] moved_on(m, *final(self)),
    {
        let st = self.substitution_state.take();
        match st {
            Some(mut st) => {
                st.replace_all = true;
                self.substitution_state = Some(st);
            },
            None => {},
        }
        self.substitution_replace();
    }

    /// Answer to the substitution prompt: `y` replaces, `n` skips, `a`
    /// replaces all the rest, `q` or Esc stops; other keys do nothing.
    pub fn handle_substitution_key(&mut self, key: Key)
        requires
            old(self).wf(),
            key == Key::Char('y') || key == Key::Char('a') ==> replace_ok(*old(self)),
            key == Key::Char('n') ==> (old(self).substitution_state matches Some(s)
                ==> s.current_col < usize::MAX),
        ensures
            final(self).wf(),
            key == Key::Char('y') && old(self).substitution_state is None ==> *final(self) == *old(
                self,
            ),
            key == Key::Char('y') && old(self).substitution_state is Some ==> exists|m: Editor|
                match_replaced(*old(self), m) && m.wf() && #[trigger] moved_on(m, *final(self)),
            key == Key::Char('n') && old(self).substitution_state is None ==> finished(
                *old(self),
                *final(self),
            ),
            key == Key::Char('n') ==> (old(self).substitution_state matches Some(s) ==> exists|
                m: Editor,
            |
                m == (Editor {
                    substitution_state: Some(
                        SubstitutionState { current_col: (s.current_col + 1) as usize, ..s },
                    ),
                    ..*old(self)
                }) && #[trigger] moved_on(m, *final(self))),
            key == Key::Char('a') && old(self).substitution_state is None ==> *final(self) == *old(
                self,
            ),
            key == Key::Char('a') ==> (old(self).substitution_state matches Some(s) ==> exists|
                m: Editor,
            |
                match_replaced(
                    Editor {
                        substitution_state: Some(SubstitutionState { replace_all: true, ..s }),
                        ..*old(self)
                    },
                    m,
                ) && m.wf() && #[trigger] moved_on(m, *final(self))),
            key == Key::Char('q') || key == Key::Esc ==> finished(*old(self), *final(self)),
            !(key == Key::Char('y') || key == Key::Char('n') || key == Key::Char('a') || key
                == Key::Char('q') || key == Key::Esc) ==> *final(self) == *old(self),
    {
        match key {
            Key::Char('y') => self.substitution_replace(),
            Key::Char('n') => self.substitution_skip(),
            Key::Char('a') => self.substitution_replace_all(),
            Key::Char('q') | Key::Esc => self.finish_substitution(),
            _ => {},
        }
    }
}

} // verus!

verus! {

/// Rows `start..end` a substitution works on: a selected range (its last
/// row included), the whole file, or the cursor line.
pub open spec fn subst_range(o: Editor, range: Option<(usize, usize)>, whole_file: bool) -> (nat, nat) {
    match range {
        Some((r1, r2)) => (r1 as nat, (r2 + 1) as nat),
        None => if whole_file {
            (0, num_lines(o.cur_buf().text()))
        } else {
            (o.win().row as nat, (o.win().row + 1) as nat)
        },
    }
}

/// `m` is `o` with a confirming substitution of `pattern` by
/// `replacement` set up on rows `start..end`: one undo step recorded, the
/// previous search saved, the pattern highlighted and the prompt shown.
pub open spec fn subst_started(
    o: Editor,
    m: Editor,
    pattern: Seq<char>,
    replacement: Seq<char>,
    global: bool,
    start: nat,
    end: nat,
) -> bool {
    let ci = o.cur_idx();
    let b = o.buffers@[ci];
    let nb = m.buffers@[ci];
    &&& readonly_kind(b.kind, b.wgrep_mode) ==> nb.undo_stack == b.undo_stack && nb.redo_stack
        == b.redo_stack
    &&& !readonly_kind(b.kind, b.wgrep_mode) ==> nb.undo_view() == bounded_push(
        b.undo_view(),
        (b.text(), o.win().row, o.win().col, b.modified),
        UNDO_LIMIT as nat,
    ) && nb.redo_stack@.len() == 0
    &&& opt_str(nb.search_pattern) == Some(pattern)
    &&& nb == (Buffer {
        undo_stack: nb.undo_stack,
        redo_stack: nb.redo_stack,
        search_pattern: nb.search_pattern,
        ..b
    })
    &&& m.buffers@ == o.buffers@.update(ci, nb)
    &&& opt_str(m.prev_search_query) == opt_str(o.last_search_query)
    &&& opt_str(m.last_search_query) == Some(pattern)
    &&& m.substitution_state matches Some(st) && st.pattern@ == pattern && st.replacement@
        == replacement && st.global == global && st.current_row == start && st.current_col == 0
        && st.end_row == end && !st.replace_all && st.replacements_made == 0
    &&& m.status_msg@ == "replace (y/n/a/q)?"@
    &&& m == (Editor {
        buffers: m.buffers,
        prev_search_query: m.prev_search_query,
        last_search_query: m.last_search_query,
        substitution_state: m.substitution_state,
        status_msg: m.status_msg,
        status_kind: MessageKind::Info,
        ..o
    })
}

impl Editor {
    /// `:s/pattern/replacement/flags`: substitute on the selected rows,
    /// the whole file or the cursor line; flag `g` replaces every match
    /// on a line, flag `c` asks before each one.
    pub fn start_substitution(
        &mut self,
        pattern: String,
        replacement: String,
        flags: String,
        range: Option<(usize, usize)>,
        whole_file: bool,
    )
        requires
            old(self).wf(),
            range matches Some((r1, r2)) ==> r2 < usize::MAX,
            range is None && !whole_file ==> old(self).win().row < usize::MAX,
            pattern@.len() > 0 && !flags@.contains('c') ==> ({
                let (st, en) = subst_range(*old(self), range, whole_file);
                subst_rows(old(self).cur_buf().text(), pattern@, replacement@, flags@.contains('g'), st, en).1
                    <= usize::MAX
            }),
        ensures
            final(self).wf(),
            pattern@.len() == 0 ==> final(self).status_msg@ == "Empty pattern"@ && *final(self)
                == (Editor {
                status_msg: final(self).status_msg,
                status_kind: MessageKind::Error,
                ..*old(self)
            }),
            pattern@.len() > 0 && flags@.contains('c') ==> ({
                let (st, en) = subst_range(*old(self), range, whole_file);
                exists|m: Editor|
                    subst_started(*old(self), m, pattern@, replacement@, flags@.contains('g'), st, en)
                        && m.wf() && #[trigger] moved_on(m, *final(self))
            }),
            pattern@.len() > 0 && !flags@.contains('c') ==> ({
                let o = *old(self);
                let (st, en) = subst_range(o, range, whole_file);
                let res = subst_rows(o.cur_buf().text(), pattern@, replacement@, flags@.contains('g'), st, en);
                exists|b: Buffer|
                    substituted(o.cur_buf(), b, o.win().row, o.win().col, res.0)
                    && #[trigger] buf_and_status(o, *final(self), b, count_msg(res.1), count_kind(res.1))
            }),
    {
        if pattern.as_str().is_empty() {
            self.set_status_msg("Empty pattern", MessageKind::Error);
            return;
        }
        let ghost o = *self;
        let global = contains_char(flags.as_str(), 'g');
        let confirm = contains_char(flags.as_str(), 'c');
        proof {
            self.lemma_cur_idx();
        }
        let (start_row, end_row) = match range {
            Some((r1, r2)) => (r1, r2 + 1),
            None => if whole_file {
                (0, self.buf().len_lines())
            } else {
                let row = self.windows[self.active_window_idx].row;
                (row, row + 1)
            },
        };
        if confirm {
            let bi = self.active_buf_idx();
            let row = self.windows[self.active_window_idx].row;
            let col = self.windows[self.active_window_idx].col;
            self.buffers[bi].push_undo(row, col);
            self.prev_search_query = clone_opt(&self.last_search_query);
            let p2 = pattern.clone();
            self.substitution_state = Some(
                SubstitutionState {
                    pattern: p2,
                    replacement,
                    global,
                    current_row: start_row,
                    current_col: 0,
                    end_row,
                    replace_all: false,
                    replacements_made: 0,
                },
            );
            self.last_search_query = Some(pattern.clone());
            self.buffers[bi].search_pattern = Some(pattern);
            self.set_status_msg("replace (y/n/a/q)?", MessageKind::Info);
            proof {
                assert(self.buffers@ =~= o.buffers@.update(bi as int, self.buffers@[bi as int]));
                Editor::lemma_wf_update_buf(o, *self, bi as int, self.buffers@[bi as int]);
            }
            let ghost m = *self;
            self.move_on();
            proof {
                assert(moved_on(m, *self));
            }
        } else {
            self.execute_substitution_all(pattern.as_str(), replacement.as_str(), global, start_row, end_row);
        }
    }
}

} // verus!
