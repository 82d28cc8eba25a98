//! Git hunks of the active buffer: the runs of rows with git signs.

use crate::buffer::{Buffer, GitSign};
use crate::editor::{Editor, MessageKind};
use crate::build_log::{lines_of, split_lines};
use crate::diff_align::{PatchHunk, sat_sub};
use crate::lines::{lemma_line_start_bounds, lemma_line_start_mono, line_start, num_lines};
use crate::patch::{diff_hunks, first_covering_v, hunk_text_lines_v, lemma_hunk_views_agree, collect_patch_hunks, covers, extract_hunk_lines, find_hunk_idx, first_covering, hunk_text_lines, hunk_wf, patch_from_texts};
use crate::rope::{rope_chars, rope_insert, rope_len_lines, rope_line_to_char, rope_remove, rope_to_string};
use crate::subst::substituted;
use crate::text::{decimal, push_decimal, push_str, string_push};
use crate::window::Window;
use vstd::prelude::*;
use vstd::std_specs::iter::IteratorSpec;

verus! {

broadcast use vstd::std_specs::hash::group_hash_axioms;

/// The rows that carry a git sign, in some order, each once.
pub fn signed_rows(m: &std::collections::HashMap<usize, GitSign>) -> (rows: Vec<usize>)
    ensures
        rows@.to_set() == m@.dom(),
        rows@.no_duplicates(),
{
    let ghost ks = vstd::std_specs::hash::spec_keys_iter(m).remaining().map_values(|x: &usize| *x);
    let mut rows: Vec<usize> = Vec::new();
    for k in it: m.keys()
        invariant
            it.seq().map_values(|x: &usize| *x) == ks,
            rows@ == it.seq().take(it.index()).map_values(|x: &usize| *x),
        ensures
            rows@ == ks,
    {
        rows.push(*k);
        proof {
            assert(rows@ =~= it.seq().take(it.index() + 1).map_values(|x: &usize| *x));
        }
    }
    proof {
        let r = vstd::std_specs::hash::spec_keys_iter(m).remaining();
        vstd::std_specs::hash::axiom_spec_keys_iter(m);
        assert(r.unref() =~= ks);
        assert forall|i: int, j: int| 0 <= i < ks.len() && 0 <= j < ks.len() && i != j implies ks[i] != ks[j] by {
            assert(r[i] != r[j]);
        }
    }
    rows
}

/// Row `r` opens a hunk: it carries a sign and the row above it does not.
pub open spec fn is_hunk_start(d: Set<usize>, r: usize) -> bool {
    d.contains(r) && (r == 0 || !d.contains((r - 1) as usize))
}

/// Some hunk opens strictly between `lo` and `hi`.
pub open spec fn start_between(d: Set<usize>, lo: int, hi: int) -> bool {
    exists|s: usize| #[trigger] is_hunk_start(d, s) && lo < s < hi
}

/// `t` is the first hunk start after `lo`.
pub open spec fn least_start_after(d: Set<usize>, lo: int, t: usize) -> bool {
    &&& is_hunk_start(d, t)
    &&& lo < t
    &&& forall|s: usize| #[trigger] is_hunk_start(d, s) && lo < s ==> t <= s
}

/// `t` is the last hunk start before `hi`.
pub open spec fn greatest_start_before(d: Set<usize>, hi: int, t: usize) -> bool {
    &&& is_hunk_start(d, t)
    &&& t < hi
    &&& forall|s: usize| #[trigger] is_hunk_start(d, s) && s < hi ==> s <= t
}

/// Where "next hunk" goes from `row`: the first hunk start below it, or,
/// past the last one, the first hunk of the buffer.
pub open spec fn next_hunk_target(d: Set<usize>, row: usize, t: usize) -> bool {
    if start_between(d, row as int, usize::MAX + 1) {
        least_start_after(d, row as int, t)
    } else {
        least_start_after(d, -1, t)
    }
}

/// Where "previous hunk" goes from `row`: the last hunk start above it,
/// or, before the first one, the last hunk of the buffer.
pub open spec fn prev_hunk_target(d: Set<usize>, row: usize, t: usize) -> bool {
    if start_between(d, -1, row as int) {
        greatest_start_before(d, row as int, t)
    } else {
        greatest_start_before(d, usize::MAX + 1, t)
    }
}

fn is_start_exec(m: &std::collections::HashMap<usize, GitSign>, k: usize) -> (b: bool)
    requires
        m@.dom().contains(k),
    ensures
        b == is_hunk_start(m@.dom(), k),
{
    if k == 0 {
        true
    } else {
        !m.contains_key(&(k - 1))
    }
}

/// Every signed row is one of `rows`.
proof fn lemma_start_in_rows_any(d: Set<usize>, rows: Seq<usize>, s: usize) -> (j: int)
    requires
        rows.to_set() == d,
        d.contains(s),
    ensures
        0 <= j < rows.len(),
        rows[j] == s,
{
    assert(rows.to_set().contains(s));
    choose|j: int| 0 <= j < rows.len() && rows[j] == s
}

/// Every hunk start is one of `rows`, given that `rows` are the signed rows.
proof fn lemma_start_in_rows(d: Set<usize>, rows: Seq<usize>, s: usize) -> (j: int)
    requires
        rows.to_set() == d,
        is_hunk_start(d, s),
    ensures
        0 <= j < rows.len(),
        rows[j] == s,
{
    assert(rows.to_set().contains(s));
    choose|j: int| 0 <= j < rows.len() && rows[j] == s
}

/// The start of the next hunk after `row` (see `next_hunk_target`);
/// `None` exactly when no row carries a sign.
pub fn next_hunk_start(m: &std::collections::HashMap<usize, GitSign>, row: usize) -> (r: Option<usize>)
    ensures
        r is None <==> m@.dom() =~= Set::<usize>::empty(),
        r matches Some(t) ==> next_hunk_target(m@.dom(), row, t),
{
    let ghost d = m@.dom();
    let rows = signed_rows(m);
    let mut above: Option<usize> = None;
    let mut least: Option<usize> = None;
    let mut min_key: Option<usize> = None;
    let mut i: usize = 0;
    proof {
        assert forall|j: int| 0 <= j < rows@.len() implies d.contains(#[trigger] rows@[j]) by {
            assert(rows@.to_set().contains(rows@[j]));
        }
    }
    while i < rows.len()
        invariant
            i <= rows@.len(),
            rows@.to_set() == d,
            d == m@.dom(),
            forall|j: int| 0 <= j < rows@.len() ==> d.contains(#[trigger] rows@[j]),
            min_key matches Some(k) ==> d.contains(k) && forall|j: int|
                0 <= j < i ==> k <= #[trigger] rows@[j],
            min_key is None ==> i == 0,
            least matches Some(t) ==> is_hunk_start(d, t) && forall|j: int|
                0 <= j < i && is_hunk_start(d, #[trigger] rows@[j]) ==> t <= rows@[j],
            least is None ==> forall|j: int| 0 <= j < i ==> !is_hunk_start(d, #[trigger] rows@[j]),
            above matches Some(t) ==> is_hunk_start(d, t) && row < t && forall|j: int|
                0 <= j < i && is_hunk_start(d, #[trigger] rows@[j]) && row < rows@[j] ==> t <= rows@[j],
            above is None ==> forall|j: int|
                0 <= j < i && is_hunk_start(d, #[trigger] rows@[j]) ==> rows@[j] <= row,
        decreases rows@.len() - i,
    {
        let k = rows[i];
        match min_key {
            Some(mk) => {
                if k < mk {
                    min_key = Some(k);
                }
            },
            None => {
                min_key = Some(k);
            },
        }
        if is_start_exec(m, k) {
            match least {
                Some(t) => {
                    if k < t {
                        least = Some(k);
                    }
                },
                None => {
                    least = Some(k);
                },
            }
            if k > row {
                match above {
                    Some(t) => {
                        if k < t {
                            above = Some(k);
                        }
                    },
                    None => {
                        above = Some(k);
                    },
                }
            }
        }
        i = i + 1;
    }
    proof {
        if rows@.len() > 0 {
            let k = min_key->0;
            if k > 0 && d.contains((k - 1) as usize) {
                let j = lemma_start_in_rows_any(d, rows@, (k - 1) as usize);
                assert(k <= rows@[j]);
            }
            let j = lemma_start_in_rows(d, rows@, k);
            assert(is_hunk_start(d, rows@[j]));
        } else {
            assert(d =~= Set::<usize>::empty()) by {
                assert forall|x: usize| !d.contains(x) by {
                    if d.contains(x) {
                        assert(rows@.to_set().contains(x));
                    }
                }
            }
        }
        assert forall|s: usize| #[trigger] is_hunk_start(d, s) implies (least matches Some(t) && t <= s)
            && (row < s ==> (above matches Some(t) && t <= s)) by {
            let j = lemma_start_in_rows(d, rows@, s);
        }
    }
    match above {
        Some(t) => Some(t),
        None => least,
    }
}

/// The start of the previous hunk before `row` (see `prev_hunk_target`);
/// `None` exactly when no row carries a sign.
pub fn prev_hunk_start(m: &std::collections::HashMap<usize, GitSign>, row: usize) -> (r: Option<usize>)
    ensures
        r is None <==> m@.dom() =~= Set::<usize>::empty(),
        r matches Some(t) ==> prev_hunk_target(m@.dom(), row, t),
{
    let ghost d = m@.dom();
    let rows = signed_rows(m);
    let mut below: Option<usize> = None;
    let mut greatest: Option<usize> = None;
    let mut min_key: Option<usize> = None;
    let mut i: usize = 0;
    proof {
        assert forall|j: int| 0 <= j < rows@.len() implies d.contains(#[trigger] rows@[j]) by {
            assert(rows@.to_set().contains(rows@[j]));
        }
    }
    while i < rows.len()
        invariant
            i <= rows@.len(),
            rows@.to_set() == d,
            d == m@.dom(),
            forall|j: int| 0 <= j < rows@.len() ==> d.contains(#[trigger] rows@[j]),
            min_key matches Some(k) ==> d.contains(k) && forall|j: int|
                0 <= j < i ==> k <= #[trigger] rows@[j],
            min_key is None ==> i == 0,
            greatest matches Some(t) ==> is_hunk_start(d, t) && forall|j: int|
                0 <= j < i && is_hunk_start(d, #[trigger] rows@[j]) ==> rows@[j] <= t,
            greatest is None ==> forall|j: int| 0 <= j < i ==> !is_hunk_start(d, #[trigger] rows@[j]),
            below matches Some(t) ==> is_hunk_start(d, t) && t < row && forall|j: int|
                0 <= j < i && is_hunk_start(d, #[trigger] rows@[j]) && rows@[j] < row ==> rows@[j] <= t,
            below is None ==> forall|j: int|
                0 <= j < i && is_hunk_start(d, #[trigger] rows@[j]) ==> row <= rows@[j],
        decreases rows@.len() - i,
    {
        let k = rows[i];
        match min_key {
            Some(mk) => {
                if k < mk {
                    min_key = Some(k);
                }
            },
            None => {
                min_key = Some(k);
            },
        }
        if is_start_exec(m, k) {
            match greatest {
                Some(t) => {
                    if k > t {
                        greatest = Some(k);
                    }
                },
                None => {
                    greatest = Some(k);
                },
            }
            if k < row {
                match below {
                    Some(t) => {
                        if k > t {
                            below = Some(k);
                        }
                    },
                    None => {
                        below = Some(k);
                    },
                }
            }
        }
        i = i + 1;
    }
    proof {
        if rows@.len() > 0 {
            let k = min_key->0;
            if k > 0 && d.contains((k - 1) as usize) {
                let j = lemma_start_in_rows_any(d, rows@, (k - 1) as usize);
                assert(k <= rows@[j]);
            }
            let j = lemma_start_in_rows(d, rows@, k);
            assert(is_hunk_start(d, rows@[j]));
        } else {
            assert(d =~= Set::<usize>::empty()) by {
                assert forall|x: usize| !d.contains(x) by {
                    if d.contains(x) {
                        assert(rows@.to_set().contains(x));
                    }
                }
            }
        }
        assert forall|s: usize| #[trigger] is_hunk_start(d, s) implies (greatest matches Some(t) && s <= t)
            && (s < row ==> (below matches Some(t) && s <= t)) by {
            let j = lemma_start_in_rows(d, rows@, s);
        }
    }
    match below {
        Some(t) => Some(t),
        None => greatest,
    }
}

/// The active window after jumping to the hunk at `row`: the cursor at
/// the start of that row, the old position remembered for the way back.
pub open spec fn hunk_jumped(w: Window, row: usize) -> Window {
    Window { last_jump: Some((w.row, w.col)), row, col: 0, desired_col: 0, ..w }
}

/// `n` is `o` with only the status line set to `msg` of kind `kind`.
pub open spec fn only_status(o: Editor, n: Editor, msg: Seq<char>, kind: MessageKind) -> bool {
    &&& n.status_msg@ == msg
    &&& n == (Editor { status_msg: n.status_msg, status_kind: kind, ..o })
}

/// No row of the git signs reaches the last `usize`, so a 1-based line
/// number can be shown for each.
pub open spec fn rows_numberable(m: Map<usize, GitSign>) -> bool {
    forall|k: usize| #[trigger] m.dom().contains(k) ==> k < usize::MAX
}

impl Editor {
    fn jump_to_hunk_row(&mut self, row: usize)
        requires
            old(self).wf(),
            row < usize::MAX,
        ensures
            final(self).wf(),
            final(self).windows@ == old(self).windows@.update(
                old(self).active_window_idx as int,
                hunk_jumped(old(self).win(), row),
            ),
            final(self).status_msg@ == "Jumped to hunk at line "@ + decimal(row as nat + 1),
            *final(self) == (Editor {
                windows: final(self).windows,
                status_msg: final(self).status_msg,
                status_kind: MessageKind::Info,
                ..*old(self)
            }),
    {
        let ghost o = *self;
        let idx = self.active_window_idx;
        self.windows[idx].save_jump_position();
        self.windows[idx].row = row;
        self.windows[idx].col = 0;
        self.windows[idx].desired_col = 0;
        proof {
            assert(self.windows@ =~= o.windows@.update(idx as int, hunk_jumped(o.win(), row)));
            assert forall|w: int| 0 <= w < self.windows@.len() implies self.has_buf(
                #[trigger] self.windows@[w].buf_id,
            ) by {
                assert(o.has_buf(o.windows@[w].buf_id));
            }
        }
        let mut msg = String::from_str("Jumped to hunk at line ");
        push_decimal(&mut msg, row + 1);
        self.set_status_msg(msg.as_str(), MessageKind::Info);
    }

    /// Jump the cursor to the start of the next git hunk, wrapping round
    /// to the first.
    pub fn jump_to_next_hunk(&mut self)
        requires
            old(self).wf(),
            rows_numberable(old(self).cur_buf().git_diffs@),
        ensures
            final(self).wf(),
            ({
                let d = old(self).cur_buf().git_diffs@.dom();
                if d =~= Set::<usize>::empty() {
                    only_status(*old(self), *final(self), "No git hunks found"@, MessageKind::Info)
                } else {
                    let t = final(self).win().row;
                    &&& next_hunk_target(d, old(self).win().row, t)
                    &&& final(self).windows@ == old(self).windows@.update(
                        old(self).active_window_idx as int,
                        hunk_jumped(old(self).win(), t),
                    )
                    &&& only_status(
                        Editor { windows: final(self).windows, ..*old(self) },
                        *final(self),
                        "Jumped to hunk at line "@ + decimal(t as nat + 1),
                        MessageKind::Info,
                    )
                }
            }),
    {
        let row = self.active_window().row;
        let target = next_hunk_start(&self.buf().git_diffs, row);
        match target {
            None => {
                self.set_status_msg("No git hunks found", MessageKind::Info);
            },
            Some(t) => {
                self.jump_to_hunk_row(t);
            },
        }
    }

    /// Jump the cursor to the start of the previous git hunk, wrapping
    /// round to the last.
    pub fn jump_to_prev_hunk(&mut self)
        requires
            old(self).wf(),
            rows_numberable(old(self).cur_buf().git_diffs@),
        ensures
            final(self).wf(),
            ({
                let d = old(self).cur_buf().git_diffs@.dom();
                if d =~= Set::<usize>::empty() {
                    only_status(*old(self), *final(self), "No git hunks found"@, MessageKind::Info)
                } else {
                    let t = final(self).win().row;
                    &&& prev_hunk_target(d, old(self).win().row, t)
                    &&& final(self).windows@ == old(self).windows@.update(
                        old(self).active_window_idx as int,
                        hunk_jumped(old(self).win(), t),
                    )
                    &&& only_status(
                        Editor { windows: final(self).windows, ..*old(self) },
                        *final(self),
                        "Jumped to hunk at line "@ + decimal(t as nat + 1),
                        MessageKind::Info,
                    )
                }
            }),
    {
        let row = self.active_window().row;
        let target = prev_hunk_start(&self.buf().git_diffs, row);
        match target {
            None => {
                self.set_status_msg("No git hunks found", MessageKind::Info);
            },
            Some(t) => {
                self.jump_to_hunk_row(t);
            },
        }
    }

    /// Is `row` inside a git hunk of the active buffer?  Hunks are the runs
    /// of consecutive signed rows, so this is whether `row` carries a sign.
    /// When it is not, the status line says why.
    pub fn cursor_on_hunk(&mut self, row: usize) -> (b: bool)
        requires
            old(self).wf(),
        ensures
            final(self).wf(),
            b == old(self).cur_buf().git_diffs@.dom().contains(row),
            ({
                let d = old(self).cur_buf().git_diffs@.dom();
                if d =~= Set::<usize>::empty() {
                    only_status(*old(self), *final(self), "No git hunks found"@, MessageKind::Info)
                } else if !d.contains(row) {
                    only_status(*old(self), *final(self), "Cursor is not on a git hunk"@, MessageKind::Error)
                } else {
                    *final(self) == *old(self)
                }
            }),
    {
        let any = next_hunk_start(&self.buf().git_diffs, row);
        if any.is_none() {
            self.set_status_msg("No git hunks found", MessageKind::Info);
            return false;
        }
        let on = self.buf().git_diffs.contains_key(&row);
        if !on {
            self.set_status_msg("Cursor is not on a git hunk", MessageKind::Error);
        }
        on
    }
}

/// Number of rows of `rows` whose git sign in `m` is `g`.
pub open spec fn count_in(m: Map<usize, GitSign>, rows: Set<usize>, g: GitSign) -> nat {
    rows.filter(signed_as(m, g)).len()
}

/// The rows whose git sign in `m` is `g`, as a predicate.
pub open spec fn signed_as(m: Map<usize, GitSign>, g: GitSign) -> spec_fn(usize) -> bool {
    |k: usize| m[k] == g
}

/// Number of rows whose git sign is `g`.
pub open spec fn sign_count(m: Map<usize, GitSign>, g: GitSign) -> nat {
    count_in(m, m.dom(), g)
}

/// Counting the rows of `rows.take(i + 1)` whose sign is `g` adds one for
/// `rows[i]` exactly when its sign is `g`.
proof fn lemma_count_step(m: Map<usize, GitSign>, rows: Seq<usize>, i: int, g: GitSign)
    requires
        0 <= i < rows.len(),
        rows.no_duplicates(),
    ensures
        count_in(m, rows.take(i + 1).to_set(), g) == count_in(m, rows.take(i).to_set(), g) + (if m[rows[i]]
            == g {
            1nat
        } else {
            0nat
        }),
{
    let p = signed_as(m, g);
    let a = rows.take(i).to_set();
    let x = rows[i];
    assert(rows.take(i + 1) =~= rows.take(i) + seq![x]);
    Seq::<usize>::lemma_to_set_insert_commutes(rows.take(i), x);
    assert(rows.take(i + 1).to_set() == a.insert(x));
    assert(!a.contains(x)) by {
        if a.contains(x) {
            let j = choose|j: int| 0 <= j < rows.take(i).len() && rows.take(i)[j] == x;
            assert(rows[j] == rows[i]);
        }
    }
    vstd::seq_lib::seq_to_set_is_finite(rows.take(i));
    assert(a.filter(p).finite());
    if p(x) {
        assert(a.insert(x).filter(p) =~= a.filter(p).insert(x));
        assert(!a.filter(p).contains(x));
    } else {
        assert(a.insert(x).filter(p) =~= a.filter(p));
    }
}

impl Buffer {
    /// How many rows carry each git sign: added, modified, removed.
    pub fn git_diff_stats(&self) -> (r: (usize, usize, usize))
        ensures
            r.0 == sign_count(self.git_diffs@, GitSign::Added),
            r.1 == sign_count(self.git_diffs@, GitSign::Modified),
            r.2 == sign_count(self.git_diffs@, GitSign::Removed),
    {
        let ghost m = self.git_diffs@;
        let rows = signed_rows(&self.git_diffs);
        let mut added: usize = 0;
        let mut modified: usize = 0;
        let mut removed: usize = 0;
        let mut i: usize = 0;
        proof {
            assert(rows@.take(0).to_set() =~= Set::<usize>::empty());
            assert forall|g: GitSign| #[trigger] count_in(m, Set::<usize>::empty(), g) == 0 by {
                assert(Set::<usize>::empty().filter(signed_as(m, g)) =~= Set::empty());
            }
            assert forall|j: int| 0 <= j < rows@.len() implies m.dom().contains(#[trigger] rows@[j]) by {
                assert(rows@.to_set().contains(rows@[j]));
            }
        }
        while i < rows.len()
            invariant
                i <= rows@.len(),
                m == self.git_diffs@,
                rows@.no_duplicates(),
                forall|j: int| 0 <= j < rows@.len() ==> m.dom().contains(#[trigger] rows@[j]),
                added <= i,
                modified <= i,
                removed <= i,
                added == count_in(m, rows@.take(i as int).to_set(), GitSign::Added),
                modified == count_in(m, rows@.take(i as int).to_set(), GitSign::Modified),
                removed == count_in(m, rows@.take(i as int).to_set(), GitSign::Removed),
            decreases rows@.len() - i,
        {
            let k = rows[i];
            proof {
                lemma_count_step(m, rows@, i as int, GitSign::Added);
                lemma_count_step(m, rows@, i as int, GitSign::Modified);
                lemma_count_step(m, rows@, i as int, GitSign::Removed);
            }
            match self.git_diffs.get(&k) {
                Some(GitSign::Added) => {
                    added = added + 1;
                },
                Some(GitSign::Modified) => {
                    modified = modified + 1;
                },
                Some(GitSign::Removed) => {
                    removed = removed + 1;
                },
                None => {},
            }
            i = i + 1;
        }
        proof {
            assert(rows@.take(rows@.len() as int) =~= rows@);
            assert(rows@.to_set() == m.dom());
        }
        (added, modified, removed)
    }
}

impl Editor {
    /// How many rows of the active buffer carry each git sign: added,
    /// modified, removed.
    pub fn git_diff_stats(&self) -> (r: (usize, usize, usize))
        requires
            self.wf(),
        ensures
            r.0 == sign_count(self.cur_buf().git_diffs@, GitSign::Added),
            r.1 == sign_count(self.cur_buf().git_diffs@, GitSign::Modified),
            r.2 == sign_count(self.cur_buf().git_diffs@, GitSign::Removed),
    {
        self.buf().git_diff_stats()
    }
}

/// The lines of `ls`, each followed by a line feed.
pub open spec fn join_nl(ls: Seq<Seq<char>>) -> Seq<char>
    decreases ls.len(),
{
    if ls.len() == 0 {
        Seq::empty()
    } else {
        join_nl(ls.drop_last()) + ls.last() + seq!['\n']
    }
}

/// The text a hunk reverts to: lines `start .. start + count` of the HEAD
/// lines, each with its line feed; nothing when the range runs past them.
pub open spec fn reverted_text(lines: Seq<Seq<char>>, start: nat, count: nat) -> Seq<char> {
    if start + count <= lines.len() {
        join_nl(lines.subrange(start as int, (start + count) as int))
    } else {
        Seq::empty()
    }
}

/// `t` with lines `s0 .. s0 + count` taken out (when `count > 0` and they
/// exist) and `rev` put in at line `s0` (or at the end when there are
/// fewer lines).
pub open spec fn revert_text(t: Seq<char>, s0: nat, count: nat, rev: Seq<char>) -> Seq<char> {
    let t1 = if count > 0 && s0 + count <= num_lines(t) {
        t.take(line_start(t, s0) as int) + t.skip(line_start(t, s0 + count) as int)
    } else {
        t
    };
    let il = if s0 < num_lines(t1) {
        s0
    } else {
        num_lines(t1)
    };
    let p = line_start(t1, il);
    t1.take(p as int) + rev + t1.skip(p as int)
}

/// Where the cursor lands after a revert at line `s0` that left text `t`.
pub open spec fn revert_row(t: Seq<char>, s0: nat) -> nat {
    if s0 < num_lines(t) - 1 {
        s0
    } else {
        (num_lines(t) - 1) as nat
    }
}

proof fn lemma_first_covering(hs: Seq<Option<PatchHunk>>, row: nat)
    ensures
        first_covering(hs, row) matches Some(i) ==> i < hs.len() && hs[i as int] is Some && covers(
            hs[i as int]->0@,
            row,
        ),
    decreases hs.len(),
{
    if hs.len() > 0 {
        lemma_first_covering(hs.drop_first(), row);
    }
}

/// Lines `start .. start + count` of `head`, each with a line feed; empty
/// when the range runs past the last line.
pub fn reverted_lines(head: &str, start: usize, count: usize) -> (r: String)
    ensures
        r@ == reverted_text(lines_of(head@), start as nat, count as nat),
{
    let lines = split_lines(head);
    let ghost ls = lines_of(head@);
    if count > lines.len() || start > lines.len() - count {
        return String::new();
    }
    let mut r = String::new();
    let mut j = start;
    proof {
        assert(lines@.len() == ls.len());
        assert(ls.subrange(start as int, start as int) =~= Seq::<Seq<char>>::empty());
    }
    let end = start + count;
    while j < end
        invariant
            end == start + count,
            start <= j <= start + count,
            start + count <= lines@.len(),
            lines@.map_values(|x: String| x@) == ls,
            r@ == join_nl(ls.subrange(start as int, j as int)),
        decreases end - j,
    {
        let ghost before = r@;
        push_str(&mut r, lines[j].as_str());
        string_push(&mut r, '\n');
        proof {
            assert(ls[j as int] == lines@[j as int]@);
            assert(ls.subrange(start as int, j + 1).drop_last() =~= ls.subrange(start as int, j as int));
            assert(r@ =~= before + ls[j as int] + seq!['\n']);
        }
        j = j + 1;
    }
    r
}

impl Buffer {
    /// Replace the lines of a hunk by the text it reverts to (see
    /// `revert_text`); the row the cursor goes to.
    fn replace_hunk_lines(&mut self, s0: usize, count: usize, rev: &str) -> (row: usize)
        ensures
            final(self).text() == revert_text(old(self).text(), s0 as nat, count as nat, rev@),
            row as nat == revert_row(final(self).text(), s0 as nat),
            *final(self) == (Buffer { rope: final(self).rope, ..*old(self) }),
    {
        let ghost t = self.text();
        let n = rope_len_lines(&self.rope);
        if count > 0 && count <= n && s0 <= n - count {
            let a = rope_line_to_char(&self.rope, s0);
            let b = rope_line_to_char(&self.rope, s0 + count);
            proof {
                lemma_line_start_mono(t, s0 as nat, (s0 + count) as nat);
            }
            rope_remove(&mut self.rope, a, b);
        }
        let ghost t1 = self.text();
        let n1 = rope_len_lines(&self.rope);
        let il = if s0 < n1 {
            s0
        } else {
            n1
        };
        let p = rope_line_to_char(&self.rope, il);
        proof {
            lemma_line_start_bounds(t1, il as nat);
        }
        rope_insert(&mut self.rope, p, rev);
        let n2 = rope_len_lines(&self.rope);
        if s0 < n2 - 1 {
            s0
        } else {
            n2 - 1
        }
    }
}

/// `n` is `o` after reverting the hunk `h` of the active buffer to the
/// HEAD lines `head`: the buffer edited (with an undo step), the cursor at
/// the start of the reverted lines, and the status line saying so.
pub open spec fn hunk_reverted(o: Editor, n: Editor, h: crate::diff_align::PatchHunkView, head: Seq<Seq<char>>) -> bool {
    let s0 = sat_sub(h.new_start, 1);
    let rev = reverted_text(head, sat_sub(h.old_start, 1), h.old_lines);
    let t = revert_text(o.cur_buf().text(), s0, h.new_lines, rev);
    let w = o.win();
    &&& substituted(o.cur_buf(), n.buffers@[o.cur_idx()], w.row, w.col, t)
    &&& n.buffers@ == o.buffers@.update(o.cur_idx(), n.buffers@[o.cur_idx()])
    &&& n.windows@ == o.windows@.update(
        o.active_window_idx as int,
        Window { row: revert_row(t, s0) as usize, col: 0, desired_col: 0, ..w },
    )
    &&& only_status(
        Editor { buffers: n.buffers, windows: n.windows, ..o },
        n,
        "Reverted hunk"@,
        MessageKind::Success,
    )
}

impl Editor {
    /// Revert the hunk under the cursor, given the hunks of the diff from
    /// HEAD to the buffer and the HEAD text: the buffer only, nothing is
    /// written to disk.
    pub fn revert_hunk_from(&mut self, hunks: &Vec<Option<PatchHunk>>, head: &str)
        requires
            old(self).wf(),
        ensures
            final(self).wf(),
            match first_covering(hunks@, old(self).win().row as nat) {
                None => only_status(*old(self), *final(self), "Could not locate hunk in diff"@, MessageKind::Error),
                Some(i) => hunk_reverted(*old(self), *final(self), hunks@[i as int]->0@, lines_of(head@)),
            },
    {
        let ghost o = *self;
        let row = self.active_window().row;
        let col = self.active_window().col;
        let idx = find_hunk_idx(hunks, row);
        proof {
            lemma_first_covering(hunks@, row as nat);
        }
        match idx {
            None => {
                self.set_status_msg("Could not locate hunk in diff", MessageKind::Error);
            },
            Some(i) => {
                let nh = hunks.len();
                proof {
                    let fc = first_covering(hunks@, row as nat);
                    assert(fc is Some);
                    let k = fc->0;
                    assert(k < hunks@.len());
                    assert(i as nat == k);
                    assert(hunks@[i as int] is Some);
                }
                let h = match &hunks[i] {
                    Some(h) => h,
                    None => {
                        proof {
                            assert(false);
                        }
                        return;
                    },
                };
                let new_start_0 = (h.new_start as usize).saturating_sub(1);
                let old_start_0 = (h.old_start as usize).saturating_sub(1);
                let rev = reverted_lines(head, old_start_0, h.old_lines as usize);
                proof {
                    self.lemma_cur_idx();
                }
                let bi = self.active_buf_idx();
                self.buffers[bi].push_undo(row, col);
                let r = self.buffers[bi].replace_hunk_lines(new_start_0, h.new_lines as usize, rev.as_str());
                self.buffers[bi].mark_modified();
                self.buffers[bi].parse_syntax();
                let ghost bfin = self.buffers@[bi as int];
                let aw = self.active_window_idx;
                self.windows[aw].row = r;
                self.windows[aw].col = 0;
                self.windows[aw].desired_col = 0;
                proof {
                    assert(self.buffers@ =~= o.buffers@.update(bi as int, bfin));
                    assert(self.windows@ =~= o.windows@.update(
                        aw as int,
                        Window { row: r, col: 0, desired_col: 0, ..o.win() },
                    ));
                    Editor::lemma_wf_update_buf(o, *self, bi as int, bfin);
                }
                self.set_status_msg("Reverted hunk", MessageKind::Success);
                proof {
                    let hv = hunks@[i as int]->0@;
                    assert(hv == h@);
                    assert(self.buffers@[o.cur_idx()] == bfin);
                    assert(substituted(o.cur_buf(), bfin, row, col, bfin.text()));
                    assert(bfin.text() == revert_text(o.cur_buf().text(), sat_sub(hv.new_start, 1), hv.new_lines, reverted_text(lines_of(head@), sat_sub(hv.old_start, 1), hv.old_lines)));
                    assert(hunk_reverted(o, *self, hv, lines_of(head@)));
                }
            },
        }
    }
}

/// What `cursor_on_hunk` leaves when `row` is not on a hunk.
pub open spec fn off_hunk_status(o: Editor, n: Editor, row: usize) -> bool {
    let d = o.cur_buf().git_diffs@.dom();
    if d =~= Set::<usize>::empty() {
        only_status(o, n, "No git hunks found"@, MessageKind::Info)
    } else {
        only_status(o, n, "Cursor is not on a git hunk"@, MessageKind::Error)
    }
}

impl Editor {
    /// The unified diff of the hunk under the cursor, given the hunks of
    /// the diff from HEAD to the buffer; `None`, with the reason on the
    /// status line, when no hunk covers the cursor row.
    pub fn hunk_popup_lines(&mut self, hunks: &Vec<Option<PatchHunk>>) -> (r: Option<Vec<String>>)
        requires
            old(self).wf(),
            forall|i: int| 0 <= i < hunks@.len() ==> (#[trigger] hunks@[i] matches Some(h) ==> hunk_wf(h@)),
        ensures
            final(self).wf(),
            match first_covering(hunks@, old(self).win().row as nat) {
                None => r is None && only_status(
                    *old(self),
                    *final(self),
                    "Could not locate hunk in diff"@,
                    MessageKind::Error,
                ),
                Some(i) => r matches Some(lines) && lines@.map_values(|s: String| s@) == hunk_text_lines(
                    hunks@,
                    i,
                ) && *final(self) == *old(self),
            },
    {
        let row = self.active_window().row;
        let nh = hunks.len();
        proof {
            lemma_first_covering(hunks@, row as nat);
        }
        match find_hunk_idx(hunks, row) {
            None => {
                self.set_status_msg("Could not locate hunk in diff", MessageKind::Error);
                None
            },
            Some(i) => {
                proof {
                    let k = first_covering(hunks@, row as nat)->0;
                    assert(k < hunks@.len());
                    assert(i as nat == k);
                }
                let lines = extract_hunk_lines(hunks, i);
                proof {
                    assert(hunk_text_lines(hunks@, i as nat).len() > 0);
                }
                Some(lines)
            },
        }
    }

    /// Open the diff of the git hunk under the cursor.  `head` is what the
    /// repository lookup gave: the file's path in the repository and its
    /// HEAD text, or the message for why there is none.  The lines to show
    /// come back; `None`, with the reason on the status line, when there
    /// are none.
    pub fn open_hunk_popup(&mut self, head: Result<(String, String), String>) -> (r: Option<Vec<String>>)
        requires
            old(self).wf(),
        ensures
            final(self).wf(),
            ({
                let o = *old(self);
                let row = o.win().row;
                if o.cur_buf().filename is None {
                    r is None && only_status(o, *final(self), "No file associated with buffer"@, MessageKind::Error)
                } else if !o.cur_buf().git_diffs@.dom().contains(row) {
                    r is None && off_hunk_status(o, *final(self), row)
                } else {
                    match head {
                        Err(m) => r is None && only_status(o, *final(self), m@, MessageKind::Error),
                        Ok((rel, text)) => match diff_hunks(text@, o.cur_buf().text(), rel@) {
                            None => r is None && only_status(o, *final(self), "Could not compute diff"@, MessageKind::Error),
                            Some(hv) => match first_covering_v(hv, row as nat) {
                                None => r is None && only_status(o, *final(self), "Could not locate hunk in diff"@, MessageKind::Error),
                                Some(i) => r matches Some(lines) && lines@.map_values(|s: String| s@) == hunk_text_lines_v(
                                    hv,
                                    i,
                                ) && *final(self) == o,
                            },
                        },
                    }
                }
            }),
    {
        if self.buf().filename.is_none() {
            self.set_status_msg("No file associated with buffer", MessageKind::Error);
            return None;
        }
        let row = self.active_window().row;
        if !self.cursor_on_hunk(row) {
            return None;
        }
        match head {
            Err(m) => {
                self.set_status_msg(m.as_str(), MessageKind::Error);
                None
            },
            Ok((rel_path, head_text)) => {
                let current = rope_to_string(&self.buf().rope);
                let patch = patch_from_texts(head_text.as_str(), current.as_str(), rel_path.as_str());
                match patch {
                    None => {
                        self.set_status_msg("Could not compute diff", MessageKind::Error);
                        None
                    },
                    Some(patch) => {
                        let hunks = collect_patch_hunks(&patch);
                        proof {
                            self.lemma_cur_idx();
                            let fc = first_covering(hunks@, row as nat);
                            lemma_hunk_views_agree(hunks@, row as nat, if fc is Some { fc->0 } else { 0 });
                        }
                        self.hunk_popup_lines(&hunks)
                    },
                }
            },
        }
    }

    /// Revert the git hunk under the cursor in the buffer (no disk
    /// writes).  `head` is what the repository lookup gave: the file's path
    /// in the repository and its HEAD text, or the message for why there is
    /// none.
    pub fn revert_hunk(&mut self, head: Result<(String, String), String>)
        requires
            old(self).wf(),
        ensures
            final(self).wf(),
            ({
                let o = *old(self);
                let row = o.win().row;
                if o.cur_buf().filename is None {
                    only_status(o, *final(self), "No file associated with buffer"@, MessageKind::Error)
                } else if !o.cur_buf().git_diffs@.dom().contains(row) {
                    off_hunk_status(o, *final(self), row)
                } else {
                    match head {
                        Err(m) => only_status(o, *final(self), m@, MessageKind::Error),
                        Ok((rel, text)) => match diff_hunks(text@, o.cur_buf().text(), rel@) {
                            None => only_status(o, *final(self), "Could not compute diff"@, MessageKind::Error),
                            Some(hv) => match first_covering_v(hv, row as nat) {
                                None => only_status(o, *final(self), "Could not locate hunk in diff"@, MessageKind::Error),
                                Some(i) => hunk_reverted(o, *final(self), hv[i as int]->0, lines_of(text@)),
                            },
                        },
                    }
                }
            }),
    {
        if self.buf().filename.is_none() {
            self.set_status_msg("No file associated with buffer", MessageKind::Error);
            return;
        }
        let row = self.active_window().row;
        if !self.cursor_on_hunk(row) {
            return;
        }
        match head {
            Err(m) => {
                self.set_status_msg(m.as_str(), MessageKind::Error);
            },
            Ok((rel_path, head_text)) => {
                let current = rope_to_string(&self.buf().rope);
                let patch = patch_from_texts(head_text.as_str(), current.as_str(), rel_path.as_str());
                match patch {
                    None => {
                        self.set_status_msg("Could not compute diff", MessageKind::Error);
                    },
                    Some(patch) => {
                        let hunks = collect_patch_hunks(&patch);
                        proof {
                            self.lemma_cur_idx();
                            lemma_hunk_views_agree(hunks@, row as nat, 0);
                        }
                        self.revert_hunk_from(&hunks, head_text.as_str());
                    },
                }
            },
        }
    }
}

/// The lines of a hunk diff that start with `c`, without that first char.
pub open spec fn marked_lines(ls: Seq<Seq<char>>, c: char) -> Seq<Seq<char>>
    decreases ls.len(),
{
    if ls.len() == 0 {
        Seq::empty()
    } else {
        let p = marked_lines(ls.drop_last(), c);
        let l = ls.last();
        if l.len() > 0 && l[0] == c {
            p.push(l.drop_first())
        } else {
            p
        }
    }
}

/// The status line after yanking `n` lines of kind `what` (or finding
/// none).
pub open spec fn hunk_yank_msg(n: nat, what: Seq<char>) -> Seq<char> {
    if n > 0 {
        "Yanked "@ + decimal(n) + " "@ + what + " line(s)"@
    } else {
        "No "@ + what + " lines to yank"@
    }
}

/// `lines` with the lines starting with `c`, each without that char.
fn marked_lines_exec(lines: &Vec<String>, c: char) -> (r: Vec<String>)
    ensures
        r@.map_values(|s: String| s@) == marked_lines(lines@.map_values(|s: String| s@), c),
{
    let ghost ls = lines@.map_values(|s: String| s@);
    let mut r: Vec<String> = Vec::new();
    let mut i: usize = 0;
    while i < lines.len()
        invariant
            i <= lines@.len(),
            ls == lines@.map_values(|s: String| s@),
            r@.map_values(|s: String| s@) == marked_lines(ls.take(i as int), c),
        decreases lines@.len() - i,
    {
        let l = &lines[i];
        proof {
            assert(ls.take(i + 1).drop_last() =~= ls.take(i as int));
            assert(ls.take(i + 1).last() == l@);
        }
        let v = crate::text::chars_of(l.as_str());
        if v.len() > 0 && v[0] == c {
            let rest = vstd::slice::slice_subrange(v.as_slice(), 1, v.len());
            let t = crate::text::string_from_chars(rest);
            let ghost before = r@.map_values(|s: String| s@);
            r.push(t);
            proof {
                assert(rest@ =~= l@.drop_first());
                assert(r@.map_values(|s: String| s@) =~= before.push(l@.drop_first()));
            }
        }
        i = i + 1;
    }
    proof {
        assert(ls.take(lines@.len() as int) =~= ls);
    }
    r
}

impl Editor {
    fn yank_hunk_marked(&mut self, lines: &Vec<String>, c: char, what: &str)
        ensures
            ({
                let m = marked_lines(lines@.map_values(|s: String| s@), c);
                &&& final(self).status_msg@ == hunk_yank_msg(m.len(), what@)
                &&& m.len() > 0 ==> (final(self).clipboard matches Some(t) && t@ == join_nl(m))
                &&& *final(self) == (Editor {
                    status_msg: final(self).status_msg,
                    status_kind: MessageKind::Info,
                    clipboard: if m.len() > 0 { final(self).clipboard } else { old(self).clipboard },
                    ..*old(self)
                })
            }),
    {
        let m = marked_lines_exec(lines, c);
        let ghost mv = m@.map_values(|s: String| s@);
        if m.len() > 0 {
            let mut text = String::new();
            let mut i: usize = 0;
            proof {
                assert(mv.take(0) =~= Seq::<Seq<char>>::empty());
            }
            while i < m.len()
                invariant
                    i <= m@.len(),
                    mv == m@.map_values(|s: String| s@),
                    text@ == join_nl(mv.take(i as int)),
                decreases m@.len() - i,
            {
                let ghost before = text@;
                push_str(&mut text, m[i].as_str());
                string_push(&mut text, '\n');
                proof {
                    assert(mv.take(i + 1).drop_last() =~= mv.take(i as int));
                    assert(text@ =~= before + mv[i as int] + seq!['\n']);
                }
                i = i + 1;
            }
            proof {
                assert(mv.take(m@.len() as int) =~= mv);
            }
            self.clipboard = Some(text);
            let mut msg = String::from_str("Yanked ");
            push_decimal(&mut msg, m.len());
            push_str(&mut msg, " ");
            push_str(&mut msg, what);
            push_str(&mut msg, " line(s)");
            proof {
                assert(msg@ =~= hunk_yank_msg(mv.len(), what@));
            }
            self.set_status_msg(msg.as_str(), MessageKind::Info);
        } else {
            let mut msg = String::from_str("No ");
            push_str(&mut msg, what);
            push_str(&mut msg, " lines to yank");
            proof {
                assert(msg@ =~= hunk_yank_msg(mv.len(), what@));
            }
            self.set_status_msg(msg.as_str(), MessageKind::Info);
        }
    }

    /// Yank the `+` lines of the hunk diff `lines` (what the hunk popup
    /// shows), without their `+`, each ending in a line feed.
    pub fn yank_hunk_added_lines(&mut self, lines: &Vec<String>)
        ensures
            ({
                let m = marked_lines(lines@.map_values(|s: String| s@), '+');
                &&& final(self).status_msg@ == hunk_yank_msg(m.len(), "added/modified"@)
                &&& m.len() > 0 ==> (final(self).clipboard matches Some(t) && t@ == join_nl(m))
                &&& *final(self) == (Editor {
                    status_msg: final(self).status_msg,
                    status_kind: MessageKind::Info,
                    clipboard: if m.len() > 0 { final(self).clipboard } else { old(self).clipboard },
                    ..*old(self)
                })
            }),
    {
        self.yank_hunk_marked(lines, '+', "added/modified");
    }

    /// Yank the `-` lines of the hunk diff `lines` (what the hunk popup
    /// shows), without their `-`, each ending in a line feed.
    pub fn yank_hunk_deleted_lines(&mut self, lines: &Vec<String>)
        ensures
            ({
                let m = marked_lines(lines@.map_values(|s: String| s@), '-');
                &&& final(self).status_msg@ == hunk_yank_msg(m.len(), "deleted"@)
                &&& m.len() > 0 ==> (final(self).clipboard matches Some(t) && t@ == join_nl(m))
                &&& *final(self) == (Editor {
                    status_msg: final(self).status_msg,
                    status_kind: MessageKind::Info,
                    clipboard: if m.len() > 0 { final(self).clipboard } else { old(self).clipboard },
                    ..*old(self)
                })
            }),
    {
        self.yank_hunk_marked(lines, '-', "deleted");
    }
}

} // verus!
