//! Remembered cursor positions per file, switching the active window
//! between buffers, and closing buffers.
//!
//! Paths are compared in canonical form; the caller resolves them on the
//! file system and hands the results in.

use crate::buffer::{Buffer, opt_view, display_name_spec};
use crate::editor::{Editor, MessageKind, PositionInfo, QuitPrompt, Key};
use crate::lines::{num_lines, line_len};
use crate::text::{str_eq, push_str, push_decimal, decimal};
use crate::window::Window;
use vstd::prelude::*;

verus! {

/// Most positions kept.
pub const POSITIONS_LIMIT: usize = 100;

pub open spec fn pos_views(ps: Seq<PositionInfo>) -> Seq<(Seq<char>, usize, usize)> {
    ps.map_values(|p: PositionInfo| p@)
}

/// `ps` without the entries for `path`.
pub open spec fn without_path(ps: Seq<(Seq<char>, usize, usize)>, path: Seq<char>) -> Seq<(Seq<char>, usize, usize)>
    decreases ps.len(),
{
    if ps.len() == 0 {
        ps
    } else {
        let rest = without_path(ps.drop_last(), path);
        if ps.last().0 == path {
            rest
        } else {
            rest.push(ps.last())
        }
    }
}

/// Positions after recording `(row, col)` for `path`: any older entry for
/// the path goes, the new one comes last, and the oldest entry leaves
/// when there are more than `POSITIONS_LIMIT`.
pub open spec fn positions_after(ps: Seq<(Seq<char>, usize, usize)>, path: Seq<char>, row: usize, col: usize) -> Seq<(Seq<char>, usize, usize)> {
    let pushed = without_path(ps, path).push((path, row, col));
    if pushed.len() > POSITIONS_LIMIT {
        pushed.drop_first()
    } else {
        pushed
    }
}

/// First remembered position for `path`, scanning from index `i`.
pub open spec fn lookup_from(ps: Seq<(Seq<char>, usize, usize)>, path: Seq<char>, i: int) -> Option<(usize, usize)>
    decreases ps.len() - i,
{
    if i < 0 || i >= ps.len() {
        None
    } else if ps[i].0 == path {
        Some((ps[i].1, ps[i].2))
    } else {
        lookup_from(ps, path, i + 1)
    }
}

pub open spec fn lookup(ps: Seq<(Seq<char>, usize, usize)>, path: Seq<char>) -> Option<(usize, usize)> {
    lookup_from(ps, path, 0)
}

proof fn lemma_without_path(ps: Seq<(Seq<char>, usize, usize)>, path: Seq<char>)
    ensures
        without_path(ps, path).len() <= ps.len(),
        forall|i: int|
            0 <= i < without_path(ps, path).len() ==> #[trigger] without_path(ps, path)[i].0 != path,
    decreases ps.len(),
{
    if ps.len() > 0 {
        lemma_without_path(ps.drop_last(), path);
    }
}

proof fn lemma_lookup_last(s: Seq<(Seq<char>, usize, usize)>, path: Seq<char>, i: int)
    requires
        0 <= i < s.len(),
        s.last().0 == path,
        forall|j: int| i <= j < s.len() - 1 ==> #[trigger] s[j].0 != path,
    ensures
        lookup_from(s, path, i) == Some((s.last().1, s.last().2)),
    decreases s.len() - i,
{
    if i < s.len() - 1 {
        lemma_lookup_last(s, path, i + 1);
    }
}

/// No file is remembered twice.
pub open spec fn paths_distinct(ps: Seq<(Seq<char>, usize, usize)>) -> bool {
    forall|i: int, j: int| 0 <= i < j < ps.len() ==> #[trigger] ps[i].0 != #[trigger] ps[j].0
}

proof fn lemma_without_path_from(ps: Seq<(Seq<char>, usize, usize)>, path: Seq<char>)
    ensures
        forall|i: int|
            0 <= i < without_path(ps, path).len() ==> exists|j: int|
                0 <= j < ps.len() && #[trigger] without_path(ps, path)[i] == ps[j],
    decreases ps.len(),
{
    if ps.len() > 0 {
        lemma_without_path_from(ps.drop_last(), path);
        let rest = without_path(ps.drop_last(), path);
        assert forall|i: int| 0 <= i < without_path(ps, path).len() implies exists|j: int|
            0 <= j < ps.len() && #[trigger] without_path(ps, path)[i] == ps[j] by {
            if i < rest.len() {
                let j = choose|j: int| 0 <= j < ps.drop_last().len() && rest[i] == ps.drop_last()[j];
                assert(without_path(ps, path)[i] == ps[j]);
            } else {
                assert(without_path(ps, path)[i] == ps[ps.len() - 1]);
            }
        }
    }
}

proof fn lemma_without_path_distinct(ps: Seq<(Seq<char>, usize, usize)>, path: Seq<char>)
    requires
        paths_distinct(ps),
    ensures
        paths_distinct(without_path(ps, path)),
    decreases ps.len(),
{
    if ps.len() > 0 {
        let d = ps.drop_last();
        assert(paths_distinct(d)) by {
            assert forall|i: int, j: int| 0 <= i < j < d.len() implies #[trigger] d[i].0 != #[trigger] d[j].0 by {
                assert(ps[i].0 != ps[j].0);
            }
        }
        lemma_without_path_distinct(d, path);
        lemma_without_path_from(d, path);
        let rest = without_path(d, path);
        if ps.last().0 != path {
            let r = rest.push(ps.last());
            assert forall|i: int, j: int| 0 <= i < j < r.len() implies #[trigger] r[i].0 != #[trigger] r[j].0 by {
                if j == rest.len() {
                    let k = choose|k: int| 0 <= k < d.len() && rest[i] == d[k];
                    assert(ps[k].0 != ps[ps.len() - 1].0);
                }
            }
        }
    }
}

/// Recording positions never makes a file appear twice in the list.
pub proof fn lemma_positions_distinct(ps: Seq<(Seq<char>, usize, usize)>, path: Seq<char>, row: usize, col: usize)
    requires
        paths_distinct(ps),
    ensures
        paths_distinct(positions_after(ps, path, row, col)),
{
    lemma_without_path_distinct(ps, path);
    lemma_without_path(ps, path);
    let w = without_path(ps, path);
    let pushed = w.push((path, row, col));
    assert(paths_distinct(pushed)) by {
        assert forall|i: int, j: int| 0 <= i < j < pushed.len() implies #[trigger] pushed[i].0 != #[trigger] pushed[j].0 by {
            if j == w.len() {
                assert(w[i].0 != path);
            }
        }
    }
    if pushed.len() > POSITIONS_LIMIT {
        let r = pushed.drop_first();
        assert forall|i: int, j: int| 0 <= i < j < r.len() implies #[trigger] r[i].0 != #[trigger] r[j].0 by {
            assert(pushed[i + 1].0 != pushed[j + 1].0);
        }
    }
}

/// Recording a position and reading it back gives that position, and the
/// list never grows past `POSITIONS_LIMIT` entries.
pub proof fn lemma_position_read_back(ps: Seq<(Seq<char>, usize, usize)>, path: Seq<char>, row: usize, col: usize)
    ensures
        lookup(positions_after(ps, path, row, col), path) == Some((row, col)),
        ps.len() <= POSITIONS_LIMIT ==> positions_after(ps, path, row, col).len() <= POSITIONS_LIMIT,
{
    lemma_without_path(ps, path);
    let kept = without_path(ps, path);
    let pushed = kept.push((path, row, col));
    let r = positions_after(ps, path, row, col);
    assert forall|j: int| 0 <= j < r.len() - 1 implies #[trigger] r[j].0 != path by {
        if pushed.len() > POSITIONS_LIMIT {
            assert(r[j] == kept[j + 1]);
        } else {
            assert(r[j] == kept[j]);
        }
    }
    lemma_lookup_last(r, path, 0);
}

impl Editor {
    /// Remember `(row, col)` for the file whose canonical path is `path`.
    pub fn update_position_silent(&mut self, path: &str, row: usize, col: usize)
        ensures
            pos_views(final(self).positions@) == positions_after(pos_views(old(self).positions@), path@, row, col),
            *final(self) == (Editor { positions: final(self).positions, ..*old(self) }),
    {
        let ghost ps = pos_views(self.positions@);
        let mut kept: Vec<PositionInfo> = Vec::new();
        let mut i: usize = 0;
        while i < self.positions.len()
            invariant
                ps == pos_views(self.positions@),
                i <= self.positions@.len(),
                pos_views(kept@) == without_path(ps.take(i as int), path@),
            decreases self.positions@.len() - i,
        {
            proof {
                assert(ps.take(i + 1).drop_last() =~= ps.take(i as int));
                assert(ps.take(i + 1).last() == ps[i as int]);
                assert(ps[i as int] == self.positions@[i as int]@);
            }
            if !str_eq(self.positions[i].path.as_str(), path) {
                let p = PositionInfo {
                    path: self.positions[i].path.clone(),
                    row: self.positions[i].row,
                    col: self.positions[i].col,
                };
                kept.push(p);
                proof {
                    assert(pos_views(kept@) =~= without_path(ps.take(i + 1), path@));
                }
            } else {
                proof {
                    assert(pos_views(kept@) =~= without_path(ps.take(i + 1), path@));
                }
            }
            i = i + 1;
        }
        proof {
            assert(ps.take(ps.len() as int) =~= ps);
        }
        let ghost before = pos_views(kept@);
        kept.push(PositionInfo { path: String::from_str(path), row, col });
        proof {
            assert(pos_views(kept@) =~= before.push((path@, row, col)));
        }
        if kept.len() > POSITIONS_LIMIT {
            let ghost b2 = kept@;
            let _ = kept.remove(0);
            proof {
                assert(kept@ =~= b2.drop_first());
                assert(pos_views(kept@) =~= pos_views(b2).drop_first());
            }
        }
        self.positions = kept;
    }

    /// Remembered position for the file whose canonical path is `path`.
    pub fn get_saved_position(&self, path: &str) -> (r: Option<(usize, usize)>)
        ensures
            r == lookup(pos_views(self.positions@), path@),
    {
        let ghost ps = pos_views(self.positions@);
        let mut i: usize = 0;
        while i < self.positions.len()
            invariant
                ps == pos_views(self.positions@),
                i <= self.positions@.len(),
                lookup(ps, path@) == lookup_from(ps, path@, i as int),
            decreases self.positions@.len() - i,
        {
            if str_eq(self.positions[i].path.as_str(), path) {
                return Some((self.positions[i].row, self.positions[i].col));
            }
            i = i + 1;
        }
        None
    }
}

} // verus!

verus! {

/// Where a window showing buffer `b` lands: at the saved position, kept
/// inside the text, or at the top when nothing was saved.
pub open spec fn restored_window(w: Window, b: Buffer, saved: Option<(usize, usize)>) -> Window {
    match saved {
        Some((r, c)) => {
            let n = num_lines(b.text());
            let sr: nat = if r < n { r as nat } else { (n - 1) as nat };
            let lc = line_len(b.text(), sr);
            Window { row: sr as usize, col: (if c < lc { c as nat } else { lc }) as usize, ..w }
        },
        None => Window { row: 0, col: 0, scroll_line: 0, scroll_col: 0, ..w },
    }
}

pub open spec fn canon_views(c: Seq<Option<String>>) -> Seq<Option<Seq<char>>> {
    c.map_values(|o: Option<String>| opt_view(o))
}

/// `n` is `o` after the active window switched to buffer `target`, where
/// `canons` holds the canonical path of each buffer's file.
#[verifier::opaque]
pub open spec fn switched(o: Editor, n: Editor, target: usize, canons: Seq<Option<Seq<char>>>) -> bool {
    let w = o.win();
    let ps1 = match canons[o.cur_idx()] {
        Some(f) => positions_after(pos_views(o.positions@), f, w.row, w.col),
        None => pos_views(o.positions@),
    };
    let tb = o.buffers@[o.idx_of(target)];
    let saved = match canons[o.idx_of(target)] {
        Some(p) => lookup(ps1, p),
        None => None,
    };
    &&& pos_views(n.positions@) == ps1
    &&& n.windows@ == o.windows@.update(
        o.active_window_idx as int,
        restored_window(Window { buf_id: target, ..w }, tb, saved),
    )
    &&& n == (Editor { positions: n.positions, windows: n.windows, ..o })
}

impl Editor {
    /// Show buffer `ti` (id `target`) in the active window at `saved`, or
    /// at the top.
    #[verifier::spinoff_prover]
    #[verifier::rlimit(40)]
    pub(crate) fn place_active_window(&mut self, ti: usize, target: usize, saved: Option<(usize, usize)>)
        requires
            old(self).active_window_idx < old(self).windows@.len(),
            ti < old(self).buffers@.len(),
        ensures
            final(self).windows@ == old(self).windows@.update(
                old(self).active_window_idx as int,
                restored_window(Window { buf_id: target, ..old(self).win() }, old(self).buffers@[ti as int], saved),
            ),
            *final(self) == (Editor { windows: final(self).windows, ..*old(self) }),
    {
        let idx = self.active_window_idx;
        self.windows[idx].buf_id = target;
        match saved {
            Some((r, c)) => {
                let n = self.buffers[ti].len_lines();
                let sr = if r < n {
                    r
                } else {
                    n - 1
                };
                let lc = self.buffers[ti].line_char_len(sr);
                self.windows[idx].row = sr;
                self.windows[idx].col = if c < lc {
                    c
                } else {
                    lc
                };
            },
            None => {
                self.windows[idx].row = 0;
                self.windows[idx].col = 0;
                self.windows[idx].scroll_line = 0;
                self.windows[idx].scroll_col = 0;
            },
        }
        proof {
            assert(self.windows@ =~= old(self).windows@.update(
                old(self).active_window_idx as int,
                restored_window(Window { buf_id: target, ..old(self).win() }, old(self).buffers@[ti as int], saved),
            ));
        }
    }

    /// Point the active window at buffer `target_bid`: the position left
    /// is remembered, and the one saved for the target restored.
    /// `canons[i]` is the canonical path of the file of buffer `i`.
    #[verifier::spinoff_prover]
    #[verifier::rlimit(40)]
    pub fn switch_window_to_buffer(&mut self, target_bid: usize, canons: &Vec<Option<String>>)
        requires
            old(self).wf(),
            old(self).has_buf(target_bid),
            canons@.len() == old(self).buffers@.len(),
        ensures
            final(self).wf(),
            switched(*old(self), *final(self), target_bid, canon_views(canons@)),
            final(self).cur_idx() == old(self).idx_of(target_bid),
            final(self).buffers == old(self).buffers,
            final(self).active_window_idx == old(self).active_window_idx,
    {
        let ghost o = *self;
        proof {
            self.lemma_cur_idx();
            self.lemma_idx_of(target_bid);
        }
        let ci = self.active_buf_idx();
        let idx = self.active_window_idx;
        let row = self.windows[idx].row;
        let col = self.windows[idx].col;
        match &canons[ci] {
            Some(f) => self.update_position_silent(f.as_str(), row, col),
            None => {},
        }
        let ti = match self.find_buf(target_bid) {
            Some(i) => i,
            None => return,
        };
        let saved = match &canons[ti] {
            Some(p) => self.get_saved_position(p.as_str()),
            None => None,
        };
        let ghost e1 = *self;
        self.place_active_window(ti, target_bid, saved);
        proof {
            reveal(switched);
            assert(self.has_buf(self.windows@[idx as int].buf_id)) by {
                assert(self.buffers@[ti as int].id == target_bid);
            }
            assert forall|w: int| 0 <= w < self.windows@.len() implies self.has_buf(
                #[trigger] self.windows@[w].buf_id,
            ) by {
                if w != idx {
                    assert(o.has_buf(o.windows@[w].buf_id));
                }
            }
            self.lemma_cur_idx();
        }
    }
}

} // verus!

verus! {

/// `[i/n] name`, the status line after cycling buffers.
pub open spec fn cycle_msg(i: nat, n: nat, name: Seq<char>) -> Seq<char> {
    "["@ + decimal(i) + "/"@ + decimal(n) + "] "@ + name
}

pub open spec fn buf_name(b: Buffer) -> Seq<char> {
    display_name_spec(b.kind, b.wgrep_mode, opt_view(b.filename))
}

/// `n` is `o` after switching to the buffer at index `i`, then setting
/// the status line to `msg`.
pub open spec fn switched_to_index(o: Editor, n: Editor, i: int, canons: Seq<Option<Seq<char>>>, msg: Seq<char>) -> bool {
    exists|m: Editor|
        #[trigger] switched(o, m, o.buffers@[i].id, canons) && n.status_msg@ == msg && n == (Editor {
            status_msg: n.status_msg,
            status_kind: MessageKind::Info,
            ..m
        })
}

impl Editor {
    fn status_only_one(&mut self)
        ensures
            final(self).status_msg@ == "Only one buffer"@,
            *final(self) == (Editor { status_msg: final(self).status_msg, status_kind: MessageKind::Info, ..*old(self) }),
    {
        self.set_status("Only one buffer", MessageKind::Info);
    }

    /// Show the next buffer (wrapping around) in the active window.
    pub fn switch_next_buffer(&mut self, canons: &Vec<Option<String>>)
        requires
            old(self).wf(),
            canons@.len() == old(self).buffers@.len(),
        ensures
            final(self).wf(),
            old(self).buffers@.len() <= 1 ==> final(self).status_msg@ == "Only one buffer"@
                && *final(self) == (Editor {
                status_msg: final(self).status_msg,
                status_kind: MessageKind::Info,
                ..*old(self)
            }),
            old(self).buffers@.len() > 1 ==> ({
                let len = old(self).buffers@.len();
                let ni = (old(self).cur_idx() + 1) % (len as int);
                switched_to_index(*old(self), *final(self), ni, canon_views(canons@), cycle_msg(
                    (ni + 1) as nat,
                    len,
                    buf_name(old(self).buffers@[ni]),
                ))
            }),
    {
        if self.buffers.len() <= 1 {
            self.status_only_one();
            return;
        }
        let ghost o = *self;
        proof {
            self.lemma_cur_idx();
        }
        let ci = self.active_buf_idx();
        let next_idx = (ci + 1) % self.buffers.len();
        let next_bid = self.buffers[next_idx].id;
        proof {
            assert(self.has_buf(next_bid)) by {
                assert(self.buffers@[next_idx as int].id == next_bid);
            }
            self.lemma_idx_of(next_bid);
        }
        self.switch_window_to_buffer(next_bid, canons);
        let ghost m = *self;
        self.cycle_status(next_idx);
        proof {
            let ni = (o.cur_idx() + 1) % (o.buffers@.len() as int);
            assert(ni == next_idx);
            assert(switched(o, m, o.buffers@[ni].id, canon_views(canons@)));
        }
    }

    /// Show the previous buffer (wrapping around) in the active window.
    pub fn switch_prev_buffer(&mut self, canons: &Vec<Option<String>>)
        requires
            old(self).wf(),
            canons@.len() == old(self).buffers@.len(),
        ensures
            final(self).wf(),
            old(self).buffers@.len() <= 1 ==> final(self).status_msg@ == "Only one buffer"@
                && *final(self) == (Editor {
                status_msg: final(self).status_msg,
                status_kind: MessageKind::Info,
                ..*old(self)
            }),
            old(self).buffers@.len() > 1 ==> ({
                let len = old(self).buffers@.len();
                let pi = if old(self).cur_idx() == 0 {
                    len - 1
                } else {
                    old(self).cur_idx() - 1
                };
                switched_to_index(*old(self), *final(self), pi, canon_views(canons@), cycle_msg(
                    (pi + 1) as nat,
                    len,
                    buf_name(old(self).buffers@[pi]),
                ))
            }),
    {
        if self.buffers.len() <= 1 {
            self.status_only_one();
            return;
        }
        let ghost o = *self;
        proof {
            self.lemma_cur_idx();
        }
        let ci = self.active_buf_idx();
        let prev_idx = if ci == 0 {
            self.buffers.len() - 1
        } else {
            ci - 1
        };
        let prev_bid = self.buffers[prev_idx].id;
        proof {
            assert(self.has_buf(prev_bid)) by {
                assert(self.buffers@[prev_idx as int].id == prev_bid);
            }
            self.lemma_idx_of(prev_bid);
        }
        self.switch_window_to_buffer(prev_bid, canons);
        let ghost m = *self;
        self.cycle_status(prev_idx);
        proof {
            let pi = if o.cur_idx() == 0 {
                o.buffers@.len() - 1
            } else {
                o.cur_idx() - 1
            };
            assert(pi == prev_idx);
            assert(switched(o, m, o.buffers@[pi].id, canon_views(canons@)));
        }
    }

    /// `[i+1/n] name` of the active buffer, which is buffer `i`.
    fn cycle_status(&mut self, i: usize)
        requires
            old(self).wf(),
            i == old(self).cur_idx(),
        ensures
            final(self).status_msg@ == cycle_msg(
                (i + 1) as nat,
                old(self).buffers@.len(),
                buf_name(old(self).buffers@[i as int]),
            ),
            *final(self) == (Editor {
                status_msg: final(self).status_msg,
                status_kind: MessageKind::Info,
                ..*old(self)
            }),
    {
        proof {
            self.lemma_cur_idx();
        }
        let name = self.buffers[i].display_name();
        let n = self.buffers.len();
        let mut msg = String::from_str("[");
        push_decimal(&mut msg, i + 1);
        push_str(&mut msg, "/");
        push_decimal(&mut msg, n);
        push_str(&mut msg, "] ");
        push_str(&mut msg, name.as_str());
        proof {
            reveal_strlit("[");
            assert(msg@ =~= cycle_msg((i + 1) as nat, self.buffers@.len(), buf_name(self.buffers@[i as int])));
        }
        self.set_status(msg.as_str(), MessageKind::Info);
    }
}

} // verus!

verus! {

/// Positions after the cursor of window `w`, showing a buffer whose
/// canonical path is `canon`, was remembered.
pub open spec fn remember(ps: Seq<(Seq<char>, usize, usize)>, canon: Option<Seq<char>>, w: Window) -> Seq<(Seq<char>, usize, usize)> {
    match canon {
        Some(f) => positions_after(ps, f, w.row, w.col),
        None => ps,
    }
}

/// Positions after remembering windows `0..k` in order.
pub open spec fn remember_windows(o: Editor, canons: Seq<Option<Seq<char>>>, k: int) -> Seq<(Seq<char>, usize, usize)>
    decreases k,
{
    if k <= 0 {
        pos_views(o.positions@)
    } else {
        let w = o.windows@[k - 1];
        remember(remember_windows(o, canons, k - 1), canons[o.idx_of(w.buf_id)], w)
    }
}

/// Windows after buffer `removed` closed: those that showed it show
/// buffer `first` at `fallback` (or the top) instead.
pub open spec fn retarget(ws: Seq<Window>, removed: usize, first: usize, fallback: Option<(usize, usize)>) -> Seq<Window> {
    ws.map_values(
        |w: Window|
            if w.buf_id == removed {
                Window {
                    buf_id: first,
                    row: match fallback {
                        Some((r, c)) => r,
                        None => 0,
                    },
                    col: match fallback {
                        Some((r, c)) => c,
                        None => 0,
                    },
                    scroll_line: 0,
                    scroll_col: 0,
                    desired_col: 0,
                    ..w
                }
            } else {
                w
            },
    )
}

pub open spec fn closed_msg(i: nat, n: nat) -> Seq<char> {
    "Closed buffer ["@ + decimal(i) + "/"@ + decimal(n) + "]"@
}

/// Closing a buffer that is not the last one, and moving the windows that
/// showed it to another buffer, keeps the editor well formed.
proof fn lemma_wf_after_close(o: Editor, n: Editor, ri: int, fi: int, fallback: Option<(usize, usize)>)
    requires
        o.wf(),
        o.buffers@.len() > 1,
        0 <= ri < o.buffers@.len(),
        fi == (if ri == 0 { 1int } else { 0int }),
        n.buffers@ == o.buffers@.remove(ri),
        n.windows@ == retarget(o.windows@, o.buffers@[ri].id, o.buffers@[fi].id, fallback),
        n.active_window_idx == o.active_window_idx,
    ensures
        n.wf(),
{
    let removed = o.buffers@[ri].id;
    assert forall|w: int| 0 <= w < n.windows@.len() implies n.has_buf(
        #[trigger] n.windows@[w].buf_id,
    ) by {
        if o.windows@[w].buf_id == removed {
            if ri == 0 {
                assert(n.buffers@[0] == o.buffers@[1]);
            } else {
                assert(n.buffers@[0] == o.buffers@[0]);
            }
        } else {
            assert(o.has_buf(o.windows@[w].buf_id));
            let k = choose|k: int| 0 <= k < o.buffers@.len() && o.buffers@[k].id == o.windows@[w].buf_id;
            assert(k != ri);
            if k < ri {
                assert(n.buffers@[k] == o.buffers@[k]);
            } else {
                assert(n.buffers@[k - 1] == o.buffers@[k]);
            }
        }
    }
    assert forall|a: int, b: int| 0 <= a < b < n.buffers@.len() implies n.buffers@[a].id != n.buffers@[b].id by {
        let oa = if a < ri { a } else { a + 1 };
        let ob = if b < ri { b } else { b + 1 };
        assert(n.buffers@[a] == o.buffers@[oa]);
        assert(n.buffers@[b] == o.buffers@[ob]);
    }
}

/// `n` is `o` after closing buffer `bid_removed` (see
/// `close_buffer_by_id`), with `cv` the canonical paths of the buffers.
pub open spec fn buffer_closed(o: Editor, n: Editor, bid_removed: usize, cv: Seq<Option<Seq<char>>>) -> bool {
    let active = bid_removed == o.win().buf_id;
    let ps1 = if active {
        remember(pos_views(o.positions@), cv[o.cur_idx()], o.win())
    } else {
        pos_views(o.positions@)
    };
    if o.buffers@.len() <= 1 {
        &&& pos_views(n.positions@) == ps1
        &&& n.status_msg@ == "Cannot close the last remaining buffer"@
        &&& n == (Editor {
            positions: n.positions,
            status_msg: n.status_msg,
            status_kind: MessageKind::Error,
            ..o
        })
    } else if !o.has_buf(bid_removed) {
        &&& pos_views(n.positions@) == ps1
        &&& n == (Editor { positions: n.positions, ..o })
    } else {
        let ri = o.idx_of(bid_removed);
        let ps2 = if active {
            remember(ps1, cv[o.cur_idx()], o.win())
        } else {
            ps1
        };
        let fi = if ri == 0 {
            1int
        } else {
            0int
        };
        let fallback = match cv[fi] {
            Some(f) => lookup(ps2, f),
            None => None,
        };
        &&& pos_views(n.positions@) == ps2
        &&& n.buffers@ == o.buffers@.remove(ri)
        &&& n.windows@ == retarget(o.windows@, bid_removed, o.buffers@[fi].id, fallback)
        &&& n.status_msg@ == closed_msg(
            (o.active_window_idx + 1) as nat,
            o.windows@.len(),
        )
        &&& n == (Editor {
            positions: n.positions,
            buffers: n.buffers,
            windows: n.windows,
            status_msg: n.status_msg,
            status_kind: MessageKind::Info,
            ..o
        })
    }
}

impl Editor {
    /// Remember the active window's position when its buffer is `bid`.
    fn remember_if_active(&mut self, bid: usize, canons: &Vec<Option<String>>)
        requires
            old(self).wf(),
            canons@.len() == old(self).buffers@.len(),
        ensures
            final(self).wf(),
            pos_views(final(self).positions@) == if bid == old(self).win().buf_id {
                remember(pos_views(old(self).positions@), canon_views(canons@)[old(self).cur_idx()], old(self).win())
            } else {
                pos_views(old(self).positions@)
            },
            *final(self) == (Editor { positions: final(self).positions, ..*old(self) }),
    {
        proof {
            self.lemma_cur_idx();
        }
        let ci = self.active_buf_idx();
        let idx = self.active_window_idx;
        if bid == self.windows[idx].buf_id {
            let row = self.windows[idx].row;
            let col = self.windows[idx].col;
            match &canons[ci] {
                Some(f) => self.update_position_silent(f.as_str(), row, col),
                None => {},
            }
        }
    }

    fn closed_status(&mut self)
        requires
            old(self).active_window_idx < old(self).windows@.len(),
        ensures
            final(self).status_msg@ == closed_msg((old(self).active_window_idx + 1) as nat, old(self).windows@.len()),
            *final(self) == (Editor {
                status_msg: final(self).status_msg,
                status_kind: MessageKind::Info,
                ..*old(self)
            }),
    {
        let n = self.windows.len();
        let idx = self.active_window_idx;
        let mut msg = String::from_str("Closed buffer [");
        push_decimal(&mut msg, idx + 1);
        push_str(&mut msg, "/");
        push_decimal(&mut msg, n);
        push_str(&mut msg, "]");
        proof {
            assert(msg@ =~= closed_msg((idx + 1) as nat, n as nat));
        }
        self.set_status(msg.as_str(), MessageKind::Info);
    }

    /// Remember the cursor of every window whose buffer has a file (the
    /// caller writes the positions to disk).
    pub fn save_all_window_positions(&mut self, canons: &Vec<Option<String>>)
        requires
            old(self).wf(),
            canons@.len() == old(self).buffers@.len(),
        ensures
            final(self).wf(),
            pos_views(final(self).positions@) == remember_windows(
                *old(self),
                canon_views(canons@),
                old(self).windows@.len() as int,
            ),
            *final(self) == (Editor { positions: final(self).positions, ..*old(self) }),
    {
        let ghost o = *self;
        let mut k: usize = 0;
        while k < self.windows.len()
            invariant
                o.wf(),
                canons@.len() == o.buffers@.len(),
                k <= o.windows@.len(),
                *self == (Editor { positions: self.positions, ..o }),
                pos_views(self.positions@) == remember_windows(o, canon_views(canons@), k as int),
            decreases o.windows@.len() - k,
        {
            let bid = self.windows[k].buf_id;
            proof {
                assert(o.has_buf(o.windows@[k as int].buf_id));
                o.lemma_idx_of(bid);
            }
            match self.find_buf(bid) {
                Some(bi) => {
                    let row = self.windows[k].row;
                    let col = self.windows[k].col;
                    match &canons[bi] {
                        Some(f) => self.update_position_silent(f.as_str(), row, col),
                        None => {},
                    }
                },
                None => {},
            }
            k = k + 1;
        }
    }

    /// Quit at once, remembering every window's position.
    pub fn force_quit(&mut self, canons: &Vec<Option<String>>)
        requires
            old(self).wf(),
            canons@.len() == old(self).buffers@.len(),
        ensures
            final(self).wf(),
            pos_views(final(self).positions@) == remember_windows(
                *old(self),
                canon_views(canons@),
                old(self).windows@.len() as int,
            ),
            *final(self) == (Editor { positions: final(self).positions, should_quit: true, ..*old(self) }),
    {
        self.save_all_window_positions(canons);
        self.should_quit = true;
    }

    /// Close buffer `bid_removed`; windows that showed it move to the
    /// first remaining buffer.  The last buffer is never closed.
    pub fn close_buffer_by_id(&mut self, bid_removed: usize, canons: &Vec<Option<String>>)
        requires
            old(self).wf(),
            canons@.len() == old(self).buffers@.len(),
        ensures
            final(self).wf(),
            buffer_closed(*old(self), *final(self), bid_removed, canon_views(canons@)),
    {
        let ghost o = *self;
        self.remember_if_active(bid_removed, canons);
        if self.buffers.len() <= 1 {
            self.set_status_msg("Cannot close the last remaining buffer", MessageKind::Error);
            return;
        }
        let ri = match self.find_buf(bid_removed) {
            Some(i) => i,
            None => return,
        };
        proof {
            o.lemma_idx_of(bid_removed);
        }
        self.remember_if_active(bid_removed, canons);
        let fi: usize = if ri == 0 {
            1
        } else {
            0
        };
        let first_valid_id = self.buffers[fi].id;
        let fallback = match &canons[fi] {
            Some(f) => self.get_saved_position(f.as_str()),
            None => None,
        };
        let ghost e2 = *self;
        let _ = self.buffers.remove(ri);
        self.retarget_windows(bid_removed, first_valid_id, fallback);
        proof {
            lemma_wf_after_close(e2, *self, ri as int, fi as int, fallback);
        }
        self.closed_status();
    }

    fn retarget_windows(&mut self, removed: usize, first: usize, fallback: Option<(usize, usize)>)
        ensures
            final(self).windows@ == retarget(old(self).windows@, removed, first, fallback),
            *final(self) == (Editor { windows: final(self).windows, ..*old(self) }),
    {
        let ghost ow = self.windows@;
        let mut k: usize = 0;
        while k < self.windows.len()
            invariant
                self.windows@.len() == ow.len(),
                k <= ow.len(),
                forall|j: int| 0 <= j < k ==> self.windows@[j] == #[trigger] retarget(ow, removed, first, fallback)[j],
                forall|j: int| k <= j < ow.len() ==> self.windows@[j] == ow[j],
                *self == (Editor { windows: self.windows, ..*old(self) }),
            decreases ow.len() - k,
        {
            if self.windows[k].buf_id == removed {
                self.windows[k].buf_id = first;
                match fallback {
                    Some((r, c)) => {
                        self.windows[k].row = r;
                        self.windows[k].col = c;
                    },
                    None => {
                        self.windows[k].row = 0;
                        self.windows[k].col = 0;
                    },
                }
                self.windows[k].scroll_line = 0;
                self.windows[k].scroll_col = 0;
                self.windows[k].desired_col = 0;
            }
            k = k + 1;
        }
        proof {
            assert(self.windows@ =~= retarget(ow, removed, first, fallback));
        }
    }

    /// Close the buffer of the active window.
    pub fn close_buffer(&mut self, canons: &Vec<Option<String>>)
        requires
            old(self).wf(),
            canons@.len() == old(self).buffers@.len(),
        ensures
            final(self).wf(),
            buffer_closed(*old(self), *final(self), old(self).win().buf_id, canon_views(canons@)),
    {
        let bid = self.windows[self.active_window_idx].buf_id;
        self.close_buffer_by_id(bid, canons);
    }

    /// A key in the health report buffer: `q` closes it (and is taken);
    /// other keys are left to normal navigation.
    pub fn handle_checkhealth_key(&mut self, key: Key, canons: &Vec<Option<String>>) -> (taken: bool)
        requires
            old(self).wf(),
            canons@.len() == old(self).buffers@.len(),
        ensures
            final(self).wf(),
            taken == (key == Key::Char('q')),
            taken ==> buffer_closed(*old(self), *final(self), old(self).win().buf_id, canon_views(canons@)),
            !taken ==> *final(self) == *old(self),
    {
        if key == Key::Char('q') {
            self.close_buffer(canons);
            true
        } else {
            false
        }
    }

    /// Keep the row of window `win_idx` inside its buffer: past the last
    /// line it goes to the start of the last line.
    pub fn clamp_window_row_to_buf(&mut self, win_idx: usize)
        requires
            old(self).wf(),
            win_idx < old(self).windows@.len(),
        ensures
            final(self).wf(),
            ({
                let o = *old(self);
                let w = o.windows@[win_idx as int];
                let max = (num_lines(o.buffers@[o.idx_of(w.buf_id)].text()) - 1) as nat;
                if w.row > max {
                    final(self).windows@ == o.windows@.update(
                        win_idx as int,
                        Window { row: max as usize, col: 0, desired_col: 0, ..w },
                    ) && *final(self) == (Editor { windows: final(self).windows, ..o })
                } else {
                    *final(self) == o
                }
            }),
    {
        let ghost o = *self;
        let bid = self.windows[win_idx].buf_id;
        proof {
            assert(o.has_buf(bid));
            o.lemma_idx_of(bid);
        }
        match self.find_buf(bid) {
            Some(bi) => {
                let max_row = self.buffers[bi].len_lines() - 1;
                if self.windows[win_idx].row > max_row {
                    self.windows[win_idx].row = max_row;
                    self.windows[win_idx].col = 0;
                    self.windows[win_idx].desired_col = 0;
                    proof {
                        assert(self.windows@ =~= o.windows@.update(
                            win_idx as int,
                            Window { row: max_row, col: 0, desired_col: 0, ..o.windows@[win_idx as int] },
                        ));
                        assert forall|w: int| 0 <= w < self.windows@.len() implies self.has_buf(
                            #[trigger] self.windows@[w].buf_id,
                        ) by {
                            assert(o.has_buf(o.windows@[w].buf_id));
                        }
                    }
                }
            },
            None => {},
        }
    }
}

} // verus!

verus! {

/// `n` is `o` after quitting with every window's position remembered.
pub open spec fn quit_now(o: Editor, n: Editor, cv: Seq<Option<Seq<char>>>) -> bool {
    &&& pos_views(n.positions@) == remember_windows(o, cv, o.windows@.len() as int)
    &&& n == (Editor { positions: n.positions, should_quit: true, ..o })
}

/// Index of the first modified buffer at `k` or later, if any.
pub open spec fn first_dirty_from(bufs: Seq<Buffer>, k: int) -> Option<int>
    decreases bufs.len() - k,
{
    if k < 0 || k >= bufs.len() {
        None
    } else if bufs[k].modified {
        Some(k)
    } else {
        first_dirty_from(bufs, k + 1)
    }
}

/// Index of the first modified buffer, if any.
pub open spec fn first_dirty(bufs: Seq<Buffer>) -> Option<int> {
    first_dirty_from(bufs, 0)
}

/// `n` is `o` after `:qa`: with a modified buffer, it is shown and the
/// user asked whether to save it; otherwise the editor quits.
pub open spec fn quit_all_checked(o: Editor, n: Editor, cv: Seq<Option<Seq<char>>>) -> bool {
    match first_dirty(o.buffers@) {
        Some(i) => exists|m: Editor|
            #[trigger] switched(o, m, o.buffers@[i].id, cv) && n.status_msg@ == "Save changes to "@
                + buf_name(o.buffers@[i]) + "? (y/n/c)"@ && n == (Editor {
                quit_prompt: QuitPrompt::QuitAllConfirm,
                status_msg: n.status_msg,
                status_kind: MessageKind::Error,
                ..m
            }),
        None => quit_now(o, n, cv),
    }
}

/// `n` is `o` after `:q`: a modified buffer asks first; otherwise the
/// buffer closes, or the editor quits when it is the last one.
pub open spec fn quit_checked(o: Editor, n: Editor, cv: Seq<Option<Seq<char>>>) -> bool {
    if o.cur_buf().modified {
        &&& n.status_msg@ == "Save changes? (y/n/c)"@
        &&& n == (Editor {
            quit_prompt: QuitPrompt::BufferQuit,
            status_msg: n.status_msg,
            status_kind: MessageKind::Error,
            ..o
        })
    } else if o.buffers@.len() > 1 {
        buffer_closed(o, n, o.win().buf_id, cv)
    } else {
        quit_now(o, n, cv)
    }
}

/// The first modified buffer.
fn find_dirty(bufs: &Vec<Buffer>) -> (r: Option<usize>)
    ensures
        r matches Some(i) ==> first_dirty(bufs@) == Some(i as int) && i < bufs@.len(),
        r is None ==> first_dirty(bufs@) is None,
{
    let mut i: usize = 0;
    while i < bufs.len()
        invariant
            i <= bufs@.len(),
            first_dirty(bufs@) == first_dirty_from(bufs@, i as int),
        decreases bufs@.len() - i,
    {
        if bufs[i].modified {
            return Some(i);
        }
        i = i + 1;
    }
    None
}

impl Editor {
    /// `:q`.
    pub fn quit_check(&mut self, canons: &Vec<Option<String>>)
        requires
            old(self).wf(),
            canons@.len() == old(self).buffers@.len(),
        ensures
            final(self).wf(),
            quit_checked(*old(self), *final(self), canon_views(canons@)),
    {
        proof {
            self.lemma_cur_idx();
        }
        let ci = self.active_buf_idx();
        if !self.buffers[ci].modified {
            if self.buffers.len() > 1 {
                self.close_buffer(canons);
            } else {
                self.force_quit(canons);
            }
        } else {
            self.quit_prompt = QuitPrompt::BufferQuit;
            self.set_status_msg("Save changes? (y/n/c)", MessageKind::Error);
        }
    }

    /// `:qa`.
    #[verifier::rlimit(40)]
    pub fn quit_all_check(&mut self, canons: &Vec<Option<String>>)
        requires
            old(self).wf(),
            canons@.len() == old(self).buffers@.len(),
        ensures
            final(self).wf(),
            quit_all_checked(*old(self), *final(self), canon_views(canons@)),
    {
        let ghost o = *self;
        match find_dirty(&self.buffers) {
            Some(i) => {
                let bid = self.buffers[i].id;
                proof {
                    assert(self.has_buf(bid)) by {
                        assert(self.buffers@[i as int].id == bid);
                    }
                    self.lemma_idx_of(bid);
                }
                self.switch_window_to_buffer(bid, canons);
                let ghost m = *self;
                self.prompt_save_all(i);
                proof {
                    assert(switched(o, m, o.buffers@[i as int].id, canon_views(canons@)));
                }
            },
            None => self.force_quit(canons),
        }
    }

    /// Answer to a quit question.  For `y`, `save` is how saving the
    /// active buffer (done by the caller just before) went.
    pub fn handle_quit_prompt_key(&mut self, key: Key, canons: &Vec<Option<String>>, save: Result<(), String>)
        requires
            old(self).wf(),
            canons@.len() == old(self).buffers@.len(),
        ensures
            final(self).wf(),
            ({
                let o = *old(self);
                let cv = canon_views(canons@);
                let yes = key == Key::Char('y') || key == Key::Char('Y');
                let no = key == Key::Char('n') || key == Key::Char('N');
                let cancel = key == Key::Char('c') || key == Key::Char('C') || key == Key::Esc;
                match o.quit_prompt {
                    QuitPrompt::BufferQuit => if yes && save is Err {
                        &&& final(self).status_msg@ == "Save failed: "@ + save->Err_0@
                        &&& *final(self) == (Editor {
                            status_msg: final(self).status_msg,
                            status_kind: MessageKind::Error,
                            quit_prompt: QuitPrompt::Idle,
                            ..o
                        })
                    } else if yes || no {
                        exists|m: Editor|
                            #[trigger] quit_checked_clean(o, m, cv) && *final(self) == (Editor {
                                quit_prompt: QuitPrompt::Idle,
                                ..m
                            })
                    } else if cancel {
                        &&& final(self).status_msg@ == Seq::<char>::empty()
                        &&& *final(self) == (Editor {
                            status_msg: final(self).status_msg,
                            quit_prompt: QuitPrompt::Idle,
                            ..o
                        })
                    } else {
                        *final(self) == o
                    },
                    QuitPrompt::QuitAllConfirm => if yes && save is Err {
                        &&& final(self).status_msg@ == "Save failed: "@ + save->Err_0@
                        &&& *final(self) == (Editor {
                            status_msg: final(self).status_msg,
                            status_kind: MessageKind::Error,
                            quit_prompt: QuitPrompt::Idle,
                            ..o
                        })
                    } else if yes {
                        quit_all_checked(o, *final(self), cv)
                    } else if no {
                        exists|m: Editor|
                            m.buffers@ == o.buffers@.update(
                                o.cur_idx(),
                                Buffer { modified: false, ..o.cur_buf() },
                            ) && m == (Editor { buffers: m.buffers, ..o }) && #[trigger]
                                quit_all_checked(m, *final(self), cv)
                    } else if cancel {
                        &&& final(self).status_msg@ == "Quit aborted"@
                        &&& *final(self) == (Editor {
                            status_msg: final(self).status_msg,
                            status_kind: MessageKind::Info,
                            quit_prompt: QuitPrompt::Idle,
                            ..o
                        })
                    } else {
                        *final(self) == o
                    },
                    QuitPrompt::Idle => *final(self) == o,
                }
            }),
    {
        let yes = key == Key::Char('y') || key == Key::Char('Y');
        let no = key == Key::Char('n') || key == Key::Char('N');
        let cancel = key == Key::Char('c') || key == Key::Char('C') || key == Key::Esc;
        match self.quit_prompt {
            QuitPrompt::BufferQuit => {
                if yes || no {
                    match (&save, yes) {
                        (Err(e), true) => {
                            let mut msg = String::from_str("Save failed: ");
                            push_str(&mut msg, e.as_str());
                            self.set_status_msg(msg.as_str(), MessageKind::Error);
                        },
                        _ => {
                            self.close_or_quit(canons);
                        },
                    }
                    self.quit_prompt = QuitPrompt::Idle;
                } else if cancel {
                    self.quit_prompt = QuitPrompt::Idle;
                    self.clear_status_msg();
                }
            },
            QuitPrompt::QuitAllConfirm => {
                if yes {
                    match &save {
                        Err(e) => {
                            let mut msg = String::from_str("Save failed: ");
                            push_str(&mut msg, e.as_str());
                            self.set_status_msg(msg.as_str(), MessageKind::Error);
                            self.quit_prompt = QuitPrompt::Idle;
                        },
                        Ok(()) => self.quit_all_check(canons),
                    }
                } else if no {
                    let ghost o = *self;
                    proof {
                        self.lemma_cur_idx();
                    }
                    let ci = self.active_buf_idx();
                    self.buffers[ci].modified = false;
                    proof {
                        assert(self.buffers@ =~= o.buffers@.update(ci as int, Buffer { modified: false, ..o.cur_buf() }));
                        Editor::lemma_wf_update_buf(o, *self, ci as int, self.buffers@[ci as int]);
                    }
                    self.quit_all_check(canons);
                } else if cancel {
                    self.quit_prompt = QuitPrompt::Idle;
                    self.clear_status_msg();
                    self.set_status_msg("Quit aborted", MessageKind::Info);
                }
            },
            QuitPrompt::Idle => {},
        }
    }

    fn prompt_save_all(&mut self, i: usize)
        requires
            i < old(self).buffers@.len(),
        ensures
            final(self).status_msg@ == "Save changes to "@ + buf_name(old(self).buffers@[i as int])
                + "? (y/n/c)"@,
            *final(self) == (Editor {
                quit_prompt: QuitPrompt::QuitAllConfirm,
                status_msg: final(self).status_msg,
                status_kind: MessageKind::Error,
                ..*old(self)
            }),
    {
        self.quit_prompt = QuitPrompt::QuitAllConfirm;
        let name = self.buffers[i].display_name();
        let mut msg = String::from_str("Save changes to ");
        push_str(&mut msg, name.as_str());
        push_str(&mut msg, "? (y/n/c)");
        self.set_status_msg(msg.as_str(), MessageKind::Error);
    }

    /// Close the active buffer, or quit when it is the last one.
    fn close_or_quit(&mut self, canons: &Vec<Option<String>>)
        requires
            old(self).wf(),
            canons@.len() == old(self).buffers@.len(),
        ensures
            final(self).wf(),
            quit_checked_clean(*old(self), *final(self), canon_views(canons@)),
    {
        if self.buffers.len() > 1 {
            self.close_buffer(canons);
        } else {
            self.force_quit(canons);
        }
    }
}

/// `n` is `o` after closing its active buffer, or quitting when it is
/// the last one.
pub open spec fn quit_checked_clean(o: Editor, n: Editor, cv: Seq<Option<Seq<char>>>) -> bool {
    if o.buffers@.len() > 1 {
        buffer_closed(o, n, o.win().buf_id, cv)
    } else {
        quit_now(o, n, cv)
    }
}

} // verus!
