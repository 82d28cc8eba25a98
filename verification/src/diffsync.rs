//! Keeping the two windows of a side-by-side diff in step.

use crate::buffer::{Buffer, VirtualLine};
use crate::diff_align::DiffAlignment;
use crate::editor::Editor;
use crate::lines::{line_len, num_lines};
use crate::text::{has_prefix, strip_prefix};
use crate::window::Window;
use vstd::prelude::*;

verus! {

/// First virtual row from `i` on whose real row is `r` or later.
pub open spec fn first_at_least(map: Seq<VirtualLine>, r: usize, i: nat) -> Option<nat>
    decreases map.len() - i,
{
    if i >= map.len() {
        None
    } else if map[i as int] matches VirtualLine::Real(x) && x >= r {
        Some(i)
    } else {
        first_at_least(map, r, i + 1)
    }
}

/// Real row of the first real line from virtual row `i` on.
pub open spec fn real_from(map: Seq<VirtualLine>, i: nat) -> Option<usize>
    decreases map.len() - i,
{
    if i >= map.len() {
        None
    } else {
        match map[i as int] {
            VirtualLine::Real(x) => Some(x),
            VirtualLine::Padding => real_from(map, i + 1),
        }
    }
}

/// Real row of the last real line before virtual row `i`.
pub open spec fn real_before(map: Seq<VirtualLine>, i: nat) -> Option<usize>
    decreases i,
{
    if i == 0 || i > map.len() {
        None
    } else {
        match map[i - 1] {
            VirtualLine::Real(x) => Some(x),
            VirtualLine::Padding => real_before(map, (i - 1) as nat),
        }
    }
}

/// The sibling's row for cursor row `cursor` of the active side: the
/// first sibling line at or below the first active line at or past the
/// cursor, else the last one above it; 0 when there is none.
pub open spec fn aligned_row(active: Seq<VirtualLine>, sibling: Seq<VirtualLine>, cursor: usize) -> usize {
    match first_at_least(active, cursor, 0) {
        None => 0,
        Some(v) => match real_from(sibling, v) {
            Some(x) => x,
            None => match real_before(sibling, v) {
                Some(x) => x,
                None => 0,
            },
        },
    }
}

/// A buffer showing the HEAD side of a diff.
pub open spec fn is_head_side(b: Buffer) -> bool {
    b.filename matches Some(f) && has_prefix(f@, "git://head/"@)
}

/// Index of the first window with id `id`.
pub open spec fn window_pos(ws: Seq<Window>, id: usize, i: nat) -> Option<nat>
    decreases ws.len() - i,
{
    if i >= ws.len() {
        None
    } else if ws[i as int].id == id {
        Some(i)
    } else {
        window_pos(ws, id, i + 1)
    }
}

/// Row the sibling window goes to, before it is kept inside its text:
/// through the alignment of the active buffer (or else the sibling's),
/// or the cursor row when neither has one.
pub open spec fn sibling_target(ab: Buffer, sb: Buffer, cursor: usize) -> usize {
    let al = match ab.diff_alignment {
        Some(a) => Some(a),
        None => sb.diff_alignment,
    };
    match al {
        Some(a) => if is_head_side(ab) {
            aligned_row(a.left@, a.right@, cursor)
        } else {
            aligned_row(a.right@, a.left@, cursor)
        },
        None => {
            let max = (num_lines(sb.text()) - 1) as nat;
            (if cursor < max { cursor as nat } else { max }) as usize
        },
    }
}

/// The sibling window `sw` after following active window `aw` (on
/// buffer `ab`; the sibling shows `sb`).
pub open spec fn followed(aw: Window, sw: Window, ab: Buffer, sb: Buffer) -> Window {
    let t = sb.text();
    let max = (num_lines(t) - 1) as nat;
    let target = sibling_target(ab, sb, aw.row);
    let row: nat = if target < max { target as nat } else { max };
    let lc = line_len(t, row);
    Window {
        scroll_line: aw.scroll_line,
        scroll_col: aw.scroll_col,
        row: row as usize,
        col: (if sw.col < lc { sw.col as nat } else { lc }) as usize,
        ..sw
    }
}

fn first_at_least_exec(map: &Vec<VirtualLine>, r: usize) -> (v: Option<usize>)
    ensures
        match first_at_least(map@, r, 0) {
            Some(i) => v matches Some(j) && j as nat == i,
            None => v is None,
        },
{
    let mut i: usize = 0;
    let n = map.len();
    while i < map.len()
        invariant
            i <= map@.len(),
            first_at_least(map@, r, 0) == first_at_least(map@, r, i as nat),
        decreases map@.len() - i,
    {
        match map[i] {
            VirtualLine::Real(x) => {
                if x >= r {
                    return Some(i);
                }
            },
            VirtualLine::Padding => {},
        }
        i = i + 1;
    }
    None
}

fn real_from_exec(map: &Vec<VirtualLine>, from: usize) -> (v: Option<usize>)
    ensures
        v == real_from(map@, from as nat),
{
    let mut i = from;
    while i < map.len()
        invariant
            from <= i,
            real_from(map@, from as nat) == real_from(map@, i as nat),
        decreases map@.len() - i,
    {
        match map[i] {
            VirtualLine::Real(x) => {
                return Some(x);
            },
            VirtualLine::Padding => {},
        }
        i = i + 1;
    }
    None
}

fn real_before_exec(map: &Vec<VirtualLine>, before: usize) -> (v: Option<usize>)
    requires
        before <= map@.len(),
    ensures
        v == real_before(map@, before as nat),
{
    let mut i = before;
    while i > 0
        invariant
            i <= before <= map@.len(),
            real_before(map@, before as nat) == real_before(map@, i as nat),
        decreases i,
    {
        match map[i - 1] {
            VirtualLine::Real(x) => {
                return Some(x);
            },
            VirtualLine::Padding => {},
        }
        i = i - 1;
    }
    None
}

fn aligned_row_exec(active: &Vec<VirtualLine>, sibling: &Vec<VirtualLine>, cursor: usize) -> (r: usize)
    ensures
        r == aligned_row(active@, sibling@, cursor),
{
    match first_at_least_exec(active, cursor) {
        None => 0,
        Some(v) => match real_from_exec(sibling, v) {
            Some(x) => x,
            None => {
                if v <= sibling.len() {
                    match real_before_exec(sibling, v) {
                        Some(x) => x,
                        None => 0,
                    }
                } else {
                    proof {
                        assert(real_before(sibling@, v as nat) is None);
                    }
                    0
                }
            },
        },
    }
}

fn sibling_target_exec(ab: &Buffer, sb: &Buffer, cursor: usize) -> (r: usize)
    ensures
        r == sibling_target(*ab, *sb, cursor),
{
    let al: Option<&DiffAlignment> = match &ab.diff_alignment {
        Some(a) => Some(a),
        None => match &sb.diff_alignment {
            Some(a) => Some(a),
            None => None,
        },
    };
    match al {
        Some(a) => {
            let head = match &ab.filename {
                Some(f) => strip_prefix(f.as_str(), "git://head/").is_some(),
                None => false,
            };
            if head {
                aligned_row_exec(&a.left, &a.right, cursor)
            } else {
                aligned_row_exec(&a.right, &a.left, cursor)
            }
        },
        None => {
            let max = sb.len_lines() - 1;
            if cursor < max {
                cursor
            } else {
                max
            }
        },
    }
}

impl Editor {
    /// Bring the diff sibling of the active window in step with it: the
    /// same scroll, and the cursor on the matching line (through the diff
    /// alignment, kept inside the sibling's text).
    pub fn sync_diff_windows(&mut self)
        requires
            old(self).wf(),
        ensures
            final(self).wf(),
            ({
                let o = *old(self);
                let aw = o.win();
                match aw.diff_sibling {
                    None => *final(self) == o,
                    Some(sid) => match window_pos(o.windows@, sid, 0) {
                        Some(si) => if si == o.active_window_idx {
                            *final(self) == o
                        } else {
                            let sw = o.windows@[si as int];
                            &&& final(self).windows@ == o.windows@.update(
                                si as int,
                                followed(aw, sw, o.cur_buf(), o.buffers@[o.idx_of(sw.buf_id)]),
                            )
                            &&& *final(self) == (Editor { windows: final(self).windows, ..o })
                        },
                        None => *final(self) == o,
                    },
                }
            }),
    {
        let ghost o = *self;
        proof {
            self.lemma_cur_idx();
        }
        let ai = self.active_window_idx;
        let sid = match self.windows[ai].diff_sibling {
            Some(s) => s,
            None => {
                return;
            },
        };
        let mut si: usize = 0;
        while si < self.windows.len() && self.windows[si].id != sid
            invariant
                *self == o,
                si <= self.windows@.len(),
                window_pos(o.windows@, sid, 0) == window_pos(o.windows@, sid, si as nat),
            decreases self.windows@.len() - si,
        {
            si = si + 1;
        }
        if si >= self.windows.len() || si == ai {
            return;
        }
        let sbid = self.windows[si].buf_id;
        proof {
            assert(o.has_buf(sbid)) by {
                assert(o.has_buf(o.windows@[si as int].buf_id));
            }
            o.lemma_idx_of(sbid);
        }
        let abi = match self.find_buf(self.windows[ai].buf_id) {
            Some(i) => i,
            None => {
                return;
            },
        };
        let sbi = match self.find_buf(sbid) {
            Some(i) => i,
            None => {
                return;
            },
        };
        let cursor = self.windows[ai].row;
        let target = sibling_target_exec(&self.buffers[abi], &self.buffers[sbi], cursor);
        let max = self.buffers[sbi].len_lines() - 1;
        let row = if target < max {
            target
        } else {
            max
        };
        let lc = self.buffers[sbi].line_char_len(row);
        let scroll_line = self.windows[ai].scroll_line;
        let scroll_col = self.windows[ai].scroll_col;
        self.windows[si].scroll_line = scroll_line;
        self.windows[si].scroll_col = scroll_col;
        self.windows[si].row = row;
        if self.windows[si].col > lc {
            self.windows[si].col = lc;
        }
        proof {
            assert(self.windows@ =~= o.windows@.update(
                si as int,
                followed(o.win(), o.windows@[si as int], o.cur_buf(), o.buffers@[o.idx_of(sbid)]),
            ));
            assert forall|w: int| 0 <= w < self.windows@.len() implies self.has_buf(
                #[trigger] self.windows@[w].buf_id,
            ) by {
                assert(o.has_buf(o.windows@[w].buf_id));
            }
        }
    }
}

} // verus!
