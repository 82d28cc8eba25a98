//! Window management: cycling the focus, closing the active window and
//! keeping only the active one.

use vstd::prelude::*;
use crate::window::Window;
use crate::editor::{Editor, MessageKind};
use crate::diffsync::window_pos;

verus! {

/// Index focused after moving forward from window `i` of `n`, wrapping.
pub open spec fn next_window_idx(i: int, n: int) -> int {
    if n <= 1 {
        i
    } else {
        (i + 1) % n
    }
}

/// Index focused after moving back from window `i` of `n`, wrapping.
pub open spec fn prev_window_idx(i: int, n: int) -> int {
    if n <= 1 {
        i
    } else if i == 0 {
        n - 1
    } else {
        i - 1
    }
}

/// Moving forward then back, or back then forward, returns to the
/// window one started from.
pub proof fn lemma_focus_round_trip(i: int, n: int)
    requires
        0 <= i < n,
    ensures
        prev_window_idx(next_window_idx(i, n), n) == i,
        next_window_idx(prev_window_idx(i, n), n) == i,
        0 <= next_window_idx(i, n) < n,
        0 <= prev_window_idx(i, n) < n,
{
    if n > 1 {
        if i + 1 < n {
            vstd::arithmetic::div_mod::lemma_small_mod((i + 1) as nat, n as nat);
        } else {
            vstd::arithmetic::div_mod::lemma_mod_self_0(n);
        }
        if i == 0 {
            vstd::arithmetic::div_mod::lemma_mod_self_0(n);
        } else {
            vstd::arithmetic::div_mod::lemma_small_mod(i as nat, n as nat);
        }
    }
}

/// Most windows the editor keeps open.
pub const MAX_WINDOWS: usize = 8;

/// The window a split adds next to `w`: id `id`, the same buffer, cursor
/// and scroll, nothing else carried over.
pub open spec fn split_copy(w: Window, id: usize) -> Window {
    Window {
        id,
        buf_id: w.buf_id,
        row: w.row,
        col: w.col,
        desired_col: 0,
        scroll_line: w.scroll_line,
        scroll_col: w.scroll_col,
        last_jump: None,
        visual_anchor: None,
        height: 0,
        width: 0,
        diff_sibling: None,
    }
}

/// `n` is `o` after splitting its active window with status `msg`: at
/// the limit only the status line says so; otherwise the copy is added
/// last, takes the next window id and the focus.
pub open spec fn split_done(o: Editor, n: Editor, msg: Seq<char>) -> bool {
    if o.windows@.len() >= MAX_WINDOWS {
        crate::hunks::only_status(o, n, "Maximum number of windows reached"@, MessageKind::Error)
    } else {
        &&& n.windows@ == o.windows@.push(split_copy(o.win(), o.next_win_id))
        &&& n.status_msg@ == msg
        &&& n == (Editor {
            windows: n.windows,
            active_window_idx: o.windows@.len() as usize,
            next_win_id: (o.next_win_id + 1) as usize,
            status_msg: n.status_msg,
            status_kind: MessageKind::Info,
            ..o
        })
    }
}

/// Does window `w` carry id `id`?
pub open spec fn has_window_id(id: usize) -> spec_fn(Window) -> bool {
    |w: Window| w.id == id
}

/// `ws` with the diff link of the first window carrying id `sib`
/// cleared.
pub open spec fn unlinked(ws: Seq<Window>, sib: Option<usize>) -> Seq<Window> {
    match sib {
        Some(sid) => match window_pos(ws, sid, 0) {
            Some(k) => ws.update(k as int, Window { diff_sibling: None, ..ws[k as int] }),
            None => ws,
        },
        None => ws,
    }
}

/// Index focused after closing window `i` of `n`: the window that slides
/// into its place, or the one before it when it was the last.
pub open spec fn focus_after_close(i: int, n: int) -> int {
    if i + 1 < n {
        i
    } else {
        i - 1
    }
}

/// Does a window other than the active one show the active buffer?
pub open spec fn viewed_elsewhere(e: Editor) -> bool {
    exists|i: int|
        0 <= i < e.windows@.len() && e.windows@[i].id != e.win().id && e.windows@[i].buf_id
            == e.win().buf_id
}

/// `n` is `o` with its active window closed: the link of the window it
/// was paired with in a diff is cleared, the window leaves the list and
/// the focus moves to its neighbour.
pub open spec fn window_closed(o: Editor, n: Editor) -> bool {
    let i = o.active_window_idx as int;
    &&& n.windows@ == unlinked(o.windows@, o.win().diff_sibling).remove(i)
    &&& n.active_window_idx == focus_after_close(i, o.windows@.len() as int)
    &&& n.status_msg@ == "Window closed"@
    &&& n == (Editor {
        windows: n.windows,
        active_window_idx: n.active_window_idx,
        status_msg: n.status_msg,
        status_kind: MessageKind::Info,
        ..o
    })
}

/// `ws` without window `ai`, the link of its diff partner cleared.
fn closed_windows(ws: Vec<Window>, ai: usize) -> (r: Vec<Window>)
    requires
        ai < ws@.len(),
    ensures
        r@ == unlinked(ws@, ws@[ai as int].diff_sibling).remove(ai as int),
        r@.len() == ws@.len() - 1,
        forall|k: int|
            0 <= k < r@.len() ==> #[trigger] r@[k].buf_id == (if k < ai {
                ws@[k].buf_id
            } else {
                ws@[k + 1].buf_id
            }),
{
    let ghost o = ws@;
    let mut ws = ws;
    let n = ws.len();
    if let Some(sid) = ws[ai].diff_sibling {
        let mut si: usize = 0;
        while si < n && ws[si].id != sid
            invariant
                ws@ == o,
                n == o.len(),
                si <= n,
                window_pos(o, sid, 0) == window_pos(o, sid, si as nat),
            decreases n - si,
        {
            si = si + 1;
        }
        if si < n {
            let mut w = ws[si];
            w.diff_sibling = None;
            ws.set(si, w);
        }
    }
    let ghost u = ws@;
    assert(u == unlinked(o, o[ai as int].diff_sibling));
    assert(forall|k: int| 0 <= k < u.len() ==> u[k].buf_id == o[k].buf_id);
    let _closed = ws.remove(ai);
    ws
}

impl Editor {
    /// Focus the next window, wrapping after the last.
    pub fn focus_next_window(&mut self)
        requires
            old(self).wf(),
        ensures
            final(self).wf(),
            final(self).active_window_idx == next_window_idx(
                old(self).active_window_idx as int,
                old(self).windows@.len() as int,
            ),
            *final(self) == (Editor { active_window_idx: final(self).active_window_idx, ..*old(self) }),
    {
        let n = self.windows.len();
        if n <= 1 {
            return;
        }
        self.active_window_idx = (self.active_window_idx + 1) % n;
    }

    /// Focus the previous window, wrapping before the first.
    pub fn focus_prev_window(&mut self)
        requires
            old(self).wf(),
        ensures
            final(self).wf(),
            final(self).active_window_idx == prev_window_idx(
                old(self).active_window_idx as int,
                old(self).windows@.len() as int,
            ),
            *final(self) == (Editor { active_window_idx: final(self).active_window_idx, ..*old(self) }),
    {
        let n = self.windows.len();
        if n <= 1 {
            return;
        }
        self.active_window_idx = if self.active_window_idx == 0 {
            n - 1
        } else {
            self.active_window_idx - 1
        };
    }

    /// Close every window but the active one (and any sharing its id).
    pub fn only_window(&mut self)
        requires
            old(self).wf(),
        ensures
            final(self).wf(),
            old(self).windows@.len() <= 1 ==> *final(self) == *old(self),
            old(self).windows@.len() > 1 ==> {
                &&& final(self).windows@ == old(self).windows@.filter(
                    has_window_id(old(self).win().id),
                )
                &&& final(self).active_window_idx == 0
                &&& final(self).status_msg@ == "Closed other windows"@
                &&& *final(self) == (Editor {
                    windows: final(self).windows,
                    active_window_idx: 0,
                    status_msg: final(self).status_msg,
                    status_kind: MessageKind::Info,
                    ..*old(self)
                })
            },
    {
        let n = self.windows.len();
        if n <= 1 {
            return;
        }
        let ghost o = *self;
        let keep_id = self.windows[self.active_window_idx].id;
        let ghost pred = has_window_id(keep_id);
        let mut kept: Vec<Window> = Vec::new();
        let mut i: usize = 0;
        while i < n
            invariant
                *self == o,
                o.wf(),
                n == o.windows@.len(),
                keep_id == o.win().id,
                pred == has_window_id(keep_id),
                i <= n,
                kept@ == o.windows@.subrange(0, i as int).filter(pred),
                i > o.active_window_idx ==> kept@.len() > 0,
                forall|k: int| 0 <= k < kept@.len() ==> o.has_buf(#[trigger] kept@[k].buf_id),
            decreases n - i,
        {
            proof {
                reveal(Seq::filter);
                assert(o.windows@.subrange(0, i + 1).drop_last() =~= o.windows@.subrange(
                    0,
                    i as int,
                ));
                assert(o.windows@.subrange(0, i + 1).last() == o.windows@[i as int]);
                assert(o.has_buf(o.windows@[i as int].buf_id));
            }
            if self.windows[i].id == keep_id {
                kept.push(self.windows[i]);
            }
            i = i + 1;
        }
        proof {
            assert(o.windows@.subrange(0, n as int) =~= o.windows@);
        }
        self.windows = kept;
        self.active_window_idx = 0;
        self.set_status("Closed other windows", MessageKind::Info);
    }

    /// Close the active window.  Closing the last one quits the editor
    /// (remembering the window positions unless `force`), or asks first
    /// when its buffer is modified and `force` is not given; a modified
    /// buffer that no other window shows is kept open unless `force`.  `canons` holds each buffer's file key,
    /// in buffer order.
    pub fn close_window(&mut self, force: bool, canons: &Vec<Option<String>>)
        requires
            old(self).wf(),
            canons@.len() == old(self).buffers@.len(),
        ensures
            final(self).wf(),
            ({
                let o = *old(self);
                let n = *final(self);
                if o.windows@.len() <= 1 {
                    if force {
                        n == (Editor { should_quit: true, ..o })
                    } else if o.cur_buf().modified {
                        &&& n.status_msg@ == "Save changes? (y/n/c)"@
                        &&& n == (Editor {
                            quit_prompt: crate::editor::QuitPrompt::BufferQuit,
                            status_msg: n.status_msg,
                            status_kind: MessageKind::Error,
                            ..o
                        })
                    } else {
                        crate::session::quit_now(o, n, crate::session::canon_views(canons@))
                    }
                } else if !force && !viewed_elsewhere(o) && o.cur_buf().modified {
                    &&& n.status_msg@ == "No write since last change (use :q! to force)"@
                    &&& n == (Editor {
                        status_msg: n.status_msg,
                        status_kind: MessageKind::Error,
                        ..o
                    })
                } else {
                    window_closed(o, n)
                }
            }),
    {
        let n = self.windows.len();
        if n <= 1 {
            if force {
                self.should_quit = true;
            } else if self.buf().modified {
                self.quit_prompt = crate::editor::QuitPrompt::BufferQuit;
                self.set_status_msg("Save changes? (y/n/c)", MessageKind::Error);
            } else {
                self.force_quit(canons);
            }
            return;
        }
        if !force && !self.is_buffer_viewed_elsewhere() && self.buf().modified {
            self.set_status_msg("No write since last change (use :q! to force)", MessageKind::Error);
            return;
        }
        self.close_active_window();
    }

    /// Remove the active window (one of several), clearing its diff
    /// partner's link.
    #[verifier::spinoff_prover]
    fn close_active_window(&mut self)
        requires
            old(self).wf(),
            old(self).windows@.len() > 1,
        ensures
            final(self).wf(),
            window_closed(*old(self), *final(self)),
    {
        let ghost o = *self;
        let ai = self.active_window_idx;
        let n = self.windows.len();
        let mut ws: Vec<Window> = Vec::new();
        std::mem::swap(&mut ws, &mut self.windows);
        let rest = closed_windows(ws, ai);
        self.windows = rest;
        self.active_window_idx = if ai + 1 < n {
            ai
        } else {
            ai - 1
        };
        proof {
            assert forall|w: int| 0 <= w < self.windows@.len() implies self.has_buf(
                #[trigger] self.windows@[w].buf_id,
            ) by {
                if w < ai {
                    assert(o.has_buf(o.windows@[w].buf_id));
                } else {
                    assert(o.has_buf(o.windows@[w + 1].buf_id));
                }
            }
        }
        self.set_status("Window closed", MessageKind::Info);
    }

    fn split_active(&mut self, msg: &str)
        requires
            old(self).wf(),
            old(self).next_win_id < usize::MAX,
        ensures
            final(self).wf(),
            split_done(*old(self), *final(self), msg@),
    {
        if self.windows.len() >= MAX_WINDOWS {
            self.set_status("Maximum number of windows reached", MessageKind::Error);
            return;
        }
        let ghost o = *self;
        let w = self.windows[self.active_window_idx];
        let id = self.next_win_id;
        self.next_win_id = self.next_win_id + 1;
        let mut nw = Window::new(id, w.buf_id);
        nw.row = w.row;
        nw.col = w.col;
        nw.scroll_line = w.scroll_line;
        nw.scroll_col = w.scroll_col;
        let idx = self.windows.len();
        self.windows.push(nw);
        self.active_window_idx = idx;
        proof {
            assert(nw == split_copy(o.win(), o.next_win_id));
            assert(o.has_buf(o.win().buf_id));
            assert forall|k: int| 0 <= k < self.windows@.len() implies self.has_buf(
                #[trigger] self.windows@[k].buf_id,
            ) by {
                if k < o.windows@.len() {
                    assert(o.has_buf(o.windows@[k].buf_id));
                }
            }
        }
        self.set_status(msg, MessageKind::Info);
    }

    /// Split the active window horizontally (top / bottom): the new pane
    /// shows the same buffer at the same cursor and takes the focus.
    pub fn split_horizontal(&mut self)
        requires
            old(self).wf(),
            old(self).next_win_id < usize::MAX,
        ensures
            final(self).wf(),
            split_done(*old(self), *final(self), "Split horizontally"@),
    {
        self.split_active("Split horizontally");
    }

    /// Split the active window vertically (left / right): the new pane
    /// shows the same buffer at the same cursor and takes the focus.
    pub fn split_vertical(&mut self)
        requires
            old(self).wf(),
            old(self).next_win_id < usize::MAX,
        ensures
            final(self).wf(),
            split_done(*old(self), *final(self), "Split vertically"@),
    {
        self.split_active("Split vertically");
    }
}

} // verus!
