//! Opening a file in the active window: an open buffer of that file is
//! reused, otherwise a new buffer is made; the position left and the
//! one saved for the file are remembered and restored.

use crate::buffer::{loaded_text, opt_view, Buffer, BufferKind};
use crate::editing::line_display_width;
use crate::editor::{Editor, MessageKind, Mode, PendingGitAction, PendingInput, PositionInfo, QuitPrompt, RegisterBank};
use crate::gutter::GutterConfig;
use crate::lines::{line_len, line_of, num_lines};
use crate::visual::visual_col;
use crate::rope::rope_len_chars;
use crate::session::{canon_views, lookup, pos_views, positions_after, restored_window};
use crate::text::{push_str, str_eq};
use crate::window::Window;
use vstd::prelude::*;

verus! {

/// Index of the first of `keys` from `i` on that is `k`.
pub open spec fn first_key(keys: Seq<Option<Seq<char>>>, k: Seq<char>, i: int) -> Option<int>
    decreases keys.len() - i,
{
    if i < 0 || i >= keys.len() {
        None
    } else if keys[i] == Some(k) {
        Some(i)
    } else {
        first_key(keys, k, i + 1)
    }
}

/// Some window of `ws` shows buffer `id`.
pub open spec fn viewed_by(ws: Seq<Window>, id: usize) -> bool {
    exists|k: int| 0 <= k < ws.len() && #[trigger] ws[k].buf_id == id
}

/// `bufs` without buffer `ci` when it is a throw-away buffer (`clean`)
/// that no window of `ws` shows any more.
pub open spec fn cleaned(bufs: Seq<Buffer>, ws: Seq<Window>, clean: bool, ci: int, id: usize) -> Seq<Buffer> {
    if clean && !viewed_by(ws, id) {
        bufs.remove(ci)
    } else {
        bufs
    }
}

/// `b` is a buffer as `Buffer::new` makes it for `filename`, with
/// `content` read from that file when it exists.
pub open spec fn fresh_buffer(b: Buffer, id: usize, filename: Option<Seq<char>>, content: Option<String>) -> bool {
    &&& b.id == id
    &&& opt_view(b.filename) == filename
    &&& b.text() == (match filename {
        Some(_) => match content {
            Some(c) => loaded_text(c@),
            None => Seq::<char>::empty(),
        },
        None => seq!['\n'],
    })
    &&& !b.modified
    &&& b.kind == BufferKind::Normal
    &&& b.undo_stack@.len() == 0
    &&& b.redo_stack@.len() == 0
}

/// A buffer that is thrown away when another file is opened over it: no
/// file, no change, at most one char.
pub open spec fn throwaway(b: Buffer) -> bool {
    b.filename is None && !b.modified && b.text().len() <= 1
}

/// `n` is `o` after opening `path` in the active window.  `pc` is the
/// path's canonical form (for saved positions), `pk` the key it matches
/// open buffers by, `keys[i]` that key of buffer `i`, `cv[i]` the
/// canonical path of buffer `i`'s file, and `content` what reading the
/// file gave.
pub open spec fn opened(
    o: Editor,
    n: Editor,
    path: Option<Seq<char>>,
    pc: Seq<char>,
    pk: Option<Seq<char>>,
    keys: Seq<Option<Seq<char>>>,
    cv: Seq<Option<Seq<char>>>,
    content: Result<Option<String>, String>,
) -> bool {
    let w = o.win();
    let ci = o.cur_idx();
    let ps1 = match cv[ci] {
        Some(f) => positions_after(pos_views(o.positions@), f, w.row, w.col),
        None => pos_views(o.positions@),
    };
    let clean = throwaway(o.cur_buf());
    let existing = match (path, pk) {
        (Some(_), Some(k)) => first_key(keys, k, 0),
        _ => None,
    };
    &&& pos_views(n.positions@) == ps1
    &&& match existing {
        Some(j) => if o.buffers@[j].id == w.buf_id {
            n == (Editor { positions: n.positions, ..o })
        } else {
            let ws = o.windows@.update(
                o.active_window_idx as int,
                restored_window(Window { buf_id: o.buffers@[j].id, ..w }, o.buffers@[j], lookup(ps1, pc)),
            );
            &&& n.windows@ == ws
            &&& n.buffers@ == cleaned(o.buffers@, ws, clean, ci, w.buf_id)
            &&& n == (Editor { positions: n.positions, windows: n.windows, buffers: n.buffers, ..o })
        },
        None => match content {
            Err(e) => {
                &&& n.status_msg@ == "Failed to open: "@ + e@
                &&& n == (Editor {
                    positions: n.positions,
                    status_msg: n.status_msg,
                    status_kind: MessageKind::Error,
                    ..o
                })
            },
            Ok(c) => {
                let nb = n.buffers@.last();
                let saved = match path {
                    Some(_) => lookup(ps1, pc),
                    None => None,
                };
                let ws = o.windows@.update(
                    o.active_window_idx as int,
                    restored_window(Window { buf_id: nb.id, ..w }, nb, saved),
                );
                &&& fresh_buffer(nb, o.next_buf_id, path, c)
                &&& n.windows@ == ws
                &&& n.buffers@ == cleaned(o.buffers@.push(nb), ws, clean, ci, w.buf_id)
                &&& n == (Editor {
                    positions: n.positions,
                    windows: n.windows,
                    buffers: n.buffers,
                    next_buf_id: (o.next_buf_id + 1) as usize,
                    ..o
                })
            },
        },
    }
}

proof fn lemma_first_key(keys: Seq<Option<Seq<char>>>, k: Seq<char>, i: int)
    ensures
        first_key(keys, k, i) matches Some(j) ==> i <= j < keys.len() && keys[j] == Some(k),
    decreases keys.len() - i,
{
    if 0 <= i < keys.len() && keys[i] != Some(k) {
        lemma_first_key(keys, k, i + 1);
    }
}

fn first_key_exec(keys: &Vec<Option<String>>, k: &str) -> (r: Option<usize>)
    ensures
        match first_key(canon_views(keys@), k@, 0) {
            Some(j) => r == Some(j as usize) && 0 <= j < keys@.len(),
            None => r is None,
        },
{
    proof {
        lemma_first_key(canon_views(keys@), k@, 0);
    }
    let ghost kv = canon_views(keys@);
    let mut i: usize = 0;
    while i < keys.len()
        invariant
            i <= keys@.len(),
            kv == canon_views(keys@),
            first_key(kv, k@, 0) == first_key(kv, k@, i as int),
        decreases keys@.len() - i,
    {
        match &keys[i] {
            Some(s) => {
                if str_eq(s.as_str(), k) {
                    return Some(i);
                }
            },
            None => {},
        }
        i = i + 1;
    }
    None
}

/// The open buffer of the file `path` names, matched by `path_key`.
fn find_open(path: &Option<String>, path_key: &Option<String>, keys: &Vec<Option<String>>) -> (r: Option<usize>)
    ensures
        match (opt_view(*path), opt_view(*path_key)) {
            (Some(_), Some(k)) => match first_key(canon_views(keys@), k, 0) {
                Some(j) => r matches Some(jr) && jr as int == j && j < keys@.len(),
                None => r is None,
            },
            _ => r is None,
        },
{
    let nk = keys.len();
    match path {
        Some(_) => match path_key {
            Some(k) => first_key_exec(keys, k.as_str()),
            None => None,
        },
        None => None,
    }
}

impl Editor {
    /// Drop buffer `ci` (id `id`) when `clean` and no window shows it.
    fn drop_if_unviewed(&mut self, clean: bool, ci: usize, id: usize)
        requires
            ci < old(self).buffers@.len(),
            old(self).buffers@[ci as int].id == id,
        ensures
            final(self).buffers@ == cleaned(old(self).buffers@, old(self).windows@, clean, ci as int, id),
            *final(self) == (Editor { buffers: final(self).buffers, ..*old(self) }),
    {
        if !clean {
            return;
        }
        let mut k: usize = 0;
        while k < self.windows.len()
            invariant
                k <= self.windows@.len(),
                forall|j: int| 0 <= j < k ==> #[trigger] self.windows@[j].buf_id != id,
            decreases self.windows@.len() - k,
        {
            if self.windows[k].buf_id == id {
                return;
            }
            k = k + 1;
        }
        let _ = self.buffers.remove(ci);
    }

    /// Show buffer `j` in the active window at the position saved for
    /// `pc`, dropping the buffer left when `clean` and unviewed.
    #[verifier::spinoff_prover]
    fn reuse_buffer(&mut self, j: usize, pc: &str, clean: bool)
        requires
            old(self).wf(),
            j < old(self).buffers@.len(),
        ensures
            final(self).wf(),
            ({
                let o = *old(self);
                let w = o.win();
                let ws = o.windows@.update(
                    o.active_window_idx as int,
                    restored_window(
                        Window { buf_id: o.buffers@[j as int].id, ..w },
                        o.buffers@[j as int],
                        lookup(pos_views(o.positions@), pc@),
                    ),
                );
                &&& final(self).windows@ == ws
                &&& final(self).buffers@ == cleaned(o.buffers@, ws, clean, o.cur_idx(), w.buf_id)
                &&& *final(self) == (Editor { windows: final(self).windows, buffers: final(self).buffers, ..o })
            }),
    {
        let ghost o = *self;
        proof {
            self.lemma_cur_idx();
        }
        let ci = self.active_buf_idx();
        let old_bid = self.windows[self.active_window_idx].buf_id;
        let eid = self.buffers[j].id;
        let saved = self.get_saved_position(pc);
        self.place_active_window(j, eid, saved);
        let ghost e2 = *self;
        proof {
            assert(e2.has_buf(e2.win().buf_id)) by {
                assert(e2.buffers@[j as int].id == e2.win().buf_id);
            }
        }
        self.drop_if_unviewed(clean, ci, old_bid);
        proof {
            lemma_open_wf(o, e2, *self, ci as int, clean);
        }
    }

    /// Make a buffer for `path` from `c` and show it in the active window
    /// (at the position saved for `pc` when there is a path), dropping the
    /// buffer left when `clean` and unviewed.
    #[verifier::spinoff_prover]
    fn open_new_buffer(&mut self, path: Option<String>, c: Option<String>, pc: &str, clean: bool)
        requires
            old(self).wf(),
            old(self).next_buf_id < usize::MAX,
            forall|i: int| 0 <= i < old(self).buffers@.len() ==> old(self).buffers@[i].id < old(self).next_buf_id,
        ensures
            final(self).wf(),
            ({
                let o = *old(self);
                let w = o.win();
                let nb = final(self).buffers@.last();
                let saved = match path {
                    Some(_) => lookup(pos_views(o.positions@), pc@),
                    None => None,
                };
                let ws = o.windows@.update(
                    o.active_window_idx as int,
                    restored_window(Window { buf_id: nb.id, ..w }, nb, saved),
                );
                &&& fresh_buffer(nb, o.next_buf_id, opt_view(path), c)
                &&& final(self).windows@ == ws
                &&& final(self).buffers@ == cleaned(o.buffers@.push(nb), ws, clean, o.cur_idx(), w.buf_id)
                &&& *final(self) == (Editor {
                    windows: final(self).windows,
                    buffers: final(self).buffers,
                    next_buf_id: (o.next_buf_id + 1) as usize,
                    ..o
                })
            }),
    {
        let ghost o = *self;
        proof {
            self.lemma_cur_idx();
        }
        let ci = self.active_buf_idx();
        let old_bid = self.windows[self.active_window_idx].buf_id;
        let id = self.next_buf_id;
        self.next_buf_id = self.next_buf_id + 1;
        let has_path = path.is_some();
        let b = Buffer::new(id, path, c);
        self.buffers.push(b);
        let ti = self.buffers.len() - 1;
        let saved = if has_path {
            self.get_saved_position(pc)
        } else {
            None
        };
        self.place_active_window(ti, id, saved);
        let ghost e2 = *self;
        proof {
            assert(e2.buffers@ =~= o.buffers@.push(b));
            assert(e2.has_buf(e2.win().buf_id)) by {
                assert(e2.buffers@[ti as int].id == e2.win().buf_id);
            }
            assert forall|i: int, k: int| 0 <= i < k < e2.buffers@.len() implies e2.buffers@[i].id
                != e2.buffers@[k].id by {
                if k == ti {
                    assert(e2.buffers@[i] == o.buffers@[i]);
                }
            }
        }
        self.drop_if_unviewed(clean, ci, old_bid);
        proof {
            lemma_open_wf(o, e2, *self, ci as int, clean);
            if clean && !viewed_by(e2.windows@, old_bid) {
                assert(self.buffers@.last() == b);
            }
        }
    }

    /// Open `path` (or a new unnamed buffer) in the active window.  The
    /// position left is remembered; an open buffer of the same file
    /// (matched by `path_key` against `keys`) is reused, else a new buffer
    /// is made from `content`, what reading the file gave (`Ok(None)` when
    /// it does not exist); the position saved for `path_canon` is
    /// restored; an untouched unnamed buffer left behind is dropped.
    /// `canons[i]` is the canonical path of buffer `i`'s file.
    #[verifier::spinoff_prover]
    #[verifier::rlimit(60)]
    pub fn open_buffer(
        &mut self,
        path: Option<String>,
        path_canon: &str,
        path_key: Option<String>,
        keys: &Vec<Option<String>>,
        canons: &Vec<Option<String>>,
        content: Result<Option<String>, String>,
    )
        requires
            old(self).wf(),
            keys@.len() == old(self).buffers@.len(),
            canons@.len() == old(self).buffers@.len(),
            old(self).next_buf_id < usize::MAX,
            forall|i: int| 0 <= i < old(self).buffers@.len() ==> old(self).buffers@[i].id < old(self).next_buf_id,
        ensures
            final(self).wf(),
            opened(
                *old(self),
                *final(self),
                opt_view(path),
                path_canon@,
                opt_view(path_key),
                canon_views(keys@),
                canon_views(canons@),
                content,
            ),
    {
        let ghost o = *self;
        proof {
            self.lemma_cur_idx();
        }
        let ci = self.active_buf_idx();
        let aw = self.active_window_idx;
        let row = self.windows[aw].row;
        let col = self.windows[aw].col;
        match &canons[ci] {
            Some(f) => {
                self.update_position_silent(f.as_str(), row, col);
            },
            None => {},
        }
        let ghost e1 = *self;
        let ghost ps1 = match canon_views(canons@)[o.cur_idx()] {
            Some(f) => positions_after(pos_views(o.positions@), f, o.win().row, o.win().col),
            None => pos_views(o.positions@),
        };
        proof {
            assert(self.buffers@ == o.buffers@);
            assert(self.windows@ == o.windows@);
            assert(pos_views(self.positions@) == ps1);
            assert(*self == (Editor { positions: self.positions, ..o }));
            self.lemma_cur_idx();
        }
        let clean = self.buffers[ci].filename.is_none() && !self.buffers[ci].modified && rope_len_chars(
            &self.buffers[ci].rope,
        ) <= 1;
        let existing = find_open(&path, &path_key, keys);
        match existing {
            Some(j) => {
                if self.buffers[j].id == self.windows[aw].buf_id {
                    return;
                }
                self.reuse_buffer(j, path_canon, clean);
            },
            None => {
                match content {
                    Err(e) => {
                        let mut msg = String::from_str("Failed to open: ");
                        push_str(&mut msg, e.as_str());
                        self.set_status_msg(msg.as_str(), MessageKind::Error);
                    },
                    Ok(c) => {
                        self.open_new_buffer(path, c, path_canon, clean);
                    },
                }
            },
        }
    }
}

/// The active window moved to a buffer of `mid` (which extends the
/// buffers of `o` or keeps them), and buffer `ci` of `o` was dropped when
/// `clean` and unviewed: the editor is still well formed.
proof fn lemma_open_wf(o: Editor, mid: Editor, n: Editor, ci: int, clean: bool)
    requires
        o.wf(),
        0 <= ci < o.buffers@.len(),
        o.buffers@[ci].id == o.win().buf_id,
        o.buffers@.len() <= mid.buffers@.len(),
        forall|i: int| 0 <= i < o.buffers@.len() ==> mid.buffers@[i] == o.buffers@[i],
        forall|i: int, j: int| 0 <= i < j < mid.buffers@.len() ==> mid.buffers@[i].id != mid.buffers@[j].id,
        mid.windows@.len() == o.windows@.len(),
        mid.active_window_idx == o.active_window_idx,
        mid.has_buf(mid.win().buf_id),
        forall|w: int| 0 <= w < mid.windows@.len() && w != mid.active_window_idx ==> mid.windows@[w].buf_id
            == o.windows@[w].buf_id,
        n.buffers@ == cleaned(mid.buffers@, mid.windows@, clean, ci, o.buffers@[ci].id),
        n.windows@ == mid.windows@,
        n.active_window_idx == mid.active_window_idx,
    ensures
        n.wf(),
{
    assert forall|w: int| 0 <= w < mid.windows@.len() implies mid.has_buf(#[trigger] mid.windows@[w].buf_id) by {
        if w != mid.active_window_idx {
            assert(o.has_buf(o.windows@[w].buf_id));
            let k = choose|k: int| 0 <= k < o.buffers@.len() && o.buffers@[k].id == o.windows@[w].buf_id;
            assert(mid.buffers@[k].id == mid.windows@[w].buf_id);
        }
    }
    let id = o.buffers@[ci].id;
    if clean && !viewed_by(mid.windows@, id) {
        assert forall|w: int| 0 <= w < n.windows@.len() implies n.has_buf(#[trigger] n.windows@[w].buf_id) by {
            let k = choose|k: int| 0 <= k < mid.buffers@.len() && mid.buffers@[k].id == mid.windows@[w].buf_id;
            assert(mid.windows@[w].buf_id != id);
            assert(k != ci);
            if k < ci {
                assert(n.buffers@[k] == mid.buffers@[k]);
            } else {
                assert(n.buffers@[k - 1] == mid.buffers@[k]);
            }
        }
    } else {
        assert forall|w: int| 0 <= w < n.windows@.len() implies n.has_buf(#[trigger] n.windows@[w].buf_id) by {
            assert(mid.has_buf(mid.windows@[w].buf_id));
        }
    }
}

/// The first window on buffer `b`: at the saved position, when there is
/// one, kept inside the text (the column by screen width).
pub open spec fn start_window(w: Window, b: Buffer, saved: Option<(usize, usize)>) -> Window {
    match saved {
        Some((r, c)) => {
            let t = b.text();
            let sr: nat = if r < num_lines(t) - 1 { r as nat } else { (num_lines(t) - 1) as nat };
            let vw = visual_col(line_of(t, sr), line_len(t, sr), b.tab_size as nat);
            Window { row: sr as usize, col: (if c < vw { c as nat } else { vw }) as usize, ..w }
        },
        None => w,
    }
}

/// The window the editor starts with, before any position is restored.
pub open spec fn first_window() -> Window {
    Window {
        id: 0,
        buf_id: 0,
        row: 0,
        col: 0,
        desired_col: 0,
        scroll_line: 0,
        scroll_col: 0,
        last_jump: None,
        visual_anchor: None,
        height: 0,
        width: 0,
        diff_sibling: None,
    }
}

/// The status line the editor starts with.
pub open spec fn startup_status(brief: bool, hints: bool) -> Seq<char> {
    if hints {
        if brief {
            "Brief mode | F9 for :commands, :vim to vim mode"@
        } else {
            "Type i to insert mode, gi to brief mode, :q to quit, :e <path> to open another file"@
        }
    } else if brief {
        "Brief mode \u{2014} F9 :vim to switch back"@
    } else {
        Seq::empty()
    }
}

impl Editor {
    /// The editor at startup, on `filename` (or an unnamed buffer).
    /// `content` is what reading the file gave (`Ok(None)` when it does
    /// not exist, `Err` with the reason when it could not be read),
    /// `canon` the file's canonical path, and `cmd_history` and
    /// `positions` what was loaded from disk.  `brief` starts in brief
    /// mode; `hints` puts a startup hint on the status line.
    pub fn new(
        filename: Option<String>,
        content: Result<Option<String>, String>,
        canon: &str,
        cmd_history: Vec<String>,
        positions: Vec<PositionInfo>,
        gutter_config: GutterConfig,
        brief: bool,
        hints: bool,
    ) -> (r: Result<Editor, String>)
        ensures
            match content {
                Err(e) => r matches Err(m) && m@ == e@,
                Ok(c) => r matches Ok(ed) && {
                    let b = ed.buffers@[0];
                    let saved = match filename {
                        Some(_) => lookup(pos_views(positions@), canon@),
                        None => None,
                    };
                    &&& ed.wf()
                    &&& ed.buffers@.len() == 1
                    &&& fresh_buffer(b, 0, opt_view(filename), c)
                    &&& b.tab_size == 4
                    &&& ed.windows@ == seq![start_window(first_window(), b, saved)]
                    &&& ed.active_window_idx == 0
                    &&& ed.next_buf_id == 1
                    &&& ed.next_win_id == 1
                    &&& ed.mode == (if brief { Mode::Brief } else { Mode::Normal })
                    &&& ed.status_msg@ == startup_status(brief, hints)
                    &&& ed.status_kind == MessageKind::Info
                    &&& ed.cmd_history == cmd_history
                    &&& ed.positions == positions
                    &&& ed.gutter_config == gutter_config
                    &&& !ed.should_quit
                    &&& ed.command@ == Seq::<char>::empty()
                    &&& ed.pending_input == PendingInput::Idle
                    &&& ed.quit_prompt == QuitPrompt::Idle
                    &&& ed.clipboard is None
                    &&& ed.substitution_state is None
                    &&& ed.easymotion is None
                },
            },
    {
        let c = match content {
            Err(e) => {
                return Err(e);
            },
            Ok(c) => c,
        };
        let has_name = filename.is_some();
        let first_buf = Buffer::new(0, filename, c);
        let mut first_win = Window::new(0, first_buf.id);
        let ghost saved = if has_name {
            lookup(pos_views(positions@), canon@)
        } else {
            None
        };
        let ghost w0 = first_win;
        let mut ed = Editor {
            buffers: Vec::new(),
            windows: Vec::new(),
            active_window_idx: 0,
            next_buf_id: 1,
            next_win_id: 1,
            mode: Mode::Normal,
            prev_mode: Mode::Normal,
            command: String::new(),
            command_cursor: 0,
            status_msg: String::new(),
            status_kind: MessageKind::Info,
            should_quit: false,
            pending_keys: String::new(),
            clipboard: None,
            clipboard_is_block: false,
            visual_block_insert_state: None,
            cmd_history,
            cmd_history_idx: None,
            cmd_temp_input: String::new(),
            history_search_prefix: None,
            insert_buffer: None,
            last_search_query: None,
            prev_search_query: None,
            positions,
            pending_input: PendingInput::Idle,
            pending_git_action: PendingGitAction::Idle,
            registers: RegisterBank { named: Vec::new() },
            yank_register_0: None,
            small_delete_register: None,
            quit_prompt: QuitPrompt::Idle,
            substitution_state: None,
            gutter_config,
            easymotion: None,
            pending_lsp_goto: None,
        };
        if has_name {
            match ed.get_saved_position(canon) {
                Some((r, col)) => {
                    let n = first_buf.len_lines();
                    let sr = if r < n - 1 {
                        r
                    } else {
                        n - 1
                    };
                    let vw = line_display_width(&first_buf, sr);
                    first_win.row = sr;
                    first_win.col = if col < vw {
                        col
                    } else {
                        vw
                    };
                },
                None => {},
            }
        }
        proof {
            assert(first_win == start_window(w0, first_buf, saved));
        }
        ed.buffers.push(first_buf);
        ed.windows.push(first_win);
        proof {
            assert(ed.buffers@[0].id == ed.windows@[0].buf_id);
            assert(ed.has_buf(ed.windows@[0].buf_id));
        }
        if brief {
            ed.enter_brief();
        }
        if hints {
            if brief {
                ed.set_status("Brief mode | F9 for :commands, :vim to vim mode", MessageKind::Info);
            } else {
                ed.set_status(
                    "Type i to insert mode, gi to brief mode, :q to quit, :e <path> to open another file",
                    MessageKind::Info,
                );
            }
        }
        proof {
            assert forall|w: int| 0 <= w < ed.windows@.len() implies ed.has_buf(#[trigger] ed.windows@[w].buf_id) by {
                assert(ed.buffers@[0].id == ed.windows@[0].buf_id);
            }
        }
        Ok(ed)
    }
}

} // verus!
