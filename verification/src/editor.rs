//! Editor state: the buffers, the windows onto them, the mode, the
//! command line and the small pieces of session state the commands use.

use crate::buffer::{Buffer, opt_view};
use crate::lines::{line_of, num_lines, line_len};
use crate::text::{chars_of, string_from_chars, word_char, is_word_char, has_prefix, push_str, push_decimal, decimal, string_push};
use crate::window::Window;
use crate::subst::SubstitutionState;
use crate::gutter::GutterConfig;
use crate::easymotion::EasyMotionState;
use vstd::prelude::*;

verus! {

/// Editing mode.
#[derive(Debug, Clone, Copy, PartialEq, Eq, Structural)]
pub enum Mode {
    Normal,
    Insert,
    Visual,
    VisualLine,
    VisualBlock,
    Command,
    Search,
    Brief,
    LlmPrompt,
}

/// A key press, as the editor's prompts read it.
#[derive(Debug, Clone, Copy, PartialEq, Eq, Structural)]
pub enum Key {
    Char(char),
    Esc,
    Enter,
    Backspace,
    Tab,
    Up,
    Down,
    Left,
    Right,
    Other,
}

/// How a status message is shown.
#[derive(Debug, Clone, Copy, PartialEq, Eq, Structural)]
pub enum MessageKind {
    Info,
    Error,
    Success,
}

/// What kind of character the editor is waiting for after a prefix key.
#[derive(Debug, Clone, Copy, PartialEq, Eq, Structural)]
pub enum PendingInput {
    /// Nothing pending.
    Idle,
    /// `m` pressed: waiting for the bookmark letter.
    SetBookmark,
    /// `` ` `` pressed: waiting for the bookmark letter or a second
    /// backtick for ping-pong.
    GotoBookmark,
}

/// The question a quit command left open.
#[derive(Debug, Clone, Copy, PartialEq, Eq, Structural)]
pub enum QuitPrompt {
    /// No question open.
    Idle,
    BufferQuit,
    QuitAllConfirm,
}

/// A git operation waiting for the user's confirmation.
#[derive(Debug, Clone, PartialEq, Eq)]
pub enum PendingGitAction {
    /// Nothing to confirm.
    Idle,
    SwitchBranch(String),
    PopStash(String),
}

/// Last cursor position remembered for a file.
#[derive(Debug, Clone)]
pub struct PositionInfo {
    pub path: String,
    pub row: usize,
    pub col: usize,
}

impl View for PositionInfo {
    type V = (Seq<char>, usize, usize);

    open spec fn view(&self) -> (Seq<char>, usize, usize) {
        (self.path@, self.row, self.col)
    }
}

/// Named registers `a`..`z`, newest value per name.
#[derive(Debug, Clone)]
pub struct RegisterBank {
    pub named: Vec<(char, String)>,
}

/// Rows and column of a pending visual-block insert.
#[derive(Debug, Clone)]
pub struct VisualBlockInsertState {
    pub rows: Vec<usize>,
    pub col: usize,
}

/// A go-to-definition request sent to the language server and not
/// answered yet.
pub struct PendingLspGoto {
    pub symbol: String,
    /// A tag-stack entry was pushed for the jump; a fallback pops it.
    pub pushed_tag_stack: bool,
    /// When the request went out, in milliseconds of a monotonic clock.
    pub created_at_ms: u64,
}

impl PendingLspGoto {
    /// Has the request waited longer than `timeout_ms` by time `now_ms`?
    /// (A clock reading before the request counts as no wait.)
    pub fn timed_out(&self, now_ms: u64, timeout_ms: u64) -> (b: bool)
        ensures
            b == (now_ms >= self.created_at_ms && now_ms - self.created_at_ms > timeout_ms),
    {
        now_ms >= self.created_at_ms && now_ms - self.created_at_ms > timeout_ms
    }
}

pub struct Editor {
    pub buffers: Vec<Buffer>,
    pub windows: Vec<Window>,
    pub active_window_idx: usize,
    pub next_buf_id: usize,
    pub next_win_id: usize,
    pub mode: Mode,
    pub prev_mode: Mode,
    pub command: String,
    /// Byte offset of the command-line cursor.
    pub command_cursor: usize,
    pub status_msg: String,
    pub status_kind: MessageKind,
    pub should_quit: bool,
    pub pending_keys: String,
    pub clipboard: Option<String>,
    pub clipboard_is_block: bool,
    pub visual_block_insert_state: Option<VisualBlockInsertState>,
    pub cmd_history: Vec<String>,
    pub cmd_history_idx: Option<usize>,
    pub cmd_temp_input: String,
    pub history_search_prefix: Option<String>,
    pub insert_buffer: Option<String>,
    pub last_search_query: Option<String>,
    pub prev_search_query: Option<String>,
    pub positions: Vec<PositionInfo>,
    pub pending_input: PendingInput,
    pub pending_git_action: PendingGitAction,
    pub registers: RegisterBank,
    pub yank_register_0: Option<String>,
    pub small_delete_register: Option<String>,
    pub quit_prompt: QuitPrompt,
    pub substitution_state: Option<SubstitutionState>,
    pub gutter_config: GutterConfig,
    pub easymotion: Option<EasyMotionState>,
    pub pending_lsp_goto: Option<PendingLspGoto>,
}

impl Editor {
    /// There is a buffer and a window, the active window exists, and
    /// buffer ids are distinct.
    pub open spec fn wf(&self) -> bool {
        &&& self.buffers@.len() > 0
        &&& self.windows@.len() > 0
        &&& self.active_window_idx < self.windows@.len()
        &&& forall|i: int, j: int|
            0 <= i < j < self.buffers@.len() ==> self.buffers@[i].id != self.buffers@[j].id
        &&& forall|w: int| 0 <= w < self.windows@.len() ==> self.has_buf(#[trigger] self.windows@[w].buf_id)
    }

    pub open spec fn win(&self) -> Window {
        self.windows@[self.active_window_idx as int]
    }

    /// Index of the buffer with id `id`, if any.
    pub open spec fn has_buf(&self, id: usize) -> bool {
        exists|i: int| 0 <= i < self.buffers@.len() && self.buffers@[i].id == id
    }

    /// Index of the buffer the active window shows; the first buffer when
    /// its id is stale.
    pub open spec fn cur_idx(&self) -> int {
        if self.has_buf(self.win().buf_id) {
            choose|i: int| 0 <= i < self.buffers@.len() && self.buffers@[i].id == self.win().buf_id
        } else {
            0
        }
    }

    /// Index of the buffer with id `id` (when there is one).
    pub open spec fn idx_of(&self, id: usize) -> int {
        choose|i: int| 0 <= i < self.buffers@.len() && self.buffers@[i].id == id
    }

    pub proof fn lemma_idx_of(&self, id: usize)
        requires
            self.wf(),
            self.has_buf(id),
        ensures
            0 <= self.idx_of(id) < self.buffers@.len(),
            self.buffers@[self.idx_of(id)].id == id,
            forall|i: int| 0 <= i < self.buffers@.len() && self.buffers@[i].id == id ==> i == self.idx_of(id),
    {
    }

    pub open spec fn cur_buf(&self) -> Buffer {
        self.buffers@[self.cur_idx()]
    }

    pub proof fn lemma_cur_idx(&self)
        requires
            self.wf(),
        ensures
            0 <= self.cur_idx() < self.buffers@.len(),
            self.has_buf(self.win().buf_id) ==> self.cur_buf().id == self.win().buf_id,
            self.has_buf(self.win().buf_id),
            self.cur_buf().id == self.win().buf_id,
            forall|i: int|
                0 <= i < self.buffers@.len() && self.buffers@[i].id == self.win().buf_id ==> i
                    == self.cur_idx(),
    {
        assert(self.has_buf(self.windows@[self.active_window_idx as int].buf_id));
    }

    /// Replacing a buffer by one with the same id keeps the editor
    /// well formed and the active buffer where it was.
    pub proof fn lemma_wf_update_buf(o: Editor, n: Editor, i: int, b: Buffer)
        requires
            o.wf(),
            0 <= i < o.buffers@.len(),
            b.id == o.buffers@[i].id,
            n.buffers@ == o.buffers@.update(i, b),
            n.windows@.len() == o.windows@.len(),
            forall|w: int| 0 <= w < n.windows@.len() ==> n.windows@[w].buf_id == o.windows@[w].buf_id,
            n.active_window_idx == o.active_window_idx,
        ensures
            n.wf(),
            n.cur_idx() == o.cur_idx(),
    {
        o.lemma_cur_idx();
        assert forall|w: int| 0 <= w < n.windows@.len() implies n.has_buf(
            #[trigger] n.windows@[w].buf_id,
        ) by {
            assert(n.windows@[w].buf_id == o.windows@[w].buf_id);
            assert(o.has_buf(o.windows@[w].buf_id));
            let k = choose|k: int| 0 <= k < o.buffers@.len() && o.buffers@[k].id == o.windows@[w].buf_id;
            assert(n.buffers@[k].id == o.buffers@[k].id);
        }
        assert(n.buffers@[o.cur_idx()].id == n.win().buf_id);
        n.lemma_cur_idx();
    }

    /// Position of the buffer with id `id` in `self.buffers`.
    pub fn find_buf(&self, id: usize) -> (r: Option<usize>)
        ensures
            r matches Some(i) ==> i < self.buffers@.len() && self.buffers@[i as int].id == id,
            r is None ==> !self.has_buf(id),
    {
        let mut i: usize = 0;
        while i < self.buffers.len()
            invariant
                i <= self.buffers@.len(),
                forall|j: int| 0 <= j < i ==> self.buffers@[j].id != id,
            decreases self.buffers@.len() - i,
        {
            if self.buffers[i].id == id {
                return Some(i);
            }
            i = i + 1;
        }
        None
    }

    /// Index of the buffer the active window shows, after pointing a window
    /// with a stale buffer id at the first buffer.
    pub fn active_buf_idx(&mut self) -> (i: usize)
        requires
            old(self).wf(),
        ensures
            final(self).wf(),
            i == old(self).cur_idx(),
            i == final(self).cur_idx(),
            old(self).has_buf(old(self).win().buf_id) ==> *final(self) == *old(self),
            final(self).win().buf_id == old(self).cur_buf().id,
            final(self).buffers@ == old(self).buffers@,
            final(self).windows@ == old(self).windows@.update(
                old(self).active_window_idx as int,
                Window { buf_id: old(self).cur_buf().id, ..old(self).win() },
            ),
            *final(self) == (Editor { windows: final(self).windows, ..*old(self) }),
    {
        proof {
            self.lemma_cur_idx();
        }
        let bid = self.windows[self.active_window_idx].buf_id;
        match self.find_buf(bid) {
            Some(i) => {
                proof {
                    assert(self.windows@.update(self.active_window_idx as int, Window { buf_id: self.cur_buf().id, ..self.win() }) =~= self.windows@);
                }
                i
            },
            None => {
                let first = self.buffers[0].id;
                let idx = self.active_window_idx;
                self.windows[idx].buf_id = first;
                proof {
                    assert(self.has_buf(first)) by {
                        assert(self.buffers@[0].id == first);
                    }
                    self.lemma_cur_idx();
                }
                0
            },
        }
    }
}


} // verus!

verus! {

impl Editor {
    /// The active window.
    pub fn active_window(&self) -> (w: &Window)
        requires
            self.wf(),
        ensures
            *w == self.win(),
    {
        &self.windows[self.active_window_idx]
    }

    /// The buffer the active window shows; the first buffer when the
    /// window's buffer id is stale.
    pub fn buf(&self) -> (b: &Buffer)
        requires
            self.wf(),
        ensures
            *b == self.cur_buf(),
    {
        proof {
            self.lemma_cur_idx();
        }
        let bid = self.windows[self.active_window_idx].buf_id;
        match self.find_buf(bid) {
            Some(i) => &self.buffers[i],
            None => &self.buffers[0],
        }
    }

    /// The buffer with id `id`.
    pub fn buf_by_id(&self, id: usize) -> (r: Option<&Buffer>)
        requires
            self.wf(),
        ensures
            r matches Some(b) ==> b.id == id && self.buffers@.contains(*b),
            r is None ==> !self.has_buf(id),
    {
        match self.find_buf(id) {
            Some(i) => Some(&self.buffers[i]),
            None => None,
        }
    }

    /// Show `msg` in the status line.
    pub fn set_status_msg(&mut self, msg: &str, kind: MessageKind)
        ensures
            final(self).status_msg@ == msg@,
            *final(self) == (Editor { status_msg: final(self).status_msg, status_kind: kind, ..*old(self) }),
    {
        self.status_msg = String::from_str(msg);
        self.status_kind = kind;
    }

    /// When the pending go-to-definition request has waited longer than
    /// `timeout_ms` at time `now_ms`, drop it, say so on the status line
    /// and hand it back, for the caller to fall back to the tag index
    /// (popping the tag stack when the request pushed onto it).
    pub fn check_lsp_goto_timeout(&mut self, now_ms: u64, timeout_ms: u64) -> (r: Option<PendingLspGoto>)
        ensures
            match old(self).pending_lsp_goto {
                Some(p) if p.created_at_ms <= now_ms && now_ms - p.created_at_ms > timeout_ms => {
                    &&& r == Some(p)
                    &&& final(self).status_msg@ == "LSP timeout \u{2014} falling back for '"@ + p.symbol@ + "'"@
                    &&& *final(self) == (Editor {
                        pending_lsp_goto: None,
                        status_msg: final(self).status_msg,
                        status_kind: MessageKind::Info,
                        ..*old(self)
                    })
                },
                _ => r is None && *final(self) == *old(self),
            },
    {
        let timed_out = match &self.pending_lsp_goto {
            Some(p) => p.timed_out(now_ms, timeout_ms),
            None => false,
        };
        if !timed_out {
            return None;
        }
        let pending = self.pending_lsp_goto.take();
        match pending {
            Some(p) => {
                let mut msg = String::from_str("LSP timeout \u{2014} falling back for '");
                push_str(&mut msg, p.symbol.as_str());
                push_str(&mut msg, "'");
                self.set_status_msg(msg.as_str(), MessageKind::Info);
                Some(p)
            },
            None => None,
        }
    }

    /// Same as `set_status_msg`.
    pub fn set_status(&mut self, msg: &str, kind: MessageKind)
        ensures
            final(self).status_msg@ == msg@,
            *final(self) == (Editor { status_msg: final(self).status_msg, status_kind: kind, ..*old(self) }),
    {
        self.set_status_msg(msg, kind);
    }

    /// Empty the status line.
    pub fn clear_status_msg(&mut self)
        ensures
            final(self).status_msg@ == Seq::<char>::empty(),
            *final(self) == (Editor { status_msg: final(self).status_msg, ..*old(self) }),
    {
        self.status_msg = String::new();
    }

    /// Forget a partly typed key sequence.
    pub fn clear_pending_keys(&mut self)
        ensures
            final(self).pending_keys@ == Seq::<char>::empty(),
            *final(self) == (Editor { pending_keys: final(self).pending_keys, ..*old(self) }),
    {
        self.pending_keys = String::new();
    }

    pub fn mode(&self) -> (m: Mode)
        ensures
            m == self.mode,
    {
        self.mode
    }

    pub fn should_quit(&self) -> (b: bool)
        ensures
            b == self.should_quit,
    {
        self.should_quit
    }

    pub fn command(&self) -> (c: &str)
        ensures
            c@ == self.command@,
    {
        self.command.as_str()
    }

    pub fn status_msg(&self) -> (m: &str)
        ensures
            m@ == self.status_msg@,
    {
        self.status_msg.as_str()
    }

    pub fn status_kind(&self) -> (k: MessageKind)
        ensures
            k == self.status_kind,
    {
        self.status_kind
    }

    pub fn active_row(&self) -> (r: usize)
        requires
            self.wf(),
        ensures
            r == self.win().row,
    {
        self.active_window().row
    }

    pub fn active_col(&self) -> (c: usize)
        requires
            self.wf(),
        ensures
            c == self.win().col,
    {
        self.active_window().col
    }

    pub fn active_scroll(&self) -> (s: usize)
        requires
            self.wf(),
        ensures
            s == self.win().scroll_line,
    {
        self.active_window().scroll_line
    }

    pub fn active_modified(&self) -> (m: bool)
        requires
            self.wf(),
        ensures
            m == self.cur_buf().modified,
    {
        self.buf().modified
    }

    pub fn active_filename(&self) -> (f: Option<&str>)
        requires
            self.wf(),
        ensures
            f matches Some(n) ==> opt_view(self.cur_buf().filename) == Some(n@),
            f is None ==> self.cur_buf().filename is None,
    {
        match &self.buf().filename {
            Some(n) => Some(n.as_str()),
            None => None,
        }
    }

    pub fn line_count(&self) -> (n: usize)
        requires
            self.wf(),
        ensures
            n == num_lines(self.cur_buf().text()),
    {
        self.buf().len_lines()
    }

    pub fn line_text(&self, idx: usize) -> (s: String)
        requires
            self.wf(),
        ensures
            s@ == line_of(self.cur_buf().text(), idx as nat),
    {
        self.buf().line_text(idx)
    }

    pub fn get_current_line_text(&self) -> (s: String)
        requires
            self.wf(),
        ensures
            s@ == line_of(self.cur_buf().text(), self.win().row as nat),
    {
        self.buf().line_text(self.active_window().row)
    }

    pub fn buffer_count(&self) -> (n: usize)
        ensures
            n == self.buffers@.len(),
    {
        self.buffers.len()
    }

    pub fn window_count(&self) -> (n: usize)
        ensures
            n == self.windows@.len(),
    {
        self.windows.len()
    }

    pub fn active_idx(&self) -> (i: usize)
        ensures
            i == self.active_window_idx,
    {
        self.active_window_idx
    }

    pub fn active_window_index(&self) -> (i: usize)
        ensures
            i == self.active_window_idx,
    {
        self.active_window_idx
    }

    pub fn all_windows(&self) -> (w: &[Window])
        ensures
            w@ == self.windows@,
    {
        self.windows.as_slice()
    }

    /// Does a window other than the active one show the active window's
    /// buffer?
    pub fn is_buffer_viewed_elsewhere(&self) -> (r: bool)
        requires
            self.wf(),
        ensures
            r == exists|i: int|
                0 <= i < self.windows@.len() && self.windows@[i].id != self.win().id
                    && self.windows@[i].buf_id == self.win().buf_id,
    {
        let active_id = self.windows[self.active_window_idx].id;
        let bid = self.windows[self.active_window_idx].buf_id;
        let mut i: usize = 0;
        while i < self.windows.len()
            invariant
                self.wf(),
                active_id == self.win().id,
                bid == self.win().buf_id,
                i <= self.windows@.len(),
                forall|j: int|
                    0 <= j < i ==> !(self.windows@[j].id != active_id && self.windows@[j].buf_id
                        == bid),
            decreases self.windows@.len() - i,
        {
            if self.windows[i].id != active_id && self.windows[i].buf_id == bid {
                return true;
            }
            i = i + 1;
        }
        false
    }
}

} // verus!

verus! {

/// Is `m` one of the visual modes?
pub open spec fn is_visual(m: Mode) -> bool {
    m == Mode::Visual || m == Mode::VisualLine || m == Mode::VisualBlock
}

pub(crate) fn visual_mode(m: Mode) -> (b: bool)
    ensures
        b == is_visual(m),
{
    m == Mode::Visual || m == Mode::VisualLine || m == Mode::VisualBlock
}

/// `n` is `o` after entering Insert mode.
pub open spec fn entered_insert(o: Editor, n: Editor) -> bool {
    &&& n.pending_keys@ == Seq::<char>::empty()
    &&& n == (Editor {
        mode: Mode::Insert,
        cmd_history_idx: None,
        pending_input: PendingInput::Idle,
        pending_keys: n.pending_keys,
        ..o
    })
}

/// `n` is `o` after entering Normal mode.
pub open spec fn entered_normal(o: Editor, n: Editor) -> bool {
    &&& n.pending_keys@ == Seq::<char>::empty()
    &&& n.command@ == Seq::<char>::empty()
    &&& o.mode == Mode::Brief ==> n.status_msg@ == "Normal mode \u{2014} gi or :brief to switch back"@
        && n.status_kind == MessageKind::Info
    &&& o.mode != Mode::Brief ==> n.status_msg == o.status_msg && n.status_kind == o.status_kind
    &&& n.windows@ == o.windows@.update(
        o.active_window_idx as int,
        Window { visual_anchor: None, ..o.win() },
    )
    &&& n == (Editor {
        mode: Mode::Normal,
        cmd_history_idx: None,
        pending_keys: n.pending_keys,
        command: n.command,
        windows: n.windows,
        status_msg: n.status_msg,
        status_kind: n.status_kind,
        ..o
    })
}

/// `n` is `o` after entering the command line.
pub open spec fn entered_command(o: Editor, n: Editor) -> bool {
    &&& n.pending_keys@ == Seq::<char>::empty()
    &&& n.command@ == Seq::<char>::empty()
    &&& n == (Editor {
        prev_mode: o.mode,
        mode: Mode::Command,
        command: n.command,
        command_cursor: 0,
        cmd_history_idx: None,
        pending_input: PendingInput::Idle,
        pending_keys: n.pending_keys,
        ..o
    })
}

/// `n` is `o` after entering Brief mode.
pub open spec fn entered_brief(o: Editor, n: Editor) -> bool {
    &&& n.pending_keys@ == Seq::<char>::empty()
    &&& n.status_msg@ == "Brief mode \u{2014} F9 :vim to switch back"@
    &&& n == (Editor {
        mode: Mode::Brief,
        cmd_history_idx: None,
        pending_input: PendingInput::Idle,
        pending_keys: n.pending_keys,
        status_msg: n.status_msg,
        status_kind: MessageKind::Info,
        ..o
    })
}

/// `n` is `o` after `set_mode(m)`.
pub open spec fn mode_set(o: Editor, n: Editor, m: Mode) -> bool {
    let w = o.win();
    match m {
        Mode::Insert => entered_insert(o, n),
        Mode::Normal => entered_normal(o, n),
        Mode::Command => entered_command(o, n),
        Mode::Brief => entered_brief(o, n),
        Mode::Visual => n == (Editor {
            mode: Mode::Visual,
            windows: n.windows,
            ..o
        }) && n.windows@ == o.windows@.update(
            o.active_window_idx as int,
            Window { visual_anchor: Some((w.row, w.col)), ..w },
        ),
        Mode::VisualLine => n == (Editor {
            mode: Mode::VisualLine,
            windows: n.windows,
            ..o
        }) && n.windows@ == o.windows@.update(
            o.active_window_idx as int,
            Window { visual_anchor: Some((w.row, 0usize)), ..w },
        ),
        Mode::VisualBlock => n == (Editor {
            prev_mode: o.mode,
            mode: Mode::VisualBlock,
            windows: n.windows,
            ..o
        }) && n.windows@ == o.windows@.update(
            o.active_window_idx as int,
            Window { visual_anchor: Some((w.row, w.col)), ..w },
        ),
        Mode::Search => {
            &&& n.pending_keys@ == Seq::<char>::empty()
            &&& n.command@ == Seq::<char>::empty()
            &&& n == (Editor {
                prev_mode: o.mode,
                mode: Mode::Search,
                command: n.command,
                command_cursor: 0,
                cmd_history_idx: None,
                pending_keys: n.pending_keys,
                ..o
            })
        },
        Mode::LlmPrompt => {
            &&& n.pending_keys@ == Seq::<char>::empty()
            &&& n == (Editor {
                prev_mode: o.mode,
                mode: Mode::LlmPrompt,
                cmd_history_idx: None,
                pending_keys: n.pending_keys,
                ..o
            })
        },
    }
}

impl Editor {
    /// Insert mode.
    pub fn enter_insert(&mut self)
        ensures
            entered_insert(*old(self), *final(self)),
    {
        self.mode = Mode::Insert;
        self.cmd_history_idx = None;
        self.pending_input = PendingInput::Idle;
        self.clear_pending_keys();
    }

    /// Normal mode: the selection anchor and the command line are
    /// dropped; leaving Brief mode says how to get back.
    pub fn enter_normal(&mut self)
        requires
            old(self).wf(),
        ensures
            final(self).wf(),
            entered_normal(*old(self), *final(self)),
    {
        if self.mode == Mode::Brief {
            self.set_status_msg("Normal mode \u{2014} gi or :brief to switch back", MessageKind::Info);
        }
        self.mode = Mode::Normal;
        let idx = self.active_window_idx;
        self.windows[idx].visual_anchor = None;
        self.command = String::new();
        self.cmd_history_idx = None;
        self.clear_pending_keys();
    }

    /// Command-line mode, remembering the mode it was entered from.
    pub fn enter_command(&mut self)
        ensures
            entered_command(*old(self), *final(self)),
    {
        self.prev_mode = self.mode;
        self.mode = Mode::Command;
        self.command = String::new();
        self.command_cursor = 0;
        self.cmd_history_idx = None;
        self.pending_input = PendingInput::Idle;
        self.clear_pending_keys();
    }

    /// Brief mode (modeless editing).
    pub fn enter_brief(&mut self)
        ensures
            entered_brief(*old(self), *final(self)),
    {
        self.mode = Mode::Brief;
        self.cmd_history_idx = None;
        self.clear_pending_keys();
        self.pending_input = PendingInput::Idle;
        self.set_status_msg("Brief mode \u{2014} F9 :vim to switch back", MessageKind::Info);
    }

    /// Switch to mode `mode`.
    #[verifier::spinoff_prover]
    #[verifier::rlimit(40)]
    pub fn set_mode(&mut self, mode: Mode)
        requires
            old(self).wf(),
        ensures
            final(self).wf(),
            mode_set(*old(self), *final(self), mode),
    {
        match mode {
            Mode::Insert => self.enter_insert(),
            Mode::Normal => self.enter_normal(),
            Mode::Command => self.enter_command(),
            Mode::Brief => self.enter_brief(),
            Mode::Visual => {
                self.mode = Mode::Visual;
                let idx = self.active_window_idx;
                let cur = (self.windows[idx].row, self.windows[idx].col);
                self.windows[idx].visual_anchor = Some(cur);
            },
            Mode::VisualLine => {
                self.mode = Mode::VisualLine;
                let idx = self.active_window_idx;
                let row = self.windows[idx].row;
                self.windows[idx].visual_anchor = Some((row, 0));
            },
            Mode::VisualBlock => {
                self.prev_mode = self.mode;
                self.mode = Mode::VisualBlock;
                let idx = self.active_window_idx;
                let cur = (self.windows[idx].row, self.windows[idx].col);
                self.windows[idx].visual_anchor = Some(cur);
            },
            Mode::Search => {
                self.prev_mode = self.mode;
                self.mode = Mode::Search;
                self.command = String::new();
                self.command_cursor = 0;
                self.cmd_history_idx = None;
                self.clear_pending_keys();
            },
            Mode::LlmPrompt => {
                self.prev_mode = self.mode;
                self.mode = Mode::LlmPrompt;
                self.cmd_history_idx = None;
                self.clear_pending_keys();
            },
        }
    }

    /// Change mode, managing the visual-selection anchors: leaving the
    /// visual modes (or finding an anchor left behind outside them, with no
    /// block insert pending) clears every window's anchor, and entering a
    /// visual mode starts the selection at the cursor.
    #[verifier::spinoff_prover]
    #[verifier::rlimit(40)]
    pub fn change_mode(&mut self, new_mode: Mode)
        requires
            old(self).wf(),
        ensures
            final(self).wf(),
            ({
                let o = *old(self);
                let should_clear = (is_visual(o.mode) && !is_visual(new_mode)) || (!is_visual(
                    new_mode,
                ) && o.visual_block_insert_state is None && exists|i: int|
                    0 <= i < o.windows@.len() && #[trigger] o.windows@[i].visual_anchor is Some);
                let cleared = if should_clear {
                    clear_anchors(o.windows@)
                } else {
                    o.windows@
                };
                let w = o.win();
                let anchored = if is_visual(new_mode) && !is_visual(o.mode) {
                    cleared.update(
                        o.active_window_idx as int,
                        Window { visual_anchor: Some((w.row, w.col)), ..cleared[o.active_window_idx as int] },
                    )
                } else {
                    cleared
                };
                exists|mid: Editor|
                    mid.windows@ == anchored && mid == (Editor { windows: mid.windows, ..o })
                        && #[trigger] mode_set(mid, *final(self), new_mode)
            }),
    {
        let ghost o = *self;
        let old_mode = self.mode;
        let mut any_anchor = false;
        let mut i: usize = 0;
        while i < self.windows.len()
            invariant
                *self == o,
                i <= self.windows@.len(),
                any_anchor == exists|j: int| 0 <= j < i && #[trigger] self.windows@[j].visual_anchor is Some,
            decreases self.windows@.len() - i,
        {
            if self.windows[i].visual_anchor.is_some() {
                any_anchor = true;
            }
            i = i + 1;
        }
        let should_clear = (visual_mode(old_mode) && !visual_mode(new_mode)) || (!visual_mode(new_mode)
            && self.visual_block_insert_state.is_none() && any_anchor);
        if should_clear {
            let mut k: usize = 0;
            while k < self.windows.len()
                invariant
                    o.wf(),
                    self.windows@.len() == o.windows@.len(),
                    k <= self.windows@.len(),
                    forall|j: int| 0 <= j < k ==> self.windows@[j] == #[trigger] clear_anchors(o.windows@)[j],
                    forall|j: int| k <= j < self.windows@.len() ==> self.windows@[j] == o.windows@[j],
                    *self == (Editor { windows: self.windows, ..o }),
                decreases self.windows@.len() - k,
            {
                self.windows[k].visual_anchor = None;
                k = k + 1;
            }
            proof {
                assert(self.windows@ =~= clear_anchors(o.windows@));
            }
        }
        if visual_mode(new_mode) && !visual_mode(old_mode) {
            let idx = self.active_window_idx;
            let cur = (self.windows[idx].row, self.windows[idx].col);
            self.windows[idx].visual_anchor = Some(cur);
        }
        let ghost mid = *self;
        if new_mode == Mode::Normal {
            self.enter_normal();
        } else if new_mode == Mode::Brief {
            self.enter_brief();
        } else {
            self.set_mode(new_mode);
        }
        proof {
            assert(mode_set(mid, *self, new_mode));
        }
    }
}

/// `ws` with every selection anchor dropped.
pub open spec fn clear_anchors(ws: Seq<Window>) -> Seq<Window> {
    ws.map_values(|w: Window| Window { visual_anchor: None, ..w })
}

} // verus!
