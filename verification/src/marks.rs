//! Named bookmarks, the ping-pong jump between two positions, and the
//! named registers.

use crate::assoc::{assoc_find, assoc_map, assoc_remove, assoc_set, keys_distinct, lemma_assoc_map};
use crate::buffer::Buffer;
use crate::editor::{Editor, Key, MessageKind, Mode, PendingGitAction, PendingInput};
use crate::lines::{line_len, num_lines};
use crate::text::{push_decimal, push_str, string_push, decimal};
use crate::window::Window;
use vstd::prelude::*;

verus! {

/// Where the cursor lands for a target `(row, col)` in text `t`: the row
/// kept to the last line, the column to that line's length.
pub open spec fn clamp_target(t: Seq<char>, row: usize, col: usize) -> (usize, usize) {
    let n = num_lines(t);
    let sr: nat = if row < n - 1 { row as nat } else { (n - 1) as nat };
    let lc = line_len(t, sr);
    (sr as usize, (if col < lc { col as nat } else { lc }) as usize)
}

/// Window `w` after jumping to `(row, col)` in text `t`, remembering where
/// it was for the way back.
pub open spec fn jumped(w: Window, t: Seq<char>, row: usize, col: usize) -> Window {
    let (r, c) = clamp_target(t, row, col);
    Window { last_jump: Some((w.row, w.col)), row: r, col: c, desired_col: c, ..w }
}

/// `n` is `o` after `` ` `` twice: the cursor at the remembered jump
/// position (which becomes the way back), or the status line saying
/// there is none.
pub open spec fn jumped_back(o: Editor, n: Editor) -> bool {
    match o.win().last_jump {
        Some((row, col)) => {
            let w = jumped(o.win(), o.cur_buf().text(), row, col);
            win_and_status(o, n, w, "Jumped back to line "@ + decimal(w.row as nat + 1), MessageKind::Info)
        },
        None => n.status_msg@ == "No previous jump position"@ && n == (Editor {
            status_msg: n.status_msg,
            status_kind: MessageKind::Info,
            ..o
        }),
    }
}

/// `n` is `o` after jumping to bookmark `ch`, or saying it is not set.
pub open spec fn went_to_mark(o: Editor, n: Editor, ch: char) -> bool {
    let marks = assoc_map(o.cur_buf().named_bookmarks@);
    if marks.dom().contains(ch) {
        let (row, col) = marks[ch];
        let w = jumped(o.win(), o.cur_buf().text(), row, col);
        win_and_status(
            o,
            n,
            w,
            "Jumped to mark '"@ + seq![ch] + "' (line "@ + decimal(w.row as nat + 1) + ")"@,
            MessageKind::Info,
        )
    } else {
        n.status_msg@ == "Mark '"@ + seq![ch] + "' not set"@ && n == (Editor {
            status_msg: n.status_msg,
            status_kind: MessageKind::Error,
            ..o
        })
    }
}

/// `n` is `o` with its active window replaced by `w` and the status line
/// set to `msg` of kind `kind`.
pub open spec fn win_and_status(o: Editor, n: Editor, w: Window, msg: Seq<char>, kind: MessageKind) -> bool {
    &&& n.windows@ == o.windows@.update(o.active_window_idx as int, w)
    &&& n.status_msg@ == msg
    &&& n == (Editor { windows: n.windows, status_msg: n.status_msg, status_kind: kind, ..o })
}

/// `n` is `o` with its active buffer's bookmarks replaced by `marks` (and
/// the marked rows resynchronised), and the status line set.
pub open spec fn marks_and_status(
    o: Editor,
    n: Editor,
    marks: Map<char, (usize, usize)>,
    msg: Seq<char>,
    kind: MessageKind,
) -> bool {
    let ci = o.cur_idx();
    let nb = n.buffers@[ci];
    &&& keys_distinct(nb.named_bookmarks@)
    &&& assoc_map(nb.named_bookmarks@) == marks
    &&& nb.bookmarks@ == Set::new(
        |r: usize| exists|i: int| 0 <= i < nb.named_bookmarks@.len() && #[trigger] nb.named_bookmarks@[i].1.0 == r,
    )
    &&& nb == (Buffer { named_bookmarks: nb.named_bookmarks, bookmarks: nb.bookmarks, ..o.buffers@[ci] })
    &&& n.buffers@ == o.buffers@.update(ci, nb)
    &&& n.status_msg@ == msg
    &&& n == (Editor { buffers: n.buffers, status_msg: n.status_msg, status_kind: kind, ..o })
}

fn clamp_in(b: &Buffer, row: usize, col: usize) -> (r: (usize, usize))
    ensures
        r == clamp_target(b.text(), row, col),
        r.0 < usize::MAX,
{
    let n = b.len_lines();
    let sr = if row < n - 1 {
        row
    } else {
        n - 1
    };
    let lc = b.line_char_len(sr);
    (sr, if col < lc {
        col
    } else {
        lc
    })
}

impl Editor {
    /// Move the active window's cursor to `(row, col)` (kept inside the
    /// text), remembering the old position for a ping-pong jump.
    fn jump_active(&mut self, row: usize, col: usize) -> (r: usize)
        requires
            old(self).wf(),
        ensures
            final(self).wf(),
            final(self).windows@ == old(self).windows@.update(
                old(self).active_window_idx as int,
                jumped(old(self).win(), old(self).cur_buf().text(), row, col),
            ),
            *final(self) == (Editor { windows: final(self).windows, ..*old(self) }),
            r == clamp_target(old(self).cur_buf().text(), row, col).0,
            r < usize::MAX,
    {
        let ghost o = *self;
        proof {
            self.lemma_cur_idx();
        }
        let ci = self.active_buf_idx();
        let (sr, sc) = clamp_in(&self.buffers[ci], row, col);
        let idx = self.active_window_idx;
        self.windows[idx].save_jump_position();
        self.windows[idx].row = sr;
        self.windows[idx].col = sc;
        self.windows[idx].desired_col = sc;
        proof {
            assert(self.windows@ =~= o.windows@.update(
                o.active_window_idx as int,
                jumped(o.win(), o.cur_buf().text(), row, col),
            ));
            assert(o.has_buf(o.windows@[idx as int].buf_id));
            assert forall|w: int| 0 <= w < self.windows@.len() implies self.has_buf(
                #[trigger] self.windows@[w].buf_id,
            ) by {
                assert(o.has_buf(o.windows@[w].buf_id));
            }
        }
        sr
    }

    /// `` ` `` twice: swap the cursor with the remembered jump position.
    pub fn jump_last_position(&mut self)
        requires
            old(self).wf(),
        ensures
            final(self).wf(),
            jumped_back(*old(self), *final(self)),
    {
        let prev = self.windows[self.active_window_idx].last_jump;
        match prev {
            Some((row, col)) => {
                let sr = self.jump_active(row, col);
                let mut msg = String::from_str("Jumped back to line ");
                push_decimal(&mut msg, sr + 1);
                proof {
                    assert(msg@ =~= "Jumped back to line "@ + decimal(sr as nat + 1));
                }
                self.set_status_msg(msg.as_str(), MessageKind::Info);
            },
            None => {
                self.set_status_msg("No previous jump position", MessageKind::Info);
            },
        }
    }

    /// Jump to bookmark `ch` of the active buffer.
    pub fn goto_named_bookmark(&mut self, ch: char)
        requires
            old(self).wf(),
            keys_distinct(old(self).cur_buf().named_bookmarks@),
        ensures
            final(self).wf(),
            went_to_mark(*old(self), *final(self), ch),
    {
        proof {
            self.lemma_cur_idx();
            lemma_assoc_map(self.cur_buf().named_bookmarks@);
        }
        let ci = self.active_buf_idx();
        match assoc_find(&self.buffers[ci].named_bookmarks, ch) {
            Some(i) => {
                let (row, col) = self.buffers[ci].named_bookmarks[i].1;
                let ghost bm = self.buffers@[ci as int].named_bookmarks@;
                proof {
                    assert(assoc_map(bm)[bm[i as int].0] == bm[i as int].1);
                }
                let sr = self.jump_active(row, col);
                let mut msg = String::from_str("Jumped to mark '");
                string_push(&mut msg, ch);
                push_str(&mut msg, "' (line ");
                push_decimal(&mut msg, sr + 1);
                push_str(&mut msg, ")");
                proof {
                    assert(msg@ =~= "Jumped to mark '"@ + seq![ch] + "' (line "@ + decimal(sr as nat + 1) + ")"@);
                }
                self.set_status_msg(msg.as_str(), MessageKind::Info);
            },
            None => {
                let mut msg = String::from_str("Mark '");
                string_push(&mut msg, ch);
                push_str(&mut msg, "' not set");
                proof {
                    assert(msg@ =~= "Mark '"@ + seq![ch] + "' not set"@);
                }
                self.set_status_msg(msg.as_str(), MessageKind::Error);
            },
        }
    }

    /// `m{ch}`: bookmark `ch` at the cursor.
    pub fn set_named_bookmark(&mut self, ch: char)
        requires
            old(self).wf(),
            keys_distinct(old(self).cur_buf().named_bookmarks@),
            old(self).win().row < usize::MAX,
        ensures
            final(self).wf(),
            marks_and_status(
                *old(self),
                *final(self),
                assoc_map(old(self).cur_buf().named_bookmarks@).insert(ch, (old(self).win().row, old(self).win().col)),
                "Mark '"@ + seq![ch] + "' set at line "@ + decimal(old(self).win().row as nat + 1),
                MessageKind::Success,
            ),
    {
        let ghost o = *self;
        proof {
            self.lemma_cur_idx();
        }
        let row = self.windows[self.active_window_idx].row;
        let col = self.windows[self.active_window_idx].col;
        let ci = self.active_buf_idx();
        assoc_set(&mut self.buffers[ci].named_bookmarks, ch, (row, col));
        self.buffers[ci].sync_bookmark_rows();
        proof {
            assert(self.buffers@ =~= o.buffers@.update(ci as int, self.buffers@[ci as int]));
            Editor::lemma_wf_update_buf(o, *self, ci as int, self.buffers@[ci as int]);
        }
        let mut msg = String::from_str("Mark '");
        string_push(&mut msg, ch);
        push_str(&mut msg, "' set at line ");
        push_decimal(&mut msg, row + 1);
        proof {
            assert(msg@ =~= "Mark '"@ + seq![ch] + "' set at line "@ + decimal(row as nat + 1));
        }
        self.set_status_msg(msg.as_str(), MessageKind::Success);
    }

    /// Remove bookmark `ch`; returns whether it existed.
    pub fn delete_named_bookmark(&mut self, ch: char) -> (removed: bool)
        requires
            old(self).wf(),
            keys_distinct(old(self).cur_buf().named_bookmarks@),
        ensures
            final(self).wf(),
            removed == assoc_map(old(self).cur_buf().named_bookmarks@).dom().contains(ch),
            removed ==> marks_and_status(
                *old(self),
                *final(self),
                assoc_map(old(self).cur_buf().named_bookmarks@).remove(ch),
                "Mark '"@ + seq![ch] + "' removed"@,
                MessageKind::Info,
            ),
            !removed ==> *final(self) == *old(self),
    {
        let ghost o = *self;
        proof {
            self.lemma_cur_idx();
            lemma_assoc_map(self.cur_buf().named_bookmarks@);
        }
        let ci = self.active_buf_idx();
        if assoc_find(&self.buffers[ci].named_bookmarks, ch).is_none() {
            return false;
        }
        let _ = assoc_remove(&mut self.buffers[ci].named_bookmarks, ch);
        self.buffers[ci].sync_bookmark_rows();
        proof {
            assert(self.buffers@ =~= o.buffers@.update(ci as int, self.buffers@[ci as int]));
            Editor::lemma_wf_update_buf(o, *self, ci as int, self.buffers@[ci as int]);
        }
        let mut msg = String::from_str("Mark '");
        string_push(&mut msg, ch);
        push_str(&mut msg, "' removed");
        proof {
            assert(msg@ =~= "Mark '"@ + seq![ch] + "' removed"@);
        }
        self.set_status_msg(msg.as_str(), MessageKind::Info);
        true
    }
}

/// Where a ping-pong jump from `w` goes.
pub open spec fn jump_target(w: Window) -> (usize, usize) {
    match w.last_jump {
        Some(p) => p,
        None => (w.row, w.col),
    }
}

/// Two ping-pong jumps in a row bring the cursor back where it was, when
/// both positions lie inside the text and the cursor sits at its desired
/// column.
/// A pending bookmark prompt reads keys in these modes.
pub open spec fn reads_pending(m: Mode) -> bool {
    m == Mode::Normal || m == Mode::Visual || m == Mode::VisualLine
}

/// `n` is `o` after the key `key` answered the pending bookmark prompt.
pub open spec fn pending_answered(o: Editor, n: Editor, key: Key) -> bool {
    match key {
        Key::Char(c) if ('a' <= c <= 'z') || c == '`' => exists|m: Editor|
            #[trigger] mark_step(o, m, c) && n == (Editor { pending_input: PendingInput::Idle, ..m }),
        _ => n.status_msg@ == Seq::<char>::empty() && n == (Editor {
            pending_input: PendingInput::Idle,
            status_msg: n.status_msg,
            ..o
        }),
    }
}

/// What the bookmark letter `c` does for the pending prompt of `o`.
pub open spec fn mark_step(o: Editor, m: Editor, c: char) -> bool {
    match o.pending_input {
        PendingInput::SetBookmark => marks_and_status(
            o,
            m,
            assoc_map(o.cur_buf().named_bookmarks@).insert(c, (o.win().row, o.win().col)),
            "Mark '"@ + seq![c] + "' set at line "@ + decimal(o.win().row as nat + 1),
            MessageKind::Success,
        ),
        PendingInput::GotoBookmark => if c == '`' {
            jumped_back(o, m)
        } else {
            went_to_mark(o, m, c)
        },
        PendingInput::Idle => m == o,
    }
}

impl Editor {
    /// A key while a bookmark prompt (`m` or `` ` ``) waits: a letter sets
    /// or jumps to that bookmark (`` ` `` jumps back), anything else
    /// cancels.  Whether the key was taken by the prompt.
    pub fn handle_pending_input_key(&mut self, key: Key) -> (taken: bool)
        requires
            old(self).wf(),
            keys_distinct(old(self).cur_buf().named_bookmarks@),
            old(self).win().row < usize::MAX,
        ensures
            final(self).wf(),
            taken == (old(self).pending_input != PendingInput::Idle && reads_pending(old(self).mode)),
            !taken ==> *final(self) == *old(self),
            taken ==> pending_answered(*old(self), *final(self), key),
    {
        if self.pending_input == PendingInput::Idle || !(self.mode == Mode::Normal || self.mode == Mode::Visual
            || self.mode == Mode::VisualLine) {
            return false;
        }
        let ghost o = *self;
        match key {
            Key::Char(c) => {
                if ('a' <= c && c <= 'z') || c == '`' {
                    match self.pending_input {
                        PendingInput::SetBookmark => {
                            self.set_named_bookmark(c);
                        },
                        PendingInput::GotoBookmark => {
                            if c == '`' {
                                self.jump_last_position();
                            } else {
                                self.goto_named_bookmark(c);
                            }
                        },
                        PendingInput::Idle => {},
                    }
                    let ghost m = *self;
                    self.pending_input = PendingInput::Idle;
                    proof {
                        assert(mark_step(o, m, c));
                    }
                    return true;
                }
            },
            _ => {},
        }
        self.pending_input = PendingInput::Idle;
        self.clear_status_msg();
        true
    }

    /// A key while a git action waits for confirmation.  `y` confirms:
    /// the action comes back to be carried out (nothing when no repository
    /// was found, which the status line says); `n` or Esc cancels; other
    /// keys are ignored.
    pub fn handle_git_action_prompt_key(&mut self, key: Key, repo_found: bool) -> (r: PendingGitAction)
        ensures
            match key {
                Key::Char('y') | Key::Char('Y') => if repo_found {
                    &&& r == old(self).pending_git_action
                    &&& final(self).status_msg@ == Seq::<char>::empty()
                    &&& *final(self) == (Editor {
                        pending_git_action: PendingGitAction::Idle,
                        status_msg: final(self).status_msg,
                        ..*old(self)
                    })
                } else {
                    &&& r == PendingGitAction::Idle
                    &&& final(self).status_msg@ == "Not in a git repository"@
                    &&& *final(self) == (Editor {
                        pending_git_action: PendingGitAction::Idle,
                        status_msg: final(self).status_msg,
                        status_kind: MessageKind::Error,
                        ..*old(self)
                    })
                },
                Key::Char('n') | Key::Char('N') | Key::Esc => {
                    &&& r == PendingGitAction::Idle
                    &&& final(self).status_msg@ == "Action cancelled"@
                    &&& *final(self) == (Editor {
                        pending_git_action: PendingGitAction::Idle,
                        status_msg: final(self).status_msg,
                        status_kind: MessageKind::Info,
                        ..*old(self)
                    })
                },
                _ => r == PendingGitAction::Idle && *final(self) == *old(self),
            },
    {
        match key {
            Key::Char('y') | Key::Char('Y') => {
                let mut action = PendingGitAction::Idle;
                std::mem::swap(&mut action, &mut self.pending_git_action);
                self.clear_status_msg();
                if !repo_found {
                    self.set_status_msg("Not in a git repository", MessageKind::Error);
                    return PendingGitAction::Idle;
                }
                action
            },
            Key::Char('n') | Key::Char('N') | Key::Esc => {
                self.pending_git_action = PendingGitAction::Idle;
                self.set_status_msg("Action cancelled", MessageKind::Info);
                PendingGitAction::Idle
            },
            _ => PendingGitAction::Idle,
        }
    }
}

pub proof fn lemma_ping_pong(w: Window, t: Seq<char>)
    requires
        w.last_jump matches Some((r, c)) && clamp_target(t, r, c) == (r, c),
        clamp_target(t, w.row, w.col) == (w.row, w.col),
        w.desired_col == w.col,
    ensures
        ({
            let (r0, c0) = jump_target(w);
            let w1 = jumped(w, t, r0, c0);
            let (r1, c1) = jump_target(w1);
            let w2 = jumped(w1, t, r1, c1);
            w2 == Window { last_jump: w2.last_jump, ..w } && w2.last_jump == Some((w1.row, w1.col))
                && w1.row == r0 && w1.col == c0
        }),
{
}

} // verus!

verus! {

pub open spec fn is_system_register(r: Option<char>) -> bool {
    r == Some('+') || r == Some('*')
}

pub open spec fn is_named_register(r: Option<char>) -> bool {
    r matches Some(c) && 'a' <= c <= 'z'
}

impl Editor {
    /// Yank `text` into `register` (a named register `a`..`z`, or the system
    /// clipboard for `+`/`*`, which the caller wrote: `system_written` says
    /// whether that worked); the unnamed register always gets it.
    pub fn yank_to_register(&mut self, text: String, register: Option<char>, system_written: bool)
        requires
            keys_distinct(old(self).registers.named@),
        ensures
            keys_distinct(final(self).registers.named@),
            final(self).clipboard matches Some(c) && c@ == text@,
            !final(self).clipboard_is_block,
            is_system_register(register) ==> {
                &&& final(self).status_msg@ == (if system_written {
                    "Yanked to system clipboard"@
                } else {
                    "Yanked internally (system clipboard unavailable)"@
                })
                &&& *final(self) == (Editor {
                    clipboard: final(self).clipboard,
                    clipboard_is_block: false,
                    status_msg: final(self).status_msg,
                    status_kind: if system_written {
                        MessageKind::Success
                    } else {
                        MessageKind::Info
                    },
                    ..*old(self)
                })
            },
            is_named_register(register) ==> {
                &&& assoc_map(final(self).registers.named@).dom() == assoc_map(old(self).registers.named@).dom().insert(register->0)
                &&& assoc_map(final(self).registers.named@)[register->0]@ == text@
                &&& forall|k: char| k != register->0 ==> #[trigger] assoc_map(final(self).registers.named@).dom().contains(k)
                    ==> assoc_map(final(self).registers.named@)[k] == assoc_map(old(self).registers.named@)[k]
                &&& final(self).status_msg@ == "Yanked to register \""@ + seq![register->0]
                &&& *final(self) == (Editor {
                    registers: final(self).registers,
                    clipboard: final(self).clipboard,
                    clipboard_is_block: false,
                    status_msg: final(self).status_msg,
                    status_kind: MessageKind::Info,
                    ..*old(self)
                })
            },
            !is_system_register(register) && !is_named_register(register) ==> *final(self) == (Editor {
                clipboard: final(self).clipboard,
                clipboard_is_block: false,
                ..*old(self)
            }),
    {
        match register {
            Some('+') | Some('*') => {
                if system_written {
                    self.set_status_msg("Yanked to system clipboard", MessageKind::Success);
                } else {
                    self.set_status_msg(
                        "Yanked internally (system clipboard unavailable)",
                        MessageKind::Info,
                    );
                }
            },
            Some(c) => {
                if 'a' <= c && c <= 'z' {
                    let ghost before = self.registers.named@;
                    assoc_set(&mut self.registers.named, c, text.clone());
                    let mut msg = String::from_str("Yanked to register \"");
                    string_push(&mut msg, c);
                    proof {
                        assert(msg@ =~= "Yanked to register \""@ + seq![c]);
                        assert(assoc_map(self.registers.named@).dom() =~= assoc_map(before).dom().insert(c));
                    }
                    self.set_status_msg(msg.as_str(), MessageKind::Info);
                }
            },
            None => {},
        }
        self.clipboard = Some(text);
        self.clipboard_is_block = false;
    }

    /// Text of `register`: the system clipboard for `+`/`*` (read by the
    /// caller into `system`), a named register `a`..`z`, or the unnamed
    /// register otherwise.
    pub fn paste_from_register(&self, register: Option<char>, system: Option<String>) -> (r: Option<String>)
        requires
            keys_distinct(self.registers.named@),
        ensures
            is_system_register(register) ==> r == system,
            is_named_register(register) ==> match r {
                Some(t) => assoc_map(self.registers.named@).dom().contains(register->0)
                    && t@ == assoc_map(self.registers.named@)[register->0]@,
                None => !assoc_map(self.registers.named@).dom().contains(register->0),
            },
            !is_system_register(register) && !is_named_register(register) ==> crate::buffer::opt_view(r)
                == crate::buffer::opt_view(self.clipboard),
    {
        match register {
            Some('+') | Some('*') => system,
            Some(c) => {
                if 'a' <= c && c <= 'z' {
                    proof {
                        lemma_assoc_map(self.registers.named@);
                    }
                    match assoc_find(&self.registers.named, c) {
                        Some(i) => {
                            proof {
                                let v = self.registers.named@;
                                assert(assoc_map(v)[v[i as int].0] == v[i as int].1);
                                assert(assoc_map(v).dom().contains(c));
                            }
                            Some(self.registers.named[i].1.clone())
                        },
                        None => None,
                    }
                } else {
                    match &self.clipboard {
                        Some(t) => Some(t.clone()),
                        None => None,
                    }
                }
            },
            None => match &self.clipboard {
                Some(t) => Some(t.clone()),
                None => None,
            },
        }
    }
}

} // verus!
