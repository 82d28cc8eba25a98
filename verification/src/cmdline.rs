//! The command line: editing at a byte cursor, and the command history
//! with prefix search.

use crate::editor::Editor;
use crate::tag::{byte_pos, byte_to_char_offset, str_byte_len, lemma_byte_pos_mono};
use crate::text::{has_prefix, splice_str, chars_of};
use vstd::prelude::*;
use vstd::utf8::encode_utf8;

verus! {

/// Byte offset `b` of `s` falls between two chars (or at an end).
pub open spec fn char_boundary(s: Seq<char>, b: int) -> bool {
    exists|k: int| 0 <= k <= s.len() && byte_pos(s, k) == b
}

/// The char index whose byte offset is `b`.
pub open spec fn char_at_byte(s: Seq<char>, b: int) -> int {
    choose|k: int| 0 <= k <= s.len() && byte_pos(s, k) == b
}

/// Byte offsets of distinct chars differ.
pub proof fn lemma_char_at_byte(s: Seq<char>, k: int)
    requires
        0 <= k <= s.len(),
    ensures
        char_boundary(s, byte_pos(s, k) as int),
        char_at_byte(s, byte_pos(s, k) as int) == k,
{
    let j = char_at_byte(s, byte_pos(s, k) as int);
    if j < k {
        lemma_byte_pos_mono(s, j, k);
    } else if j > k {
        lemma_byte_pos_mono(s, k, j);
    }
}

/// First index at or before `from` whose entry starts with `prefix`,
/// scanning backwards.
pub open spec fn search_back(h: Seq<Seq<char>>, prefix: Seq<char>, from: int) -> Option<int>
    decreases from + 1,
{
    if from < 0 {
        None
    } else if has_prefix(h[from], prefix) {
        Some(from)
    } else {
        search_back(h, prefix, from - 1)
    }
}

/// First index at or after `from` whose entry starts with `prefix`.
pub open spec fn search_fwd(h: Seq<Seq<char>>, prefix: Seq<char>, from: int) -> Option<int>
    decreases h.len() - from,
{
    if from >= h.len() || from < 0 {
        None
    } else if has_prefix(h[from], prefix) {
        Some(from)
    } else {
        search_fwd(h, prefix, from + 1)
    }
}

/// The entry recalled going back from `from` starts with the prefix and
/// is the nearest such: none between it and `from` does; when none is
/// recalled, no entry up to `from` starts with it.
pub proof fn lemma_search_back(h: Seq<Seq<char>>, prefix: Seq<char>, from: int)
    requires
        from < h.len(),
    ensures
        search_back(h, prefix, from) matches Some(i) ==> 0 <= i <= from && has_prefix(h[i], prefix) && forall|
            j: int,
        | i < j <= from ==> !has_prefix(#[trigger] h[j], prefix),
        search_back(h, prefix, from) is None ==> forall|j: int| 0 <= j <= from ==> !has_prefix(#[trigger] h[j], prefix),
    decreases from + 1,
{
    if from >= 0 && !has_prefix(h[from], prefix) {
        lemma_search_back(h, prefix, from - 1);
    }
}

/// The entry recalled going forward from `from` starts with the prefix
/// and is the nearest such: none between `from` and it does; when none
/// is recalled, no entry from `from` on starts with it.
pub proof fn lemma_search_fwd(h: Seq<Seq<char>>, prefix: Seq<char>, from: int)
    requires
        0 <= from,
    ensures
        search_fwd(h, prefix, from) matches Some(i) ==> from <= i < h.len() && has_prefix(h[i], prefix) && forall|
            j: int,
        | from <= j < i ==> !has_prefix(#[trigger] h[j], prefix),
        search_fwd(h, prefix, from) is None ==> forall|j: int| from <= j < h.len() ==> !has_prefix(#[trigger] h[j], prefix),
    decreases h.len() - from,
{
    if from < h.len() && !has_prefix(h[from], prefix) {
        lemma_search_fwd(h, prefix, from + 1);
    }
}

pub open spec fn views(v: Seq<String>) -> Seq<Seq<char>> {
    v.map_values(|s: String| s@)
}

fn starts_with(s: &str, prefix: &str) -> (b: bool)
    ensures
        b == has_prefix(s@, prefix@),
{
    let sv = chars_of(s);
    let pv = chars_of(prefix);
    if pv.len() > sv.len() {
        return false;
    }
    let mut i: usize = 0;
    while i < pv.len()
        invariant
            sv@ == s@,
            pv@ == prefix@,
            pv@.len() <= sv@.len(),
            i <= pv@.len(),
            forall|j: int| 0 <= j < i ==> sv@[j] == pv@[j],
        decreases pv@.len() - i,
    {
        if sv[i] != pv[i] {
            assert(s@.take(prefix@.len() as int)[i as int] != prefix@[i as int]);
            return false;
        }
        i = i + 1;
    }
    assert(s@.take(prefix@.len() as int) =~= prefix@);
    true
}

/// Nearest index at or before `from` whose entry starts with `prefix`.
fn find_back(h: &Vec<String>, prefix: &str, from: usize) -> (r: Option<usize>)
    requires
        from < h@.len(),
    ensures
        r matches Some(i) ==> i <= from && search_back(views(h@), prefix@, from as int) == Some(
            i as int,
        ),
        r is None ==> search_back(views(h@), prefix@, from as int) is None,
{
    let ghost hv = views(h@);
    let n = h.len();
    let mut i: usize = from + 1;
    while i > 0
        invariant
            hv == views(h@),
            i <= from + 1,
            from < h@.len(),
            search_back(hv, prefix@, from as int) == search_back(hv, prefix@, i - 1),
        decreases i,
    {
        if starts_with(h[i - 1].as_str(), prefix) {
            return Some(i - 1);
        }
        i = i - 1;
    }
    None
}

/// Nearest index at or after `from` whose entry starts with `prefix`.
fn find_fwd(h: &Vec<String>, prefix: &str, from: usize) -> (r: Option<usize>)
    ensures
        r matches Some(i) ==> from <= i < h@.len() && search_fwd(views(h@), prefix@, from as int)
            == Some(i as int),
        r is None ==> search_fwd(views(h@), prefix@, from as int) is None,
{
    let ghost hv = views(h@);
    let mut i: usize = from;
    while i < h.len()
        invariant
            hv == views(h@),
            from <= i,
            search_fwd(hv, prefix@, from as int) == search_fwd(hv, prefix@, i as int),
        decreases h@.len() - i,
    {
        if starts_with(h[i].as_str(), prefix) {
            return Some(i);
        }
        i = i + 1;
    }
    None
}

impl Editor {
    /// Empty the command line.
    pub fn clear_command(&mut self)
        ensures
            final(self).command@ == Seq::<char>::empty(),
            *final(self) == (Editor {
                command: final(self).command,
                command_cursor: 0,
                cmd_history_idx: None,
                ..*old(self)
            }),
    {
        self.command = String::new();
        self.command_cursor = 0;
        self.cmd_history_idx = None;
    }

    /// Type `ch` at the cursor.  The cursor is a byte offset and moves by
    /// one byte, so after a char of several bytes it no longer falls on a
    /// char boundary.
    pub fn push_command(&mut self, ch: char)
        requires
            char_boundary(old(self).command@, old(self).command_cursor as int),
        ensures
            ({
                let k = char_at_byte(old(self).command@, old(self).command_cursor as int);
                final(self).command@ == old(self).command@.take(k) + seq![ch]
                    + old(self).command@.skip(k)
            }),
            final(self).command_cursor == old(self).command_cursor + 1,
            *final(self) == (Editor {
                command: final(self).command,
                command_cursor: final(self).command_cursor,
                ..*old(self)
            }),
    {
        let k = byte_to_char_offset(self.command.as_str(), self.command_cursor);
        proof {
            lemma_char_at_byte(self.command@, k as int);
        }
        let mut one = String::new();
        crate::text::string_push(&mut one, ch);
        let n = splice_str(self.command.as_str(), k, k, one.as_str());
        let total = str_byte_len(n.as_str());
        proof {
            let s = self.command@;
            assert(n@ =~= s.take(k as int) + seq![ch] + s.skip(k as int));
            assert(n@.take(k as int) =~= s.take(k as int));
            assert(byte_pos(n@, k as int) == byte_pos(s, k as int));
            crate::tag::lemma_byte_pos_step(n@, k as int);
            crate::tag::lemma_byte_pos_mono(n@, k + 1, n@.len() as int);
            crate::tag::lemma_byte_pos_ends(n@);
        }
        self.command = n;
        self.command_cursor = self.command_cursor + 1;
    }

    /// Delete the char before the cursor.  The cursor steps back one byte,
    /// and the char that starts there is removed.
    pub fn pop_command(&mut self)
        requires
            old(self).command_cursor > 0 ==> exists|k: int|
                0 <= k < old(self).command@.len() && byte_pos(old(self).command@, k)
                    == old(self).command_cursor - 1,
        ensures
            old(self).command_cursor == 0 ==> *final(self) == *old(self),
            old(self).command_cursor > 0 ==> {
                let k = char_at_byte(old(self).command@, old(self).command_cursor - 1);
                &&& final(self).command@ == old(self).command@.take(k) + old(self).command@.skip(
                    k + 1,
                )
                &&& *final(self) == (Editor {
                    command: final(self).command,
                    command_cursor: (old(self).command_cursor - 1) as usize,
                    ..*old(self)
                })
            },
    {
        if self.command_cursor > 0 {
            self.command_cursor = self.command_cursor - 1;
            let k = byte_to_char_offset(self.command.as_str(), self.command_cursor);
            proof {
                lemma_char_at_byte(self.command@, k as int);
                let j = choose|j: int|
                    0 <= j < self.command@.len() && byte_pos(self.command@, j)
                        == self.command_cursor;
                lemma_char_at_byte(self.command@, j);
            }
            let total = str_byte_len(self.command.as_str());
            proof {
                crate::tag::lemma_byte_pos_mono(self.command@, 0, k + 1);
                crate::tag::lemma_byte_pos_mono(self.command@, k + 1, self.command@.len() as int);
                crate::tag::lemma_byte_pos_ends(self.command@);
            }
            self.command = splice_str(self.command.as_str(), k, k + 1, "");
            proof {
                reveal_strlit("");
            }
        }
    }

    /// Insert `text` at the cursor and move the cursor past it.
    pub fn insert_command_text(&mut self, text: &str)
        requires
            char_boundary(old(self).command@, old(self).command_cursor as int),
        ensures
            ({
                let k = char_at_byte(old(self).command@, old(self).command_cursor as int);
                final(self).command@ == old(self).command@.take(k) + text@
                    + old(self).command@.skip(k)
            }),
            final(self).command_cursor == old(self).command_cursor + encode_utf8(text@).len(),
            *final(self) == (Editor {
                command: final(self).command,
                command_cursor: final(self).command_cursor,
                ..*old(self)
            }),
    {
        let k = byte_to_char_offset(self.command.as_str(), self.command_cursor);
        proof {
            lemma_char_at_byte(self.command@, k as int);
        }
        let n = splice_str(self.command.as_str(), k, k, text);
        let tl = str_byte_len(text);
        let total = str_byte_len(n.as_str());
        proof {
            let s = self.command@;
            let a = s.take(k as int);
            assert(n@.take(k as int) =~= a);
            assert(n@.take(k + text@.len()) =~= a + text@);
            crate::tag::lemma_byte_pos_ends(text@);
            crate::tag::lemma_byte_pos_ends(a);
            crate::tag::lemma_byte_pos_ends(a + text@);
            crate::tag::lemma_encode_concat(a, text@);
            assert(a.take(a.len() as int) =~= a);
            assert(s.take(k as int) =~= a);
            crate::tag::lemma_byte_pos_mono(n@, k + text@.len(), n@.len() as int);
            crate::tag::lemma_byte_pos_ends(n@);
        }
        self.command = n;
        self.command_cursor = self.command_cursor + tl;
    }

    /// Replace the command line, cursor at its end.
    pub fn set_command(&mut self, cmd: String)
        ensures
            final(self).command@ == cmd@,
            final(self).command_cursor == encode_utf8(cmd@).len(),
            *final(self) == (Editor {
                command: final(self).command,
                command_cursor: final(self).command_cursor,
                ..*old(self)
            }),
    {
        let n = str_byte_len(cmd.as_str());
        self.command = cmd;
        self.command_cursor = n;
    }

    /// Move the cursor to byte `pos`, at most the end of the line.
    pub fn set_command_cursor(&mut self, pos: usize)
        ensures
            final(self).command_cursor == (if pos <= encode_utf8(old(self).command@).len() {
                pos as nat
            } else {
                encode_utf8(old(self).command@).len()
            }),
            *final(self) == (Editor { command_cursor: final(self).command_cursor, ..*old(self) }),
    {
        let n = str_byte_len(self.command.as_str());
        self.command_cursor = if pos <= n {
            pos
        } else {
            n
        };
    }

    /// Up arrow: the nearest earlier history entry that starts with what
    /// was typed before the browsing began.
    #[verifier::spinoff_prover]
    #[verifier::rlimit(40)]
    pub fn history_prev(&mut self)
        requires
            old(self).cmd_history@.len() > 0 ==> match old(self).cmd_history_idx {
                Some(i) => (if i == 0 {
                    0
                } else {
                    i - 1
                }) < old(self).cmd_history@.len(),
                None => true,
            },
        ensures
            old(self).cmd_history@.len() == 0 ==> *final(self) == *old(self),
            old(self).cmd_history@.len() > 0 ==> {
                let browsing = old(self).cmd_history_idx is Some;
                let temp = if browsing {
                    old(self).cmd_temp_input@
                } else {
                    old(self).command@
                };
                let prefix = if browsing {
                    match old(self).history_search_prefix {
                        Some(p) => p@,
                        None => Seq::<char>::empty(),
                    }
                } else {
                    old(self).command@
                };
                let from = match old(self).cmd_history_idx {
                    Some(i) => if i == 0 { 0 } else { i - 1 },
                    None => old(self).cmd_history@.len() - 1,
                };
                let h = views(old(self).cmd_history@);
                &&& final(self).cmd_temp_input@ == temp
                &&& !browsing ==> (final(self).history_search_prefix matches Some(p) && p@
                    == old(self).command@)
                &&& browsing ==> final(self).history_search_prefix
                    == old(self).history_search_prefix
                &&& match search_back(h, prefix, from) {
                    Some(i) => {
                        &&& final(self).cmd_history_idx == Some(i as usize)
                        &&& final(self).command@ == h[i]
                        &&& final(self).command_cursor == encode_utf8(h[i]).len()
                    },
                    None => {
                        &&& final(self).cmd_history_idx == old(self).cmd_history_idx
                        &&& final(self).command == old(self).command
                        &&& final(self).command_cursor == old(self).command_cursor
                    },
                }
                &&& *final(self) == (Editor {
                    cmd_temp_input: final(self).cmd_temp_input,
                    history_search_prefix: final(self).history_search_prefix,
                    cmd_history_idx: final(self).cmd_history_idx,
                    command: final(self).command,
                    command_cursor: final(self).command_cursor,
                    ..*old(self)
                })
            },
            (old(self).cmd_history@.len() > 0 && old(self).cmd_history_idx is None
                && final(self).cmd_history_idx is Some) ==> has_prefix(final(self).command@, old(self).command@),
    {
        if self.cmd_history.len() == 0 {
            return;
        }
        if self.cmd_history_idx.is_none() {
            self.cmd_temp_input = self.command.clone();
            self.history_search_prefix = Some(self.command.clone());
        }
        let prefix: String = match &self.history_search_prefix {
            Some(p) => p.clone(),
            None => String::new(),
        };
        let start_idx: usize = match self.cmd_history_idx {
            Some(i) => if i == 0 {
                0
            } else {
                i - 1
            },
            None => self.cmd_history.len() - 1,
        };
        proof {
            lemma_search_back(views(self.cmd_history@), prefix@, start_idx as int);
        }
        match find_back(&self.cmd_history, prefix.as_str(), start_idx) {
            Some(idx) => {
                proof {
                    assert(views(self.cmd_history@)[idx as int] == self.cmd_history@[idx as int]@);
                }
                self.cmd_history_idx = Some(idx);
                self.command = self.cmd_history[idx].clone();
                self.command_cursor = str_byte_len(self.command.as_str());
            },
            None => {},
        }
    }

    /// Down arrow: the nearest later history entry with the search
    /// prefix, or back to what was typed when there is none.
    #[verifier::spinoff_prover]
    #[verifier::rlimit(40)]
    pub fn history_next(&mut self)
        ensures
            old(self).cmd_history@.len() == 0 || old(self).cmd_history_idx is None ==> *final(self)
                == *old(self),
            old(self).cmd_history@.len() > 0 && old(self).cmd_history_idx is Some ==> {
                let prefix = match old(self).history_search_prefix {
                    Some(p) => p@,
                    None => Seq::<char>::empty(),
                };
                let cur = old(self).cmd_history_idx->0;
                let from = if cur == usize::MAX { cur as int } else { cur + 1 };
                let h = views(old(self).cmd_history@);
                &&& match search_fwd(h, prefix, from) {
                    Some(i) => {
                        &&& final(self).cmd_history_idx == Some(i as usize)
                        &&& final(self).command@ == h[i]
                    },
                    None => {
                        &&& final(self).cmd_history_idx is None
                        &&& final(self).command@ == old(self).cmd_temp_input@
                    },
                }
                &&& final(self).command_cursor == encode_utf8(final(self).command@).len()
                &&& *final(self) == (Editor {
                    cmd_history_idx: final(self).cmd_history_idx,
                    command: final(self).command,
                    command_cursor: final(self).command_cursor,
                    ..*old(self)
                })
            },
    {
        if self.cmd_history.len() == 0 {
            return;
        }
        let cur = match self.cmd_history_idx {
            Some(i) => i,
            None => return,
        };
        let prefix: String = match &self.history_search_prefix {
            Some(p) => p.clone(),
            None => String::new(),
        };
        let start_idx = cur.saturating_add(1);
        let found = find_fwd(&self.cmd_history, prefix.as_str(), start_idx);
        match found {
            Some(idx) => {
                proof {
                    assert(views(self.cmd_history@)[idx as int] == self.cmd_history@[idx as int]@);
                }
                self.cmd_history_idx = Some(idx);
                self.command = self.cmd_history[idx].clone();
            },
            None => {
                self.cmd_history_idx = None;
                self.command = self.cmd_temp_input.clone();
            },
        }
        self.command_cursor = str_byte_len(self.command.as_str());
    }

    /// Record an executed command: trimmed, not empty, and not the same as
    /// the last entry.  Returns whether the history grew (and so should be
    /// written out).
    pub fn append_history(&mut self, cmd: &str) -> (added: bool)
        ensures
            ({
                let t = crate::text::trim_end_ws(crate::text::trim_start_ws(cmd@));
                let h = old(self).cmd_history@;
                let dup = h.len() > 0 && h.last()@ == t;
                &&& added == (t.len() > 0 && !dup)
                &&& added ==> final(self).cmd_history@.len() == h.len() + 1
                    && final(self).cmd_history@.drop_last() == h
                    && final(self).cmd_history@.last()@ == t
                &&& !added ==> final(self).cmd_history@ == h
                &&& *final(self) == (Editor { cmd_history: final(self).cmd_history, ..*old(self) })
            }),
    {
        let t = crate::text::trim_str(cmd);
        if t.as_str().is_empty() {
            return false;
        }
        let n = self.cmd_history.len();
        if n > 0 && crate::text::str_eq(self.cmd_history[n - 1].as_str(), t.as_str()) {
            return false;
        }
        let ghost h = self.cmd_history@;
        self.cmd_history.push(t);
        proof {
            assert(self.cmd_history@.drop_last() =~= h);
        }
        true
    }
}

} // verus!
