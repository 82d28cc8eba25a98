//! What the user interface asks of the editor: the word at the cursor,
//! the selected rows, the buffer tabs, the gutter width, and the text of
//! a range of lines.

use crate::buffer::{Buffer, opt_view};
use crate::editor::{Editor, MessageKind, VisualBlockInsertState};
use crate::gutter::decimal_len_of;
use crate::lines::{line_of, num_lines, line_len};
use crate::session::buf_name;
use crate::text::{chars_of, word_char, is_word_char, string_from_chars, push_str, string_push, decimal, trim_end_crlf};
use vstd::prelude::*;

verus! {

/// Start of the identifier that ends at `col` (scanning back over word
/// chars).
pub open spec fn word_start_before(line: Seq<char>, col: int) -> int
    decreases col,
{
    if col <= 0 {
        0
    } else if is_word_char(line[col - 1]) {
        word_start_before(line, col - 1)
    } else {
        col
    }
}

/// First word char at or after `i`, or the line length.
pub open spec fn next_word_start(line: Seq<char>, i: int) -> int
    decreases line.len() - i,
{
    if i >= line.len() || i < 0 {
        line.len() as int
    } else if is_word_char(line[i]) {
        i
    } else {
        next_word_start(line, i + 1)
    }
}

/// End of the run of word chars starting at `i`.
pub open spec fn word_end_from(line: Seq<char>, i: int) -> int
    decreases line.len() - i,
{
    if i >= line.len() || i < 0 {
        if i < 0 { 0 } else { line.len() as int }
    } else if is_word_char(line[i]) {
        word_end_from(line, i + 1)
    } else {
        i
    }
}

/// The word under (or just after) the cursor of line `line` at `col`.
pub open spec fn word_under(line: Seq<char>, col: int) -> Option<Seq<char>> {
    if line.len() == 0 {
        None
    } else {
        let c = if col < line.len() - 1 { col } else { line.len() - 1 };
        let s = next_word_start(line, c);
        if s >= line.len() {
            None
        } else {
            let st = word_start_before(line, s);
            let en = word_end_from(line, s);
            if st < en { Some(line.subrange(st, en)) } else { None }
        }
    }
}

proof fn lemma_word_start(line: Seq<char>, col: int)
    requires
        0 <= col <= line.len(),
    ensures
        0 <= word_start_before(line, col) <= col,
    decreases col,
{
    if col > 0 && is_word_char(line[col - 1]) {
        lemma_word_start(line, col - 1);
    }
}

proof fn lemma_next_word(line: Seq<char>, i: int)
    requires
        0 <= i,
    ensures
        i <= next_word_start(line, i) <= line.len() || (i > line.len() && next_word_start(line, i) == line.len()),
    decreases line.len() - i,
{
    if i < line.len() && !is_word_char(line[i]) {
        lemma_next_word(line, i + 1);
    }
}

proof fn lemma_word_end(line: Seq<char>, i: int)
    requires
        0 <= i <= line.len(),
    ensures
        i <= word_end_from(line, i) <= line.len(),
    decreases line.len() - i,
{
    if i < line.len() && is_word_char(line[i]) {
        lemma_word_end(line, i + 1);
    }
}

fn scan_back(v: &Vec<char>, col: usize) -> (s: usize)
    requires
        col <= v@.len(),
    ensures
        s == word_start_before(v@, col as int),
{
    let mut s = col;
    while s > 0 && word_char(v[s - 1])
        invariant
            s <= col <= v@.len(),
            word_start_before(v@, col as int) == word_start_before(v@, s as int),
        decreases s,
    {
        s = s - 1;
    }
    s
}

impl Editor {
    /// The word under the cursor, or the next word on the line after it.
    pub fn get_word_under_cursor(&self) -> (w: Option<String>)
        requires
            self.wf(),
        ensures
            self.win().row >= num_lines(self.cur_buf().text()) ==> w is None,
            self.win().row < num_lines(self.cur_buf().text()) ==> opt_view(w) == word_under(
                line_of(self.cur_buf().text(), self.win().row as nat),
                self.win().col as int,
            ),
    {
        let b = self.buf();
        let row = self.windows[self.active_window_idx].row;
        if row >= b.len_lines() {
            return None;
        }
        let line = b.line_text(row);
        let v = chars_of(line.as_str());
        let n = v.len();
        if n == 0 {
            return None;
        }
        let wc = self.windows[self.active_window_idx].col;
        let col = if wc < n - 1 {
            wc
        } else {
            n - 1
        };
        let mut start = col;
        while start < n && !word_char(v[start])
            invariant
                n == v@.len(),
                col <= start <= n,
                next_word_start(v@, col as int) == next_word_start(v@, start as int),
            decreases n - start,
        {
            start = start + 1;
        }
        if start >= n {
            return None;
        }
        let mut end = start;
        while end < n && word_char(v[end])
            invariant
                n == v@.len(),
                start <= end <= n,
                word_end_from(v@, start as int) == word_end_from(v@, end as int),
            decreases n - end,
        {
            end = end + 1;
        }
        let st = scan_back(&v, start);
        proof {
            lemma_word_start(v@, start as int);
        }
        if st < end {
            let sub = vstd::slice::slice_subrange(v.as_slice(), st, end);
            Some(string_from_chars(sub))
        } else {
            None
        }
    }

    /// The part of the identifier before the cursor (for completion).
    pub fn get_current_word_prefix(&self) -> (p: String)
        requires
            self.wf(),
        ensures
            ({
                let line = line_of(self.cur_buf().text(), self.win().row as nat);
                let col = if self.win().col <= line.len() { self.win().col as int } else { line.len() as int };
                p@ == line.subrange(word_start_before(line, col), col)
            }),
    {
        let b = self.buf();
        let line = b.line_text(self.windows[self.active_window_idx].row);
        let v = chars_of(line.as_str());
        let wc = self.windows[self.active_window_idx].col;
        let col = if wc <= v.len() {
            wc
        } else {
            v.len()
        };
        let st = scan_back(&v, col);
        proof {
            lemma_word_start(v@, col as int);
        }
        let sub = vstd::slice::slice_subrange(v.as_slice(), st, col);
        string_from_chars(sub)
    }

    /// The rows of the visual selection, smallest first; `None` outside
    /// the visual modes or when no anchor is set.
    pub fn get_visual_line_range(&self) -> (r: Option<(usize, usize)>)
        requires
            self.wf(),
        ensures
            !crate::editor::is_visual(self.mode) ==> r is None,
            crate::editor::is_visual(self.mode) ==> match self.win().visual_anchor {
                Some((ar, ac)) => r == Some(
                    (
                        if ar <= self.win().row { ar } else { self.win().row },
                        if ar >= self.win().row { ar } else { self.win().row },
                    ),
                ),
                None => r is None,
            },
    {
        if !crate::editor::visual_mode(self.mode) {
            return None;
        }
        let w = &self.windows[self.active_window_idx];
        match w.visual_anchor {
            Some((ar, _)) => {
                let r1 = if ar <= w.row {
                    ar
                } else {
                    w.row
                };
                let r2 = if ar >= w.row {
                    ar
                } else {
                    w.row
                };
                Some((r1, r2))
            },
            None => None,
        }
    }

    /// One entry per buffer: its name, whether it is modified, and whether
    /// the active window shows it.
    pub fn buffer_tabs(&self) -> (tabs: Vec<(String, bool, bool)>)
        requires
            self.wf(),
        ensures
            tabs@.len() == self.buffers@.len(),
            forall|i: int|
                0 <= i < tabs@.len() ==> {
                    let b = #[trigger] self.buffers@[i];
                    &&& tabs@[i].0@ == buf_name(b)
                    &&& tabs@[i].1 == b.modified
                    &&& tabs@[i].2 == (b.id == self.win().buf_id)
                },
    {
        let active = self.windows[self.active_window_idx].buf_id;
        let mut tabs: Vec<(String, bool, bool)> = Vec::new();
        let mut i: usize = 0;
        while i < self.buffers.len()
            invariant
                self.wf(),
                active == self.win().buf_id,
                i <= self.buffers@.len(),
                tabs@.len() == i,
                forall|j: int|
                    0 <= j < i ==> {
                        let b = #[trigger] self.buffers@[j];
                        &&& tabs@[j].0@ == buf_name(b)
                        &&& tabs@[j].1 == b.modified
                        &&& tabs@[j].2 == (b.id == active)
                    },
            decreases self.buffers@.len() - i,
        {
            let name = self.buffers[i].display_name();
            tabs.push((name, self.buffers[i].modified, self.buffers[i].id == active));
            i = i + 1;
        }
        tabs
    }
}

/// Lines `start..=end` of `t`, each without trailing `'\r'`/`'\n'` and
/// followed by a line feed.
pub open spec fn lines_text(t: Seq<char>, start: int, end: int) -> Seq<char>
    decreases end - start + 1,
{
    if end < start {
        Seq::empty()
    } else {
        lines_text(t, start, end - 1) + trim_end_crlf(line_of(t, end as nat)) + seq!['\n']
    }
}

impl Editor {
    /// The text of lines `start_row..=end_row` of the active buffer, or
    /// `None` when the range is not inside the buffer.
    pub fn extract_line_range_text(&self, start_row: usize, end_row: usize) -> (r: Option<String>)
        requires
            self.wf(),
        ensures
            end_row >= num_lines(self.cur_buf().text()) || start_row > end_row ==> r is None,
            !(end_row >= num_lines(self.cur_buf().text()) || start_row > end_row) ==> (r matches Some(
                s,
            ) && s@ == lines_text(self.cur_buf().text(), start_row as int, end_row as int)),
    {
        let b = self.buf();
        let nl = b.len_lines();
        if end_row >= nl || start_row > end_row {
            return None;
        }
        let ghost t = b.text();
        let mut result = String::new();
        let mut r = start_row;
        proof {
            assert(lines_text(t, start_row as int, start_row - 1) =~= Seq::<char>::empty());
        }
        while r <= end_row
            invariant
                t == b.text(),
                start_row <= r <= end_row + 1,
                end_row < nl,
                nl == num_lines(t),
                result@ == lines_text(t, start_row as int, r - 1),
            decreases end_row + 1 - r,
        {
            let line = b.line_text(r);
            let v = chars_of(line.as_str());
            let e = crate::text::trim_end_crlf_index(&v, 0, v.len());
            proof {
                assert(v@.subrange(0, v@.len() as int) =~= v@);
            }
            let part = vstd::slice::slice_subrange(v.as_slice(), 0, e);
            let ps = string_from_chars(part);
            push_str(&mut result, ps.as_str());
            string_push(&mut result, '\n');
            r = r + 1;
        }
        Some(result)
    }

    /// Width of the active window's gutter: git signs, line numbers with a
    /// space, bookmarks, and a separator when any of these is shown.
    pub fn active_gutter_width(&self) -> (w: usize)
        requires
            self.wf(),
        ensures
            ({
                let c = self.gutter_config;
                let n = num_lines(self.cur_buf().text());
                let w0: nat = (if c.git_gutter_enabled { 1nat } else { 0nat }) + (if c.line_numbers_enabled {
                    decimal(if n >= 1 { n } else { 1 }).len() + 1
                } else {
                    0nat
                }) + (if c.bookmarks_enabled { 1nat } else { 0nat });
                w == (if w0 > 0 { w0 + 1 } else { 0 })
            }),
    {
        let c = self.gutter_config;
        let mut width: usize = 0;
        if c.git_gutter_enabled {
            width = width + 1;
        }
        if c.line_numbers_enabled {
            let total = self.buf().len_lines();
            let t = if total >= 1 {
                total
            } else {
                1
            };
            let digits = decimal_len_of(t);
            width = width + digits + 1;
        }
        if c.bookmarks_enabled {
            width = width + 1;
        }
        if width > 0 {
            width = width + 1;
        }
        width
    }

    /// Number of decimal digits of `n`.
    pub fn digit_count(n: usize) -> (d: usize)
        ensures
            d == decimal(n as nat).len(),
    {
        decimal_len_of(n)
    }
}

impl Editor {
    /// Rows the active buffer shows: those of its diff alignment when it
    /// has one, else its lines.
    pub fn active_virtual_line_count(&self) -> (n: usize)
        requires
            self.wf(),
        ensures
            n == match self.cur_buf().diff_alignment {
                Some(a) => a.left@.len(),
                None => num_lines(self.cur_buf().text()),
            },
    {
        match &self.buf().diff_alignment {
            Some(a) => a.len(),
            None => self.buf().len_lines(),
        }
    }

    /// The configured scroll offset `offset`, capped to half the active
    /// window's height so it can never trap the cursor.
    pub fn effective_scroll_offset(&self, offset: usize) -> (r: usize)
        requires
            self.wf(),
        ensures
            r == (if offset < self.win().height / 2 { offset } else { self.win().height / 2 }),
    {
        if offset == 0 {
            return 0;
        }
        let half = self.windows[self.active_window_idx].height / 2;
        if offset < half {
            offset
        } else {
            half
        }
    }
}

/// The word `get_word_under_cursor` finds in `o`.
pub open spec fn cursor_word(o: Editor) -> Option<Seq<char>> {
    if o.win().row >= num_lines(o.cur_buf().text()) {
        None
    } else {
        word_under(line_of(o.cur_buf().text(), o.win().row as nat), o.win().col as int)
    }
}

impl Editor {
    /// Yank the word under the cursor into the internal clipboard; the
    /// caller wrote it to the system clipboard too when `system_written`.
    pub fn yank_word_to_system_clipboard(&mut self, system_written: bool)
        requires
            old(self).wf(),
        ensures
            match cursor_word(*old(self)) {
                Some(w) => {
                    &&& final(self).clipboard matches Some(c) && c@ == w
                    &&& final(self).status_msg@ == (if system_written {
                        "Yanked word '"@ + w + "' \u{2192} system clipboard"@
                    } else {
                        "Yanked word internally (system clipboard unavailable)"@
                    })
                    &&& *final(self) == (Editor {
                        clipboard: final(self).clipboard,
                        status_msg: final(self).status_msg,
                        status_kind: if system_written { MessageKind::Success } else { MessageKind::Info },
                        ..*old(self)
                    })
                },
                None => {
                    &&& final(self).status_msg@ == "No word under cursor"@
                    &&& *final(self) == (Editor {
                        status_msg: final(self).status_msg,
                        status_kind: MessageKind::Info,
                        ..*old(self)
                    })
                },
            },
    {
        match self.get_word_under_cursor() {
            Some(word) => {
                if system_written {
                    let mut msg = String::from_str("Yanked word '");
                    push_str(&mut msg, word.as_str());
                    push_str(&mut msg, "' \u{2192} system clipboard");
                    self.clipboard = Some(word);
                    self.set_status_msg(msg.as_str(), MessageKind::Success);
                } else {
                    self.clipboard = Some(word);
                    self.set_status_msg("Yanked word internally (system clipboard unavailable)", MessageKind::Info);
                }
            },
            None => {
                self.set_status_msg("No word under cursor", MessageKind::Info);
            },
        }
    }
}

} // verus!
