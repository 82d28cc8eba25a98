//! Placing the cursor on a symbol after a tag jump, and converting
//! between the byte offsets and the char offsets of a line.

use vstd::prelude::*;
use vstd::utf8::{encode_scalar, encode_utf8};
use crate::text::{chars_of, path_file_name, spec_path_file_name, occurs_at};
use crate::editor::Editor;
use crate::lines::{line_len, line_of, num_lines};
use crate::subst::{find_from, first_occ_from, lemma_first_occ};
use crate::window::Window;

verus! {

/// Bytes that `c` takes in UTF-8.
pub open spec fn utf8_width(c: char) -> nat {
    encode_scalar(c as u32).len()
}

/// Byte offset of char `k` of `s`: the length of the UTF-8 encoding of
/// the first `k` chars.
pub open spec fn byte_pos(s: Seq<char>, k: int) -> nat {
    encode_utf8(s.take(k)).len()
}

pub proof fn lemma_encode_concat(a: Seq<char>, b: Seq<char>)
    ensures
        encode_utf8(a + b) == encode_utf8(a) + encode_utf8(b),
    decreases a.len(),
{
    if a.len() == 0 {
        assert(a + b =~= b);
        assert(encode_utf8(a) + encode_utf8(b) =~= encode_utf8(b));
    } else {
        lemma_encode_concat(a.drop_first(), b);
        assert((a + b).drop_first() =~= a.drop_first() + b);
        assert((a + b)[0] == a[0]);
        assert(encode_utf8(a + b) =~= encode_utf8(a) + encode_utf8(b));
    }
}

/// Each char adds its own width to the byte offset.
pub proof fn lemma_byte_pos_step(s: Seq<char>, k: int)
    requires
        0 <= k < s.len(),
    ensures
        byte_pos(s, k + 1) == byte_pos(s, k) + utf8_width(s[k]),
        1 <= utf8_width(s[k]) <= 4,
{
    let one = seq![s[k]];
    assert(s.take(k + 1) =~= s.take(k) + one);
    lemma_encode_concat(s.take(k), one);
    vstd::utf8::char_is_scalar(s[k]);
    assert(one[0] == s[k]);
    assert(one.drop_first() =~= Seq::<char>::empty());
    assert(encode_utf8(one.drop_first()).len() == 0);
    assert(encode_utf8(one) =~= encode_scalar(one[0] as u32) + encode_utf8(one.drop_first()));
    assert(encode_utf8(one) =~= encode_scalar(s[k] as u32));
}

/// The byte offset of the first char is 0, and that of the end of the
/// chars is the length of their encoding.
pub proof fn lemma_byte_pos_ends(s: Seq<char>)
    ensures
        byte_pos(s, 0) == 0,
        byte_pos(s, s.len() as int) == encode_utf8(s).len(),
{
    assert(s.take(0) =~= Seq::<char>::empty());
    assert(s.take(s.len() as int) =~= s);
}

/// Byte offsets grow by at least one per char.
pub proof fn lemma_byte_pos_mono(s: Seq<char>, j: int, k: int)
    requires
        0 <= j <= k <= s.len(),
    ensures
        byte_pos(s, j) + (k - j) <= byte_pos(s, k),
    decreases k - j,
{
    if j < k {
        lemma_byte_pos_mono(s, j, k - 1);
        lemma_byte_pos_step(s, k - 1);
    }
}

/// Going from a char offset to its byte offset and back gives the same
/// char offset: distinct char offsets of a line have distinct byte
/// offsets.
pub proof fn lemma_offset_round_trip(s: Seq<char>, j: int, k: int)
    requires
        0 <= j <= s.len(),
        0 <= k <= s.len(),
        byte_pos(s, j) == byte_pos(s, k),
    ensures
        j == k,
{
    if j < k {
        lemma_byte_pos_mono(s, j, k);
    } else if k < j {
        lemma_byte_pos_mono(s, k, j);
    }
}

/// `char::len_utf8`.
fn char_utf8_len(c: char) -> (n: usize)
    ensures
        n == utf8_width(c),
{
    proof {
        vstd::utf8::char_is_scalar(c);
    }
    let u = c as u32;
    if u < 0x80 {
        1
    } else if u < 0x800 {
        2
    } else if u < 0x10000 {
        3
    } else {
        4
    }
}

/// Number of bytes in `s`.
pub fn str_byte_len(s: &str) -> (n: usize)
    ensures
        n == encode_utf8(s@).len(),
{
    let b = s.as_bytes();
    b.len()
}

/// Char index of byte offset `byte_offset` of `s` (`s[..byte_offset]`
/// counted in chars).  The offset must lie on a char boundary.
pub fn byte_to_char_offset(s: &str, byte_offset: usize) -> (k: usize)
    requires
        exists|j: int| 0 <= j <= s@.len() && byte_pos(s@, j) == byte_offset,
    ensures
        k <= s@.len(),
        byte_pos(s@, k as int) == byte_offset,
{
    let v = chars_of(s);
    let n = v.len();
    let total = str_byte_len(s);
    let ghost jj = choose|j: int| 0 <= j <= s@.len() && byte_pos(s@, j) == byte_offset;
    proof {
        lemma_byte_pos_ends(s@);
    }
    let mut k: usize = 0;
    let mut b: usize = 0;
    while b < byte_offset
        invariant
            v@ == s@,
            n == v@.len(),
            0 <= jj <= s@.len(),
            byte_pos(s@, jj) == byte_offset,
            total == encode_utf8(s@).len(),
            k <= jj,
            b == byte_pos(s@, k as int),
        decreases jj - k,
    {
        proof {
            if k == jj {
                assert(false);
            }
            lemma_byte_pos_step(s@, k as int);
            lemma_byte_pos_mono(s@, k + 1, jj);
        }
        let w = char_utf8_len(v[k]);
        b = b + w;
        k = k + 1;
    }
    proof {
        if k < jj {
            lemma_byte_pos_mono(s@, k as int, jj);
        }
    }
    k
}

/// Byte offset of char `char_offset` of `s`, or the byte length of `s`
/// when there are not that many chars.
pub fn char_offset_to_byte_offset(s: &str, char_offset: usize) -> (b: usize)
    ensures
        char_offset < s@.len() ==> b == byte_pos(s@, char_offset as int),
        char_offset >= s@.len() ==> b == encode_utf8(s@).len(),
{
    let v = chars_of(s);
    let total = str_byte_len(s);
    proof {
        lemma_byte_pos_ends(s@);
    }
    let mut k: usize = 0;
    let mut b: usize = 0;
    while k < v.len() && k < char_offset
        invariant
            v@ == s@,
            total == encode_utf8(s@).len(),
            byte_pos(s@, s@.len() as int) == total,
            k <= s@.len(),
            k <= char_offset,
            b == byte_pos(s@, k as int),
        decreases s@.len() - k,
    {
        proof {
            lemma_byte_pos_step(s@, k as int);
            lemma_byte_pos_mono(s@, k + 1, s@.len() as int);
        }
        let w = char_utf8_len(v[k]);
        b = b + w;
        k = k + 1;
    }
    b
}

/// A char that continues an identifier in the byte-wise sense of the
/// jump code: an ASCII letter or digit, or `_`.
pub open spec fn ident_byte_char(c: char) -> bool {
    ('a' <= c <= 'z') || ('A' <= c <= 'Z') || ('0' <= c <= '9') || c == '_'
}

/// `word` stands at char `p` of `line` as a whole word: it occurs there
/// and no identifier char touches it on either side.
pub open spec fn whole_word_at(line: Seq<char>, word: Seq<char>, p: int) -> bool {
    &&& occurs_at(line, word, p)
    &&& (p == 0 || !ident_byte_char(line[p - 1]))
    &&& (p + word.len() >= line.len() || !ident_byte_char(line[p + word.len()]))
}

/// No whole-word occurrence of `word` starts before `p`.
pub open spec fn no_whole_word_before(line: Seq<char>, word: Seq<char>, p: int) -> bool {
    forall|q: int| 0 <= q < p ==> !#[trigger] whole_word_at(line, word, q)
}

/// The byte-wise search resumes one byte after each rejected match.  That
/// byte is a char boundary unless the match starts with a char of more
/// than one byte and more text follows; the search is defined exactly
/// when no rejected match before the first whole-word one is of that
/// kind.
pub open spec fn word_search_defined(line: Seq<char>, word: Seq<char>) -> bool {
    forall|p: int|
        #![trigger occurs_at(line, word, p)]
        occurs_at(line, word, p) && !whole_word_at(line, word, p) && no_whole_word_before(
            line,
            word,
            p,
        ) ==> !(p + word.len() < line.len() && (line[p] as u32) >= 0x80)
}

/// Char index of the first whole-word occurrence of `word` in `line`.
pub fn find_word_in_line(line: &str, word: &str) -> (r: Option<usize>)
    requires
        word_search_defined(line@, word@),
    ensures
        r matches Some(p) ==> whole_word_at(line@, word@, p as int) && no_whole_word_before(
            line@,
            word@,
            p as int,
        ),
        r is None ==> no_whole_word_before(line@, word@, line@.len() as int + 1),
{
    let lv = chars_of(line);
    let wv = chars_of(word);
    let n = lv.len();
    let m = wv.len();
    if m > n {
        return None;
    }
    let last = n - m;
    let mut p: usize = 0;
    loop
        invariant
            lv@ == line@,
            wv@ == word@,
            n == lv@.len(),
            m == wv@.len(),
            m <= n,
            last == n - m,
            p <= last,
            no_whole_word_before(line@, word@, p as int),
        ensures
            no_whole_word_before(line@, word@, last + 1),
        decreases last - p,
    {
        let mut j: usize = 0;
        let mut same = true;
        while j < m
            invariant
                lv@ == line@,
                wv@ == word@,
                n == lv@.len(),
                m == wv@.len(),
                p + m <= n,
                j <= m,
                same == (forall|i: int| 0 <= i < j ==> lv@[p + i] == wv@[i]),
            decreases m - j,
        {
            if lv[p + j] != wv[j] {
                same = false;
            }
            j = j + 1;
        }
        proof {
            if same {
                assert(line@.subrange(p as int, p + m) =~= word@);
            } else {
                let i = choose|i: int| 0 <= i < m && lv@[p + i] != wv@[i];
                assert(line@.subrange(p as int, p + m)[i] != word@[i]);
            }
        }
        if same {
            let before_ok = p == 0 || !is_ident_byte_char(lv[p - 1]);
            let after_ok = p + m >= n || !is_ident_byte_char(lv[p + m]);
            if before_ok && after_ok {
                return Some(p);
            }
        }
        if p == last {
            break;
        }
        p = p + 1;
    }
    proof {
        assert forall|q: int| 0 <= q < line@.len() as int + 1 implies !#[trigger] whole_word_at(
            line@,
            word@,
            q,
        ) by {
            if q > last {
                assert(!occurs_at(line@, word@, q));
            }
        }
    }
    None
}

fn is_ident_byte_char(c: char) -> (b: bool)
    ensures
        b == ident_byte_char(c),
{
    ('a' <= c && c <= 'z') || ('A' <= c && c <= 'Z') || ('0' <= c && c <= '9') || c == '_'
}

/// Last component of a repository path, or the path itself when it has
/// none (`/`, `..`).
pub fn short_repo_name(path: &str) -> (r: String)
    ensures
        spec_path_file_name(path@) matches Some(n) ==> r@ == n,
        spec_path_file_name(path@) is None ==> r@ == path@,
{
    match path_file_name(path) {
        Some(n) => n,
        None => path.to_string(),
    }
}

/// Char index of the first whole-word occurrence of `w` in `line`.
pub open spec fn first_word_pos(line: Seq<char>, w: Seq<char>) -> Option<nat> {
    if exists|p: int| #[trigger] whole_word_at(line, w, p) {
        Some((choose|p: int| whole_word_at(line, w, p) && no_whole_word_before(line, w, p)) as nat)
    } else {
        None
    }
}

/// First row in `r ..= end` of `t` with a whole-word occurrence of `w`,
/// and that occurrence's column.
pub open spec fn first_word_hit(t: Seq<char>, w: Seq<char>, r: nat, end: nat) -> Option<(nat, nat)>
    decreases end + 1 - r,
{
    if r > end {
        None
    } else {
        match first_word_pos(line_of(t, r), w) {
            Some(p) => Some((r, p)),
            None => first_word_hit(t, w, r + 1, end),
        }
    }
}

/// First row in `r ..= end` of `t` where `w` occurs at all, and the
/// column of its first occurrence there.
pub open spec fn first_text_hit(t: Seq<char>, w: Seq<char>, r: nat, end: nat) -> Option<(nat, nat)>
    decreases end + 1 - r,
{
    if r > end {
        None
    } else {
        match first_occ_from(line_of(t, r), w, 0) {
            Some(p) => Some((r, p as nat)),
            None => first_text_hit(t, w, r + 1, end),
        }
    }
}

/// The whole-word search over rows `r ..= end` finds its way without
/// meeting a line it cannot search (see `word_search_defined`).
pub open spec fn word_search_safe(t: Seq<char>, w: Seq<char>, r: nat, end: nat) -> bool
    decreases end + 1 - r,
{
    r > end || (word_search_defined(line_of(t, r), w) && (first_word_pos(line_of(t, r), w) is Some
        || word_search_safe(t, w, r + 1, end)))
}

/// The rows searched around line `target`: five either side, kept inside
/// the text.
pub open spec fn search_rows(t: Seq<char>, target: nat) -> (nat, nat) {
    let s = if target >= 5 { (target - 5) as nat } else { 0 };
    let e = if target + 5 < num_lines(t) - 1 { target + 5 } else { (num_lines(t) - 1) as nat };
    (s, e)
}

/// A row and column as machine integers.
pub open spec fn as_position(p: Option<(nat, nat)>) -> Option<(usize, usize)> {
    match p {
        Some((r, c)) => Some((r as usize, c as usize)),
        None => None,
    }
}

/// The cursor already sits on `w` at `(row, col)` (a column past the
/// first).
pub open spec fn at_symbol(t: Seq<char>, w: Seq<char>, row: nat, col: nat) -> bool {
    col > 0 && row < num_lines(t) && col < line_len(t, row) && occurs_at(line_of(t, row), w, col as int)
}

/// Where the cursor goes to sit on symbol `w` after a jump to line
/// `row`, column `col`: nowhere new when it is on it already; else the
/// first whole-word occurrence in the rows around, else the first
/// occurrence at all.
pub open spec fn refined_target(t: Seq<char>, w: Seq<char>, row: nat, col: nat) -> Option<(nat, nat)> {
    if at_symbol(t, w, row, col) {
        None
    } else {
        let (s, e) = search_rows(t, row);
        match first_word_hit(t, w, s, e) {
            Some(x) => Some(x),
            None => first_text_hit(t, w, s, e),
        }
    }
}

proof fn lemma_first_word_pos(line: Seq<char>, w: Seq<char>, p: int)
    requires
        whole_word_at(line, w, p),
        no_whole_word_before(line, w, p),
    ensures
        first_word_pos(line, w) == Some(p as nat),
{
    let q = choose|q: int| whole_word_at(line, w, q) && no_whole_word_before(line, w, q);
    assert(whole_word_at(line, w, q) && no_whole_word_before(line, w, q));
    if q < p {
        assert(!whole_word_at(line, w, q));
    }
    if p < q {
        assert(!whole_word_at(line, w, p));
    }
}

/// Where the cursor goes to sit on `symbol` after a jump to
/// `(target_line, original_col)` in `t` (see `refined_target`).
pub fn refine_target(t: &crate::buffer::Buffer, symbol: &str, target_line: usize, original_col: usize) -> (r: Option<(usize, usize)>)
    requires
        !at_symbol(t.text(), symbol@, target_line as nat, original_col as nat) ==> word_search_safe(
            t.text(),
            symbol@,
            search_rows(t.text(), target_line as nat).0,
            search_rows(t.text(), target_line as nat).1,
        ),
    ensures
        r == as_position(refined_target(t.text(), symbol@, target_line as nat, original_col as nat)),
{
    let ghost tx = t.text();
    let ghost w = symbol@;
    let n = t.len_lines();
    let wv = chars_of(symbol);
    if original_col > 0 && target_line < n {
        let line = t.line_text(target_line);
        let lv = chars_of(line.as_str());
        if original_col < lv.len() && wv.len() <= lv.len() - original_col {
            if crate::subst::occurs_at_exec(&lv, &wv, original_col) {
                return None;
            }
        }
    }
    let start = if target_line >= 5 {
        target_line - 5
    } else {
        0
    };
    let max_row = n - 1;
    let end = if target_line < max_row && max_row - target_line > 5 {
        target_line + 5
    } else {
        max_row
    };
    proof {
        assert((start as nat, end as nat) == search_rows(tx, target_line as nat));
        assert(!at_symbol(tx, w, target_line as nat, original_col as nat));
    }
    let mut r = start;
    while r <= end
        invariant
            !at_symbol(tx, w, target_line as nat, original_col as nat),
            (start as nat, end as nat) == search_rows(tx, target_line as nat),
            start <= r,
            end < usize::MAX,
            first_word_hit(tx, w, start as nat, end as nat) == first_word_hit(tx, w, r as nat, end as nat),
            word_search_safe(tx, w, r as nat, end as nat),
            tx == t.text(),
            w == symbol@,
        decreases end + 1 - r,
    {
        let line = t.line_text(r);
        proof {
            assert(word_search_defined(line_of(tx, r as nat), w));
        }
        match find_word_in_line(line.as_str(), symbol) {
            Some(col) => {
                proof {
                    lemma_first_word_pos(line@, w, col as int);
                }
                return Some((r, col));
            },
            None => {
                proof {
                    assert(first_word_pos(line@, w) is None) by {
                        if exists|p: int| #[trigger] whole_word_at(line@, w, p) {
                            let p = choose|p: int| #[trigger] whole_word_at(line@, w, p);
                            assert(p <= line@.len());
                            assert(!whole_word_at(line@, w, p));
                        }
                    }
                }
            },
        }
        r = r + 1;
    }
    proof {
        assert(first_word_hit(tx, w, r as nat, end as nat) is None);
    }
    let mut r = start;
    while r <= end
        invariant
            !at_symbol(tx, w, target_line as nat, original_col as nat),
            (start as nat, end as nat) == search_rows(tx, target_line as nat),
            first_word_hit(tx, w, start as nat, end as nat) is None,
            start <= r,
            end < usize::MAX,
            first_text_hit(tx, w, start as nat, end as nat) == first_text_hit(tx, w, r as nat, end as nat),
            wv@ == w,
            w == symbol@,
            tx == t.text(),
        decreases end + 1 - r,
    {
        let line = t.line_text(r);
        let lv = chars_of(line.as_str());
        match find_from(&lv, &wv, 0) {
            Some(col) => {
                proof {
                    assert(lv@ == line_of(tx, r as nat));
                    assert(first_text_hit(tx, w, r as nat, end as nat) == Some((r as nat, col as nat)));
                }
                return Some((r, col));
            },
            None => {},
        }
        r = r + 1;
    }
    None
}

impl Editor {
    /// After a jump to `(target_line, original_col)`, put the cursor on
    /// `symbol` (see `refined_target`); the cursor stays when the symbol
    /// is not found.
    pub fn refine_jump_position(&mut self, symbol: &str, target_line: usize, original_col: usize)
        requires
            old(self).wf(),
            !at_symbol(old(self).cur_buf().text(), symbol@, target_line as nat, original_col as nat)
                ==> word_search_safe(
                old(self).cur_buf().text(),
                symbol@,
                search_rows(old(self).cur_buf().text(), target_line as nat).0,
                search_rows(old(self).cur_buf().text(), target_line as nat).1,
            ),
        ensures
            final(self).wf(),
            match refined_target(old(self).cur_buf().text(), symbol@, target_line as nat, original_col as nat) {
                None => *final(self) == *old(self),
                Some((r, c)) => final(self).windows@ == old(self).windows@.update(
                    old(self).active_window_idx as int,
                    Window { row: r as usize, col: c as usize, desired_col: c as usize, ..old(self).win() },
                ) && *final(self) == (Editor { windows: final(self).windows, ..*old(self) }),
            },
    {
        match refine_target(self.buf(), symbol, target_line, original_col) {
            Some((r, c)) => {
                self.move_active_cursor(r, c);
            },
            None => {},
        }
    }

    fn move_active_cursor(&mut self, row: usize, col: usize)
        requires
            old(self).wf(),
        ensures
            final(self).wf(),
            final(self).windows@ == old(self).windows@.update(
                old(self).active_window_idx as int,
                Window { row, col, desired_col: col, ..old(self).win() },
            ),
            *final(self) == (Editor { windows: final(self).windows, ..*old(self) }),
    {
        let ghost o = *self;
        let idx = self.active_window_idx;
        self.windows[idx].row = row;
        self.windows[idx].col = col;
        self.windows[idx].desired_col = col;
        proof {
            assert(self.windows@ =~= o.windows@.update(idx as int, Window { row, col, desired_col: col, ..o.win() }));
            assert forall|k: int| 0 <= k < self.windows@.len() implies self.has_buf(
                #[trigger] self.windows@[k].buf_id,
            ) by {
                assert(o.has_buf(o.windows@[k].buf_id));
            }
        }
    }
}

} // verus!
