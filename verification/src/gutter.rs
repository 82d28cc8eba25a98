//! The gutter left of the text: line numbers, git signs and bookmarks.
//! Signs overlay the leading space of right-aligned line numbers.

use crate::buffer::{Buffer, GitSign};
use crate::lines::num_lines;
use crate::text::{decimal, push_decimal, string_push, string_from_chars, chars_of};
use crate::window::Window;
use vstd::prelude::*;

verus! {

/// The gutter settings.
#[derive(Debug, Clone, Copy)]
pub struct GutterConfig {
    pub line_numbers_enabled: bool,
    pub relative_line_numbers: bool,
    pub git_gutter_enabled: bool,
    pub bookmarks_enabled: bool,
}

/// How a piece of the gutter is drawn.
#[derive(Debug, Clone, Copy, PartialEq, Eq, Structural)]
pub enum GutterStyle {
    Plain,
    /// Added lines: green.
    Added,
    /// Modified lines: yellow.
    Modified,
    /// Removed lines: red.
    Removed,
    /// Bookmarks: magenta.
    Mark,
    /// The cursor line's number: bright and bold.
    CursorNumber,
    /// Other line numbers: dim.
    Number,
}

/// A piece of gutter text.
#[derive(Debug, Clone)]
pub struct GutterSpan {
    pub text: String,
    pub style: GutterStyle,
}

impl View for GutterSpan {
    type V = (Seq<char>, GutterStyle);

    open spec fn view(&self) -> (Seq<char>, GutterStyle) {
        (self.text@, self.style)
    }
}

/// Columns the line number takes: the digits of the line count.
pub open spec fn number_width(b: Buffer) -> nat {
    decimal(num_lines(b.text())).len()
}

/// Width of the gutter.
pub open spec fn gutter_width_spec(b: Buffer, cfg: GutterConfig) -> nat {
    let w = if cfg.line_numbers_enabled {
        number_width(b) + (if cfg.git_gutter_enabled || cfg.bookmarks_enabled { 1nat } else { 0nat })
    } else {
        (if cfg.git_gutter_enabled { 1nat } else { 0nat }) + (if cfg.bookmarks_enabled { 1nat } else { 0nat })
    };
    w + 1
}

proof fn lemma_decimal_len(n: nat)
    ensures
        decimal(n).len() >= 1,
        n >= 1 ==> decimal(n).len() <= n,
        n >= 2 ==> decimal(n).len() < n,
    decreases n,
{
    if n >= 10 {
        lemma_decimal_len(n / 10);
    }
}

pub open spec fn pow10(k: nat) -> nat
    decreases k,
{
    if k == 0 {
        1
    } else {
        10 * pow10((k - 1) as nat)
    }
}

proof fn lemma_decimal_digits(n: nat, k: nat)
    requires
        k >= 1,
        n < pow10(k),
    ensures
        decimal(n).len() <= k,
    decreases n,
{
    if n >= 10 {
        assert(k >= 2) by {
            if k == 1 {
                assert(pow10(1) == 10 * pow10(0));
            }
        }
        assert(n / 10 < pow10((k - 1) as nat)) by (nonlinear_arith)
            requires
                n < 10 * pow10((k - 1) as nat),
        ;
        lemma_decimal_digits(n / 10, (k - 1) as nat);
    }
}

/// Number of decimal digits of `n`.
pub fn decimal_len_of(n: usize) -> (l: usize)
    ensures
        l == decimal(n as nat).len(),
        l <= 20,
{
    decimal_len(n)
}

fn decimal_len(n: usize) -> (l: usize)
    ensures
        l == decimal(n as nat).len(),
        l <= 20,
{
    proof {
        reveal_with_fuel(pow10, 21);
        assert(pow10(20) == 100000000000000000000);
        lemma_decimal_digits(n as nat, 20);
    }
    let mut s = String::new();
    push_decimal(&mut s, n);
    proof {
        assert(s@ =~= decimal(n as nat));
        lemma_decimal_len(n as nat);
    }
    chars_of(s.as_str()).len()
}

/// Width of the gutter for `buf` with settings `cfg`.
pub fn gutter_width(buf: &Buffer, cfg: &GutterConfig) -> (w: usize)
    ensures
        w == gutter_width_spec(*buf, *cfg),
{
    let lw = decimal_len(buf.len_lines());
    proof {
        lemma_decimal_len(num_lines(buf.text()));
    }
    let mut width: usize = 0;
    if cfg.line_numbers_enabled {
        width = lw;
        if cfg.git_gutter_enabled || cfg.bookmarks_enabled {
            width = width + 1;
        }
    } else {
        if cfg.git_gutter_enabled {
            width = width + 1;
        }
        if cfg.bookmarks_enabled {
            width = width + 1;
        }
    }
    width + 1
}

/// The first bookmark letter on `row` in `marks`, scanning from `k`.
pub open spec fn mark_letter_from(marks: Seq<(char, (usize, usize))>, row: usize, k: int) -> Option<char>
    decreases marks.len() - k,
{
    if k < 0 || k >= marks.len() {
        None
    } else if marks[k].1.0 == row {
        Some(marks[k].0)
    } else {
        mark_letter_from(marks, row, k + 1)
    }
}

/// The sign shown on `row`: a git sign, else a bookmark letter, else the
/// unnamed bookmark arrow, else a blank.
pub open spec fn sign_of(b: Buffer, row: usize, cfg: GutterConfig) -> (char, GutterStyle) {
    if cfg.git_gutter_enabled && b.git_diffs@.dom().contains(row) {
        match b.git_diffs@[row] {
            GitSign::Added => ('\u{2503}', GutterStyle::Added),
            GitSign::Modified => ('\u{2503}', GutterStyle::Modified),
            GitSign::Removed => ('-', GutterStyle::Removed),
        }
    } else if cfg.bookmarks_enabled {
        match mark_letter_from(b.named_bookmarks@, row, 0) {
            Some(c) => (c, GutterStyle::Mark),
            None => if b.bookmarks@.contains(row) {
                ('\u{25ba}', GutterStyle::Mark)
            } else {
                (' ', GutterStyle::Plain)
            },
        }
    } else {
        (' ', GutterStyle::Plain)
    }
}

/// `s` right-aligned in `w` columns.
pub open spec fn pad_left(s: Seq<char>, w: nat) -> Seq<char> {
    if s.len() < w {
        Seq::new((w - s.len()) as nat, |i: int| ' ') + s
    } else {
        s
    }
}

/// Right-aligning keeps the text at the end and fills only blanks in
/// front, up to the width (never cutting a longer text).
pub proof fn lemma_pad_left(s: Seq<char>, w: nat)
    ensures
        pad_left(s, w).len() == if s.len() < w { w } else { s.len() },
        pad_left(s, w).skip(pad_left(s, w).len() - s.len()) == s,
        forall|i: int| 0 <= i < pad_left(s, w).len() - s.len() ==> #[trigger] pad_left(s, w)[i] == ' ',
{
    let p = pad_left(s, w);
    assert(p.skip(p.len() - s.len()) =~= s);
}

/// The spans of the gutter on `row`.
pub open spec fn gutter_spans(b: Buffer, win: Window, row: usize, cfg: GutterConfig) -> Seq<(Seq<char>, GutterStyle)> {
    let (sign, sign_style) = sign_of(b, row, cfg);
    let has_signs = cfg.git_gutter_enabled || cfg.bookmarks_enabled;
    if cfg.line_numbers_enabled {
        let fw = number_width(b) + (if has_signs { 1nat } else { 0nat });
        let cursor = win.row == row;
        let n: nat = if cfg.relative_line_numbers && !cursor {
            if win.row >= row { (win.row - row) as nat } else { (row - win.row) as nat }
        } else {
            row as nat + 1
        };
        let num = pad_left(decimal(n), fw);
        let style = if cursor { GutterStyle::CursorNumber } else { GutterStyle::Number };
        (if has_signs {
            seq![(seq![sign], sign_style)] + (if num.len() > 1 {
                seq![(num.drop_first(), style)]
            } else {
                Seq::empty()
            })
        } else {
            seq![(num, style)]
        }) + seq![(seq![' '], GutterStyle::Plain)]
    } else {
        (if cfg.git_gutter_enabled { seq![(seq![sign], sign_style)] } else { Seq::empty() })
            + (if cfg.bookmarks_enabled && sign == '\u{25ba}' {
            seq![(seq!['\u{25ba}'], GutterStyle::Mark)]
        } else {
            Seq::empty()
        }) + seq![(seq![' '], GutterStyle::Plain)]
    }
}

fn mark_letter(marks: &Vec<(char, (usize, usize))>, row: usize) -> (r: Option<char>)
    ensures
        r == mark_letter_from(marks@, row, 0),
{
    let mut k: usize = 0;
    while k < marks.len()
        invariant
            k <= marks@.len(),
            mark_letter_from(marks@, row, 0) == mark_letter_from(marks@, row, k as int),
        decreases marks@.len() - k,
    {
        if marks[k].1.0 == row {
            return Some(marks[k].0);
        }
        k = k + 1;
    }
    None
}

fn sign_for(b: &Buffer, row: usize, cfg: &GutterConfig) -> (r: (char, GutterStyle))
    ensures
        r == sign_of(*b, row, *cfg),
{
    if cfg.git_gutter_enabled {
        match b.git_diffs.get(&row) {
            Some(s) => {
                return match s {
                    GitSign::Added => ('\u{2503}', GutterStyle::Added),
                    GitSign::Modified => ('\u{2503}', GutterStyle::Modified),
                    GitSign::Removed => ('-', GutterStyle::Removed),
                };
            },
            None => {},
        }
    }
    if cfg.bookmarks_enabled {
        match mark_letter(&b.named_bookmarks, row) {
            Some(c) => (c, GutterStyle::Mark),
            None => if b.bookmarks.contains(&row) {
                ('\u{25ba}', GutterStyle::Mark)
            } else {
                (' ', GutterStyle::Plain)
            },
        }
    } else {
        (' ', GutterStyle::Plain)
    }
}

fn one(c: char, style: GutterStyle) -> (s: GutterSpan)
    ensures
        s@ == (seq![c], style),
{
    let mut t = String::new();
    string_push(&mut t, c);
    proof {
        assert(t@ =~= seq![c]);
    }
    GutterSpan { text: t, style }
}

fn padded_number(n: usize, w: usize) -> (s: String)
    ensures
        s@ == pad_left(decimal(n as nat), w as nat),
{
    let mut digits = String::new();
    push_decimal(&mut digits, n);
    let dl = chars_of(digits.as_str()).len();
    let mut s = String::new();
    if dl < w {
        let mut i: usize = 0;
        while i < w - dl
            invariant
                i <= w - dl,
                s@ == Seq::new(i as nat, |j: int| ' '),
            decreases w - dl - i,
        {
            string_push(&mut s, ' ');
            i = i + 1;
            proof {
                assert(s@ =~= Seq::new(i as nat, |j: int| ' '));
            }
        }
    }
    crate::text::push_str(&mut s, digits.as_str());
    proof {
        assert(digits@ =~= decimal(n as nat));
        assert(s@ =~= pad_left(decimal(n as nat), w as nat));
    }
    s
}

/// The gutter of line `row` of `buf` shown in `win`.
pub fn render_gutter_line(buf: &Buffer, win: &Window, row: usize, cfg: &GutterConfig) -> (spans: Vec<GutterSpan>)
    requires
        row < usize::MAX,
    ensures
        spans@.map_values(|s: GutterSpan| s@) == gutter_spans(*buf, *win, row, *cfg),
{
    let (sign, sign_style) = sign_for(buf, row, cfg);
    let has_signs = cfg.git_gutter_enabled || cfg.bookmarks_enabled;
    let mut spans: Vec<GutterSpan> = Vec::new();
    let ghost expect = gutter_spans(*buf, *win, row, *cfg);
    if cfg.line_numbers_enabled {
        let lw = decimal_len(buf.len_lines());
        proof {
            lemma_decimal_len(num_lines(buf.text()));
        }
        let fw = if has_signs {
            lw + 1
        } else {
            lw
        };
        let cursor = win.row == row;
        let n = if cfg.relative_line_numbers && !cursor {
            if win.row >= row {
                win.row - row
            } else {
                row - win.row
            }
        } else {
            row + 1
        };
        let num = padded_number(n, fw);
        let style = if cursor {
            GutterStyle::CursorNumber
        } else {
            GutterStyle::Number
        };
        if has_signs {
            spans.push(one(sign, sign_style));
            let nv = chars_of(num.as_str());
            if nv.len() > 1 {
                let rest = vstd::slice::slice_subrange(nv.as_slice(), 1, nv.len());
                let t = string_from_chars(rest);
                proof {
                    assert(t@ =~= num@.drop_first());
                }
                spans.push(GutterSpan { text: t, style });
            }
        } else {
            spans.push(GutterSpan { text: num, style });
        }
        spans.push(one(' ', GutterStyle::Plain));
    } else {
        if cfg.git_gutter_enabled {
            spans.push(one(sign, sign_style));
        }
        if cfg.bookmarks_enabled && sign == '\u{25ba}' {
            spans.push(one('\u{25ba}', GutterStyle::Mark));
        }
        spans.push(one(' ', GutterStyle::Plain));
    }
    proof {
        assert(spans@.map_values(|s: GutterSpan| s@) =~= expect);
    }
    spans
}

/// Total number of chars in `spans`.
pub open spec fn spans_width(spans: Seq<(Seq<char>, GutterStyle)>) -> nat
    decreases spans.len(),
{
    if spans.len() == 0 {
        0
    } else {
        spans_width(spans.drop_last()) + spans.last().0.len()
    }
}

proof fn lemma_spans_width_concat(a: Seq<(Seq<char>, GutterStyle)>, b: Seq<(Seq<char>, GutterStyle)>)
    ensures
        spans_width(a + b) == spans_width(a) + spans_width(b),
    decreases b.len(),
{
    if b.len() == 0 {
        assert(a + b =~= a);
    } else {
        assert((a + b).drop_last() =~= a + b.drop_last());
        lemma_spans_width_concat(a, b.drop_last());
    }
}

proof fn lemma_decimal_mono(a: nat, b: nat)
    requires
        a <= b,
    ensures
        decimal(a).len() <= decimal(b).len(),
    decreases b,
{
    if b >= 10 && a >= 10 {
        lemma_decimal_mono(a / 10, b / 10);
    } else if b >= 10 {
        lemma_decimal_len(b);
    }
}

/// With line numbers shown, every rendered gutter line is exactly as wide
/// as the gutter: the sign column, the right-aligned number and one
/// separating space.
pub proof fn lemma_gutter_line_width(b: Buffer, win: Window, row: usize, cfg: GutterConfig)
    requires
        cfg.line_numbers_enabled,
        row < num_lines(b.text()),
        win.row < num_lines(b.text()),
    ensures
        spans_width(gutter_spans(b, win, row, cfg)) == gutter_width_spec(b, cfg),
{
    let nl = num_lines(b.text());
    let has_signs = cfg.git_gutter_enabled || cfg.bookmarks_enabled;
    let fw = number_width(b) + (if has_signs { 1nat } else { 0nat });
    let cursor = win.row == row;
    let n: nat = if cfg.relative_line_numbers && !cursor {
        if win.row >= row { (win.row - row) as nat } else { (row - win.row) as nat }
    } else {
        row as nat + 1
    };
    lemma_decimal_mono(n, nl);
    lemma_decimal_len(nl);
    let num = pad_left(decimal(n), fw);
    assert(num.len() == fw);
    let (sign, sign_style) = sign_of(b, row, cfg);
    let style = if cursor { GutterStyle::CursorNumber } else { GutterStyle::Number };
    let tail = seq![(seq![' '], GutterStyle::Plain)];
    reveal_with_fuel(spans_width, 3);
    if has_signs {
        let head = seq![(seq![sign], sign_style)] + seq![(num.drop_first(), style)];
        assert(spans_width(seq![(seq![sign], sign_style)]) == 1);
        lemma_spans_width_concat(seq![(seq![sign], sign_style)], seq![(num.drop_first(), style)]);
        lemma_spans_width_concat(head, tail);
        assert(gutter_spans(b, win, row, cfg) == head + tail);
    } else {
        lemma_spans_width_concat(seq![(num, style)], tail);
        assert(gutter_spans(b, win, row, cfg) == seq![(num, style)] + tail);
    }
}

} // verus!
