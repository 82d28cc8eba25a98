//! EasyMotion: type two characters, then a label, and the cursor jumps
//! to that match among the visible lines.

use crate::editor::{Editor, Key, MessageKind};
use crate::lines::{line_of, num_lines};
use crate::tag::{byte_pos, str_byte_len};
use crate::text::{chars_of, occurs_at, push_str, string_push, string_from_chars};
use crate::window::Window;
use vstd::prelude::*;
use vstd::utf8::encode_utf8;

verus! {

#[derive(Debug, Clone, Copy, PartialEq, Eq, Structural)]
pub enum EasyMotionPhase {
    /// Reading the characters to look for.
    Collecting,
    /// Reading the label of the target.
    Selecting,
}

/// A match the cursor can jump to.
#[derive(Debug, Clone)]
pub struct EasyMotionTarget {
    pub row: usize,
    /// Char index within the line.
    pub col: usize,
    pub label: String,
}

#[derive(Debug, Clone)]
pub struct EasyMotionState {
    pub prefix: String,
    pub phase: EasyMotionPhase,
    pub targets: Vec<EasyMotionTarget>,
    pub partial_label: String,
    /// 1 for up to 26 targets, 2 beyond.
    pub label_len: usize,
}

/// `s` without its trailing `'\r'` chars.
pub open spec fn trim_cr(s: Seq<char>) -> Seq<char>
    decreases s.len(),
{
    if s.len() > 0 && s.last() == '\r' {
        trim_cr(s.drop_last())
    } else {
        s
    }
}

/// Columns of the non-overlapping occurrences of `p` in `line` from `i`.
pub open spec fn match_cols(line: Seq<char>, p: Seq<char>, i: nat) -> Seq<nat>
    decreases line.len() - i,
{
    if p.len() == 0 || i >= line.len() {
        Seq::empty()
    } else if occurs_at(line, p, i as int) {
        seq![i].add(match_cols(line, p, i + p.len()))
    } else {
        match_cols(line, p, i + 1)
    }
}

/// The targets on a line are exactly the non-overlapping occurrences of
/// a non-empty prefix from column `i` on, leftmost first: each column
/// holds an occurrence, each lies at least the prefix's length after the
/// one before, and no occurrence starts in the gaps before, between or
/// after them.
pub proof fn lemma_match_cols(line: Seq<char>, p: Seq<char>, i: nat)
    requires
        p.len() > 0,
    ensures
        ({
            let m = match_cols(line, p, i);
            &&& forall|k: int| 0 <= k < m.len() ==> i <= #[trigger] m[k] && occurs_at(line, p, m[k] as int)
            &&& forall|k: int| 0 <= k < m.len() - 1 ==> #[trigger] m[k] + p.len() <= m[k + 1]
            &&& m.len() == 0 ==> forall|q: int| i <= q ==> !#[trigger] occurs_at(line, p, q)
            &&& m.len() > 0 ==> forall|q: int| i <= q < m[0] ==> !#[trigger] occurs_at(line, p, q)
            &&& forall|k: int, q: int|
                0 <= k < m.len() - 1 && #[trigger] m[k] + p.len() <= q < m[k + 1] ==> !#[trigger] occurs_at(line, p, q)
            &&& m.len() > 0 ==> forall|q: int| m.last() + p.len() <= q ==> !#[trigger] occurs_at(line, p, q)
        }),
    decreases line.len() - i,
{
    let m = match_cols(line, p, i);
    if i >= line.len() {
    } else if occurs_at(line, p, i as int) {
        let r = match_cols(line, p, i + p.len());
        lemma_match_cols(line, p, i + p.len());
        assert(m == seq![i].add(r));
        assert forall|k: int| 0 <= k < m.len() implies i <= #[trigger] m[k] && occurs_at(line, p, m[k] as int) by {
            if k > 0 {
                assert(m[k] == r[k - 1]);
            }
        }
        assert forall|k: int| 0 <= k < m.len() - 1 implies #[trigger] m[k] + p.len() <= m[k + 1] by {
            assert(m[k + 1] == r[k]);
            if k > 0 {
                assert(m[k] == r[k - 1]);
            }
        }
        assert forall|k: int, q: int|
            0 <= k < m.len() - 1 && #[trigger] m[k] + p.len() <= q < m[k + 1] implies !#[trigger] occurs_at(line, p, q) by {
            assert(m[k + 1] == r[k]);
            if k > 0 {
                assert(m[k] == r[k - 1]);
            }
        }
        if r.len() > 0 {
            assert(m.last() == r.last());
        }
    } else {
        lemma_match_cols(line, p, i + 1);
    }
}

/// Targets for `p` on rows `r..end` of `t`, in reading order.
pub open spec fn em_targets(t: Seq<char>, p: Seq<char>, r: nat, end: nat) -> Seq<(nat, nat)>
    decreases end - r,
{
    if r >= end {
        Seq::empty()
    } else {
        match_cols(trim_cr(line_of(t, r)), p, 0).map_values(|c: nat| (r, c)) + em_targets(t, p, r + 1, end)
    }
}

/// Every target on rows `r..end` is a row in that range and a column
/// where the prefix occurs on that row (carriage return trimmed).
pub proof fn lemma_em_targets_occur(t: Seq<char>, p: Seq<char>, r: nat, end: nat)
    requires
        p.len() > 0,
    ensures
        forall|k: int| 0 <= k < em_targets(t, p, r, end).len() ==> {
            let (row, col) = #[trigger] em_targets(t, p, r, end)[k];
            r <= row < end && occurs_at(trim_cr(line_of(t, row)), p, col as int)
        },
    decreases end - r,
{
    if r < end {
        let here = match_cols(trim_cr(line_of(t, r)), p, 0).map_values(|c: nat| (r, c));
        let rest = em_targets(t, p, r + 1, end);
        lemma_match_cols(trim_cr(line_of(t, r)), p, 0);
        lemma_em_targets_occur(t, p, r + 1, end);
        assert(em_targets(t, p, r, end) == here + rest);
        assert forall|k: int| 0 <= k < em_targets(t, p, r, end).len() implies {
            let (row, col) = #[trigger] em_targets(t, p, r, end)[k];
            r <= row < end && occurs_at(trim_cr(line_of(t, row)), p, col as int)
        } by {
            if k < here.len() {
                assert(em_targets(t, p, r, end)[k] == here[k]);
            } else {
                assert(em_targets(t, p, r, end)[k] == rest[k - here.len()]);
            }
        }
    }
}

/// Label of target `i` when labels have `len` letters.
pub open spec fn em_label(i: nat, len: nat) -> Seq<char> {
    if len == 1 {
        seq![(('a' as nat) + i) as char]
    } else {
        seq![(('a' as nat) + i / 26) as char, (('a' as nat) + i % 26) as char]
    }
}

/// Different targets get different labels: with one letter for up to 26
/// targets, with two for up to 26 * 26; every letter is one of `a`..`z`.
pub proof fn lemma_em_labels_distinct(i: nat, j: nat, len: nat)
    requires
        len == 1 || len == 2,
        len == 1 ==> i < 26 && j < 26,
        len == 2 ==> i < 26 * 26 && j < 26 * 26,
        i != j,
    ensures
        em_label(i, len) != em_label(j, len),
        forall|k: int| 0 <= k < em_label(i, len).len() ==> 'a' <= #[trigger] em_label(i, len)[k] <= 'z',
{
    if len == 1 {
        assert(em_label(i, len)[0] != em_label(j, len)[0]);
    } else {
        vstd::arithmetic::div_mod::lemma_fundamental_div_mod(i as int, 26);
        vstd::arithmetic::div_mod::lemma_fundamental_div_mod(j as int, 26);
        vstd::arithmetic::div_mod::lemma_mod_pos_bound(i as int, 26);
        vstd::arithmetic::div_mod::lemma_mod_pos_bound(j as int, 26);
        assert(i / 26 < 26) by (nonlinear_arith)
            requires
                i < 26 * 26,
        ;
        if i / 26 == j / 26 {
            assert(i % 26 != j % 26);
            assert(em_label(i, len)[1] != em_label(j, len)[1]);
        } else {
            assert(em_label(i, len)[0] != em_label(j, len)[0]);
        }
    }
}

/// Rows shown by window `w` in text `t`.
pub open spec fn visible_end(w: Window, t: Seq<char>) -> nat {
    let e = w.scroll_line + w.height;
    if e < num_lines(t) { e as nat } else { num_lines(t) }
}

fn trim_cr_index(v: &Vec<char>) -> (e: usize)
    ensures
        e <= v@.len(),
        v@.take(e as int) == trim_cr(v@),
{
    let mut e = v.len();
    proof {
        assert(v@.take(e as int) =~= v@);
    }
    while e > 0 && v[e - 1] == '\r'
        invariant
            e <= v@.len(),
            trim_cr(v@) == trim_cr(v@.take(e as int)),
        decreases e,
    {
        proof {
            assert(v@.take(e as int).drop_last() =~= v@.take(e - 1));
        }
        e = e - 1;
    }
    e
}

fn occurs(v: &Vec<char>, p: &Vec<char>, i: usize) -> (b: bool)
    requires
        i + p@.len() <= v@.len(),
    ensures
        b == occurs_at(v@, p@, i as int),
{
    let m = p.len();
    let n = v.len();
    let mut j: usize = 0;
    while j < m
        invariant
            m == p@.len(),
            n == v@.len(),
            i + m <= n,
            j <= m,
            forall|k: int| 0 <= k < j ==> v@[i + k] == p@[k],
        decreases m - j,
    {
        if v[i + j] != p[j] {
            assert(v@.subrange(i as int, i + m)[j as int] != p@[j as int]);
            return false;
        }
        j = j + 1;
    }
    assert(v@.subrange(i as int, i + m) =~= p@);
    true
}

/// Push the targets of one line.
fn line_targets(line: &Vec<char>, p: &Vec<char>, row: usize, out: &mut Vec<(usize, usize)>)
    ensures
        final(out)@.map_values(|x: (usize, usize)| (x.0 as nat, x.1 as nat)) == old(out)@.map_values(
            |x: (usize, usize)| (x.0 as nat, x.1 as nat),
        ) + match_cols(line@, p@, 0).map_values(|c: nat| (row as nat, c)),
{
    let n = line.len();
    let m = p.len();
    let ghost base = old(out)@.map_values(|x: (usize, usize)| (x.0 as nat, x.1 as nat));
    if m == 0 {
        proof {
            assert(out@.map_values(|x: (usize, usize)| (x.0 as nat, x.1 as nat)) =~= base + Seq::<(nat, nat)>::empty());
        }
        return;
    }
    let mut i: usize = 0;
    while i < n
        invariant
            n == line@.len(),
            m == p@.len(),
            m > 0,
            i <= n,
            out@.map_values(|x: (usize, usize)| (x.0 as nat, x.1 as nat)) + match_cols(line@, p@, i as nat).map_values(
                |c: nat| (row as nat, c),
            ) == base + match_cols(line@, p@, 0).map_values(|c: nat| (row as nat, c)),
        decreases n - i,
    {
        if m <= n - i && occurs(line, p, i) {
            let ghost before = out@.map_values(|x: (usize, usize)| (x.0 as nat, x.1 as nat));
            out.push((row, i));
            proof {
                let rest = match_cols(line@, p@, (i + m) as nat).map_values(|c: nat| (row as nat, c));
                assert(match_cols(line@, p@, i as nat) =~= seq![i as nat].add(match_cols(line@, p@, (i + m) as nat)));
                assert(match_cols(line@, p@, i as nat).map_values(|c: nat| (row as nat, c)) =~= seq![(row as nat, i as nat)] + rest);
                assert(out@.map_values(|x: (usize, usize)| (x.0 as nat, x.1 as nat)) =~= before.push((row as nat, i as nat)));
            }
            i = i + m;
        } else {
            proof {
                if m <= n - i {
                    assert(!occurs_at(line@, p@, i as int));
                }
                assert(match_cols(line@, p@, i as nat) == match_cols(line@, p@, (i + 1) as nat));
            }
            i = i + 1;
        }
    }
    proof {
        assert(match_cols(line@, p@, i as nat) =~= Seq::<nat>::empty());
    }
}

impl Editor {
    /// Start EasyMotion (`s` in Normal mode).
    pub fn enter_easymotion(&mut self)
        ensures
            final(self).easymotion matches Some(em) && em.prefix@ == Seq::<char>::empty()
                && em.phase == EasyMotionPhase::Collecting && em.targets@.len() == 0
                && em.partial_label@ == Seq::<char>::empty() && em.label_len == 1,
            final(self).status_msg@ == "EasyMotion: _"@,
            *final(self) == (Editor {
                easymotion: final(self).easymotion,
                status_msg: final(self).status_msg,
                status_kind: MessageKind::Info,
                ..*old(self)
            }),
    {
        self.easymotion = Some(
            EasyMotionState {
                prefix: String::new(),
                phase: EasyMotionPhase::Collecting,
                targets: Vec::new(),
                partial_label: String::new(),
                label_len: 1,
            },
        );
        self.set_status_msg("EasyMotion: _", MessageKind::Info);
    }

    /// The matches of `prefix` on the visible rows of the active window.
    pub fn easymotion_targets(&self, prefix: &str) -> (ts: Vec<(usize, usize)>)
        requires
            self.wf(),
        ensures
            ts@.map_values(|x: (usize, usize)| (x.0 as nat, x.1 as nat)) == em_targets(
                self.cur_buf().text(),
                prefix@,
                self.win().scroll_line as nat,
                visible_end(self.win(), self.cur_buf().text()),
            ),
    {
        let b = self.buf();
        let scroll = self.windows[self.active_window_idx].scroll_line;
        let h = self.windows[self.active_window_idx].height;
        let nl = b.len_lines();
        let end = if scroll >= nl {
            nl
        } else if h <= nl - scroll {
            scroll + h
        } else {
            nl
        };
        let ghost t = b.text();
        let ghost e = visible_end(self.win(), t);
        proof {
            assert(end == e);
        }
        let pv = chars_of(prefix);
        let mut out: Vec<(usize, usize)> = Vec::new();
        let mut r = scroll;
        proof {
            assert(out@.map_values(|x: (usize, usize)| (x.0 as nat, x.1 as nat)) =~= Seq::<(nat, nat)>::empty());
            assert(Seq::<(nat, nat)>::empty() + em_targets(t, prefix@, r as nat, e) =~= em_targets(t, prefix@, r as nat, e));
        }
        while r < end
            invariant
                t == b.text(),
                pv@ == prefix@,
                end == e,
                scroll <= r,
                r <= end || r == scroll,
                out@.map_values(|x: (usize, usize)| (x.0 as nat, x.1 as nat)) + em_targets(t, prefix@, r as nat, e)
                    == em_targets(t, prefix@, scroll as nat, e),
            decreases end - r,
        {
            let line = b.line_text(r);
            let lv = chars_of(line.as_str());
            let k = trim_cr_index(&lv);
            let tv = vstd::slice::slice_to_vec(vstd::slice::slice_subrange(lv.as_slice(), 0, k));
            let ghost before = out@.map_values(|x: (usize, usize)| (x.0 as nat, x.1 as nat));
            proof {
                assert(tv@ =~= trim_cr(line_of(t, r as nat)));
            }
            line_targets(&tv, &pv, r, &mut out);
            proof {
                let mine = match_cols(trim_cr(line_of(t, r as nat)), prefix@, 0).map_values(|c: nat| (r as nat, c));
                assert(em_targets(t, prefix@, r as nat, e) =~= mine + em_targets(t, prefix@, (r + 1) as nat, e));
                assert(before + (mine + em_targets(t, prefix@, (r + 1) as nat, e)) =~= (before + mine) + em_targets(t, prefix@, (r + 1) as nat, e));
            }
            r = r + 1;
        }
        proof {
            assert(em_targets(t, prefix@, r as nat, e) =~= Seq::<(nat, nat)>::empty());
            assert(out@.map_values(|x: (usize, usize)| (x.0 as nat, x.1 as nat)) + Seq::<(nat, nat)>::empty() =~= out@.map_values(|x: (usize, usize)| (x.0 as nat, x.1 as nat)));
        }
        out
    }
}

} // verus!

verus! {

/// Targets as plain values: row, column and label.
pub open spec fn target_views(ts: Seq<EasyMotionTarget>) -> Seq<(nat, nat, Seq<char>)> {
    ts.map_values(|t: EasyMotionTarget| (t.row as nat, t.col as nat, t.label@))
}

/// The labelled targets for the found positions.
pub open spec fn labelled(ps: Seq<(nat, nat)>) -> Seq<(nat, nat, Seq<char>)> {
    let len: nat = if ps.len() <= 26 { 1 } else { 2 };
    Seq::new(ps.len(), |i: int| (ps[i].0, ps[i].1, em_label(i as nat, len)))
}

/// `n` is `o` with the cursor jumped to `(row, col)` (the old position
/// kept for a ping-pong jump), EasyMotion ended and the status line
/// cleared.
pub open spec fn em_jumped(o: Editor, n: Editor, row: usize, col: usize) -> bool {
    let w = o.win();
    &&& n.windows@ == o.windows@.update(
        o.active_window_idx as int,
        Window { last_jump: Some((w.row, w.col)), row, col, desired_col: col, ..w },
    )
    &&& n.status_msg@ == Seq::<char>::empty()
    &&& n == (Editor { windows: n.windows, easymotion: None, status_msg: n.status_msg, ..o })
}

/// `n` is `o` after the search for `o`'s prefix: no match ends EasyMotion
/// with an error, one match jumps to it, several switch to label
/// selection.
pub open spec fn em_scanned(o: Editor, n: Editor) -> bool {
    let em = o.easymotion->0;
    let ps = em_targets(o.cur_buf().text(), em.prefix@, o.win().scroll_line as nat, visible_end(o.win(), o.cur_buf().text()));
    if ps.len() == 0 {
        &&& n.status_msg@ == "No matches for '"@ + em.prefix@ + "'"@
        &&& n == (Editor { easymotion: None, status_msg: n.status_msg, status_kind: MessageKind::Error, ..o })
    } else if ps.len() == 1 {
        em_jumped(o, n, ps[0].0 as usize, ps[0].1 as usize)
    } else {
        &&& n.easymotion matches Some(ne) && ne.prefix == em.prefix && ne.phase == EasyMotionPhase::Selecting
            && target_views(ne.targets@) == labelled(ps) && ne.partial_label@ == Seq::<char>::empty()
            && ne.label_len == (if ps.len() <= 26 { 1usize } else { 2usize })
        &&& n.status_msg@ == "EasyMotion: "@ + em.prefix@ + " \u{2014} type label to jump"@
        &&& n == (Editor { easymotion: n.easymotion, status_msg: n.status_msg, status_kind: MessageKind::Info, ..o })
    }
}

fn label_for(i: usize, len: usize) -> (s: String)
    requires
        len == 1 ==> i < 26,
        len != 1 ==> i / 26 < 159,
    ensures
        s@ == em_label(i as nat, len as nat),
{
    let mut s = String::new();
    if len == 1 {
        let c = char_from(97 + i as u32);
        string_push(&mut s, c);
    } else {
        let a = char_from(97 + (i / 26) as u32);
        let b = char_from(97 + (i % 26) as u32);
        string_push(&mut s, a);
        string_push(&mut s, b);
    }
    proof {
        assert(s@ =~= em_label(i as nat, len as nat));
    }
    s
}

/// The char with code `u`, for a code below 256.
fn char_from(u: u32) -> (c: char)
    requires
        u < 256,
    ensures
        c == u as char,
{
    let b = u as u8;
    b as char
}

impl Editor {
    fn em_jump(&mut self, row: usize, col: usize)
        requires
            old(self).wf(),
        ensures
            final(self).wf(),
            em_jumped(*old(self), *final(self), row, col),
    {
        let ghost o = *self;
        self.easymotion = None;
        self.clear_status_msg();
        let idx = self.active_window_idx;
        self.windows[idx].save_jump_position();
        self.windows[idx].row = row;
        self.windows[idx].col = col;
        self.windows[idx].desired_col = col;
        proof {
            assert(self.windows@ =~= o.windows@.update(
                o.active_window_idx as int,
                Window { last_jump: Some((o.win().row, o.win().col)), row, col, desired_col: col, ..o.win() },
            ));
            assert forall|w: int| 0 <= w < self.windows@.len() implies self.has_buf(
                #[trigger] self.windows@[w].buf_id,
            ) by {
                assert(o.has_buf(o.windows@[w].buf_id));
            }
            self.lemma_cur_idx();
        }
    }

    /// Look for the typed prefix on the visible rows.
    pub fn easymotion_scan(&mut self)
        requires
            old(self).wf(),
            old(self).easymotion is Some,
            em_targets(
                old(self).cur_buf().text(),
                old(self).easymotion->0.prefix@,
                old(self).win().scroll_line as nat,
                visible_end(old(self).win(), old(self).cur_buf().text()),
            ).len() <= 26 * 159,
        ensures
            final(self).wf(),
            em_scanned(*old(self), *final(self)),
    {
        let ghost o = *self;
        let prefix = match &self.easymotion {
            Some(em) => em.prefix.clone(),
            None => return,
        };
        let ps = self.easymotion_targets(prefix.as_str());
        let ghost pv = ps@.map_values(|x: (usize, usize)| (x.0 as nat, x.1 as nat));
        let count = ps.len();
        if count == 0 {
            let mut msg = String::from_str("No matches for '");
            push_str(&mut msg, prefix.as_str());
            push_str(&mut msg, "'");
            self.set_status_msg(msg.as_str(), MessageKind::Error);
            self.easymotion = None;
            proof {
                assert(msg@ =~= "No matches for '"@ + prefix@ + "'"@);
            }
            return;
        }
        if count == 1 {
            proof {
                assert(pv[0] == (ps@[0].0 as nat, ps@[0].1 as nat));
            }
            self.em_jump(ps[0].0, ps[0].1);
            return;
        }
        let label_len: usize = if count <= 26 {
            1
        } else {
            2
        };
        let mut targets: Vec<EasyMotionTarget> = Vec::new();
        let mut i: usize = 0;
        while i < count
            invariant
                count == ps@.len(),
                count > 1,
                count <= 26 * 159,
                label_len == (if count <= 26 { 1usize } else { 2usize }),
                i <= count,
                pv == ps@.map_values(|x: (usize, usize)| (x.0 as nat, x.1 as nat)),
                target_views(targets@) == labelled(pv).take(i as int),
            decreases count - i,
        {
            let label = label_for(i, label_len);
            let ghost before = target_views(targets@);
            targets.push(EasyMotionTarget { row: ps[i].0, col: ps[i].1, label });
            proof {
                assert(pv[i as int] == (ps@[i as int].0 as nat, ps@[i as int].1 as nat));
                assert(labelled(pv)[i as int] == (pv[i as int].0, pv[i as int].1, em_label(i as nat, label_len as nat)));
                assert(target_views(targets@) =~= before.push(labelled(pv)[i as int]));
                assert(labelled(pv).take(i + 1) =~= labelled(pv).take(i as int).push(labelled(pv)[i as int]));
            }
            i = i + 1;
        }
        proof {
            assert(labelled(pv).take(count as int) =~= labelled(pv));
        }
        let mut em = match self.easymotion.take() {
            Some(em) => em,
            None => return,
        };
        em.targets = targets;
        em.phase = EasyMotionPhase::Selecting;
        em.label_len = label_len;
        em.partial_label = String::new();
        self.easymotion = Some(em);
        let mut msg = String::from_str("EasyMotion: ");
        push_str(&mut msg, prefix.as_str());
        push_str(&mut msg, " \u{2014} type label to jump");
        proof {
            assert(msg@ =~= "EasyMotion: "@ + prefix@ + " \u{2014} type label to jump"@);
        }
        self.set_status_msg(msg.as_str(), MessageKind::Info);
    }
}

} // verus!

verus! {

/// First target from `k` on whose label is `l`.
pub open spec fn label_target(ts: Seq<EasyMotionTarget>, l: Seq<char>, k: int) -> Option<int>
    decreases ts.len() - k,
{
    if k < 0 || k >= ts.len() {
        None
    } else if ts[k].label@ == l {
        Some(k)
    } else {
        label_target(ts, l, k + 1)
    }
}

pub open spec fn drop_last_if_any(s: Seq<char>) -> Seq<char> {
    if s.len() > 0 {
        s.drop_last()
    } else {
        s
    }
}

/// `n` is `o` with EasyMotion ended and the status line cleared.
pub open spec fn em_cancelled(o: Editor, n: Editor) -> bool {
    &&& n.status_msg@ == Seq::<char>::empty()
    &&& n == (Editor { easymotion: None, status_msg: n.status_msg, ..o })
}

/// `n` is `o` after EasyMotion read `key`.
pub open spec fn em_key(o: Editor, n: Editor, key: Key) -> bool {
    let em = o.easymotion->0;
    let ne = n.easymotion->0;
    match em.phase {
        EasyMotionPhase::Collecting => match key {
            Key::Esc => em_cancelled(o, n),
            Key::Backspace => {
                let p2 = drop_last_if_any(em.prefix@);
                if p2.len() == 0 {
                    em_cancelled(o, n)
                } else {
                    &&& n.easymotion == Some(EasyMotionState { prefix: ne.prefix, ..em })
                    &&& ne.prefix@ == p2
                    &&& n.status_msg@ == "EasyMotion: "@ + p2 + "_"@
                    &&& n == (Editor { easymotion: n.easymotion, status_msg: n.status_msg, status_kind: MessageKind::Info, ..o })
                }
            },
            Key::Char(c) => {
                let p2 = em.prefix@.push(c);
                if encode_utf8(p2).len() >= 2 {
                    exists|m: Editor|
                        m.easymotion matches Some(me) && me == (EasyMotionState { prefix: me.prefix, ..em })
                            && me.prefix@ == p2 && m == (Editor { easymotion: m.easymotion, ..o })
                            && #[trigger] em_scanned(m, n)
                } else {
                    &&& n.easymotion == Some(EasyMotionState { prefix: ne.prefix, ..em })
                    &&& ne.prefix@ == p2
                    &&& n.status_msg@ == "EasyMotion: "@ + p2 + "_"@
                    &&& n == (Editor { easymotion: n.easymotion, status_msg: n.status_msg, status_kind: MessageKind::Info, ..o })
                }
            },
            _ => n == o,
        },
        EasyMotionPhase::Selecting => match key {
            Key::Esc => em_cancelled(o, n),
            Key::Backspace => {
                &&& n.easymotion == Some(EasyMotionState { partial_label: ne.partial_label, ..em })
                &&& ne.partial_label@ == drop_last_if_any(em.partial_label@)
                &&& n == (Editor { easymotion: n.easymotion, ..o })
            },
            Key::Char(c) => {
                let pl = em.partial_label@.push(c);
                if encode_utf8(pl).len() >= em.label_len {
                    match label_target(em.targets@, pl, 0) {
                        Some(i) => em_jumped(o, n, em.targets@[i].row, em.targets@[i].col),
                        None => n.status_msg@ == "No such EasyMotion target"@ && n == (Editor {
                            easymotion: None,
                            status_msg: n.status_msg,
                            status_kind: MessageKind::Error,
                            ..o
                        }),
                    }
                } else {
                    &&& n.easymotion == Some(EasyMotionState { partial_label: ne.partial_label, ..em })
                    &&& ne.partial_label@ == pl
                    &&& n == (Editor { easymotion: n.easymotion, ..o })
                }
            },
            _ => n == o,
        },
    }
}

fn pop_char(s: &String) -> (r: String)
    ensures
        r@ == drop_last_if_any(s@),
{
    let v = chars_of(s.as_str());
    if v.len() == 0 {
        return String::new();
    }
    let sub = vstd::slice::slice_subrange(v.as_slice(), 0, v.len() - 1);
    proof {
        assert(sub@ =~= s@.drop_last());
    }
    string_from_chars(sub)
}

fn find_label(ts: &Vec<EasyMotionTarget>, l: &str) -> (r: Option<usize>)
    ensures
        r matches Some(i) ==> label_target(ts@, l@, 0) == Some(i as int) && i < ts@.len(),
        r is None ==> label_target(ts@, l@, 0) is None,
{
    let mut i: usize = 0;
    while i < ts.len()
        invariant
            i <= ts@.len(),
            label_target(ts@, l@, 0) == label_target(ts@, l@, i as int),
        decreases ts@.len() - i,
    {
        if crate::text::str_eq(ts[i].label.as_str(), l) {
            return Some(i);
        }
        i = i + 1;
    }
    None
}

impl Editor {
    fn em_cancel(&mut self)
        ensures
            em_cancelled(*old(self), *final(self)),
    {
        self.easymotion = None;
        self.clear_status_msg();
    }

    fn em_prompt(&mut self, prefix: &String)
        ensures
            final(self).status_msg@ == "EasyMotion: "@ + prefix@ + "_"@,
            *final(self) == (Editor { status_msg: final(self).status_msg, status_kind: MessageKind::Info, ..*old(self) }),
    {
        let mut msg = String::from_str("EasyMotion: ");
        push_str(&mut msg, prefix.as_str());
        push_str(&mut msg, "_");
        proof {
            assert(msg@ =~= "EasyMotion: "@ + prefix@ + "_"@);
        }
        self.set_status_msg(msg.as_str(), MessageKind::Info);
    }

    /// A key while EasyMotion is active.
    pub fn handle_easymotion_key(&mut self, key: Key)
        requires
            old(self).wf(),
            old(self).easymotion is Some,
            ({
                let em = old(self).easymotion->0;
                em.phase == EasyMotionPhase::Collecting && key is Char ==> em_targets(
                    old(self).cur_buf().text(),
                    em.prefix@.push(key->Char_0),
                    old(self).win().scroll_line as nat,
                    visible_end(old(self).win(), old(self).cur_buf().text()),
                ).len() <= 26 * 159
            }),
        ensures
            final(self).wf(),
            em_key(*old(self), *final(self), key),
    {
        let ghost o = *self;
        let mut em = match self.easymotion.take() {
            Some(em) => em,
            None => return,
        };
        match em.phase {
            EasyMotionPhase::Collecting => match key {
                Key::Esc => {
                    self.em_cancel();
                },
                Key::Backspace => {
                    em.prefix = pop_char(&em.prefix);
                    if em.prefix.as_str().is_empty() {
                        self.em_cancel();
                    } else {
                        let p = em.prefix.clone();
                        self.easymotion = Some(em);
                        self.em_prompt(&p);
                    }
                },
                Key::Char(c) => {
                    string_push(&mut em.prefix, c);
                    let bl = str_byte_len(em.prefix.as_str());
                    let p = em.prefix.clone();
                    self.easymotion = Some(em);
                    if bl >= 2 {
                        let ghost m = *self;
                        self.easymotion_scan();
                        proof {
                            assert(em_scanned(m, *self));
                        }
                    } else {
                        self.em_prompt(&p);
                    }
                },
                _ => {
                    self.easymotion = Some(em);
                },
            },
            EasyMotionPhase::Selecting => match key {
                Key::Esc => {
                    self.em_cancel();
                },
                Key::Backspace => {
                    em.partial_label = pop_char(&em.partial_label);
                    self.easymotion = Some(em);
                },
                Key::Char(c) => {
                    string_push(&mut em.partial_label, c);
                    let bl = str_byte_len(em.partial_label.as_str());
                    if bl >= em.label_len {
                        match find_label(&em.targets, em.partial_label.as_str()) {
                            Some(i) => {
                                let (r, col) = (em.targets[i].row, em.targets[i].col);
                                self.em_jump(r, col);
                            },
                            None => {
                                self.set_status_msg("No such EasyMotion target", MessageKind::Error);
                            },
                        }
                    } else {
                        self.easymotion = Some(em);
                    }
                },
                _ => {
                    self.easymotion = Some(em);
                },
            },
        }
    }
}

} // verus!
