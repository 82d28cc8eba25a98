//! Parallel virtual-line maps for a side-by-side diff.
//!
//! The left pane shows the HEAD version of a file and the right pane the
//! working copy.  Each pane is a list of virtual rows: a real line of its
//! text, or a filler row where the other side has a line that this side
//! lacks.

use crate::buffer::VirtualLine;
use vstd::prelude::*;

verus! {

/// Parallel virtual line maps for a side-by-side diff.
#[derive(Debug, Clone)]
pub struct DiffAlignment {
    /// Virtual lines for the LEFT pane (HEAD / original).
    pub left: Vec<VirtualLine>,
    /// Virtual lines for the RIGHT pane (working copy).
    pub right: Vec<VirtualLine>,
}

/// One hunk of a unified diff, as plain values: its 1-based start lines
/// on the old and the new side, and the origin char of each of its lines
/// (`'-'` deleted, `'+'` added, `' '` context, anything else ignored).
#[derive(Debug, Clone)]
pub struct PatchHunk {
    pub old_start: u32,
    pub old_lines: u32,
    pub new_start: u32,
    pub new_lines: u32,
    pub origins: Vec<char>,
    /// The text of each line (without its line feed), parallel to `origins`.
    pub contents: Vec<String>,
}

pub struct PatchHunkView {
    pub old_start: nat,
    pub old_lines: nat,
    pub new_start: nat,
    pub new_lines: nat,
    pub origins: Seq<char>,
    pub contents: Seq<Seq<char>>,
}

impl View for PatchHunk {
    type V = PatchHunkView;

    open spec fn view(&self) -> PatchHunkView {
        PatchHunkView {
            old_start: self.old_start as nat,
            old_lines: self.old_lines as nat,
            new_start: self.new_start as nat,
            new_lines: self.new_lines as nat,
            origins: self.origins@,
            contents: self.contents@.map_values(|c: String| c@),
        }
    }
}

/// `a - b`, or 0 when `b > a`.
pub open spec fn sat_sub(a: nat, b: nat) -> nat {
    if a >= b {
        (a - b) as nat
    } else {
        0
    }
}

pub open spec fn max(a: nat, b: nat) -> nat {
    if a >= b {
        a
    } else {
        b
    }
}

pub open spec fn min(a: nat, b: nat) -> nat {
    if a <= b {
        a
    } else {
        b
    }
}

/// `k` real rows numbered from `start`.
pub open spec fn real_run(start: nat, k: nat) -> Seq<VirtualLine> {
    Seq::new(k, |i: int| VirtualLine::Real((start + i) as usize))
}

/// `k` filler rows.
pub open spec fn padding_run(k: nat) -> Seq<VirtualLine> {
    Seq::new(k, |i: int| VirtualLine::Padding)
}

/// Rows that pair up a block of deleted lines with a block of inserted
/// lines: line by line, the shorter side padded.
pub open spec fn change_block(dels: Seq<usize>, ins: Seq<usize>) -> (Seq<VirtualLine>, Seq<VirtualLine>) {
    let m = max(dels.len(), ins.len());
    (
        Seq::new(
            m,
            |i: int|
                if i < dels.len() {
                    VirtualLine::Real(dels[i])
                } else {
                    VirtualLine::Padding
                },
        ),
        Seq::new(
            m,
            |i: int|
                if i < ins.len() {
                    VirtualLine::Real(ins[i])
                } else {
                    VirtualLine::Padding
                },
        ),
    )
}

/// In a change block the k-th deleted line and the k-th inserted line
/// share a row; the block has as many rows as the longer side, whose
/// lines fill it in order, and the shorter side is padded after its own.
pub proof fn lemma_change_block_pairs(dels: Seq<usize>, ins: Seq<usize>)
    ensures
        ({
            let (l, r) = change_block(dels, ins);
            &&& l.len() == r.len()
            &&& l.len() >= dels.len() && l.len() >= ins.len()
            &&& (l.len() == dels.len() || l.len() == ins.len())
            &&& forall|k: int| 0 <= k < dels.len() ==> #[trigger] l[k] == VirtualLine::Real(dels[k])
            &&& forall|k: int| 0 <= k < ins.len() ==> #[trigger] r[k] == VirtualLine::Real(ins[k])
            &&& forall|k: int| dels.len() <= k < l.len() ==> #[trigger] l[k] == VirtualLine::Padding
            &&& forall|k: int| ins.len() <= k < r.len() ==> #[trigger] r[k] == VirtualLine::Padding
        }),
{
}

/// State of the alignment walk: both row maps built so far and the next
/// old / new line not yet placed.
pub struct AlignState {
    pub left: Seq<VirtualLine>,
    pub right: Seq<VirtualLine>,
    pub oc: nat,
    pub nc: nat,
}

/// Places the unchanged lines before a hunk that starts at 0-based lines
/// `old_start` / `new_start`: as many as both sides have are paired, and
/// any excess on one side is set against filler rows.
pub open spec fn context_step(st: AlignState, old_start: nat, new_start: nat) -> AlignState {
    let old_context = sat_sub(old_start, st.oc);
    let new_context = sat_sub(new_start, st.nc);
    let c = min(old_context, new_context);
    let xo = sat_sub(old_context, c);
    let xn = sat_sub(new_context, c);
    AlignState {
        left: st.left + real_run(st.oc, c) + real_run(st.oc + c, xo) + padding_run(xn),
        right: st.right + real_run(st.nc, c) + padding_run(xo) + real_run(st.nc + c, xn),
        oc: st.oc + c + xo,
        nc: st.nc + c + xn,
    }
}

/// The unchanged lines before a hunk are placed side by side: the k-th
/// old one and the k-th new one share a row, for as many as both sides
/// have; the lines only one side still has before the hunk each get a row
/// against filler; and both sides then stand at the hunk's start.
pub proof fn lemma_context_pairs(st: AlignState, old_start: nat, new_start: nat)
    requires
        st.left.len() == st.right.len(),
        st.oc <= old_start,
        st.nc <= new_start,
    ensures
        ({
            let st2 = context_step(st, old_start, new_start);
            let n = st.left.len();
            let co = (old_start - st.oc) as nat;
            let cn = (new_start - st.nc) as nat;
            let c = min(co, cn);
            &&& st2.left.len() == st2.right.len()
            &&& st2.oc == old_start && st2.nc == new_start
            &&& st2.left.take(n as int) == st.left && st2.right.take(n as int) == st.right
            &&& forall|k: int|
                0 <= k < c ==> #[trigger] st2.left[n + k] == VirtualLine::Real((st.oc + k) as usize) && st2.right[n
                    + k] == VirtualLine::Real((st.nc + k) as usize)
            &&& forall|k: int|
                c <= k < st2.left.len() - n ==> (#[trigger] st2.left[n + k] is Padding) != (st2.right[n + k] is Padding)
        }),
{
    let st2 = context_step(st, old_start, new_start);
    let n = st.left.len();
    assert(st2.left.take(n as int) =~= st.left);
    assert(st2.right.take(n as int) =~= st.right);
}

/// Walks the lines of a hunk: deletions and insertions gather into a
/// block that is placed (by `change_block`) when a context line or the
/// end of the hunk comes.
pub open spec fn lines_walk(
    origins: Seq<char>,
    st: AlignState,
    dels: Seq<usize>,
    ins: Seq<usize>,
) -> AlignState
    decreases origins.len(),
{
    if origins.len() == 0 {
        let b = change_block(dels, ins);
        AlignState { left: st.left + b.0, right: st.right + b.1, oc: st.oc, nc: st.nc }
    } else if origins[0] == '-' {
        lines_walk(
            origins.drop_first(),
            AlignState { oc: st.oc + 1, ..st },
            dels.push(st.oc as usize),
            ins,
        )
    } else if origins[0] == '+' {
        lines_walk(
            origins.drop_first(),
            AlignState { nc: st.nc + 1, ..st },
            dels,
            ins.push(st.nc as usize),
        )
    } else if origins[0] == ' ' {
        let b = change_block(dels, ins);
        lines_walk(
            origins.drop_first(),
            AlignState {
                left: st.left + b.0 + seq![VirtualLine::Real(st.oc as usize)],
                right: st.right + b.1 + seq![VirtualLine::Real(st.nc as usize)],
                oc: st.oc + 1,
                nc: st.nc + 1,
            },
            Seq::empty(),
            Seq::empty(),
        )
    } else {
        lines_walk(origins.drop_first(), st, dels, ins)
    }
}

/// Places one hunk: the context before it, then its lines.
pub open spec fn hunk_step(st: AlignState, h: PatchHunkView) -> AlignState {
    let st1 = context_step(st, sat_sub(h.old_start, 1), sat_sub(h.new_start, 1));
    lines_walk(h.origins, st1, Seq::empty(), Seq::empty())
}

/// Places all the hunks, in order.
pub open spec fn hunks_walk(hs: Seq<PatchHunkView>, st: AlignState) -> AlignState
    decreases hs.len(),
{
    if hs.len() == 0 {
        st
    } else {
        hunks_walk(hs.drop_first(), hunk_step(st, hs[0]))
    }
}

/// After the last hunk: the remaining lines of each side, then filler rows
/// so that both maps have the same length.
pub open spec fn finish(st: AlignState, old_count: nat, new_count: nat) -> (Seq<VirtualLine>, Seq<VirtualLine>) {
    let l = st.left + real_run(st.oc, sat_sub(old_count, st.oc));
    let r = st.right + real_run(st.nc, sat_sub(new_count, st.nc));
    let m = max(l.len(), r.len());
    (l + padding_run(sat_sub(m, l.len())), r + padding_run(sat_sub(m, r.len())))
}

pub open spec fn empty_state() -> AlignState {
    AlignState { left: Seq::empty(), right: Seq::empty(), oc: 0, nc: 0 }
}

/// The left and right row maps of a diff with hunks `hs` between an old
/// text of `old_count` lines and a new one of `new_count` lines.
pub open spec fn alignment(hs: Seq<PatchHunkView>, old_count: nat, new_count: nat) -> (Seq<VirtualLine>, Seq<VirtualLine>) {
    finish(hunks_walk(hs, empty_state()), old_count, new_count)
}

/// Total number of lines in all the hunks.
pub open spec fn total_lines(hs: Seq<PatchHunkView>) -> nat
    decreases hs.len(),
{
    if hs.len() == 0 {
        0
    } else {
        hs[0].origins.len() + total_lines(hs.drop_first())
    }
}

/// Index of the first row of `map` that shows real line `r`.
pub open spec fn first_real(map: Seq<VirtualLine>, r: usize) -> Option<nat>
    decreases map.len(),
{
    if map.len() == 0 {
        None
    } else if map[0] == VirtualLine::Real(r) {
        Some(0)
    } else {
        match first_real(map.drop_first(), r) {
            Some(v) => Some(v + 1),
            None => None,
        }
    }
}

/// The last real line in `map`, or 0 when it has none.
pub open spec fn last_real(map: Seq<VirtualLine>) -> usize
    decreases map.len(),
{
    if map.len() == 0 {
        0
    } else {
        match map.last() {
            VirtualLine::Real(r) => r,
            VirtualLine::Padding => last_real(map.drop_last()),
        }
    }
}

pub open spec fn real_at(map: Seq<VirtualLine>, i: int) -> bool {
    0 <= i < map.len() && map[i] is Real
}

/// Search outward from row `v` of `sib`, `delta` rows at a time, above
/// before below, for a real line; `last_real` when none is within reach.
pub open spec fn search_out(sib: Seq<VirtualLine>, v: nat, delta: nat) -> usize
    decreases sib.len() - delta,
{
    if delta < 1 || delta > sat_sub(sib.len(), 1) {
        last_real(sib)
    } else if v >= delta && real_at(sib, v - delta) {
        sib[v - delta]->Real_0
    } else if v + delta < sib.len() && real_at(sib, (v + delta) as int) {
        sib[(v + delta) as int]->Real_0
    } else {
        search_out(sib, v, delta + 1)
    }
}

/// The real row on the sibling side that corresponds to `real_row` on
/// the active side.
pub open spec fn sibling_row(active: Seq<VirtualLine>, sib: Seq<VirtualLine>, real_row: usize) -> usize {
    match first_real(active, real_row) {
        Some(v) => if real_at(sib, v as int) {
            sib[v as int]->Real_0
        } else {
            search_out(sib, v, 1)
        },
        None => last_real(sib),
    }
}

} // verus!

verus! {

pub open spec fn opt_nat_to_usize(o: Option<nat>) -> Option<usize> {
    match o {
        Some(v) => Some(v as usize),
        None => None,
    }
}

proof fn lemma_first_real_is(map: Seq<VirtualLine>, r: usize, i: int)
    requires
        0 <= i < map.len(),
        map[i] == VirtualLine::Real(r),
        forall|j: int| 0 <= j < i ==> map[j] != VirtualLine::Real(r),
    ensures
        first_real(map, r) == Some(i as nat),
    decreases i,
{
    if i > 0 {
        let t = map.drop_first();
        assert forall|j: int| 0 <= j < i - 1 implies t[j] != VirtualLine::Real(r) by {
            assert(t[j] == map[j + 1]);
        }
        lemma_first_real_is(t, r, i - 1);
    }
}

pub proof fn lemma_first_real_bound(map: Seq<VirtualLine>, r: usize)
    ensures
        first_real(map, r) matches Some(v) ==> v < map.len() && map[v as int] == VirtualLine::Real(r),
    decreases map.len(),
{
    if map.len() > 0 {
        lemma_first_real_bound(map.drop_first(), r);
    }
}

proof fn lemma_first_real_none(map: Seq<VirtualLine>, r: usize)
    requires
        forall|j: int| 0 <= j < map.len() ==> map[j] != VirtualLine::Real(r),
    ensures
        first_real(map, r) is None,
    decreases map.len(),
{
    if map.len() > 0 {
        let t = map.drop_first();
        assert forall|j: int| 0 <= j < t.len() implies t[j] != VirtualLine::Real(r) by {
            assert(t[j] == map[j + 1]);
        }
        lemma_first_real_none(t, r);
    }
}

fn last_real_exec(map: &[VirtualLine]) -> (r: usize)
    ensures
        r == last_real(map@),
{
    let mut i: usize = map.len();
    assert(map@.take(i as int) =~= map@);
    while i > 0
        invariant
            i <= map@.len(),
            last_real(map@) == last_real(map@.take(i as int)),
        decreases i,
    {
        let ghost t = map@.take(i as int);
        assert(t.last() == map@[i - 1]);
        assert(t.drop_last() =~= map@.take(i - 1));
        match map[i - 1] {
            VirtualLine::Real(r) => {
                return r;
            },
            VirtualLine::Padding => {},
        }
        i = i - 1;
    }
    0
}

impl DiffAlignment {
    /// Total number of virtual rows (identical for both sides after alignment).
    pub fn len(&self) -> (n: usize)
        ensures
            n == self.left@.len(),
    {
        self.left.len()
    }

    pub fn is_empty(&self) -> (b: bool)
        ensures
            b == (self.left@.len() == 0),
    {
        self.left.len() == 0
    }

    /// Find the virtual row index where a real rope row first appears
    /// in the given map.
    pub fn virtual_row_for_real(map: &[VirtualLine], real_row: usize) -> (r: Option<usize>)
        ensures
            r == opt_nat_to_usize(first_real(map@, real_row)),
    {
        let mut i: usize = 0;
        while i < map.len()
            invariant
                i <= map@.len(),
                forall|j: int| 0 <= j < i ==> map@[j] != VirtualLine::Real(real_row),
            ensures
                forall|j: int| 0 <= j < map@.len() ==> map@[j] != VirtualLine::Real(real_row),
            decreases map@.len() - i,
        {
            match map[i] {
                VirtualLine::Real(r) => {
                    if r == real_row {
                        proof {
                            lemma_first_real_is(map@, real_row, i as int);
                        }
                        return Some(i);
                    }
                },
                VirtualLine::Padding => {},
            }
            i = i + 1;
        }
        proof {
            lemma_first_real_none(map@, real_row);
        }
        None
    }

    /// Given a real row on one side, find the best corresponding real
    /// row on the other side for cursor synchronization in diff view.
    ///
    /// `active_map` — the virtual-line map for the side the cursor is on.
    /// `sibling_map` — the virtual-line map for the side we want to sync TO.
    /// `real_row` — the cursor's rope row on the active side.
    ///
    /// Returns the nearest real row on the sibling side, searching
    /// outward from the corresponding virtual row. Prefers searching
    /// upward (earlier in the file) when distances are equal.
    pub fn sibling_real_row(
        active_map: &[VirtualLine],
        sibling_map: &[VirtualLine],
        real_row: usize,
    ) -> (r: usize)
        ensures
            r == sibling_row(active_map@, sibling_map@, real_row),
    {
        let alen = active_map.len();
        let vrow = Self::virtual_row_for_real(active_map, real_row);
        proof {
            lemma_first_real_bound(active_map@, real_row);
        }
        if let Some(vrow) = vrow {
            proof {
                let fr = first_real(active_map@, real_row);
                assert(fr->0 < alen);
            }
            if vrow < sibling_map.len() {
                if let VirtualLine::Real(r) = sibling_map[vrow] {
                    return r;
                }
            }
            let max_delta = if sibling_map.len() >= 1 { sibling_map.len() - 1 } else { 0 };
            let mut delta: usize = 1;
            while delta <= max_delta
                invariant
                    1 <= delta,
                    max_delta == sat_sub(sibling_map@.len(), 1),
                    max_delta < sibling_map@.len() || sibling_map@.len() == 0,
                    first_real(active_map@, real_row) == Some(vrow as nat),
                    !real_at(sibling_map@, vrow as int),
                    sibling_row(active_map@, sibling_map@, real_row) == search_out(
                        sibling_map@,
                        vrow as nat,
                        delta as nat,
                    ),
                decreases max_delta + 1 - delta,
            {
                if vrow >= delta && vrow - delta < sibling_map.len() {
                    if let VirtualLine::Real(r) = sibling_map[vrow - delta] {
                        return r;
                    }
                }
                if delta < sibling_map.len() && vrow < sibling_map.len() - delta {
                    if let VirtualLine::Real(r) = sibling_map[vrow + delta] {
                        return r;
                    }
                }
                delta = delta + 1;
            }
        }
        last_real_exec(sibling_map)
    }
}

} // verus!

verus! {

/// The hunks as plain views.
pub open spec fn hunk_views(hs: Seq<PatchHunk>) -> Seq<PatchHunkView> {
    hs.map_values(|h: PatchHunk| h@)
}

/// Line numbers in the hunks stay far enough below `usize::MAX` for the
/// walk to count them.
pub open spec fn hunks_fit(hs: Seq<PatchHunkView>, old_count: nat, new_count: nat) -> bool {
    total_lines(hs) + old_count + new_count + 2 * (u32::MAX as nat) + 2 <= usize::MAX
}

fn push_run(v: &mut Vec<VirtualLine>, start: usize, k: usize)
    requires
        start + k <= usize::MAX,
    ensures
        final(v)@ == old(v)@ + real_run(start as nat, k as nat),
{
    let mut i: usize = 0;
    while i < k
        invariant
            i <= k,
            start + k <= usize::MAX,
            v@ == old(v)@ + real_run(start as nat, i as nat),
        decreases k - i,
    {
        v.push(VirtualLine::Real(start + i));
        i = i + 1;
        proof {
            assert(v@ =~= old(v)@ + real_run(start as nat, i as nat));
        }
    }
}

fn push_padding(v: &mut Vec<VirtualLine>, k: usize)
    ensures
        final(v)@ == old(v)@ + padding_run(k as nat),
{
    let mut i: usize = 0;
    while i < k
        invariant
            i <= k,
            v@ == old(v)@ + padding_run(i as nat),
        decreases k - i,
    {
        v.push(VirtualLine::Padding);
        i = i + 1;
        proof {
            assert(v@ =~= old(v)@ + padding_run(i as nat));
        }
    }
}

/// Pair up accumulated deletion and insertion lines, padding the
/// shorter side so both columns have the same number of virtual rows.
pub fn flush_change_block(
    del: &mut Vec<usize>,
    ins: &mut Vec<usize>,
    left: &mut Vec<VirtualLine>,
    right: &mut Vec<VirtualLine>,
)
    ensures
        final(left)@ == old(left)@ + change_block(old(del)@, old(ins)@).0,
        final(right)@ == old(right)@ + change_block(old(del)@, old(ins)@).1,
        final(del)@.len() == 0,
        final(ins)@.len() == 0,
{
    let max_len = if del.len() >= ins.len() { del.len() } else { ins.len() };
    let ghost b = change_block(del@, ins@);
    let mut i: usize = 0;
    while i < max_len
        invariant
            i <= max_len,
            max_len == max(del@.len(), ins@.len()),
            b == change_block(del@, ins@),
            del@ == old(del)@,
            ins@ == old(ins)@,
            left@ == old(left)@ + b.0.take(i as int),
            right@ == old(right)@ + b.1.take(i as int),
        decreases max_len - i,
    {
        if i < del.len() {
            left.push(VirtualLine::Real(del[i]));
        } else {
            left.push(VirtualLine::Padding);
        }
        if i < ins.len() {
            right.push(VirtualLine::Real(ins[i]));
        } else {
            right.push(VirtualLine::Padding);
        }
        proof {
            assert(b.0.take(i + 1) =~= b.0.take(i as int).push(b.0[i as int]));
            assert(b.1.take(i + 1) =~= b.1.take(i as int).push(b.1[i as int]));
        }
        i = i + 1;
    }
    proof {
        assert(b.0.take(max_len as int) =~= b.0);
        assert(b.1.take(max_len as int) =~= b.1);
    }
    del.clear();
    ins.clear();
}

} // verus!

verus! {

fn context_step_exec(
    left: &mut Vec<VirtualLine>,
    right: &mut Vec<VirtualLine>,
    old_cursor: usize,
    new_cursor: usize,
    old_start: usize,
    new_start: usize,
) -> (r: (usize, usize))
    requires
        old_cursor + old_start <= usize::MAX,
        new_cursor + new_start <= usize::MAX,
    ensures
        ({
            let st = context_step(
                AlignState {
                    left: old(left)@,
                    right: old(right)@,
                    oc: old_cursor as nat,
                    nc: new_cursor as nat,
                },
                old_start as nat,
                new_start as nat,
            );
            &&& final(left)@ == st.left
            &&& final(right)@ == st.right
            &&& r.0 == st.oc
            &&& r.1 == st.nc
        }),
        r.0 == max(old_cursor as nat, old_start as nat),
        r.1 == max(new_cursor as nat, new_start as nat),
{
    let old_context = old_start.saturating_sub(old_cursor);
    let new_context = new_start.saturating_sub(new_cursor);
    let context_count = if old_context <= new_context { old_context } else { new_context };
    push_run(left, old_cursor, context_count);
    push_run(right, new_cursor, context_count);
    let oc = old_cursor + context_count;
    let nc = new_cursor + context_count;
    let xo = old_context - context_count;
    let xn = new_context - context_count;
    push_run(left, oc, xo);
    push_padding(right, xo);
    push_padding(left, xn);
    push_run(right, nc, xn);
    (oc + xo, nc + xn)
}

proof fn lemma_total_lines_step(hs: Seq<PatchHunkView>, h: int)
    requires
        0 <= h < hs.len(),
    ensures
        total_lines(hs.skip(h)) == hs[h].origins.len() + total_lines(hs.skip(h + 1)),
        total_lines(hs.skip(h + 1)) <= total_lines(hs.skip(h)),
{
    assert(hs.skip(h).drop_first() =~= hs.skip(h + 1));
}

proof fn lemma_total_lines_skip(hs: Seq<PatchHunkView>, h: int)
    requires
        0 <= h <= hs.len(),
    ensures
        total_lines(hs.skip(h)) <= total_lines(hs),
    decreases h,
{
    if h == 0 {
        assert(hs.skip(0) =~= hs);
    } else {
        lemma_total_lines_skip(hs, h - 1);
        lemma_total_lines_step(hs, h - 1);
    }
}

impl DiffAlignment {
    /// Build alignment maps from the hunks of a patch.
    ///
    /// `old_line_count` — number of lines in the HEAD blob.
    /// `new_line_count` — number of lines in the working copy.
    pub fn from_hunks(hunks: &Vec<PatchHunk>, old_line_count: usize, new_line_count: usize) -> (a:
        Self)
        requires
            hunks_fit(hunk_views(hunks@), old_line_count as nat, new_line_count as nat),
        ensures
            (a.left@, a.right@) == alignment(
                hunk_views(hunks@),
                old_line_count as nat,
                new_line_count as nat,
            ),
    {
        let ghost hs = hunk_views(hunks@);
        let ghost target = alignment(hs, old_line_count as nat, new_line_count as nat);
        let ghost big = (u32::MAX as nat) + total_lines(hs);
        let mut left: Vec<VirtualLine> = Vec::new();
        let mut right: Vec<VirtualLine> = Vec::new();
        let mut old_cursor: usize = 0;
        let mut new_cursor: usize = 0;
        let mut h: usize = 0;
        proof {
            assert(hs.skip(0) =~= hs);
            assert(left@ =~= Seq::<VirtualLine>::empty());
            assert(right@ =~= Seq::<VirtualLine>::empty());
        }
        while h < hunks.len()
            invariant
                hs == hunk_views(hunks@),
                h <= hunks@.len(),
                hunks_fit(hs, old_line_count as nat, new_line_count as nat),
                big == (u32::MAX as nat) + total_lines(hs),
                target == alignment(hs, old_line_count as nat, new_line_count as nat),
                target == finish(
                    hunks_walk(
                        hs.skip(h as int),
                        AlignState {
                            left: left@,
                            right: right@,
                            oc: old_cursor as nat,
                            nc: new_cursor as nat,
                        },
                    ),
                    old_line_count as nat,
                    new_line_count as nat,
                ),
                old_cursor + total_lines(hs.skip(h as int)) <= big,
                new_cursor + total_lines(hs.skip(h as int)) <= big,
            decreases hunks@.len() - h,
        {
            let hunk = &hunks[h];
            proof {
                lemma_total_lines_step(hs, h as int);
                lemma_total_lines_skip(hs, h as int);
                assert(hs.skip(h as int).drop_first() =~= hs.skip(h + 1));
                assert(hs[h as int] == hunk@);
            }
            let old_start = (hunk.old_start as usize).saturating_sub(1);
            let new_start = (hunk.new_start as usize).saturating_sub(1);
            let (oc1, nc1) = context_step_exec(
                &mut left,
                &mut right,
                old_cursor,
                new_cursor,
                old_start,
                new_start,
            );
            let mut del_lines: Vec<usize> = Vec::new();
            let mut ins_lines: Vec<usize> = Vec::new();
            let mut hunk_old = oc1;
            let mut hunk_new = nc1;
            let mut j: usize = 0;
            let ghost origins = hunk.origins@;
            proof {
                assert(origins.skip(0) =~= origins);
                assert(del_lines@ =~= Seq::<usize>::empty());
                assert(ins_lines@ =~= Seq::<usize>::empty());
            }
            while j < hunk.origins.len()
                invariant
                    origins == hunk.origins@,
                    j <= origins.len(),
                    target == finish(
                        hunks_walk(
                            hs.skip(h + 1),
                            lines_walk(
                                origins.skip(j as int),
                                AlignState {
                                    left: left@,
                                    right: right@,
                                    oc: hunk_old as nat,
                                    nc: hunk_new as nat,
                                },
                                del_lines@,
                                ins_lines@,
                            ),
                        ),
                        old_line_count as nat,
                        new_line_count as nat,
                    ),
                    hunk_old + (origins.len() - j) + total_lines(hs.skip(h + 1)) <= big,
                    hunk_new + (origins.len() - j) + total_lines(hs.skip(h + 1)) <= big,
                    big + old_line_count + new_line_count + u32::MAX + 2 <= usize::MAX,
                decreases origins.len() - j,
            {
                proof {
                    assert(origins.skip(j as int).drop_first() =~= origins.skip(j + 1));
                    assert(origins.skip(j as int)[0] == origins[j as int]);
                }
                let o = hunk.origins[j];
                if o == '-' {
                    del_lines.push(hunk_old);
                    hunk_old = hunk_old + 1;
                } else if o == '+' {
                    ins_lines.push(hunk_new);
                    hunk_new = hunk_new + 1;
                } else if o == ' ' {
                    let ghost l0 = left@;
                    let ghost r0 = right@;
                    let ghost b = change_block(del_lines@, ins_lines@);
                    flush_change_block(&mut del_lines, &mut ins_lines, &mut left, &mut right);
                    left.push(VirtualLine::Real(hunk_old));
                    right.push(VirtualLine::Real(hunk_new));
                    proof {
                        assert(left@ =~= l0 + b.0 + seq![VirtualLine::Real(hunk_old)]);
                        assert(right@ =~= r0 + b.1 + seq![VirtualLine::Real(hunk_new)]);
                    }
                    hunk_old = hunk_old + 1;
                    hunk_new = hunk_new + 1;
                    proof {
                        assert(del_lines@ =~= Seq::<usize>::empty());
                        assert(ins_lines@ =~= Seq::<usize>::empty());
                    }
                }
                j = j + 1;
            }
            flush_change_block(&mut del_lines, &mut ins_lines, &mut left, &mut right);
            old_cursor = hunk_old;
            new_cursor = hunk_new;
            h = h + 1;
        }
        let old_remaining = old_line_count.saturating_sub(old_cursor);
        let new_remaining = new_line_count.saturating_sub(new_cursor);
        push_run(&mut left, old_cursor, old_remaining);
        push_run(&mut right, new_cursor, new_remaining);
        let max_len = if left.len() >= right.len() { left.len() } else { right.len() };
        let lpad = max_len - left.len();
        let rpad = max_len - right.len();
        push_padding(&mut left, lpad);
        push_padding(&mut right, rpad);
        proof {
            assert(hs.skip(h as int).len() == 0);
        }
        DiffAlignment { left, right }
    }
}

} // verus!

verus! {

/// The real line numbers of `map`, top to bottom (filler rows skipped).
pub open spec fn reals(map: Seq<VirtualLine>) -> Seq<usize>
    decreases map.len(),
{
    if map.len() == 0 {
        Seq::empty()
    } else {
        match map.last() {
            VirtualLine::Real(r) => reals(map.drop_last()).push(r),
            VirtualLine::Padding => reals(map.drop_last()),
        }
    }
}

/// The line numbers `0, 1, ..., n - 1`.
pub open spec fn iota(n: nat) -> Seq<usize> {
    Seq::new(n, |i: int| i as usize)
}

/// Both maps have the same number of rows, and no row is filler on both
/// sides.
pub open spec fn rows_paired(l: Seq<VirtualLine>, r: Seq<VirtualLine>) -> bool {
    &&& l.len() == r.len()
    &&& forall|i: int|
        0 <= i < l.len() ==> !(#[trigger] l[i] is Padding && r[i] is Padding)
}

proof fn lemma_reals_concat(a: Seq<VirtualLine>, b: Seq<VirtualLine>)
    ensures
        reals(a + b) == reals(a) + reals(b),
    decreases b.len(),
{
    if b.len() == 0 {
        assert(a + b =~= a);
        assert(reals(a) + reals(b) =~= reals(a));
    } else {
        assert((a + b).drop_last() =~= a + b.drop_last());
        assert((a + b).last() == b.last());
        lemma_reals_concat(a, b.drop_last());
        match b.last() {
            VirtualLine::Real(r) => {
                assert(reals(a) + reals(b.drop_last()).push(r) =~= (reals(a) + reals(
                    b.drop_last(),
                )).push(r));
            },
            VirtualLine::Padding => {},
        }
    }
}

proof fn lemma_reals_single(x: usize)
    ensures
        reals(seq![VirtualLine::Real(x)]) == seq![x],
{
    let s = seq![VirtualLine::Real(x)];
    assert(s.drop_last() =~= Seq::<VirtualLine>::empty());
    assert(s.last() == VirtualLine::Real(x));
    assert(reals(Seq::<VirtualLine>::empty()) =~= Seq::<usize>::empty());
    assert(Seq::<usize>::empty().push(x) =~= seq![x]);
}

proof fn lemma_reals_run(s: nat, k: nat)
    ensures
        reals(real_run(s, k)) == Seq::new(k, |i: int| (s + i) as usize),
    decreases k,
{
    if k > 0 {
        lemma_reals_run(s, (k - 1) as nat);
        assert(real_run(s, k).drop_last() =~= real_run(s, (k - 1) as nat));
        assert(Seq::new((k - 1) as nat, |i: int| (s + i) as usize).push(((s + k - 1) as usize))
            =~= Seq::new(k, |i: int| (s + i) as usize));
    } else {
        assert(reals(real_run(s, k)) =~= Seq::<usize>::empty());
    }
}

proof fn lemma_reals_pad(k: nat)
    ensures
        reals(padding_run(k)) == Seq::<usize>::empty(),
    decreases k,
{
    if k > 0 {
        assert(padding_run(k).drop_last() =~= padding_run((k - 1) as nat));
        lemma_reals_pad((k - 1) as nat);
    }
}

proof fn lemma_reals_prefix_real(dels: Seq<usize>, m: nat, k: nat)
    requires
        k <= m,
        dels.len() <= m,
    ensures
        reals(
            Seq::new(
                m,
                |i: int|
                    if i < dels.len() {
                        VirtualLine::Real(dels[i])
                    } else {
                        VirtualLine::Padding
                    },
            ).take(k as int),
        ) == dels.take(if k <= dels.len() { k as int } else { dels.len() as int }),
    decreases k,
{
    let s = Seq::new(
        m,
        |i: int|
            if i < dels.len() {
                VirtualLine::Real(dels[i])
            } else {
                VirtualLine::Padding
            },
    );
    if k == 0 {
        assert(s.take(0) =~= Seq::<VirtualLine>::empty());
        assert(dels.take(0) =~= Seq::<usize>::empty());
    } else {
        lemma_reals_prefix_real(dels, m, (k - 1) as nat);
        assert(s.take(k as int).drop_last() =~= s.take(k - 1));
        if k <= dels.len() {
            assert(dels.take(k - 1).push(dels[k - 1]) =~= dels.take(k as int));
        }
    }
}

proof fn lemma_reals_block(dels: Seq<usize>, ins: Seq<usize>)
    ensures
        reals(change_block(dels, ins).0) == dels,
        reals(change_block(dels, ins).1) == ins,
        rows_paired(change_block(dels, ins).0, change_block(dels, ins).1),
{
    let b = change_block(dels, ins);
    let m = max(dels.len(), ins.len());
    lemma_reals_prefix_real(dels, m, m);
    lemma_reals_prefix_real(ins, m, m);
    assert(b.0.take(m as int) =~= b.0);
    assert(b.1.take(m as int) =~= b.1);
    assert(dels.take(dels.len() as int) =~= dels);
    assert(ins.take(ins.len() as int) =~= ins);
}

/// The walk's state is consistent: every old / new line before the cursor
/// appears once, in order, among the placed rows or the pending block.
pub open spec fn state_ok(st: AlignState, dels: Seq<usize>, ins: Seq<usize>) -> bool {
    &&& reals(st.left) + dels == iota(st.oc)
    &&& reals(st.right) + ins == iota(st.nc)
    &&& rows_paired(st.left, st.right)
}

proof fn lemma_rows_paired_concat(
    l1: Seq<VirtualLine>,
    r1: Seq<VirtualLine>,
    l2: Seq<VirtualLine>,
    r2: Seq<VirtualLine>,
)
    requires
        rows_paired(l1, r1),
        rows_paired(l2, r2),
    ensures
        rows_paired(l1 + l2, r1 + r2),
{
    assert forall|i: int| 0 <= i < (l1 + l2).len() implies !(#[trigger] (l1 + l2)[i] is Padding && (r1
        + r2)[i] is Padding) by {
        if i < l1.len() {
            assert((l1 + l2)[i] == l1[i]);
            assert((r1 + r2)[i] == r1[i]);
        } else {
            assert((l1 + l2)[i] == l2[i - l1.len()]);
            assert((r1 + r2)[i] == r2[i - l1.len()]);
        }
    }
}

proof fn lemma_iota_extend(a: nat, k: nat)
    ensures
        iota(a) + Seq::new(k, |i: int| (a + i) as usize) == iota(a + k),
{
    assert(iota(a) + Seq::new(k, |i: int| (a + i) as usize) =~= iota(a + k));
}

proof fn lemma_context_ok(st: AlignState, os: nat, ns: nat)
    requires
        state_ok(st, Seq::empty(), Seq::empty()),
    ensures
        state_ok(context_step(st, os, ns), Seq::empty(), Seq::empty()),
        context_step(st, os, ns).oc == max(st.oc, os),
        context_step(st, os, ns).nc == max(st.nc, ns),
{
    let old_context = sat_sub(os, st.oc);
    let new_context = sat_sub(ns, st.nc);
    let c = min(old_context, new_context);
    let xo = sat_sub(old_context, c);
    let xn = sat_sub(new_context, c);
    let e = Seq::<usize>::empty();
    assert(reals(st.left) + e =~= reals(st.left));
    assert(reals(st.right) + e =~= reals(st.right));
    lemma_reals_run(st.oc, c);
    lemma_reals_run(st.oc + c, xo);
    lemma_reals_run(st.nc, c);
    lemma_reals_run(st.nc + c, xn);
    lemma_reals_pad(xo);
    lemma_reals_pad(xn);
    lemma_reals_concat(st.left, real_run(st.oc, c));
    lemma_reals_concat(st.left + real_run(st.oc, c), real_run(st.oc + c, xo));
    lemma_reals_concat(st.left + real_run(st.oc, c) + real_run(st.oc + c, xo), padding_run(xn));
    lemma_reals_concat(st.right, real_run(st.nc, c));
    lemma_reals_concat(st.right + real_run(st.nc, c), padding_run(xo));
    lemma_reals_concat(st.right + real_run(st.nc, c) + padding_run(xo), real_run(st.nc + c, xn));
    lemma_iota_extend(st.oc, c);
    lemma_iota_extend(st.oc + c, xo);
    lemma_iota_extend(st.nc, c);
    lemma_iota_extend(st.nc + c, xn);
    let st2 = context_step(st, os, ns);
    assert(reals(st2.left) + e =~= iota(st2.oc));
    assert(reals(st2.right) + e =~= iota(st2.nc));
    let cl = real_run(st.oc, c) + real_run(st.oc + c, xo) + padding_run(xn);
    let cr = real_run(st.nc, c) + padding_run(xo) + real_run(st.nc + c, xn);
    assert(xo == 0 || xn == 0);
    assert(rows_paired(cl, cr)) by {
        assert forall|i: int| 0 <= i < cl.len() implies !(#[trigger] cl[i] is Padding && cr[i] is Padding) by {
            if i < c {
            } else if i < c + xo {
            } else {
            }
        }
    }
    lemma_rows_paired_concat(st.left, st.right, cl, cr);
    assert(st.left + real_run(st.oc, c) + real_run(st.oc + c, xo) + padding_run(xn) =~= st.left + cl);
    assert(st.right + real_run(st.nc, c) + padding_run(xo) + real_run(st.nc + c, xn) =~= st.right + cr);
}

proof fn lemma_lines_ok(origins: Seq<char>, st: AlignState, dels: Seq<usize>, ins: Seq<usize>)
    requires
        state_ok(st, dels, ins),
    ensures
        state_ok(lines_walk(origins, st, dels, ins), Seq::empty(), Seq::empty()),
        lines_walk(origins, st, dels, ins).oc >= st.oc,
        lines_walk(origins, st, dels, ins).nc >= st.nc,
    decreases origins.len(),
{
    let e = Seq::<usize>::empty();
    if origins.len() == 0 {
        let b = change_block(dels, ins);
        lemma_reals_block(dels, ins);
        lemma_reals_concat(st.left, b.0);
        lemma_reals_concat(st.right, b.1);
        lemma_rows_paired_concat(st.left, st.right, b.0, b.1);
        assert(reals(st.left + b.0) + e =~= iota(st.oc));
        assert(reals(st.right + b.1) + e =~= iota(st.nc));
    } else if origins[0] == '-' {
        let st2 = AlignState { oc: st.oc + 1, ..st };
        assert(reals(st2.left) + dels.push(st.oc as usize) =~= (reals(st.left) + dels).push(
            st.oc as usize,
        ));
        assert(iota(st.oc).push(st.oc as usize) =~= iota(st2.oc));
        lemma_lines_ok(origins.drop_first(), st2, dels.push(st.oc as usize), ins);
    } else if origins[0] == '+' {
        let st2 = AlignState { nc: st.nc + 1, ..st };
        assert(reals(st2.right) + ins.push(st.nc as usize) =~= (reals(st.right) + ins).push(
            st.nc as usize,
        ));
        assert(iota(st.nc).push(st.nc as usize) =~= iota(st2.nc));
        lemma_lines_ok(origins.drop_first(), st2, dels, ins.push(st.nc as usize));
    } else if origins[0] == ' ' {
        let b = change_block(dels, ins);
        let l2 = st.left + b.0 + seq![VirtualLine::Real(st.oc as usize)];
        let r2 = st.right + b.1 + seq![VirtualLine::Real(st.nc as usize)];
        lemma_reals_block(dels, ins);
        lemma_reals_concat(st.left, b.0);
        lemma_reals_concat(st.right, b.1);
        lemma_reals_concat(st.left + b.0, seq![VirtualLine::Real(st.oc as usize)]);
        lemma_reals_concat(st.right + b.1, seq![VirtualLine::Real(st.nc as usize)]);
        lemma_reals_single(st.oc as usize);
        lemma_reals_single(st.nc as usize);
        lemma_rows_paired_concat(st.left, st.right, b.0, b.1);
        lemma_rows_paired_concat(
            st.left + b.0,
            st.right + b.1,
            seq![VirtualLine::Real(st.oc as usize)],
            seq![VirtualLine::Real(st.nc as usize)],
        );
        let st2 = AlignState { left: l2, right: r2, oc: st.oc + 1, nc: st.nc + 1 };
        assert(reals(l2) + e =~= iota(st2.oc));
        assert(reals(r2) + e =~= iota(st2.nc));
        lemma_lines_ok(origins.drop_first(), st2, e, e);
    } else {
        lemma_lines_ok(origins.drop_first(), st, dels, ins);
    }
}

proof fn lemma_hunks_ok(hs: Seq<PatchHunkView>, st: AlignState)
    requires
        state_ok(st, Seq::empty(), Seq::empty()),
    ensures
        state_ok(hunks_walk(hs, st), Seq::empty(), Seq::empty()),
    decreases hs.len(),
{
    if hs.len() > 0 {
        let st1 = context_step(st, sat_sub(hs[0].old_start, 1), sat_sub(hs[0].new_start, 1));
        lemma_context_ok(st, sat_sub(hs[0].old_start, 1), sat_sub(hs[0].new_start, 1));
        lemma_lines_ok(hs[0].origins, st1, Seq::empty(), Seq::empty());
        lemma_hunks_ok(hs.drop_first(), hunk_step(st, hs[0]));
    }
}

/// Laws of the side-by-side alignment: both panes have the same number of
/// rows; no row is filler on both sides; and the real lines of each pane,
/// read top to bottom, are `0, 1, 2, ...` with none skipped or repeated,
/// covering at least all the lines of that side.
pub proof fn lemma_alignment_laws(hs: Seq<PatchHunkView>, old_count: nat, new_count: nat)
    ensures
        ({
            let (l, r) = alignment(hs, old_count, new_count);
            &&& rows_paired(l, r)
            &&& reals(l) == iota(reals(l).len())
            &&& reals(r) == iota(reals(r).len())
            &&& reals(l).len() >= old_count
            &&& reals(r).len() >= new_count
        }),
{
    let e = Seq::<usize>::empty();
    let st0 = empty_state();
    assert(reals(st0.left) + e =~= iota(0));
    assert(reals(st0.right) + e =~= iota(0));
    lemma_hunks_ok(hs, st0);
    let st = hunks_walk(hs, st0);
    assert(reals(st.left) =~= iota(st.oc)) by {
        assert(reals(st.left) + e =~= reals(st.left));
    }
    assert(reals(st.right) =~= iota(st.nc)) by {
        assert(reals(st.right) + e =~= reals(st.right));
    }
    let ro = sat_sub(old_count, st.oc);
    let rn = sat_sub(new_count, st.nc);
    let l = st.left + real_run(st.oc, ro);
    let r = st.right + real_run(st.nc, rn);
    let m = max(l.len(), r.len());
    lemma_reals_run(st.oc, ro);
    lemma_reals_run(st.nc, rn);
    lemma_reals_concat(st.left, real_run(st.oc, ro));
    lemma_reals_concat(st.right, real_run(st.nc, rn));
    lemma_iota_extend(st.oc, ro);
    lemma_iota_extend(st.nc, rn);
    lemma_reals_pad(sat_sub(m, l.len()));
    lemma_reals_pad(sat_sub(m, r.len()));
    lemma_reals_concat(l, padding_run(sat_sub(m, l.len())));
    lemma_reals_concat(r, padding_run(sat_sub(m, r.len())));
    let fl = l + padding_run(sat_sub(m, l.len()));
    let fr = r + padding_run(sat_sub(m, r.len()));
    assert(reals(fl) =~= iota(st.oc + ro));
    assert(reals(fr) =~= iota(st.nc + rn));
    let tl = real_run(st.oc, ro) + padding_run(sat_sub(m, l.len()));
    let tr = real_run(st.nc, rn) + padding_run(sat_sub(m, r.len()));
    assert(rows_paired(tl, tr)) by {
        assert forall|i: int| 0 <= i < tl.len() implies !(#[trigger] tl[i] is Padding && tr[i] is Padding) by {
            if i < ro {
            } else {
                assert(i < rn);
            }
        }
    }
    lemma_rows_paired_concat(st.left, st.right, tl, tr);
    assert(fl =~= st.left + tl);
    assert(fr =~= st.right + tr);
}

} // verus!
