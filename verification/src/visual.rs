//! Tab-aware, grapheme-aware conversion between char indices and visual
//! (screen) columns of a line.

use crate::unicode::{display_width, grapheme_split, graphemes_of, str_width};
use vstd::prelude::*;
use vstd::string::StrSliceExecFns;

verus! {

/// `a + b`, held at `usize::MAX`.
pub open spec fn sat_add(a: nat, b: nat) -> nat {
    if a + b > usize::MAX {
        usize::MAX as nat
    } else {
        a + b
    }
}

/// Columns that grapheme `g` takes when it starts at visual column `vcol`:
/// a tab reaches the next multiple of `tab`, anything else takes its
/// display width.
pub open spec fn grapheme_cols(g: Seq<char>, vcol: nat, tab: nat) -> nat {
    if g == seq!['\t'] {
        (tab - vcol % tab) as nat
    } else {
        str_width(g)
    }
}

/// Walks the graphemes `gs` from visual column `vcol` with `n` chars
/// already passed, stopping at the first grapheme that starts at or after
/// char index `limit`; the visual column reached.
pub open spec fn vcol_walk(gs: Seq<Seq<char>>, limit: nat, tab: nat, vcol: nat, n: nat) -> nat
    decreases gs.len(),
{
    if gs.len() == 0 || n >= limit {
        vcol
    } else {
        vcol_walk(
            gs.drop_first(),
            limit,
            tab,
            sat_add(vcol, grapheme_cols(gs[0], vcol, tab)),
            n + gs[0].len(),
        )
    }
}

/// Whether the walk of `vcol_walk` meets a tab grapheme.
pub open spec fn walk_meets_tab(gs: Seq<Seq<char>>, limit: nat, n: nat) -> bool
    decreases gs.len(),
{
    if gs.len() == 0 || n >= limit {
        false
    } else {
        gs[0] == seq!['\t'] || walk_meets_tab(gs.drop_first(), limit, n + gs[0].len())
    }
}

/// Visual column of char index `char_idx` on `line`.
pub open spec fn visual_col(line: Seq<char>, char_idx: nat, tab: nat) -> nat {
    vcol_walk(grapheme_split(line), char_idx, tab, 0, 0)
}

/// Walks the graphemes `gs` from visual column `vcol` and char index `ci`
/// for as long as the next grapheme still ends at or before `target`;
/// the char index reached.
pub open spec fn cidx_walk(gs: Seq<Seq<char>>, target: nat, tab: nat, vcol: nat, ci: nat) -> nat
    decreases gs.len(),
{
    if gs.len() == 0 || vcol >= target {
        ci
    } else if vcol + grapheme_cols(gs[0], vcol, tab) > target {
        ci
    } else {
        cidx_walk(
            gs.drop_first(),
            target,
            tab,
            vcol + grapheme_cols(gs[0], vcol, tab),
            ci + gs[0].len(),
        )
    }
}

/// Whether the walk of `cidx_walk` meets a tab grapheme.
pub open spec fn cwalk_meets_tab(gs: Seq<Seq<char>>, target: nat, tab: nat, vcol: nat) -> bool
    decreases gs.len(),
{
    if gs.len() == 0 || vcol >= target {
        false
    } else if gs[0] == seq!['\t'] {
        true
    } else if vcol + str_width(gs[0]) > target {
        false
    } else {
        cwalk_meets_tab(gs.drop_first(), target, tab, vcol + str_width(gs[0]))
    }
}

/// Char index nearest to visual column `visual_col` on `line`, never past it.
pub open spec fn char_at_visual(line: Seq<char>, visual_col: nat, tab: nat) -> nat {
    cidx_walk(grapheme_split(line), visual_col, tab, 0, 0)
}

proof fn lemma_skip_step<A>(gs: Seq<Seq<A>>, i: int)
    requires
        0 <= i < gs.len(),
    ensures
        gs.skip(i).len() > 0,
        gs.skip(i)[0] == gs[i],
        gs.skip(i).drop_first() =~= gs.skip(i + 1),
        gs.skip(i).flatten() =~= gs[i] + gs.skip(i + 1).flatten(),
{
    assert(gs.skip(i).drop_first() =~= gs.skip(i + 1));
}

/// Is grapheme `g` (with `glen` chars) a single tab?
fn is_tab(g: &String, glen: usize) -> (b: bool)
    requires
        glen == g@.len(),
    ensures
        b == (g@ == seq!['\t']),
{
    if glen == 1 {
        let c = g.as_str().get_char(0);
        if c == '\t' {
            assert(g@ =~= seq!['\t']);
            true
        } else {
            false
        }
    } else {
        false
    }
}

/// Is every char of `s` printable ASCII?
pub open spec fn printable_ascii(s: Seq<char>) -> bool {
    forall|i: int| 0 <= i < s.len() ==> 0x20 <= (#[trigger] s[i] as u32) < 0x7f
}

/// Is every char of `s` printable ASCII or a tab?
pub open spec fn printable_or_tab(s: Seq<char>) -> bool {
    forall|i: int| 0 <= i < s.len() ==> #[trigger] s[i] == '\t' || 0x20 <= (s[i] as u32) < 0x7f
}

/// The chars of `s` before index `k` that are not tabs have display
/// width 1.
pub open spec fn unit_widths(s: Seq<char>, k: nat) -> bool {
    forall|j: int| 0 <= j < k && j < s.len() && s[j] != '\t' ==> str_width(#[trigger] seq![s[j]]) == 1
}

/// Walking one more grapheme `g` after `gs` (all non-empty) to the end
/// adds `g`'s columns to where the walk of `gs` ends.
proof fn lemma_walk_push(gs: Seq<Seq<char>>, g: Seq<char>, tab: nat, v: nat, n: nat)
    requires
        forall|k: int| 0 <= k < gs.len() ==> (#[trigger] gs[k]).len() > 0,
        g.len() > 0,
    ensures
        ({
            let v2 = vcol_walk(gs, n + gs.flatten().len(), tab, v, n);
            vcol_walk(gs.push(g), n + gs.flatten().len() + g.len(), tab, v, n) == sat_add(
                v2,
                grapheme_cols(g, v2, tab),
            )
        }),
    decreases gs.len(),
{
    if gs.len() == 0 {
        assert(gs.push(g).drop_first() =~= Seq::<Seq<char>>::empty());
        reveal_with_fuel(vcol_walk, 2);
    } else {
        let r = gs.drop_first();
        assert(gs.push(g).drop_first() =~= r.push(g));
        assert(gs.push(g)[0] == gs[0]);
        assert(gs.flatten() == gs[0] + r.flatten());
        assert forall|k: int| 0 <= k < r.len() implies (#[trigger] r[k]).len() > 0 by {
            assert(r[k] == gs[k + 1]);
        }
        let v1 = sat_add(v, grapheme_cols(gs[0], v, tab));
        lemma_walk_push(r, g, tab, v1, n + gs[0].len());
    }
}

/// Calculate the visual column from a char index on a given line.
pub fn visual_col_from_char_idx(line: &str, char_idx: usize, tab_size: usize) -> (vcol: usize)
    requires
        tab_size > 0 || !walk_meets_tab(grapheme_split(line@), char_idx as nat, 0),
    ensures
        vcol == visual_col(line@, char_idx as nat, tab_size as nat),
        printable_ascii(line@) ==> vcol == (if char_idx <= line@.len() { char_idx as nat } else { line@.len() }),
        grapheme_split(line@).flatten() == line@,
        forall|k: int| 0 <= k < grapheme_split(line@).len() ==> (#[trigger] grapheme_split(line@)[k]).len() > 0,
        crate::unicode::plain_ascii(line@) ==> grapheme_split(line@) == crate::unicode::singletons(line@),
        printable_or_tab(line@) ==> unit_widths(line@, char_idx as nat),
        line@.len() > 0 && line@.last() == '\t' ==> grapheme_split(line@) == grapheme_split(line@.drop_last()).push(
            seq!['\t'],
        ),
{
    let total = line.unicode_len();
    let gs = graphemes_of(line);
    let ghost sp = grapheme_split(line@);
    let ghost pr = printable_ascii(line@);
    let ghost pt = printable_or_tab(line@);
    proof {
        assert(gs@.map_values(|x: String| x@) =~= sp);
        assert(sp.skip(0) =~= sp);
        if pr {
            assert(crate::unicode::plain_ascii(line@));
            assert(sp == crate::unicode::singletons(line@));
        }
        if pt {
            assert(crate::unicode::plain_ascii(line@));
        }
    }
    let ghost pa = crate::unicode::plain_ascii(line@) ==> sp == crate::unicode::singletons(line@);
    let mut vcol: usize = 0;
    let mut n: usize = 0;
    let mut i: usize = 0;
    while i < gs.len()
        invariant
            pr == printable_ascii(line@),
            pt == printable_or_tab(line@),
            pa,
            pa == (crate::unicode::plain_ascii(line@) ==> sp == crate::unicode::singletons(line@)),
            pr ==> pt,
            pt ==> sp == crate::unicode::singletons(line@) && n == i && n <= char_idx && unit_widths(line@, i as nat),
            pr ==> vcol == n,
            sp == grapheme_split(line@),
            gs@.len() == sp.len(),
            forall|k: int| 0 <= k < gs@.len() ==> #[trigger] gs@[k]@ == sp[k],
            forall|k: int| 0 <= k < gs@.len() ==> #[trigger] gs@[k]@.len() > 0,
            i <= gs@.len(),
            total == line@.len(),
            n + sp.skip(i as int).flatten().len() == total,
            visual_col(line@, char_idx as nat, tab_size as nat) == vcol_walk(
                sp.skip(i as int),
                char_idx as nat,
                tab_size as nat,
                vcol as nat,
                n as nat,
            ),
            tab_size > 0 || !walk_meets_tab(sp.skip(i as int), char_idx as nat, n as nat),
        ensures
            visual_col(line@, char_idx as nat, tab_size as nat) == vcol,
            pr ==> vcol == (if char_idx <= line@.len() { char_idx as nat } else { line@.len() }),
            pt ==> unit_widths(line@, char_idx as nat),
        decreases gs@.len() - i,
    {
        if n >= char_idx {
            break;
        }
        proof {
            lemma_skip_step(sp, i as int);
        }
        let g = &gs[i];
        let glen = g.as_str().unicode_len();
        let w = if is_tab(g, glen) {
            tab_size - (vcol % tab_size)
        } else {
            display_width(g.as_str())
        };
        assert(g@ == sp[i as int]);
        proof {
            if pt {
                assert(sp[i as int] == seq![line@[i as int]]);
                assert(g@.len() == 1);
                assert(g@[0] == line@[i as int]);
                if line@[i as int] != '\t' {
                    assert(g@ != seq!['\t']);
                    assert(str_width(seq![line@[i as int]]) == 1);
                }
                assert forall|j: int| 0 <= j < i + 1 && j < line@.len() && line@[j] != '\t' implies str_width(
                    #[trigger] seq![line@[j]],
                ) == 1 by {
                    if j < i {
                        assert(unit_widths(line@, i as nat));
                    }
                }
            }
            if pr {
                assert(line@[i as int] != '\t');
            }
        }
        vcol = vcol.saturating_add(w);
        n = n + glen;
        i = i + 1;
        proof {
            if i == gs@.len() {
                assert(sp.skip(i as int).len() == 0);
            }
        }
    }
    vcol
}

/// Find the nearest char index that corresponds to a visual column.
pub fn char_idx_from_visual_col(line: &str, visual_col: usize, tab_size: usize) -> (ci: usize)
    requires
        tab_size > 0 || !cwalk_meets_tab(grapheme_split(line@), visual_col as nat, 0, 0),
    ensures
        ci == char_at_visual(line@, visual_col as nat, tab_size as nat),
{
    let total = line.unicode_len();
    let gs = graphemes_of(line);
    let ghost sp = grapheme_split(line@);
    proof {
        assert(gs@.map_values(|x: String| x@) =~= sp);
        assert(sp.skip(0) =~= sp);
    }
    let mut vcol: usize = 0;
    let mut ci: usize = 0;
    let mut i: usize = 0;
    while i < gs.len()
        invariant
            sp == grapheme_split(line@),
            gs@.len() == sp.len(),
            forall|k: int| 0 <= k < gs@.len() ==> #[trigger] gs@[k]@ == sp[k],
            i <= gs@.len(),
            total == line@.len(),
            ci + sp.skip(i as int).flatten().len() == total,
            char_at_visual(line@, visual_col as nat, tab_size as nat) == cidx_walk(
                sp.skip(i as int),
                visual_col as nat,
                tab_size as nat,
                vcol as nat,
                ci as nat,
            ),
            tab_size > 0 || !cwalk_meets_tab(sp.skip(i as int), visual_col as nat, 0, vcol as nat),
            vcol <= visual_col,
        ensures
            char_at_visual(line@, visual_col as nat, tab_size as nat) == ci,
        decreases gs@.len() - i,
    {
        if vcol >= visual_col {
            break;
        }
        proof {
            lemma_skip_step(sp, i as int);
        }
        let g = &gs[i];
        let glen = g.as_str().unicode_len();
        let w = if is_tab(g, glen) {
            tab_size - (vcol % tab_size)
        } else {
            display_width(g.as_str())
        };
        assert(g@ == sp[i as int]);
        if w > visual_col - vcol {
            break;
        }
        vcol = vcol + w;
        ci = ci + glen;
        i = i + 1;
        proof {
            if i == gs@.len() {
                assert(sp.skip(i as int).len() == 0);
            }
        }
    }
    ci
}

/// **Tab-aware** visual width of an entire line.
pub fn line_visual_width(line: &str, tab_size: usize) -> (w: usize)
    requires
        tab_size > 0 || !walk_meets_tab(grapheme_split(line@), line@.len(), 0),
    ensures
        w == visual_col(line@, line@.len(), tab_size as nat),
        printable_ascii(line@) ==> w == line@.len(),
        tab_size > 0 && line@.len() > 0 && line@.last() == '\t' ==> {
            let p = visual_col(line@.drop_last(), (line@.len() - 1) as nat, tab_size as nat);
            p + tab_size <= usize::MAX ==> w == (p / (tab_size as nat) + 1) * tab_size
        },
{
    let n = line.unicode_len();
    let w = visual_col_from_char_idx(line, n, tab_size);
    proof {
        let l = line@;
        if tab_size > 0 && l.len() > 0 && l.last() == '\t' {
            let pre = l.drop_last();
            let gp = grapheme_split(pre);
            let ts = tab_size as nat;
            assert(grapheme_split(l) == gp.push(seq!['\t']));
            gp.lemma_flatten_push(seq!['\t']);
            assert(gp.flatten() + seq!['\t'] == l);
            assert(gp.flatten() =~= pre) by {
                assert(pre =~= (gp.flatten() + seq!['\t']).drop_last());
            }
            assert forall|k: int| 0 <= k < gp.len() implies (#[trigger] gp[k]).len() > 0 by {
                assert(grapheme_split(l)[k] == gp[k]);
            }
            lemma_walk_push(gp, seq!['\t'], ts, 0, 0);
            let p = visual_col(pre, pre.len(), ts);
            assert(p == vcol_walk(gp, 0 + gp.flatten().len(), ts, 0, 0));
            assert(grapheme_cols(seq!['\t'], p, ts) == (ts - p % ts) as nat);
            if p + tab_size <= usize::MAX {
                vstd::arithmetic::div_mod::lemma_fundamental_div_mod(p as int, ts as int);
                vstd::arithmetic::div_mod::lemma_mod_pos_bound(p as int, ts as int);
                assert(p + (ts - p % ts) == (p / ts + 1) * ts) by (nonlinear_arith)
                    requires ts > 0, p == ts * (p / ts) + p % ts, p % ts < ts;
            }
        }
    }
    w
}

/// Columns taken by the grapheme that starts at char index `char_idx`,
/// walking graphemes from `n` chars passed; 1 when none starts there.
pub open spec fn width_at_walk(
    line: Seq<char>,
    gs: Seq<Seq<char>>,
    char_idx: nat,
    tab: nat,
    n: nat,
) -> nat
    decreases gs.len(),
{
    if gs.len() == 0 {
        1
    } else if n == char_idx {
        if gs[0] == seq!['\t'] {
            (tab - visual_col(line, n, tab) % tab) as nat
        } else if str_width(gs[0]) >= 1 {
            str_width(gs[0])
        } else {
            1
        }
    } else {
        width_at_walk(line, gs.drop_first(), char_idx, tab, n + gs[0].len())
    }
}

/// Visual width of the grapheme that starts at char index `char_idx` of
/// `line`: its display width (at least 1), the distance to the next tab
/// stop for a tab, and 1 when no grapheme starts there.
pub fn grapheme_width_in_line(line: &str, char_idx: usize, tab_size: usize) -> (w: usize)
    requires
        tab_size > 0,
    ensures
        w == width_at_walk(line@, grapheme_split(line@), char_idx as nat, tab_size as nat, 0),
{
    let total = line.unicode_len();
    let gs = graphemes_of(line);
    let ghost sp = grapheme_split(line@);
    proof {
        assert(gs@.map_values(|x: String| x@) =~= sp);
        assert(sp.skip(0) =~= sp);
    }
    let mut n: usize = 0;
    let mut i: usize = 0;
    while i < gs.len()
        invariant
            sp == grapheme_split(line@),
            gs@.len() == sp.len(),
            forall|k: int| 0 <= k < gs@.len() ==> #[trigger] gs@[k]@ == sp[k],
            i <= gs@.len(),
            total == line@.len(),
            tab_size > 0,
            n + sp.skip(i as int).flatten().len() == total,
            width_at_walk(line@, sp, char_idx as nat, tab_size as nat, 0) == width_at_walk(
                line@,
                sp.skip(i as int),
                char_idx as nat,
                tab_size as nat,
                n as nat,
            ),
        decreases gs@.len() - i,
    {
        proof {
            lemma_skip_step(sp, i as int);
        }
        let g = &gs[i];
        let glen = g.as_str().unicode_len();
        assert(g@ == sp[i as int]);
        if n == char_idx {
            if is_tab(g, glen) {
                let vcol = visual_col_from_char_idx(line, n, tab_size);
                return tab_size - (vcol % tab_size);
            } else {
                let dw = display_width(g.as_str());
                return if dw >= 1 { dw } else { 1 };
            }
        }
        n = n + glen;
        i = i + 1;
    }
    proof {
        assert(sp.skip(i as int).len() == 0);
    }
    1
}

proof fn lemma_walk_mono(gs: Seq<Seq<char>>, limit: nat, tab: nat, v: nat, n: nat)
    requires
        v <= usize::MAX,
    ensures
        vcol_walk(gs, limit, tab, v, n) >= v,
    decreases gs.len(),
{
    if gs.len() > 0 && n < limit {
        lemma_walk_mono(gs.drop_first(), limit, tab, sat_add(v, grapheme_cols(gs[0], v, tab)), n + gs[0].len());
    }
}

/// On one-char graphemes of printable ASCII or tabs (the non-tabs among
/// the first `k` of width 1), walking back from the column `k` graphemes
/// reach lands on grapheme `k`.
proof fn lemma_units_round_trip(us: Seq<Seq<char>>, k: nat, tab: nat, v: nat, ci: nat)
    requires
        tab > 0,
        k <= us.len(),
        forall|j: int| 0 <= j < us.len() ==> (#[trigger] us[j]).len() == 1 && (us[j][0] == '\t' || 0x20 <= (
            us[j][0] as u32) < 0x7f),
        forall|j: int| 0 <= j < k && us[j][0] != '\t' ==> str_width(#[trigger] us[j]) == 1,
        vcol_walk(us, ci + k, tab, v, ci) < usize::MAX,
        v <= usize::MAX,
    ensures
        cidx_walk(us, vcol_walk(us, ci + k, tab, v, ci), tab, v, ci) == ci + k,
    decreases k,
{
    let t = vcol_walk(us, ci + k, tab, v, ci);
    if k > 0 {
        let g = us[0];
        assert(g.len() == 1);
        let c0 = grapheme_cols(g, v, tab);
        if g[0] == '\t' {
            assert(g =~= seq!['\t']);
            vstd::arithmetic::div_mod::lemma_mod_pos_bound(v as int, tab as int);
            assert(c0 >= 1);
        } else {
            assert(g != seq!['\t']) by {
                if g == seq!['\t'] {
                    assert(g[0] == '\t');
                }
            }
            assert(str_width(us[0]) == 1);
            assert(c0 == 1);
        }
        let r = us.drop_first();
        let v1 = sat_add(v, c0);
        assert(t == vcol_walk(r, ci + k, tab, v1, ci + 1));
        assert(v1 <= usize::MAX);
        lemma_walk_mono(r, ci + k, tab, v1, ci + 1);
        assert(v1 == v + c0);
        assert forall|j: int| 0 <= j < r.len() implies (#[trigger] r[j]).len() == 1 && (r[j][0] == '\t' || 0x20 <= (
            r[j][0] as u32) < 0x7f) by {
            assert(r[j] == us[j + 1]);
        }
        assert forall|j: int| 0 <= j < k - 1 && r[j][0] != '\t' implies str_width(#[trigger] r[j]) == 1 by {
            assert(r[j] == us[j + 1]);
        }
        lemma_units_round_trip(r, (k - 1) as nat, tab, v1, ci + 1);
    }
}

/// On a line of printable ASCII chars and tabs, the char index of the
/// visual column of char index `k` is `k` again (when that column is
/// below `usize::MAX`).  The grapheme split and the unit widths are what
/// `visual_col_from_char_idx` reports for such a line.
pub proof fn lemma_column_round_trip(line: Seq<char>, k: nat, tab: nat)
    requires
        tab > 0,
        k <= line.len(),
        printable_or_tab(line),
        grapheme_split(line) == crate::unicode::singletons(line),
        unit_widths(line, k),
        visual_col(line, k, tab) < usize::MAX,
    ensures
        char_at_visual(line, visual_col(line, k, tab), tab) == k,
{
    let us = crate::unicode::singletons(line);
    assert forall|j: int| 0 <= j < us.len() implies (#[trigger] us[j]).len() == 1 && (us[j][0] == '\t' || 0x20 <= (
        us[j][0] as u32) < 0x7f) by {
        assert(us[j] == seq![line[j]]);
    }
    assert forall|j: int| 0 <= j < k && us[j][0] != '\t' implies str_width(#[trigger] us[j]) == 1 by {
        assert(us[j] == seq![line[j]]);
    }
    lemma_units_round_trip(us, k, tab, 0, 0);
}

} // verus!
