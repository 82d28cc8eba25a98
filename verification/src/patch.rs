//! Hunks of a git patch (`git2::Patch`), read out into plain values, and
//! the hunk lookups the editor makes on them.

use crate::diff_align::{alignment, hunk_views, hunks_fit, DiffAlignment, PatchHunk, PatchHunkView, total_lines, sat_sub};
use crate::text::{chars_of, decimal, push_decimal, push_str, string_from_chars, string_push};
use git2::Patch;
use vstd::prelude::*;

verus! {

#[verifier::external_type_specification]
#[verifier::external_body]
pub struct ExPatch<'a>(Patch<'a>);

/// Hunks of the diff `Patch::from_buffers` (no options) makes from `old`
/// to `new` under the name `path`, each read into plain values as
/// `collected_hunks` reads them; `None` when libgit2 reports an error.
pub uninterp spec fn diff_hunks(old: Seq<char>, new: Seq<char>, path: Seq<char>) -> Option<
    Seq<Option<PatchHunkView>>,
>;

/// `Patch::from_buffers` without options: the diff from `old` to `new`,
/// both under the name `path`; `None` when libgit2 reports an error.  The
/// patch depends on the three arguments alone: what is read out of it is
/// named `diff_hunks` of them.
#[verifier::external_body]
pub(crate) fn patch_from_texts<'a>(old: &'a str, new: &'a str, path: &str) -> (r: Option<Patch<'a>>)
    ensures
        r matches Some(p) ==> diff_hunks(old@, new@, path@) == Some(collected_hunks(p)),
        r is None ==> diff_hunks(old@, new@, path@) is None,
{
    Patch::from_buffers(
        old.as_bytes(),
        Some(std::path::Path::new(path)),
        new.as_bytes(),
        Some(std::path::Path::new(path)),
        None,
    ).ok()
}

/// Number of hunks `Patch::num_hunks` reports for `p`.
pub uninterp spec fn patch_hunk_count(p: Patch) -> usize;

/// Header `Patch::hunk(i)` reports for hunk `i` of `p` (old start, old
/// line count, new start, new line count), `None` on an error.
pub uninterp spec fn patch_header(p: Patch, i: usize) -> Option<(u32, u32, u32, u32)>;

/// Line count `Patch::num_lines_in_hunk(i)` reports for `p`, `None` on an
/// error.
pub uninterp spec fn patch_hunk_len(p: Patch, i: usize) -> Option<usize>;

/// Origin char and text `Patch::line_in_hunk(h, l)` reports for `p`,
/// `None` on an error.
pub uninterp spec fn patch_line_at(p: Patch, h: usize, l: usize) -> Option<(char, Seq<char>)>;

/// `Patch::num_hunks`: a read of the patch, named `patch_hunk_count`.
#[verifier::external_body]
pub(crate) fn patch_num_hunks(p: &Patch) -> (n: usize)
    ensures
        n == patch_hunk_count(*p),
{
    p.num_hunks()
}

/// `Patch::hunk(i)`: the hunk's old start, old line count, new start and
/// new line count; `None` when libgit2 reports an error.  A read of the
/// patch, named `patch_header`.
#[verifier::external_body]
pub(crate) fn patch_hunk_header(p: &Patch, i: usize) -> (r: Option<(u32, u32, u32, u32)>)
    ensures
        r == patch_header(*p, i),
{
    p.hunk(i).ok().map(|(h, _)| (h.old_start(), h.old_lines(), h.new_start(), h.new_lines()))
}

/// `Patch::num_lines_in_hunk(i)`; `None` when libgit2 reports an error.
/// A read of the patch, named `patch_hunk_len`.
#[verifier::external_body]
pub(crate) fn patch_num_lines_in_hunk(p: &Patch, i: usize) -> (r: Option<usize>)
    ensures
        r == patch_hunk_len(*p, i),
{
    p.num_lines_in_hunk(i).ok()
}

/// `Patch::line_in_hunk(h, l)`: the line's origin char and its content
/// (bytes read as UTF-8, invalid sequences replaced); `None` when libgit2
/// reports an error.  A read of the patch, named `patch_line_at`.
#[verifier::external_body]
pub(crate) fn patch_line(p: &Patch, h: usize, l: usize) -> (r: Option<(char, String)>)
    ensures
        match r {
            Some((o, c)) => patch_line_at(*p, h, l) == Some((o, c@)),
            None => patch_line_at(*p, h, l) is None,
        },
{
    p.line_in_hunk(h, l).ok().map(|d| (d.origin(), String::from_utf8_lossy(d.content()).to_string()))
}

/// `s` without its trailing line feeds.
pub open spec fn trim_nl(s: Seq<char>) -> Seq<char>
    decreases s.len(),
{
    if s.len() > 0 && s.last() == '\n' {
        trim_nl(s.drop_last())
    } else {
        s
    }
}

/// `str::trim_end_matches('\n')`.
pub fn trim_trailing_newlines(s: &str) -> (r: String)
    ensures
        r@ == trim_nl(s@),
{
    let v = chars_of(s);
    let mut n = v.len();
    assert(v@.take(n as int) =~= v@);
    while n > 0 && v[n - 1] == '\n'
        invariant
            n <= v@.len(),
            trim_nl(s@) == trim_nl(v@.take(n as int)),
            v@ == s@,
        decreases n,
    {
        assert(v@.take(n as int).drop_last() =~= v@.take(n - 1));
        n = n - 1;
    }
    let t = vstd::slice::slice_subrange(v.as_slice(), 0, n);
    assert(t@ =~= v@.take(n as int));
    string_from_chars(t)
}

/// A hunk whose origin and content lists are parallel.
pub open spec fn hunk_wf(h: PatchHunkView) -> bool {
    h.origins.len() == h.contents.len()
}

/// The first `n` lines of hunk `h` of `p` that libgit2 gives, each as its
/// origin char and its text without trailing line feeds.
pub open spec fn kept_lines(p: Patch, h: usize, n: nat) -> Seq<(char, Seq<char>)>
    decreases n,
{
    if n == 0 {
        Seq::empty()
    } else {
        let prev = kept_lines(p, h, (n - 1) as nat);
        match patch_line_at(p, h, (n - 1) as usize) {
            Some((o, c)) => prev.push((o, trim_nl(c))),
            None => prev,
        }
    }
}

/// Origin chars of lines `ls`.
pub open spec fn line_origins(ls: Seq<(char, Seq<char>)>) -> Seq<char> {
    ls.map_values(|x: (char, Seq<char>)| x.0)
}

/// Texts of lines `ls`.
pub open spec fn line_texts(ls: Seq<(char, Seq<char>)>) -> Seq<Seq<char>> {
    ls.map_values(|x: (char, Seq<char>)| x.1)
}

/// Hunk `i` of `p` read into plain values: `None` when libgit2 gives no
/// header, else the header and the lines it gives (none when it gives no
/// line count).
pub open spec fn collected_hunk(p: Patch, i: usize) -> Option<PatchHunkView> {
    match patch_header(p, i) {
        None => None,
        Some((os, ol, ns, nl)) => {
            let n: usize = match patch_hunk_len(p, i) {
                Some(k) => k,
                None => 0,
            };
            let ls = kept_lines(p, i, n as nat);
            Some(
                PatchHunkView {
                    old_start: os as nat,
                    old_lines: ol as nat,
                    new_start: ns as nat,
                    new_lines: nl as nat,
                    origins: line_origins(ls),
                    contents: line_texts(ls),
                },
            )
        },
    }
}

/// Every hunk of `p` read into plain values.
pub open spec fn collected_hunks(p: Patch) -> Seq<Option<PatchHunkView>> {
    Seq::new(patch_hunk_count(p) as nat, |i: int| collected_hunk(p, i as usize))
}

/// The view of a hunk that may be missing.
pub open spec fn hunk_opt_view(h: Option<PatchHunk>) -> Option<PatchHunkView> {
    match h {
        Some(x) => Some(x@),
        None => None,
    }
}

/// Views of hunks that may be missing.
pub open spec fn hunk_opt_views(hs: Seq<Option<PatchHunk>>) -> Seq<Option<PatchHunkView>> {
    Seq::new(hs.len(), |i: int| hunk_opt_view(hs[i]))
}

/// Read every hunk of `patch` into plain values; a hunk whose header
/// libgit2 cannot give is `None`, and lines it cannot give are left out.
pub fn collect_patch_hunks(patch: &Patch) -> (hs: Vec<Option<PatchHunk>>)
    ensures
        forall|i: int| 0 <= i < hs@.len() ==> (#[trigger] hs@[i] matches Some(h) ==> hunk_wf(h@)),
        hunk_opt_views(hs@) == collected_hunks(*patch),
{
    let n = patch_num_hunks(patch);
    let mut hs: Vec<Option<PatchHunk>> = Vec::new();
    let mut i: usize = 0;
    while i < n
        invariant
            i <= n,
            n == patch_hunk_count(*patch),
            hs@.len() == i,
            forall|k: int| 0 <= k < hs@.len() ==> (#[trigger] hs@[k] matches Some(h) ==> hunk_wf(h@)),
            forall|k: int| 0 <= k < hs@.len() ==> #[trigger] hunk_opt_view(hs@[k]) == collected_hunk(*patch, k as usize),
        decreases n - i,
    {
        match patch_hunk_header(patch, i) {
            None => {
                hs.push(None);
            },
            Some((old_start, old_lines, new_start, new_lines)) => {
                let num = match patch_num_lines_in_hunk(patch, i) {
                    Some(k) => k,
                    None => 0,
                };
                let mut origins: Vec<char> = Vec::new();
                let mut contents: Vec<String> = Vec::new();
                let mut l: usize = 0;
                while l < num
                    invariant
                        l <= num,
                        origins@.len() == contents@.len(),
                        origins@ == line_origins(kept_lines(*patch, i, l as nat)),
                        contents@.len() == kept_lines(*patch, i, l as nat).len(),
                        forall|k: int| 0 <= k < contents@.len() ==> #[trigger] contents@[k]@ == line_texts(kept_lines(*patch, i, l as nat))[k],
                    decreases num - l,
                {
                    let ghost before = kept_lines(*patch, i, l as nat);
                    assert(((l + 1) as nat - 1) as usize == l);
                    if let Some((o, c)) = patch_line(patch, i, l) {
                        origins.push(o);
                        contents.push(trim_trailing_newlines(c.as_str()));
                        proof {
                            let now = kept_lines(*patch, i, (l + 1) as nat);
                            assert(now == before.push((o, trim_nl(c@))));
                            assert(origins@ =~= line_origins(now));
                        }
                    } else {
                        proof {
                            assert(kept_lines(*patch, i, (l + 1) as nat) == before);
                        }
                    }
                    l = l + 1;
                }
                let h = PatchHunk { old_start, old_lines, new_start, new_lines, origins, contents };
                proof {
                    let ls = kept_lines(*patch, i, num as nat);
                    assert(h@.contents =~= line_texts(ls));
                    assert(h@.origins =~= line_origins(ls));
                }
                hs.push(Some(h));
            },
        }
        i = i + 1;
    }
    proof {
        assert(hunk_opt_views(hs@) =~= collected_hunks(*patch));
    }
    hs
}

/// The hunks that are present, in order.
pub open spec fn present(hs: Seq<Option<PatchHunk>>) -> Seq<PatchHunk>
    decreases hs.len(),
{
    if hs.len() == 0 {
        Seq::empty()
    } else {
        match hs.last() {
            Some(h) => present(hs.drop_last()).push(h),
            None => present(hs.drop_last()),
        }
    }
}

/// The hunks that are present, in order.
pub fn present_hunks(hs: Vec<Option<PatchHunk>>) -> (r: Vec<PatchHunk>)
    ensures
        r@ == present(hs@),
{
    let mut r: Vec<PatchHunk> = Vec::new();
    let mut rest = hs;
    let mut out_rev: Vec<PatchHunk> = Vec::new();
    let ghost orig = rest@;
    // Walk from the back, collecting in reverse.
    while rest.len() > 0
        invariant
            orig.len() >= rest@.len(),
            rest@ == orig.take(rest@.len() as int),
            present(orig) == present(rest@) + out_rev@.reverse(),
        decreases rest@.len(),
    {
        let ghost before = rest@;
        let last = rest.pop().unwrap();
        proof {
            assert(before.drop_last() =~= rest@);
            assert(rest@ =~= orig.take(rest@.len() as int));
        }
        match last {
            Some(h) => {
                let ghost o = out_rev@;
                out_rev.push(h);
                proof {
                    assert(out_rev@.reverse() =~= seq![h] + o.reverse());
                    assert(present(before) == present(rest@).push(h));
                    assert(present(rest@).push(h) + o.reverse() =~= present(rest@) + (seq![h] + o.reverse()));
                }
            },
            None => {},
        }
    }
    proof {
        assert(present(rest@) =~= Seq::<PatchHunk>::empty());
    }
    while out_rev.len() > 0
        invariant
            present(orig) == r@ + out_rev@.reverse(),
        decreases out_rev@.len(),
    {
        let ghost o = out_rev@;
        let h = out_rev.pop().unwrap();
        let ghost r0 = r@;
        r.push(h);
        proof {
            assert(o.reverse() =~= seq![h] + out_rev@.reverse());
            assert(r0 + o.reverse() =~= r@ + out_rev@.reverse());
        }
    }
    proof {
        assert(r@ + out_rev@.reverse() =~= r@);
    }
    r
}

/// The hunks that are present, in order, as views.
pub open spec fn present_views(hs: Seq<Option<PatchHunkView>>) -> Seq<PatchHunkView>
    decreases hs.len(),
{
    if hs.len() == 0 {
        Seq::empty()
    } else {
        match hs.last() {
            Some(h) => present_views(hs.drop_last()).push(h),
            None => present_views(hs.drop_last()),
        }
    }
}

proof fn lemma_present_views(hs: Seq<Option<PatchHunk>>)
    ensures
        hunk_views(present(hs)) == present_views(hunk_opt_views(hs)),
    decreases hs.len(),
{
    if hs.len() > 0 {
        lemma_present_views(hs.drop_last());
        assert(hunk_opt_views(hs).drop_last() =~= hunk_opt_views(hs.drop_last()));
        match hs.last() {
            Some(h) => {
                assert(hunk_views(present(hs)) =~= hunk_views(present(hs.drop_last())).push(h@));
            },
            None => {},
        }
    } else {
        assert(hunk_views(present(hs)) =~= Seq::<PatchHunkView>::empty());
    }
}

impl DiffAlignment {
    /// Build alignment maps from a git2 patch.
    ///
    /// `old_line_count` — number of lines in the HEAD blob.
    /// `new_line_count` — number of lines in the working copy.
    ///
    /// The maps follow the hunks of the patch that libgit2 gives; `None`
    /// only when their line numbers would not fit in a `usize` while being
    /// counted.
    pub fn from_patch(patch: &Patch, old_line_count: usize, new_line_count: usize) -> (r: Option<
        DiffAlignment,
    >)
        ensures
            ({
                let hs = present_views(collected_hunks(*patch));
                &&& (r is Some <==> hunks_fit(hs, old_line_count as nat, new_line_count as nat))
                &&& (r matches Some(a) ==> (a.left@, a.right@) == alignment(
                    hs,
                    old_line_count as nat,
                    new_line_count as nat,
                ))
            }),
    {
        let all = collect_patch_hunks(patch);
        proof {
            lemma_present_views(all@);
        }
        let hunks = present_hunks(all);
        match Self::hunks_fit_exec(&hunks, old_line_count, new_line_count) {
            true => {
                let a = Self::from_hunks(&hunks, old_line_count, new_line_count);
                Some(a)
            },
            false => None,
        }
    }

    /// Whether `hunks_fit` holds, computed without overflow.
    pub fn hunks_fit_exec(hunks: &Vec<PatchHunk>, old_line_count: usize, new_line_count: usize) -> (b:
        bool)
        ensures
            b == hunks_fit(hunk_views(hunks@), old_line_count as nat, new_line_count as nat),
    {
        let ghost hs = hunk_views(hunks@);
        let limit: u128 = usize::MAX as u128;
        let base: u128 = old_line_count as u128 + new_line_count as u128 + 2 * (u32::MAX as u128)
            + 2;
        if base > limit {
            proof {
                crate::patch::lemma_total_nonneg(hs);
            }
            return false;
        }
        let mut total: u128 = base;
        let mut i: usize = 0;
        proof {
            assert(hs.skip(0) =~= hs);
        }
        while i < hunks.len()
            invariant
                hs == hunk_views(hunks@),
                i <= hunks@.len(),
                total <= limit,
                limit == usize::MAX,
                total + total_lines(hs.skip(i as int)) == base + total_lines(hs),
                base == old_line_count + new_line_count + 2 * (u32::MAX as nat) + 2,
            decreases hunks@.len() - i,
        {
            proof {
                assert(hs.skip(i as int).drop_first() =~= hs.skip(i + 1));
                assert(hs[i as int].origins.len() == hunks@[i as int].origins@.len());
            }
            let k = hunks[i].origins.len() as u128;
            if k > limit - total {
                proof {
                    crate::patch::lemma_total_nonneg(hs.skip(i + 1));
                }
                return false;
            }
            total = total + k;
            i = i + 1;
        }
        proof {
            assert(hs.skip(i as int).len() == 0);
        }
        true
    }
}

pub proof fn lemma_total_nonneg(hs: Seq<PatchHunkView>)
    ensures
        total_lines(hs) >= 0,
{
}

} // verus!

verus! {

/// Does hunk `h` cover 0-based row `row` of the new text?  A hunk with new
/// lines covers them; a pure deletion covers the rows next to where it was.
pub open spec fn covers(h: PatchHunkView, row: nat) -> bool {
    let start_0 = sat_sub(h.new_start, 1);
    if h.new_lines > 0 {
        start_0 <= row < start_0 + h.new_lines
    } else {
        sat_sub(start_0, 1) <= row <= start_0 + 1
    }
}

/// Index of the first present hunk that covers `row`.
pub open spec fn first_covering(hs: Seq<Option<PatchHunk>>, row: nat) -> Option<nat>
    decreases hs.len(),
{
    if hs.len() == 0 {
        None
    } else if hs[0] matches Some(h) && covers(h@, row) {
        Some(0)
    } else {
        match first_covering(hs.drop_first(), row) {
            Some(i) => Some(i + 1),
            None => None,
        }
    }
}

fn covers_exec(h: &PatchHunk, row: usize) -> (b: bool)
    ensures
        b == covers(h@, row as nat),
{
    let new_start = h.new_start as usize;
    let new_count = h.new_lines as usize;
    let start_0 = new_start.saturating_sub(1);
    if new_count > 0 {
        row >= start_0 && row - start_0 < new_count
    } else {
        let anchor = start_0;
        row >= anchor.saturating_sub(1) && (row <= anchor || row - anchor == 1)
    }
}

/// Find the hunk index that covers `row` (0-based).
pub fn find_hunk_idx(hunks: &Vec<Option<PatchHunk>>, row: usize) -> (r: Option<usize>)
    ensures
        r == match first_covering(hunks@, row as nat) {
            Some(i) => Some(i as usize),
            None => None,
        },
        r matches Some(i) ==> i < hunks@.len(),
{
    let mut i: usize = 0;
    proof {
        assert(hunks@.skip(0) =~= hunks@);
    }
    while i < hunks.len()
        invariant
            i <= hunks@.len(),
            first_covering(hunks@, row as nat) == match first_covering(
                hunks@.skip(i as int),
                row as nat,
            ) {
                Some(k) => Some((k + i) as nat),
                None => None,
            },
        decreases hunks@.len() - i,
    {
        proof {
            assert(hunks@.skip(i as int).drop_first() =~= hunks@.skip(i + 1));
            assert(hunks@.skip(i as int)[0] == hunks@[i as int]);
        }
        match &hunks[i] {
            Some(h) => {
                if covers_exec(h, row) {
                    return Some(i);
                }
            },
            None => {},
        }
        i = i + 1;
    }
    proof {
        assert(hunks@.skip(i as int).len() == 0);
    }
    None
}

/// The `@@ -a,b +c,d @@` header of a hunk.
pub open spec fn hunk_header(h: PatchHunkView) -> Seq<char> {
    "@@ -"@ + decimal(h.old_start) + ","@ + decimal(h.old_lines) + " +"@ + decimal(h.new_start)
        + ","@ + decimal(h.new_lines) + " @@"@
}

/// A hunk line as shown: its origin char before it for additions,
/// deletions and context, the bare text otherwise.
pub open spec fn shown_line(origin: char, content: Seq<char>) -> Seq<char> {
    if origin == '+' || origin == '-' || origin == ' ' {
        seq![origin] + content
    } else {
        content
    }
}

/// The lines of hunk `idx` as a unified diff: header, then each line;
/// empty when there is no such hunk.
pub open spec fn hunk_text_lines(hs: Seq<Option<PatchHunk>>, idx: nat) -> Seq<Seq<char>> {
    if idx < hs.len() && hs[idx as int] is Some {
        let h = hs[idx as int]->0@;
        seq![hunk_header(h)] + Seq::new(
            h.origins.len(),
            |i: int| shown_line(h.origins[i], h.contents[i]),
        )
    } else {
        Seq::empty()
    }
}

/// As `first_covering`, over hunk views.
pub open spec fn first_covering_v(hs: Seq<Option<PatchHunkView>>, row: nat) -> Option<nat>
    decreases hs.len(),
{
    if hs.len() == 0 {
        None
    } else if hs[0] matches Some(h) && covers(h, row) {
        Some(0)
    } else {
        match first_covering_v(hs.drop_first(), row) {
            Some(i) => Some(i + 1),
            None => None,
        }
    }
}

/// The hunk the hunk commands act on is the first one present that
/// covers the row; when there is none, no hunk covers it.
pub proof fn lemma_first_covering_v(hs: Seq<Option<PatchHunkView>>, row: nat)
    ensures
        first_covering_v(hs, row) matches Some(i) ==> i < hs.len() && hs[i as int] is Some && covers(
            hs[i as int]->0,
            row,
        ) && forall|j: int| 0 <= j < i ==> !(#[trigger] hs[j] matches Some(h) && covers(h, row)),
        first_covering_v(hs, row) is None ==> forall|j: int|
            0 <= j < hs.len() ==> !(#[trigger] hs[j] matches Some(h) && covers(h, row)),
    decreases hs.len(),
{
    if hs.len() > 0 {
        let r = hs.drop_first();
        lemma_first_covering_v(r, row);
        if !(hs[0] matches Some(h) && covers(h, row)) {
            match first_covering_v(r, row) {
                Some(i) => {
                    assert(hs[(i + 1) as int] == r[i as int]);
                    assert forall|j: int| 0 <= j < i + 1 implies !(#[trigger] hs[j] matches Some(h) && covers(h, row)) by {
                        if j > 0 {
                            assert(hs[j] == r[j - 1]);
                        }
                    }
                },
                None => {
                    assert forall|j: int| 0 <= j < hs.len() implies !(#[trigger] hs[j] matches Some(h) && covers(h, row)) by {
                        if j > 0 {
                            assert(hs[j] == r[j - 1]);
                        }
                    }
                },
            }
        }
    }
}

/// As `hunk_text_lines`, over hunk views.
pub open spec fn hunk_text_lines_v(hs: Seq<Option<PatchHunkView>>, idx: nat) -> Seq<Seq<char>> {
    if idx < hs.len() && hs[idx as int] is Some {
        let h = hs[idx as int]->0;
        seq![hunk_header(h)] + Seq::new(
            h.origins.len(),
            |i: int| shown_line(h.origins[i], h.contents[i]),
        )
    } else {
        Seq::empty()
    }
}

/// The hunk lookups give the same answers on hunks and on their views.
pub proof fn lemma_hunk_views_agree(hs: Seq<Option<PatchHunk>>, row: nat, idx: nat)
    ensures
        first_covering(hs, row) == first_covering_v(hunk_opt_views(hs), row),
        hunk_text_lines(hs, idx) == hunk_text_lines_v(hunk_opt_views(hs), idx),
        first_covering(hs, row) matches Some(i) ==> i < hs.len() && hs[i as int] is Some
            && hunk_opt_views(hs)[i as int] == Some(hs[i as int]->0@),
    decreases hs.len(),
{
    if hs.len() > 0 {
        assert(hunk_opt_views(hs).drop_first() =~= hunk_opt_views(hs.drop_first()));
        lemma_hunk_views_agree(hs.drop_first(), row, idx);
        match first_covering(hs.drop_first(), row) {
            Some(j) => {
                assert(hs.drop_first()[j as int] == hs[(j + 1) as int]);
            },
            None => {},
        }
    }
    assert(hunk_text_lines(hs, idx) =~= hunk_text_lines_v(hunk_opt_views(hs), idx));
}

/// Extract formatted diff lines from a specific hunk.
pub fn extract_hunk_lines(hunks: &Vec<Option<PatchHunk>>, hunk_idx: usize) -> (lines: Vec<String>)
    requires
        forall|i: int| 0 <= i < hunks@.len() ==> (#[trigger] hunks@[i] matches Some(h) ==> hunk_wf(h@)),
    ensures
        lines@.map_values(|s: String| s@) == hunk_text_lines(hunks@, hunk_idx as nat),
{
    if hunk_idx >= hunks.len() {
        let v: Vec<String> = Vec::new();
        assert(v@.map_values(|s: String| s@) =~= Seq::<Seq<char>>::empty());
        return v;
    }
    match &hunks[hunk_idx] {
        None => {
            let v: Vec<String> = Vec::new();
            assert(v@.map_values(|s: String| s@) =~= Seq::<Seq<char>>::empty());
            v
        },
        Some(h) => {
            let mut header = String::new();
            push_str(&mut header, "@@ -");
            push_decimal(&mut header, h.old_start as usize);
            push_str(&mut header, ",");
            push_decimal(&mut header, h.old_lines as usize);
            push_str(&mut header, " +");
            push_decimal(&mut header, h.new_start as usize);
            push_str(&mut header, ",");
            push_decimal(&mut header, h.new_lines as usize);
            push_str(&mut header, " @@");
            let mut lines: Vec<String> = Vec::new();
            lines.push(header);
            let ghost hv = h@;
            let ghost target = hunk_text_lines(hunks@, hunk_idx as nat);
            proof {
                assert(lines@.map_values(|s: String| s@) =~= target.take(1));
            }
            let mut i: usize = 0;
            while i < h.origins.len()
                invariant
                    hv == h@,
                    hunk_wf(hv),
                    target == seq![hunk_header(hv)] + Seq::new(
                        hv.origins.len(),
                        |k: int| shown_line(hv.origins[k], hv.contents[k]),
                    ),
                    i <= hv.origins.len(),
                    lines@.map_values(|s: String| s@) == target.take(i + 1),
                decreases hv.origins.len() - i,
            {
                let o = h.origins[i];
                let c = &h.contents[i];
                let mut s = String::new();
                if o == '+' || o == '-' || o == ' ' {
                    string_push(&mut s, o);
                }
                push_str(&mut s, c.as_str());
                let ghost before = lines@;
                lines.push(s);
                proof {
                    assert(hv.contents[i as int] == c@);
                    assert(s@ =~= shown_line(o, c@));
                    assert(target[i + 1] == shown_line(hv.origins[i as int], hv.contents[i as int]));
                    assert(lines@.map_values(|s: String| s@) =~= before.map_values(|s: String| s@).push(s@));
                    assert(lines@.map_values(|s: String| s@) =~= target.take(i + 2));
                }
                i = i + 1;
            }
            proof {
                assert(target.take(i + 1) =~= target);
            }
            lines
        },
    }
}

} // verus!
