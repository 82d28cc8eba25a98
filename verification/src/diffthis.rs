//! `:diffthis`: the HEAD version of the file in a split beside it, the
//! two panes linked and aligned line by line.

use vstd::prelude::*;
use crate::buffer::{Buffer, BufferKind, VirtualLine, opt_view, syntax_language_spec};
use crate::diff_align::{alignment, hunks_fit, DiffAlignment};
use crate::diffsync::window_pos;
use crate::editor::{Editor, MessageKind};
use crate::lines::num_lines;
use crate::panes::{split_copy, MAX_WINDOWS};
use crate::patch::{diff_hunks, patch_from_texts, present_views};
use crate::rope::{rope_from_str, rope_to_string};
use crate::text::push_str;
use crate::window::Window;

verus! {

/// Name of the buffer that holds the HEAD version of `rel`.
pub open spec fn head_name(rel: Seq<char>) -> Seq<char> {
    "git://head/"@ + rel
}

/// Index of the first buffer from `i` on named `name`.
pub open spec fn named_pos(bs: Seq<Buffer>, name: Seq<char>, i: nat) -> Option<nat>
    decreases bs.len() - i,
{
    if i >= bs.len() {
        None
    } else if opt_view(bs[i as int].filename) == Some(name) {
        Some(i)
    } else {
        named_pos(bs, name, i + 1)
    }
}

/// `b` is `a` but perhaps for its diff alignment.
pub open spec fn same_but_alignment(a: Buffer, b: Buffer) -> bool {
    b == (Buffer { diff_alignment: b.diff_alignment, ..a })
}

/// `nb` is buffer `ob` loaded with text `head` and its language chosen
/// again (its diff alignment aside).
pub open spec fn head_reloaded(ob: Buffer, nb: Buffer, head: Seq<char>) -> bool {
    &&& nb.text() == head
    &&& nb.language_id matches Some(l) && l@ == syntax_language_spec(ob.kind, ob.wgrep_mode, opt_view(ob.filename))
    &&& nb == (Buffer { rope: nb.rope, language_id: nb.language_id, diff_alignment: nb.diff_alignment, ..ob })
}

/// `b` is a new read-only buffer `id` named `name` holding `head`
/// (its diff alignment aside).
pub open spec fn new_head_buffer(b: Buffer, id: usize, name: Seq<char>, head: Seq<char>) -> bool {
    &&& b.id == id
    &&& b.text() == head
    &&& opt_view(b.filename) == Some(name)
    &&& !b.modified
    &&& b.kind == BufferKind::GitDiffHead
    &&& b.undo_stack@.len() == 0
    &&& b.redo_stack@.len() == 0
    &&& b.bookmarks@.is_empty()
    &&& b.git_diffs@.is_empty()
    &&& b.named_bookmarks@.len() == 0
    &&& b.diagnostics@.len() == 0
    &&& b.ripgrep_line_map@.len() == 0
    &&& b.search_pattern is None
    &&& b.llm_lock_line == 0
    &&& b.tab_size == 4
    &&& !b.wgrep_mode
    &&& b.wgrep_prefix_lens@.len() == 0
    &&& b.wgrep_original_texts@.len() == 0
    &&& b.language_id matches Some(l) && l@ == syntax_language_spec(BufferKind::GitDiffHead, false, Some(name))
}

/// `nbs` is `obs` with the HEAD buffer named `name` holding `head`: the
/// first buffer of that name reloaded, or else a new one with id `id`
/// added last (diff alignments aside).
pub open spec fn head_installed(obs: Seq<Buffer>, nbs: Seq<Buffer>, id: usize, name: Seq<char>, head: Seq<char>) -> bool {
    match named_pos(obs, name, 0) {
        Some(k) => {
            &&& nbs.len() == obs.len()
            &&& head_reloaded(obs[k as int], nbs[k as int], head)
            &&& forall|i: int| 0 <= i < obs.len() && i != k ==> #[trigger] same_but_alignment(obs[i], nbs[i])
        },
        None => {
            &&& nbs.len() == obs.len() + 1
            &&& new_head_buffer(nbs.last(), id, name, head)
            &&& forall|i: int| 0 <= i < obs.len() ==> #[trigger] same_but_alignment(obs[i], nbs[i])
        },
    }
}

proof fn lemma_named_pos_bound(bs: Seq<Buffer>, name: Seq<char>, i: nat)
    ensures
        named_pos(bs, name, i) matches Some(k) ==> i <= k < bs.len() && opt_view(bs[k as int].filename)
            == Some(name),
    decreases bs.len() - i,
{
    if i < bs.len() && opt_view(bs[i as int].filename) != Some(name) {
        lemma_named_pos_bound(bs, name, i + 1);
    }
}

/// Changing only diff alignments keeps the HEAD buffer installed.
proof fn lemma_installed_realigned(obs: Seq<Buffer>, m: Seq<Buffer>, n: Seq<Buffer>, id: usize, name: Seq<char>, head: Seq<char>)
    requires
        head_installed(obs, m, id, name, head),
        n.len() == m.len(),
        forall|i: int| 0 <= i < n.len() ==> #[trigger] same_but_alignment(m[i], n[i]),
    ensures
        head_installed(obs, n, id, name, head),
{
    lemma_named_pos_bound(obs, name, 0);
    match named_pos(obs, name, 0) {
        Some(k) => {
            assert(same_but_alignment(m[k as int], n[k as int]));
            assert forall|i: int| 0 <= i < obs.len() && i != k implies #[trigger] same_but_alignment(obs[i], n[i]) by {
                assert(same_but_alignment(obs[i], m[i]));
                assert(same_but_alignment(m[i], n[i]));
            }
        },
        None => {
            assert(same_but_alignment(m.last(), n.last()));
            assert forall|i: int| 0 <= i < obs.len() implies #[trigger] same_but_alignment(obs[i], n[i]) by {
                assert(same_but_alignment(obs[i], m[i]));
                assert(same_but_alignment(m[i], n[i]));
            }
        },
    }
}

/// First buffer named `name`.
fn find_named(bs: &Vec<Buffer>, name: &str) -> (r: Option<usize>)
    ensures
        r matches Some(k) ==> named_pos(bs@, name@, 0) == Some(k as nat) && k < bs@.len(),
        r is None ==> named_pos(bs@, name@, 0) is None,
{
    let mut i: usize = 0;
    while i < bs.len()
        invariant
            i <= bs@.len(),
            named_pos(bs@, name@, 0) == named_pos(bs@, name@, i as nat),
        decreases bs@.len() - i,
    {
        let hit = match &bs[i].filename {
            Some(f) => crate::text::str_eq(f.as_str(), name),
            None => false,
        };
        if hit {
            return Some(i);
        }
        i = i + 1;
    }
    None
}

/// Load `head` into the buffer named `name`, adding it with id `id` when
/// there is none; its index and id come back.
fn install_head(bs: &mut Vec<Buffer>, id: usize, name: String, head: &str) -> (r: (usize, usize))
    ensures
        head_installed(old(bs)@, final(bs)@, id, name@, head@),
        r.0 < final(bs)@.len(),
        final(bs)@.len() >= old(bs)@.len(),
        forall|i: int| 0 <= i < old(bs)@.len() ==> #[trigger] final(bs)@[i].id == old(bs)@[i].id,
        final(bs)@.len() > old(bs)@.len() ==> r.0 == old(bs)@.len() && r.1 == id && final(bs)@.len() == old(bs)@.len() + 1,
        forall|i: int| 0 <= i < old(bs)@.len() && i != r.0 ==> #[trigger] final(bs)@[i] == old(bs)@[i],
        final(bs)@[r.0 as int].diff_alignment == match named_pos(old(bs)@, name@, 0) {
            Some(k) => old(bs)@[k as int].diff_alignment,
            None => None,
        },
        r.0 == match named_pos(old(bs)@, name@, 0) {
            Some(k) => k as int,
            None => old(bs)@.len() as int,
        },
        r.1 == final(bs)@[r.0 as int].id,
        r.1 == match named_pos(old(bs)@, name@, 0) {
            Some(k) => old(bs)@[k as int].id,
            None => id,
        },
{
    match find_named(bs, name.as_str()) {
        Some(k) => {
            let ghost ob = bs@[k as int];
            bs[k].rope = rope_from_str(head);
            bs[k].parse_syntax();
            proof {
                assert forall|i: int| 0 <= i < old(bs)@.len() && i != k implies #[trigger] same_but_alignment(
                    old(bs)@[i],
                    bs@[i],
                ) by {
                    assert(bs@[i] == old(bs)@[i]);
                }
            }
            assert(named_pos(old(bs)@, name@, 0) == Some(k as nat));
            assert(bs@.len() == old(bs)@.len());
            assert(head_reloaded(old(bs)@[k as int], bs@[k as int], head@));
            (k, bs[k].id)
        },
        None => {
            let mut b = Buffer {
                id,
                rope: rope_from_str(head),
                filename: Some(name),
                modified: false,
                undo_stack: Vec::new(),
                redo_stack: Vec::new(),
                language_id: None,
                bookmarks: std::collections::HashSet::new(),
                git_diffs: std::collections::HashMap::new(),
                kind: BufferKind::GitDiffHead,
                diagnostics: Vec::new(),
                diff_alignment: None,
                ripgrep_line_map: Vec::new(),
                search_pattern: None,
                named_bookmarks: Vec::new(),
                llm_lock_line: 0,
                tab_size: 4,
                wgrep_mode: false,
                wgrep_prefix_lens: Vec::new(),
                wgrep_original_texts: Vec::new(),
            };
            b.parse_syntax();
            let n = bs.len();
            bs.push(b);
            proof {
                assert forall|i: int| 0 <= i < old(bs)@.len() implies #[trigger] same_but_alignment(
                    old(bs)@[i],
                    bs@[i],
                ) by {
                    assert(bs@[i] == old(bs)@[i]);
                }
            }
            assert(named_pos(old(bs)@, name@, 0) is None);
            assert(new_head_buffer(bs@.last(), id, name@, head@));
            (n, id)
        },
    }
}

/// `ws` with window `a` showing buffer `hid` at the cursor and scroll of
/// `w0`.
pub open spec fn pointed(ws: Seq<Window>, a: int, hid: usize, w0: Window) -> Seq<Window> {
    ws.update(a, Window { buf_id: hid, row: w0.row, col: w0.col, scroll_line: w0.scroll_line, ..ws[a] })
}

/// `ws` with the first window of id `id` linked to the window of id `sib`.
pub open spec fn linked(ws: Seq<Window>, id: usize, sib: usize) -> Seq<Window> {
    match window_pos(ws, id, 0) {
        Some(k) => ws.update(k as int, Window { diff_sibling: Some(sib), ..ws[k as int] }),
        None => ws,
    }
}

/// The panes of a diff: window `a` of `ws` shows buffer `hid` where `w0`
/// was, and it and the window of `w0`'s id are linked to each other.
pub open spec fn diff_panes(ws: Seq<Window>, a: int, hid: usize, w0: Window) -> Seq<Window> {
    let p = pointed(ws, a, hid, w0);
    let nid = p[a].id;
    linked(linked(p, w0.id, nid), nid, w0.id)
}

/// Does `d` hold the alignment `fa` (none when `fa` is `None`)?
pub open spec fn aligned_as(d: Option<DiffAlignment>, fa: Option<(Seq<VirtualLine>, Seq<VirtualLine>)>) -> bool {
    match fa {
        None => d is None,
        Some(p) => d matches Some(x) && (x.left@, x.right@) == p,
    }
}

/// The alignment of the diff from `head` to `work` under path `rel`:
/// `None` when no diff could be made, else the alignment of its hunks
/// (none when their line numbers would not fit a `usize`).
pub open spec fn head_alignment(head: Seq<char>, work: Seq<char>, rel: Seq<char>) -> Option<
    Option<(Seq<VirtualLine>, Seq<VirtualLine>)>,
> {
    match diff_hunks(head, work, rel) {
        None => None,
        Some(d) => {
            let hs = present_views(d);
            let oc = num_lines(head);
            let nc = num_lines(work);
            Some(if hunks_fit(hs, oc, nc) { Some(alignment(hs, oc, nc)) } else { None })
        },
    }
}

/// Link the first window of id `id` to the window of id `sib`.
fn link(ws: &mut Vec<Window>, id: usize, sib: usize)
    ensures
        final(ws)@ == linked(old(ws)@, id, sib),
        final(ws)@.len() == old(ws)@.len(),
        forall|i: int| 0 <= i < final(ws)@.len() ==> #[trigger] final(ws)@[i].buf_id == old(ws)@[i].buf_id
            && final(ws)@[i].id == old(ws)@[i].id,
{
    let ghost o = ws@;
    let n = ws.len();
    let mut i: usize = 0;
    while i < n && ws[i].id != id
        invariant
            ws@ == o,
            n == o.len(),
            i <= n,
            window_pos(o, id, 0) == window_pos(o, id, i as nat),
        decreases n - i,
    {
        i = i + 1;
    }
    if i < n {
        let mut w = ws[i];
        w.diff_sibling = Some(sib);
        ws.set(i, w);
    }
}

/// Index of the first window of id `id`.
fn find_window(ws: &Vec<Window>, id: usize) -> (r: Option<usize>)
    ensures
        r matches Some(p) ==> window_pos(ws@, id, 0) == Some(p as nat) && p < ws@.len(),
        r is None ==> window_pos(ws@, id, 0) is None,
{
    let n = ws.len();
    let mut i: usize = 0;
    while i < n && ws[i].id != id
        invariant
            n == ws@.len(),
            i <= n,
            window_pos(ws@, id, 0) == window_pos(ws@, id, i as nat),
        decreases n - i,
    {
        i = i + 1;
    }
    if i < n {
        Some(i)
    } else {
        None
    }
}

/// Make window `a` the HEAD pane and link it with the window of `w0`;
/// the index of that window (where the focus goes back) comes back.
fn set_diff_panes(ws: &mut Vec<Window>, a: usize, hid: usize, w0: Window) -> (f: usize)
    requires
        a < old(ws)@.len(),
    ensures
        final(ws)@ == diff_panes(old(ws)@, a as int, hid, w0),
        f as int == match window_pos(final(ws)@, w0.id, 0) {
            Some(p) => p as int,
            None => a as int,
        },
        f < final(ws)@.len(),
        final(ws)@.len() == old(ws)@.len(),
        forall|i: int| 0 <= i < final(ws)@.len() ==> #[trigger] final(ws)@[i].buf_id == (if i == a {
            hid
        } else {
            old(ws)@[i].buf_id
        }),
{
    let mut w = ws[a];
    w.buf_id = hid;
    w.row = w0.row;
    w.col = w0.col;
    w.scroll_line = w0.scroll_line;
    ws.set(a, w);
    let nid = ws[a].id;
    link(ws, w0.id, nid);
    link(ws, nid, w0.id);
    let found = find_window(ws, w0.id);
    let f = match found {
        Some(p) => p,
        None => a,
    };
    assert(ws@.len() == old(ws)@.len());
    f
}

/// A copy of the rows of an alignment.
fn copy_rows(v: &Vec<VirtualLine>) -> (r: Vec<VirtualLine>)
    ensures
        r@ == v@,
{
    let mut r: Vec<VirtualLine> = Vec::new();
    let mut i: usize = 0;
    while i < v.len()
        invariant
            i <= v@.len(),
            r@ == v@.take(i as int),
        decreases v@.len() - i,
    {
        r.push(v[i]);
        i = i + 1;
        proof {
            assert(r@ =~= v@.take(i as int));
        }
    }
    proof {
        assert(v@.take(v@.len() as int) =~= v@);
    }
    r
}

fn copy_alignment(d: &Option<DiffAlignment>) -> (r: Option<DiffAlignment>)
    ensures
        forall|fa: Option<(Seq<VirtualLine>, Seq<VirtualLine>)>| aligned_as(*d, fa) ==> #[trigger] aligned_as(r, fa),
{
    match d {
        Some(x) => Some(DiffAlignment { left: copy_rows(&x.left), right: copy_rows(&x.right) }),
        None => None,
    }
}

/// `nbs` is `obs` with buffers `hb` and `wi` given the alignment of the
/// diff from `head` to the text of buffer `wi`, when a diff can be made.
pub open spec fn pair_aligned(obs: Seq<Buffer>, nbs: Seq<Buffer>, hb: int, wi: int, head: Seq<char>, rel: Seq<char>) -> bool {
    &&& nbs.len() == obs.len()
    &&& (forall|i: int| 0 <= i < nbs.len() ==> #[trigger] same_but_alignment(obs[i], nbs[i]))
    &&& match head_alignment(head, obs[wi].text(), rel) {
        None => nbs == obs,
        Some(fa) => {
            &&& aligned_as(nbs[hb].diff_alignment, fa)
            &&& aligned_as(nbs[wi].diff_alignment, fa)
            &&& forall|i: int| 0 <= i < nbs.len() && i != hb && i != wi ==> nbs[i] == obs[i]
        },
    }
}

/// Give buffers `hb` and `wi` the alignment of the diff from `head` to
/// the text of buffer `wi`, when a diff can be made.
fn align_pair(bs: &mut Vec<Buffer>, hb: usize, wi: usize, head: &str, rel: &str)
    requires
        hb < old(bs)@.len(),
        wi < old(bs)@.len(),
        old(bs)@[hb as int].text() == head@,
    ensures
        pair_aligned(old(bs)@, final(bs)@, hb as int, wi as int, head@, rel@),
{
    let oc = bs[hb].len_lines();
    let nc = bs[wi].len_lines();
    let work = rope_to_string(&bs[wi].rope);
    let patch = patch_from_texts(head, work.as_str(), rel);
    match patch {
        None => {},
        Some(p) => {
            let al = DiffAlignment::from_patch(&p, oc, nc);
            let al2 = copy_alignment(&al);
            let ghost fa = if al is Some { Some((al->0.left@, al->0.right@)) } else { None::<(Seq<VirtualLine>, Seq<VirtualLine>)> };
            assert(aligned_as(al, fa));
            bs[hb].diff_alignment = al2;
            bs[wi].diff_alignment = al;
            proof {
                assert forall|i: int| 0 <= i < bs@.len() implies #[trigger] same_but_alignment(old(bs)@[i], bs@[i]) by {
                    if i != hb && i != wi {
                        assert(bs@[i] == old(bs)@[i]);
                    }
                }
            }
        },
    };
}

/// `n` is `o` after `:diffthis` with the file at path `rel` in the
/// repository and HEAD text `head`: the HEAD buffer is loaded (or made),
/// the active window split, the new pane shows the HEAD buffer where the
/// cursor was, the two panes are linked, both buffers get the alignment
/// of the diff from HEAD to the working text, and the focus returns to
/// the working pane.
#[verifier::opaque]
pub open spec fn diffthis_done(o: Editor, n: Editor, rel: Seq<char>, head: Seq<char>) -> bool {
    let name = head_name(rel);
    let k = named_pos(o.buffers@, name, 0);
    let hb: int = match k {
        Some(j) => j as int,
        None => o.buffers@.len() as int,
    };
    let hid: usize = match k {
        Some(j) => o.buffers@[j as int].id,
        None => o.next_buf_id,
    };
    let w0 = o.win();
    let split = o.windows@.len() < MAX_WINDOWS;
    let ws1 = if split {
        o.windows@.push(split_copy(w0, o.next_win_id))
    } else {
        o.windows@
    };
    let a: int = if split {
        o.windows@.len() as int
    } else {
        o.active_window_idx as int
    };
    let ws = diff_panes(ws1, a, hid, w0);
    let f: int = match window_pos(ws, w0.id, 0) {
        Some(p) => p as int,
        None => a,
    };
    let wid = ws[f].buf_id;
    let wtext = if wid == hid {
        head
    } else {
        o.buffers@[o.idx_of(wid)].text()
    };
    let al = head_alignment(head, wtext, rel);
    &&& head_installed(o.buffers@, n.buffers@, o.next_buf_id, name, head)
    &&& (al is None ==> match k {
        Some(j) => n.buffers@[hb].diff_alignment == o.buffers@[j as int].diff_alignment,
        None => n.buffers@[hb].diff_alignment is None,
    })
    &&& (forall|i: int|
        0 <= i < o.buffers@.len() && i != hb && (al is None || o.buffers@[i].id != wid) ==> #[trigger] n.buffers@[i]
            == o.buffers@[i])
    &&& (al matches Some(fa) ==> aligned_as(n.buffers@[hb].diff_alignment, fa) && forall|i: int|
        0 <= i < n.buffers@.len() && #[trigger] n.buffers@[i].id == wid ==> aligned_as(n.buffers@[i].diff_alignment, fa))
    &&& n.windows@ == ws
    &&& n.status_msg@ == "Comparing against HEAD version ("@ + rel + ")"@
    &&& n == (Editor {
        buffers: n.buffers,
        windows: n.windows,
        active_window_idx: f as usize,
        next_buf_id: if k is None { (o.next_buf_id + 1) as usize } else { o.next_buf_id },
        next_win_id: if split { (o.next_win_id + 1) as usize } else { o.next_win_id },
        status_msg: n.status_msg,
        status_kind: MessageKind::Info,
        ..o
    })
}


/// The steps of `open_diffthis` make up `diffthis_done`.
#[verifier::spinoff_prover]
#[verifier::rlimit(80)]
proof fn lemma_diffthis_steps(
    o: Editor,
    m1: Editor,
    m2: Editor,
    m3: Editor,
    n: Editor,
    rel: Seq<char>,
    head: Seq<char>,
    hb: int,
    hid: usize,
    wi: int,
)
    requires
        o.wf(),
        forall|i: int| 0 <= i < o.buffers@.len() ==> o.buffers@[i].id < o.next_buf_id,
        head_installed(o.buffers@, m1.buffers@, o.next_buf_id, head_name(rel), head),
        hb == match named_pos(o.buffers@, head_name(rel), 0) {
            Some(k) => k as int,
            None => o.buffers@.len() as int,
        },
        hid == match named_pos(o.buffers@, head_name(rel), 0) {
            Some(k) => o.buffers@[k as int].id,
            None => o.next_buf_id,
        },
        0 <= hb < m1.buffers@.len(),
        m1.buffers@[hb].id == hid,
        forall|i: int| 0 <= i < o.buffers@.len() ==> #[trigger] m1.buffers@[i].id == o.buffers@[i].id,
        forall|i: int| 0 <= i < o.buffers@.len() && i != hb ==> #[trigger] m1.buffers@[i] == o.buffers@[i],
        m1.buffers@[hb].diff_alignment == match named_pos(o.buffers@, head_name(rel), 0) {
            Some(k) => o.buffers@[k as int].diff_alignment,
            None => None,
        },
        m1 == (Editor {
            buffers: m1.buffers,
            next_buf_id: if named_pos(o.buffers@, head_name(rel), 0) is None {
                (o.next_buf_id + 1) as usize
            } else {
                o.next_buf_id
            },
            ..o
        }),
        crate::panes::split_done(m1, m2, "Split vertically"@),
        m3.windows@ == diff_panes(m2.windows@, m2.active_window_idx as int, hid, m1.win()),
        m3.active_window_idx as int == match window_pos(m3.windows@, m1.win().id, 0) {
            Some(p) => p as int,
            None => m2.active_window_idx as int,
        },
        m3 == (Editor { windows: m3.windows, active_window_idx: m3.active_window_idx, ..m2 }),
        0 <= m3.active_window_idx < m3.windows@.len(),
        0 <= wi < m3.buffers@.len(),
        m3.buffers@[wi].id == m3.windows@[m3.active_window_idx as int].buf_id,
        pair_aligned(m3.buffers@, n.buffers@, hb, wi, head, rel),
        n.status_msg@ == "Comparing against HEAD version ("@ + rel + ")"@,
        n == (Editor { buffers: n.buffers, status_msg: n.status_msg, status_kind: MessageKind::Info, ..m3 }),
    ensures
        diffthis_done(o, n, rel, head),
{
    reveal(diffthis_done);
    let name = head_name(rel);
    let k = named_pos(o.buffers@, name, 0);
    lemma_named_pos_bound(o.buffers@, name, 0);
    assert(m3.buffers@ == m1.buffers@);
    assert(m1.win() == o.win());
    // buffer ids of m1 are distinct
    assert forall|i: int, j: int| 0 <= i < j < m1.buffers@.len() implies m1.buffers@[i].id != m1.buffers@[j].id by {
        if j >= o.buffers@.len() {
            assert(k is None);
        }
    }
    lemma_installed_realigned(o.buffers@, m1.buffers@, n.buffers@, o.next_buf_id, name, head);
    let w0 = o.win();
    let f = m3.active_window_idx as int;
    let wid = m3.windows@[f].buf_id;
    let wtext = if wid == hid {
        head
    } else {
        o.buffers@[o.idx_of(wid)].text()
    };
    // the working buffer's text
    if wid == hid {
        assert(wi == hb);
        assert(head_installed(o.buffers@, m1.buffers@, o.next_buf_id, name, head));
        assert(m1.buffers@[hb].text() == head);
    } else {
        assert(wi != hb);
        if wi >= o.buffers@.len() {
            assert(k is None);
        }
        assert(wi < o.buffers@.len());
        assert(o.buffers@[wi].id == wid);
        o.lemma_idx_of(wid);
        assert(o.idx_of(wid) == wi);
    }
    assert(m3.buffers@[wi].text() == wtext);
    assert forall|i: int| 0 <= i < n.buffers@.len() && #[trigger] n.buffers@[i].id == wid implies i == wi by {
        assert(same_but_alignment(m3.buffers@[i], n.buffers@[i]));
        assert(same_but_alignment(m3.buffers@[wi], n.buffers@[wi]));
    }
    assert forall|i: int|
        0 <= i < o.buffers@.len() && i != hb && (head_alignment(head, wtext, rel) is None || o.buffers@[i].id != wid)
            implies #[trigger] n.buffers@[i] == o.buffers@[i] by {
        assert(m1.buffers@[i] == o.buffers@[i]);
    }
}

impl Editor {
    /// `:diffthis`: compare the file with its HEAD version side by side.
    /// `head` is what the repository lookup gave: the file's path in the
    /// repository and its HEAD text (empty for a file git does not track
    /// yet), or the message for why there is none.
    #[verifier::spinoff_prover]
    #[verifier::rlimit(60)]
    pub fn open_diffthis(&mut self, head: Result<(String, String), String>)
        requires
            old(self).wf(),
            old(self).next_buf_id < usize::MAX,
            old(self).next_win_id < usize::MAX,
            forall|i: int| 0 <= i < old(self).buffers@.len() ==> old(self).buffers@[i].id < old(self).next_buf_id,
        ensures
            final(self).wf(),
            ({
                let o = *old(self);
                if o.cur_buf().filename is None {
                    crate::hunks::only_status(o, *final(self), "No file associated with buffer"@, MessageKind::Error)
                } else {
                    match head {
                        Err(m) => crate::hunks::only_status(o, *final(self), m@, MessageKind::Error),
                        Ok((rel, text)) => diffthis_done(o, *final(self), rel@, text@),
                    }
                }
            }),
    {
        if self.buf().filename.is_none() {
            self.set_status_msg("No file associated with buffer", MessageKind::Error);
            return;
        }
        let (rel, head_text) = match head {
            Err(m) => {
                self.set_status_msg(m.as_str(), MessageKind::Error);
                return;
            },
            Ok(p) => p,
        };
        self.diffthis_with(rel, head_text);
    }

    /// Load the HEAD buffer named `name` with `head`; its index and id
    /// come back.
    #[verifier::spinoff_prover]
    fn install_for_diff(&mut self, name: String, head: &str) -> (r: (usize, usize))
        requires
            old(self).wf(),
            old(self).next_buf_id < usize::MAX,
            forall|i: int| 0 <= i < old(self).buffers@.len() ==> old(self).buffers@[i].id < old(self).next_buf_id,
        ensures
            final(self).wf(),
            final(self).has_buf(r.1),
            ({
                let o = *old(self);
                let m1 = *final(self);
                let k = named_pos(o.buffers@, name@, 0);
                &&& head_installed(o.buffers@, m1.buffers@, o.next_buf_id, name@, head@)
                &&& r.0 == match k {
                    Some(j) => j as int,
                    None => o.buffers@.len() as int,
                }
                &&& r.1 == match k {
                    Some(j) => o.buffers@[j as int].id,
                    None => o.next_buf_id,
                }
                &&& r.0 < m1.buffers@.len()
                &&& m1.buffers@[r.0 as int].id == r.1
                &&& (forall|i: int| 0 <= i < o.buffers@.len() ==> #[trigger] m1.buffers@[i].id == o.buffers@[i].id)
                &&& (forall|i: int| 0 <= i < o.buffers@.len() && i != r.0 ==> #[trigger] m1.buffers@[i] == o.buffers@[i])
                &&& m1.buffers@[r.0 as int].diff_alignment == match k {
                    Some(j) => o.buffers@[j as int].diff_alignment,
                    None => None,
                }
                &&& m1 == (Editor {
                    buffers: m1.buffers,
                    next_buf_id: if k is None { (o.next_buf_id + 1) as usize } else { o.next_buf_id },
                    ..o
                })
            }),
    {
        let ghost o = *self;
        let nb = self.next_buf_id;
        let old_count = self.buffers.len();
        let mut bufs: Vec<Buffer> = Vec::new();
        std::mem::swap(&mut bufs, &mut self.buffers);
        let r = install_head(&mut bufs, nb, name, head);
        self.buffers = bufs;
        if r.0 == old_count {
            self.next_buf_id = nb + 1;
        }
        proof {
            assert forall|i: int, j: int| 0 <= i < j < self.buffers@.len() implies self.buffers@[i].id
                != self.buffers@[j].id by {
                assert(self.buffers@[i].id == o.buffers@[i].id);
                if j < o.buffers@.len() {
                    assert(self.buffers@[j].id == o.buffers@[j].id);
                }
            }
            assert forall|w: int| 0 <= w < self.windows@.len() implies self.has_buf(#[trigger] self.windows@[w].buf_id) by {
                assert(o.has_buf(o.windows@[w].buf_id));
                let q = choose|q: int| 0 <= q < o.buffers@.len() && o.buffers@[q].id == o.windows@[w].buf_id;
                assert(self.buffers@[q].id == o.buffers@[q].id);
            }
            assert(self.buffers@[r.0 as int].id == r.1);
        }
        r
    }

    /// Make the active window the HEAD pane showing buffer `hid` where
    /// `w0` was, link it with `w0`'s window and focus that one.
    #[verifier::spinoff_prover]
    fn panes_for_diff(&mut self, hid: usize, w0: Window)
        requires
            old(self).wf(),
            old(self).has_buf(hid),
        ensures
            final(self).wf(),
            final(self).windows@ == diff_panes(old(self).windows@, old(self).active_window_idx as int, hid, w0),
            final(self).active_window_idx as int == match window_pos(final(self).windows@, w0.id, 0) {
                Some(p) => p as int,
                None => old(self).active_window_idx as int,
            },
            *final(self) == (Editor {
                windows: final(self).windows,
                active_window_idx: final(self).active_window_idx,
                ..*old(self)
            }),
    {
        let ghost m2 = *self;
        let a = self.active_window_idx;
        let mut ws: Vec<Window> = Vec::new();
        std::mem::swap(&mut ws, &mut self.windows);
        let f = set_diff_panes(&mut ws, a, hid, w0);
        self.windows = ws;
        self.active_window_idx = f;
        proof {
            assert forall|w: int| 0 <= w < self.windows@.len() implies self.has_buf(#[trigger] self.windows@[w].buf_id) by {
                assert(self.windows@[w].buf_id == (if w == a { hid } else { m2.windows@[w].buf_id }));
                if w != a {
                    assert(m2.has_buf(m2.windows@[w].buf_id));
                }
            }
        }
    }

    /// Give buffers `hb` and `wi` the alignment of the diff from `head` to
    /// the text of buffer `wi`.
    #[verifier::spinoff_prover]
    fn align_for_diff(&mut self, hb: usize, wi: usize, head: &str, rel: &str)
        requires
            old(self).wf(),
            hb < old(self).buffers@.len(),
            wi < old(self).buffers@.len(),
            old(self).buffers@[hb as int].text() == head@,
        ensures
            final(self).wf(),
            pair_aligned(old(self).buffers@, final(self).buffers@, hb as int, wi as int, head@, rel@),
            *final(self) == (Editor { buffers: final(self).buffers, ..*old(self) }),
    {
        let ghost m3 = *self;
        let mut bufs2: Vec<Buffer> = Vec::new();
        std::mem::swap(&mut bufs2, &mut self.buffers);
        align_pair(&mut bufs2, hb, wi, head, rel);
        self.buffers = bufs2;
        proof {
            assert forall|i: int, j: int| 0 <= i < j < self.buffers@.len() implies self.buffers@[i].id
                != self.buffers@[j].id by {
                assert(same_but_alignment(m3.buffers@[i], self.buffers@[i]));
                assert(same_but_alignment(m3.buffers@[j], self.buffers@[j]));
            }
            assert forall|w: int| 0 <= w < self.windows@.len() implies self.has_buf(#[trigger] self.windows@[w].buf_id) by {
                assert(m3.has_buf(m3.windows@[w].buf_id));
                let q = choose|q: int| 0 <= q < m3.buffers@.len() && m3.buffers@[q].id == m3.windows@[w].buf_id;
                assert(same_but_alignment(m3.buffers@[q], self.buffers@[q]));
            }
        }
    }

    #[verifier::spinoff_prover]
    fn diffthis_with(&mut self, rel: String, head_text: String)
        requires
            old(self).wf(),
            old(self).next_buf_id < usize::MAX,
            old(self).next_win_id < usize::MAX,
            forall|i: int| 0 <= i < old(self).buffers@.len() ==> old(self).buffers@[i].id < old(self).next_buf_id,
        ensures
            final(self).wf(),
            diffthis_done(*old(self), *final(self), rel@, head_text@),
    {
        let ghost o = *self;
        let mut name = String::from_str("git://head/");
        push_str(&mut name, rel.as_str());
        let ghost nm = name@;
        assert(nm == head_name(rel@));
        let (hb, hid) = self.install_for_diff(name, head_text.as_str());
        let ghost m1 = *self;
        let w0 = self.windows[self.active_window_idx];
        self.split_vertical();
        let ghost m2 = *self;
        self.panes_for_diff(hid, w0);
        let ghost m3 = *self;
        let wid = self.windows[self.active_window_idx].buf_id;
        let wi = match self.find_buf(wid) {
            Some(i) => i,
            None => {
                proof {
                    assert(self.has_buf(self.windows@[self.active_window_idx as int].buf_id));
                }
                return;
            },
        };
        proof {
            assert(m3.buffers@ == m1.buffers@);
            assert(head_installed(o.buffers@, m1.buffers@, o.next_buf_id, head_name(rel@), head_text@));
            lemma_named_pos_bound(o.buffers@, head_name(rel@), 0);
            assert(m1.buffers@[hb as int].text() == head_text@);
        }
        self.align_for_diff(hb, wi, head_text.as_str(), rel.as_str());
        let mut msg = String::from_str("Comparing against HEAD version (");
        push_str(&mut msg, rel.as_str());
        push_str(&mut msg, ")");
        self.set_status_msg(msg.as_str(), MessageKind::Info);
        proof {
            lemma_diffthis_steps(o, m1, m2, m3, *self, rel@, head_text@, hb as int, hid, wi as int);
        }
    }
}

} // verus!
