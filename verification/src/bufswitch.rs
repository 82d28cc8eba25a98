//! `:b <index or name>`: pick a buffer by its number, its exact name or
//! path, or a case-insensitive part of either.

use crate::buffer::{opt_view, Buffer};
use crate::build_log::{parse_usize, parse_usize_exec};
use crate::editor::{Editor, MessageKind};
use crate::session::{buf_name, canon_views, switched};
use crate::subst::{find_from, first_occ_from};
use crate::text::{chars_of, decimal, has_prefix, push_decimal, push_str, str_eq, trim_end_ws, trim_start_ws, trim_str};
use vstd::prelude::*;

verus! {

/// What `str::to_lowercase` gives for `s`.
pub uninterp spec fn spec_lowercase(s: Seq<char>) -> Seq<char>;

/// `str::to_lowercase`: `s` with every char mapped to its lowercase form
/// by the Unicode tables.  Nothing is stated beyond naming the result.
#[verifier::external_body]
fn to_lowercase(s: &str) -> (r: String)
    ensures
        r@ == spec_lowercase(s@),
{
    s.to_lowercase()
}

/// `w` occurs somewhere in `h`.
pub open spec fn contains_seq(h: Seq<char>, w: Seq<char>) -> bool {
    first_occ_from(h, w, 0) is Some
}

/// Buffer `b` is named `a` exactly, by its shown name or its path.
pub open spec fn exact_match(b: Buffer, a: Seq<char>) -> bool {
    buf_name(b) == a || opt_view(b.filename) == Some(a)
}

/// Buffer `b`'s shown name or path holds `la`, case aside.
pub open spec fn loose_match(b: Buffer, la: Seq<char>) -> bool {
    contains_seq(spec_lowercase(buf_name(b)), la) || (b.filename matches Some(f) && contains_seq(
        spec_lowercase(f@),
        la,
    ))
}

/// A loose match whose shown name starts with `la`, case aside.
pub open spec fn prefix_match(b: Buffer, la: Seq<char>) -> bool {
    loose_match(b, la) && has_prefix(spec_lowercase(buf_name(b)), la)
}

/// First buffer from `i` on named `a` exactly.
pub open spec fn first_exact(bs: Seq<Buffer>, a: Seq<char>, i: int) -> Option<int>
    decreases bs.len() - i,
{
    if i < 0 || i >= bs.len() {
        None
    } else if exact_match(bs[i], a) {
        Some(i)
    } else {
        first_exact(bs, a, i + 1)
    }
}

/// First buffer from `i` on that loosely matches `la` (with `prefix`,
/// one that also starts with it).
pub open spec fn first_loose(bs: Seq<Buffer>, la: Seq<char>, prefix: bool, i: int) -> Option<int>
    decreases bs.len() - i,
{
    if i < 0 || i >= bs.len() {
        None
    } else if (if prefix { prefix_match(bs[i], la) } else { loose_match(bs[i], la) }) {
        Some(i)
    } else {
        first_loose(bs, la, prefix, i + 1)
    }
}

/// `first_exact` finds the first buffer from `i` on with that exact
/// name, or says there is none.
pub proof fn lemma_first_exact_found(bs: Seq<Buffer>, a: Seq<char>, i: int)
    requires
        0 <= i,
    ensures
        first_exact(bs, a, i) matches Some(k) ==> i <= k < bs.len() && exact_match(bs[k], a) && forall|j: int|
            i <= j < k ==> !exact_match(#[trigger] bs[j], a),
        first_exact(bs, a, i) is None ==> forall|j: int| i <= j < bs.len() ==> !exact_match(#[trigger] bs[j], a),
    decreases bs.len() - i,
{
    if i < bs.len() && !exact_match(bs[i], a) {
        lemma_first_exact_found(bs, a, i + 1);
    }
}

/// `first_loose` finds the first buffer from `i` on that loosely matches
/// (and starts with the text, with `prefix`), or says there is none.
pub proof fn lemma_first_loose_found(bs: Seq<Buffer>, la: Seq<char>, prefix: bool, i: int)
    requires
        0 <= i,
    ensures
        first_loose(bs, la, prefix, i) matches Some(k) ==> i <= k < bs.len() && loose_match(bs[k], la) && (prefix
            ==> prefix_match(bs[k], la)) && forall|j: int|
            i <= j < k ==> !(if prefix { prefix_match(#[trigger] bs[j], la) } else { loose_match(bs[j], la) }),
        first_loose(bs, la, prefix, i) is None ==> forall|j: int|
            i <= j < bs.len() ==> !(if prefix { prefix_match(#[trigger] bs[j], la) } else { loose_match(bs[j], la) }),
    decreases bs.len() - i,
{
    if i < bs.len() && !(if prefix { prefix_match(bs[i], la) } else { loose_match(bs[i], la) }) {
        lemma_first_loose_found(bs, la, prefix, i + 1);
    }
}

/// The buffer `:b a` picks (by index into `bs`), and whether it was
/// picked by number.
pub open spec fn pick_buffer(bs: Seq<Buffer>, a: Seq<char>) -> Option<(int, bool)> {
    match parse_usize(a) {
        Some(k) if 1 <= k <= bs.len() => Some((k - 1, true)),
        _ => match first_exact(bs, a, 0) {
            Some(i) => Some((i, false)),
            None => {
                let la = spec_lowercase(a);
                match first_loose(bs, la, true, 0) {
                    Some(i) => Some((i, false)),
                    None => match first_loose(bs, la, false, 0) {
                        Some(i) => Some((i, false)),
                        None => None,
                    },
                }
            },
        },
    }
}

/// The status line after `:b` picked buffer `b`.
pub open spec fn picked_msg(b: Buffer, k: nat, by_number: bool) -> Seq<char> {
    if by_number {
        "Switched to buffer "@ + decimal(k) + " ("@ + buf_name(b) + ")"@
    } else {
        "Switched to buffer ("@ + buf_name(b) + ")"@
    }
}

proof fn lemma_first_exact(bs: Seq<Buffer>, a: Seq<char>, i: int)
    requires
        0 <= i,
    ensures
        first_exact(bs, a, i) matches Some(j) ==> i <= j < bs.len(),
    decreases bs.len() - i,
{
    if i < bs.len() && !exact_match(bs[i], a) {
        lemma_first_exact(bs, a, i + 1);
    }
}

proof fn lemma_first_loose(bs: Seq<Buffer>, la: Seq<char>, prefix: bool, i: int)
    requires
        0 <= i,
    ensures
        first_loose(bs, la, prefix, i) matches Some(j) ==> i <= j < bs.len(),
    decreases bs.len() - i,
{
    if i < bs.len() && !(if prefix { prefix_match(bs[i], la) } else { loose_match(bs[i], la) }) {
        lemma_first_loose(bs, la, prefix, i + 1);
    }
}

fn contains_exec(h: &str, w: &Vec<char>) -> (r: bool)
    ensures
        r == contains_seq(h@, w@),
{
    let hv = chars_of(h);
    find_from(&hv, w, 0).is_some()
}

fn buffer_matches(b: &Buffer, a: &str, la: &str, exact: bool, prefix: bool) -> (r: bool)
    ensures
        r == (if exact {
            exact_match(*b, a@)
        } else if prefix {
            prefix_match(*b, la@)
        } else {
            loose_match(*b, la@)
        }),
{
    let name = b.display_name();
    if exact {
        if str_eq(name.as_str(), a) {
            return true;
        }
        return match &b.filename {
            Some(f) => str_eq(f.as_str(), a),
            None => false,
        };
    }
    let lav = chars_of(la);
    let lname = to_lowercase(name.as_str());
    let loose = contains_exec(lname.as_str(), &lav) || match &b.filename {
        Some(f) => {
            let lf = to_lowercase(f.as_str());
            contains_exec(lf.as_str(), &lav)
        },
        None => false,
    };
    if prefix {
        loose && crate::text::strip_prefix(lname.as_str(), la).is_some()
    } else {
        loose
    }
}

fn first_buffer(bs: &Vec<Buffer>, a: &str, la: &str, exact: bool, prefix: bool) -> (r: Option<usize>)
    ensures
        exact ==> match first_exact(bs@, a@, 0) {
            Some(j) => r matches Some(i) && i as int == j,
            None => r is None,
        },
        !exact ==> match first_loose(bs@, la@, prefix, 0) {
            Some(j) => r matches Some(i) && i as int == j,
            None => r is None,
        },
{
    let mut i: usize = 0;
    while i < bs.len()
        invariant
            i <= bs@.len(),
            exact ==> first_exact(bs@, a@, 0) == first_exact(bs@, a@, i as int),
            !exact ==> first_loose(bs@, la@, prefix, 0) == first_loose(bs@, la@, prefix, i as int),
        decreases bs@.len() - i,
    {
        if buffer_matches(&bs[i], a, la, exact, prefix) {
            return Some(i);
        }
        i = i + 1;
    }
    None
}

impl Editor {
    /// `:b arg`: show the buffer picked by `arg` (see `pick_buffer`) in the
    /// active window.  `canons[i]` is the canonical path of buffer `i`'s
    /// file.
    pub fn switch_buffer_by_name_or_index(&mut self, arg: &str, canons: &Vec<Option<String>>)
        requires
            old(self).wf(),
            canons@.len() == old(self).buffers@.len(),
        ensures
            final(self).wf(),
            ({
                let o = *old(self);
                let a = trim_end_ws(trim_start_ws(arg@));
                if a.len() == 0 {
                    crate::hunks::only_status(o, *final(self), "Usage: :b <index_or_name>"@, MessageKind::Error)
                } else {
                    match pick_buffer(o.buffers@, a) {
                        Some((i, by_number)) => exists|m: Editor|
                            #[trigger] switched(o, m, o.buffers@[i].id, canon_views(canons@))
                                && final(self).status_msg@ == picked_msg(o.buffers@[i], (i + 1) as nat, by_number)
                                && *final(self) == (Editor {
                                status_msg: final(self).status_msg,
                                status_kind: MessageKind::Info,
                                ..m
                            }),
                        None => crate::hunks::only_status(
                            o,
                            *final(self),
                            "No buffer matching '"@ + a + "'"@,
                            MessageKind::Error,
                        ),
                    }
                }
            }),
    {
        let ghost o = *self;
        let a = trim_str(arg);
        let av = chars_of(a.as_str());
        if av.len() == 0 {
            self.set_status_msg("Usage: :b <index_or_name>", MessageKind::Error);
            return;
        }
        let n = self.buffers.len();
        let mut pick: Option<(usize, bool)> = None;
        match parse_usize_exec(&av, 0, av.len()) {
            Some(k) => {
                if k > 0 && k <= n {
                    pick = Some((k - 1, true));
                }
            },
            None => {},
        }
        proof {
            assert(av@.subrange(0, av@.len() as int) =~= a@);
        }
        let la = to_lowercase(a.as_str());
        if pick.is_none() {
            proof {
                lemma_first_exact(o.buffers@, a@, 0);
                lemma_first_loose(o.buffers@, la@, true, 0);
                lemma_first_loose(o.buffers@, la@, false, 0);
            }
            match first_buffer(&self.buffers, a.as_str(), la.as_str(), true, false) {
                Some(i) => {
                    pick = Some((i, false));
                },
                None => match first_buffer(&self.buffers, a.as_str(), la.as_str(), false, true) {
                    Some(i) => {
                        pick = Some((i, false));
                    },
                    None => match first_buffer(&self.buffers, a.as_str(), la.as_str(), false, false) {
                        Some(i) => {
                            pick = Some((i, false));
                        },
                        None => {},
                    },
                },
            }
        }
        proof {
            match pick {
                Some((i, b)) => {
                    assert(pick_buffer(o.buffers@, a@) == Some((i as int, b)));
                },
                None => {
                    assert(pick_buffer(o.buffers@, a@) is None);
                },
            }
        }
        match pick {
            Some((i, by_number)) => {
                let bid = self.buffers[i].id;
                proof {
                    assert(self.has_buf(bid)) by {
                        assert(self.buffers@[i as int].id == bid);
                    }
                    self.lemma_idx_of(bid);
                }
                self.switch_window_to_buffer(bid, canons);
                let ghost m = *self;
                let name = self.buffers[i].display_name();
                let mut msg = String::from_str("Switched to buffer ");
                if by_number {
                    push_decimal(&mut msg, i + 1);
                    push_str(&mut msg, " (");
                } else {
                    push_str(&mut msg, "(");
                }
                push_str(&mut msg, name.as_str());
                push_str(&mut msg, ")");
                proof {
                    assert(self.buffers@ == o.buffers@);
                    assert(name@ == buf_name(o.buffers@[i as int]));
                    if !by_number {
                        reveal_strlit("Switched to buffer ");
                        reveal_strlit("(");
                        reveal_strlit("Switched to buffer (");
                    }
                    assert(msg@ =~= picked_msg(o.buffers@[i as int], (i + 1) as nat, by_number));
                }
                self.set_status(msg.as_str(), MessageKind::Info);
                proof {
                    assert(switched(o, m, o.buffers@[i as int].id, canon_views(canons@)));
                }
            },
            None => {
                let mut msg = String::from_str("No buffer matching '");
                push_str(&mut msg, a.as_str());
                push_str(&mut msg, "'");
                self.set_status_msg(msg.as_str(), MessageKind::Error);
            },
        }
    }
}

/// One entry of the buffer list: its marker, number, file and whether
/// it was modified.
pub open spec fn list_entry(b: Buffer, k: nat, active: usize) -> Seq<char> {
    "\n  "@ + (if b.id == active { " %"@ } else { "  "@ }) + " "@ + decimal(k) + " "@ + (match b.filename {
        Some(f) => f@,
        None => "[No Name]"@,
    }) + (if b.modified { " [+]"@ } else { ""@ })
}

/// The buffer list over the first `k` buffers.
pub open spec fn buffer_list(bs: Seq<Buffer>, active: usize, k: nat) -> Seq<char>
    decreases k,
{
    if k == 0 || k > bs.len() {
        "Buffers:"@
    } else {
        buffer_list(bs, active, (k - 1) as nat) + list_entry(bs[k - 1], k, active)
    }
}

impl Editor {
    /// Show buffer number `idx` (counting from 1) in the active window.
    pub fn switch_buffer_by_index(&mut self, idx: usize, canons: &Vec<Option<String>>)
        requires
            old(self).wf(),
            canons@.len() == old(self).buffers@.len(),
        ensures
            final(self).wf(),
            ({
                let o = *old(self);
                if 1 <= idx <= o.buffers@.len() {
                    exists|m: Editor|
                        #[trigger] switched(o, m, o.buffers@[idx - 1].id, canon_views(canons@))
                            && final(self).status_msg@ == picked_msg(o.buffers@[idx - 1], idx as nat, true)
                            && *final(self) == (Editor {
                            status_msg: final(self).status_msg,
                            status_kind: MessageKind::Info,
                            ..m
                        })
                } else {
                    crate::hunks::only_status(
                        o,
                        *final(self),
                        "Invalid buffer number: "@ + decimal(idx as nat),
                        MessageKind::Error,
                    )
                }
            }),
    {
        let ghost o = *self;
        if idx > 0 && idx <= self.buffers.len() {
            let i = idx - 1;
            let bid = self.buffers[i].id;
            proof {
                assert(self.has_buf(bid)) by {
                    assert(self.buffers@[i as int].id == bid);
                }
                self.lemma_idx_of(bid);
            }
            self.switch_window_to_buffer(bid, canons);
            let ghost m = *self;
            let name = self.buffers[i].display_name();
            let mut msg = String::from_str("Switched to buffer ");
            push_decimal(&mut msg, idx);
            push_str(&mut msg, " (");
            push_str(&mut msg, name.as_str());
            push_str(&mut msg, ")");
            proof {
                assert(self.buffers@ == o.buffers@);
                assert(msg@ =~= picked_msg(o.buffers@[i as int], idx as nat, true));
            }
            self.set_status(msg.as_str(), MessageKind::Info);
            proof {
                assert(switched(o, m, o.buffers@[i as int].id, canon_views(canons@)));
            }
        } else {
            let mut msg = String::from_str("Invalid buffer number: ");
            push_decimal(&mut msg, idx);
            self.set_status(msg.as_str(), MessageKind::Error);
        }
    }

    /// Show the list of buffers on the status line.
    pub fn list_buffers(&mut self)
        requires
            old(self).wf(),
        ensures
            final(self).status_msg@ == buffer_list(old(self).buffers@, old(self).win().buf_id, old(self).buffers@.len()),
            *final(self) == (Editor {
                status_msg: final(self).status_msg,
                status_kind: MessageKind::Info,
                ..*old(self)
            }),
    {
        let active = self.windows[self.active_window_idx].buf_id;
        let mut msg = String::from_str("Buffers:");
        let mut i: usize = 0;
        while i < self.buffers.len()
            invariant
                i <= self.buffers@.len(),
                active == self.win().buf_id,
                msg@ == buffer_list(self.buffers@, active, i as nat),
            decreases self.buffers@.len() - i,
        {
            let ghost before = msg@;
            push_str(&mut msg, "\n  ");
            if self.buffers[i].id == active {
                push_str(&mut msg, " %");
            } else {
                push_str(&mut msg, "  ");
            }
            push_str(&mut msg, " ");
            push_decimal(&mut msg, i + 1);
            push_str(&mut msg, " ");
            match &self.buffers[i].filename {
                Some(f) => push_str(&mut msg, f.as_str()),
                None => push_str(&mut msg, "[No Name]"),
            }
            if self.buffers[i].modified {
                push_str(&mut msg, " [+]");
            } else {
                push_str(&mut msg, "");
            }
            proof {
                assert(msg@ =~= before + list_entry(self.buffers@[i as int], (i + 1) as nat, active));
            }
            i = i + 1;
        }
        self.set_status(msg.as_str(), MessageKind::Info);
    }
}

} // verus!
