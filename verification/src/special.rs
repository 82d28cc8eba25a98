//! Read-only buffers the editor fills itself, such as the health report.

use crate::buffer::{Buffer, BufferKind, opt_view, syntax_language_spec};
use crate::editor::{Editor, MessageKind, entered_normal};
use crate::rope::rope_from_str;
use crate::session::{switched, canon_views};
use crate::text::{str_eq};
use vstd::prelude::*;

verus! {

/// First buffer whose file name is `name`, if any.
pub open spec fn named_from(bufs: Seq<Buffer>, name: Seq<char>, k: int) -> Option<int>
    decreases bufs.len() - k,
{
    if k < 0 || k >= bufs.len() {
        None
    } else if opt_view(bufs[k].filename) == Some(name) {
        Some(k)
    } else {
        named_from(bufs, name, k + 1)
    }
}

proof fn lemma_named_from(bufs: Seq<Buffer>, name: Seq<char>, k: int)
    requires
        0 <= k,
    ensures
        named_from(bufs, name, k) matches Some(i) ==> k <= i < bufs.len(),
    decreases bufs.len() - k,
{
    if k < bufs.len() && opt_view(bufs[k].filename) != Some(name) {
        lemma_named_from(bufs, name, k + 1);
    }
}

fn find_named(bufs: &Vec<Buffer>, name: &str) -> (r: Option<usize>)
    ensures
        r matches Some(i) ==> named_from(bufs@, name@, 0) == Some(i as int) && i < bufs@.len(),
        r is None ==> named_from(bufs@, name@, 0) is None,
{
    let mut i: usize = 0;
    while i < bufs.len()
        invariant
            i <= bufs@.len(),
            named_from(bufs@, name@, 0) == named_from(bufs@, name@, i as int),
        decreases bufs@.len() - i,
    {
        let hit = match &bufs[i].filename {
            Some(f) => str_eq(f.as_str(), name),
            None => false,
        };
        if hit {
            return Some(i);
        }
        i = i + 1;
    }
    None
}

/// `n` is `o` with the buffer named `name` (reused, or made as a new
/// buffer of kind `kind` with the next id) holding `text`; `id` is that
/// buffer's id.
pub open spec fn special_filled(o: Editor, n: Editor, name: Seq<char>, kind: BufferKind, text: Seq<char>, id: usize) -> bool {
    match named_from(o.buffers@, name, 0) {
        Some(i) => {
            let b = o.buffers@[i];
            let nb = n.buffers@[i];
            &&& id == b.id
            &&& nb.text() == text
            &&& nb.language_id matches Some(l) && l@ == syntax_language_spec(
                b.kind,
                b.wgrep_mode,
                opt_view(b.filename),
            )
            &&& nb == (Buffer { rope: nb.rope, language_id: nb.language_id, ..b })
            &&& n.buffers@ == o.buffers@.update(i, nb)
            &&& n == (Editor { buffers: n.buffers, ..o })
        },
        None => {
            let nb = n.buffers@.last();
            &&& id == o.next_buf_id
            &&& n.buffers@.len() == o.buffers@.len() + 1
            &&& n.buffers@.drop_last() == o.buffers@
            &&& nb.id == id
            &&& nb.kind == kind
            &&& opt_view(nb.filename) == Some(name)
            &&& nb.text() == text
            &&& !nb.modified
            &&& nb.language_id matches Some(l) && l@ == syntax_language_spec(kind, nb.wgrep_mode, Some(name))
            &&& n == (Editor { buffers: n.buffers, next_buf_id: (o.next_buf_id + 1) as usize, ..o })
        },
    }
}

impl Editor {
    /// Put `text` in the special buffer named `name` (reusing it when it
    /// exists), returning its id.
    pub fn fill_special_buffer(&mut self, name: &str, kind: BufferKind, text: &str) -> (id: usize)
        requires
            old(self).wf(),
            old(self).next_buf_id < usize::MAX,
            forall|i: int| 0 <= i < old(self).buffers@.len() ==> old(self).buffers@[i].id < old(self).next_buf_id,
        ensures
            final(self).wf(),
            final(self).has_buf(id),
            special_filled(*old(self), *final(self), name@, kind, text@, id),
    {
        let ghost o = *self;
        match find_named(&self.buffers, name) {
            Some(i) => {
                self.buffers[i].rope = rope_from_str(text);
                self.buffers[i].parse_syntax();
                proof {
                    assert(self.buffers@ =~= o.buffers@.update(i as int, self.buffers@[i as int]));
                    Editor::lemma_wf_update_buf(o, *self, i as int, self.buffers@[i as int]);
                    assert(self.buffers@[i as int].id == o.buffers@[i as int].id);
                }
                self.buffers[i].id
            },
            None => {
                let id = self.next_buf_id;
                self.next_buf_id = self.next_buf_id + 1;
                let mut b = Buffer::new(id, Some(String::from_str(name)), None);
                b.rope = rope_from_str(text);
                b.kind = kind;
                b.parse_syntax();
                self.buffers.push(b);
                proof {
                    assert(self.buffers@.drop_last() =~= o.buffers@);
                    assert(self.buffers@[self.buffers@.len() - 1].id == id);
                    assert forall|w: int| 0 <= w < self.windows@.len() implies self.has_buf(
                        #[trigger] self.windows@[w].buf_id,
                    ) by {
                        assert(o.has_buf(o.windows@[w].buf_id));
                        let k = choose|k: int| 0 <= k < o.buffers@.len() && o.buffers@[k].id == o.windows@[w].buf_id;
                        assert(self.buffers@[k] == o.buffers@[k]);
                    }
                    assert(self.has_buf(id)) by {
                        assert(self.buffers@[o.buffers@.len() as int].id == id);
                    }
                }
                id
            },
        }
    }

    /// `:checkhealth`: show `report` in the health buffer, in Normal
    /// mode.  `canons` are the canonical paths of the current buffers'
    /// files and `new_canon` that of the health buffer if one is made.
    #[verifier::spinoff_prover]
    #[verifier::rlimit(40)]
    pub fn open_checkhealth(&mut self, report: &str, canons: &Vec<Option<String>>, new_canon: Option<String>)
        requires
            old(self).wf(),
            old(self).next_buf_id < usize::MAX,
            forall|i: int| 0 <= i < old(self).buffers@.len() ==> old(self).buffers@[i].id < old(self).next_buf_id,
            canons@.len() == old(self).buffers@.len(),
        ensures
            final(self).wf(),
            exists|m1: Editor, m2: Editor, m3: Editor, id: usize, cv: Seq<Option<Seq<char>>>|
                #[trigger] special_filled(*old(self), m1, "*checkhealth*"@, BufferKind::CheckHealth, report@, id)
                    && #[trigger] switched(m1, m2, id, cv) && #[trigger] entered_normal(m2, m3)
                    && cv.len() == m1.buffers@.len()
                    && cv.take(canons@.len() as int) == canon_views(canons@)
                    && final(self).status_msg@ == "Health check \u{2014} q: close"@ && *final(self) == (Editor {
                    status_msg: final(self).status_msg,
                    status_kind: MessageKind::Info,
                    ..m3
                }),
    {
        let ghost o = *self;
        let mut cs: Vec<Option<String>> = Vec::new();
        let mut i: usize = 0;
        while i < canons.len()
            invariant
                *self == o,
                canons@.len() == o.buffers@.len(),
                i <= canons@.len(),
                cs@.len() == i,
                canon_views(cs@) == canon_views(canons@).take(i as int),
            decreases canons@.len() - i,
        {
            let c = match &canons[i] {
                Some(s) => Some(s.clone()),
                None => None,
            };
            proof {
                assert(opt_view(c) == opt_view(canons@[i as int]));
            }
            cs.push(c);
            proof {
                assert(canon_views(cs@) =~= canon_views(canons@).take(i + 1));
            }
            i = i + 1;
        }
        let id = self.fill_special_buffer("*checkhealth*", BufferKind::CheckHealth, report);
        let ghost m1 = *self;
        proof {
            assert(special_filled(o, m1, "*checkhealth*"@, BufferKind::CheckHealth, report@, id));
            lemma_named_from(o.buffers@, "*checkhealth*"@, 0);
            match named_from(o.buffers@, "*checkhealth*"@, 0) {
                Some(k) => {
                    assert(m1.buffers@.len() == o.buffers@.len());
                },
                None => {
                    assert(m1.buffers@.len() == o.buffers@.len() + 1);
                },
            }
        }
        if cs.len() < self.buffers.len() {
            cs.push(new_canon);
        }
        proof {
            assert(canon_views(canons@).take(canons@.len() as int) =~= canon_views(canons@));
            assert(canon_views(cs@).take(canons@.len() as int) =~= canon_views(canons@));
        }
        self.switch_window_to_buffer(id, &cs);
        let ghost m2 = *self;
        self.enter_normal();
        let ghost m3 = *self;
        self.set_status_msg("Health check \u{2014} q: close", MessageKind::Info);
        proof {
            assert(switched(m1, m2, id, canon_views(cs@)));
            assert(entered_normal(m2, m3));
        }
    }
}

} // verus!
