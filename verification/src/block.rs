//! Finishing a visual-block insert: the text typed on the cursor row is
//! repeated on every other row of the block.

use crate::buffer::Buffer;
use crate::editing::after_edit_reparsed;
use crate::editor::{clear_anchors, Editor};
use crate::lines::{lemma_line_len_bound, line_len, line_start, num_lines};
use crate::rope::{rope_chars, rope_insert, rope_len_chars, rope_line_to_char};
use crate::text::string_push;
use vstd::prelude::*;
use vstd::string::StrSliceExecFns;

verus! {

/// `n` spaces.
pub open spec fn spaces(n: nat) -> Seq<char> {
    Seq::new(n, |i: int| ' ')
}

/// `t` with `s` put in at column `col` of line `r`, the line first padded
/// with spaces up to `col` when it is shorter; unchanged when there is no
/// line `r`.
pub open spec fn block_insert_row(t: Seq<char>, r: nat, col: nat, s: Seq<char>) -> Seq<char> {
    if r >= num_lines(t) {
        t
    } else {
        let ls = line_start(t, r);
        let ll = line_len(t, r);
        let t1 = if col > ll {
            t.take((ls + ll) as int) + spaces((col - ll) as nat) + t.skip((ls + ll) as int)
        } else {
            t
        };
        t1.take((ls + col) as int) + s + t1.skip((ls + col) as int)
    }
}

/// `t` after `block_insert_row` on each of `rows` in turn, but `skip`.
pub open spec fn block_insert_rows(t: Seq<char>, rows: Seq<usize>, skip: nat, col: nat, s: Seq<char>) -> Seq<char>
    decreases rows.len(),
{
    if rows.len() == 0 {
        t
    } else {
        let t0 = block_insert_rows(t, rows.drop_last(), skip, col, s);
        if rows.last() == skip {
            t0
        } else {
            block_insert_row(t0, rows.last() as nat, col, s)
        }
    }
}

fn spaces_string(n: usize) -> (r: String)
    ensures
        r@ == spaces(n as nat),
{
    let mut r = String::new();
    let mut i: usize = 0;
    while i < n
        invariant
            i <= n,
            r@ == spaces(i as nat),
        decreases n - i,
    {
        string_push(&mut r, ' ');
        proof {
            assert(r@ =~= spaces((i + 1) as nat));
        }
        i = i + 1;
    }
    r
}

impl Buffer {
    /// Put `s` in at column `col` of each row of `rows` but `skip` (see
    /// `block_insert_rows`).
    fn insert_block_text(&mut self, rows: &Vec<usize>, skip: usize, col: usize, s: &str)
        ensures
            final(self).text() == block_insert_rows(old(self).text(), rows@, skip as nat, col as nat, s@),
            *final(self) == (Buffer { rope: final(self).rope, ..*old(self) }),
    {
        let ghost t0 = self.text();
        let ghost b0 = *self;
        let mut i: usize = 0;
        while i < rows.len()
            invariant
                i <= rows@.len(),
                self.text() == block_insert_rows(t0, rows@.take(i as int), skip as nat, col as nat, s@),
                *self == (Buffer { rope: self.rope, ..b0 }),
            decreases rows@.len() - i,
        {
            let ghost t = self.text();
            let r = rows[i];
            proof {
                assert(rows@.take(i + 1).drop_last() =~= rows@.take(i as int));
                assert(rows@.take(i + 1).last() == r);
            }
            if r != skip && r < self.len_lines() {
                let n0 = rope_len_chars(&self.rope);
                let ls = rope_line_to_char(&self.rope, r);
                let ll = self.line_char_len(r);
                proof {
                    lemma_line_len_bound(t, r as nat);
                }
                if col > ll {
                    let pad = spaces_string(col - ll);
                    rope_insert(&mut self.rope, ls + ll, pad.as_str());
                }
                let n1 = rope_len_chars(&self.rope);
                rope_insert(&mut self.rope, ls + col, s);
            }
            i = i + 1;
        }
        proof {
            assert(rows@.take(rows@.len() as int) =~= rows@);
        }
    }
}

impl Editor {
    fn drop_all_anchors(&mut self)
        requires
            old(self).wf(),
        ensures
            final(self).wf(),
            final(self).windows@ == clear_anchors(old(self).windows@),
            *final(self) == (Editor { windows: final(self).windows, ..*old(self) }),
    {
        let ghost o = *self;
        let mut k: usize = 0;
        while k < self.windows.len()
            invariant
                o.wf(),
                self.windows@.len() == o.windows@.len(),
                k <= self.windows@.len(),
                forall|j: int| 0 <= j < k ==> self.windows@[j] == #[trigger] clear_anchors(o.windows@)[j],
                forall|j: int| k <= j < self.windows@.len() ==> self.windows@[j] == o.windows@[j],
                *self == (Editor { windows: self.windows, ..o }),
            decreases self.windows@.len() - k,
        {
            self.windows[k].visual_anchor = None;
            k = k + 1;
        }
        proof {
            assert(self.windows@ =~= clear_anchors(o.windows@));
            assert forall|w: int| 0 <= w < self.windows@.len() implies self.has_buf(
                #[trigger] self.windows@[w].buf_id,
            ) by {
                assert(self.windows@[w].buf_id == o.windows@[w].buf_id);
                assert(o.has_buf(o.windows@[w].buf_id));
            }
        }
    }

    /// Leave a pending visual-block insert: drop every selection anchor
    /// and, when text was typed on the cursor row, put the same text in at
    /// the block's column on each other row of the block.
    pub fn finalize_visual_block_insert(&mut self, pre_captured_insert: Option<String>)
        requires
            old(self).wf(),
        ensures
            final(self).wf(),
            match old(self).visual_block_insert_state {
                None => *final(self) == *old(self),
                Some(st) => {
                    &&& final(self).windows@ == clear_anchors(old(self).windows@)
                    &&& match pre_captured_insert {
                        Some(txt) if txt@.len() > 0 => {
                            &&& after_edit_reparsed(
                                old(self).cur_buf(),
                                final(self).buffers@[old(self).cur_idx()],
                                block_insert_rows(
                                    old(self).cur_buf().text(),
                                    st.rows@,
                                    old(self).win().row as nat,
                                    st.col as nat,
                                    txt@,
                                ),
                            )
                            &&& final(self).buffers@ == old(self).buffers@.update(
                                old(self).cur_idx(),
                                final(self).buffers@[old(self).cur_idx()],
                            )
                        },
                        _ => final(self).buffers == old(self).buffers,
                    }
                    &&& *final(self) == (Editor {
                        windows: final(self).windows,
                        buffers: final(self).buffers,
                        visual_block_insert_state: None,
                        insert_buffer: None,
                        ..*old(self)
                    })
                },
            },
    {
        let ghost o = *self;
        let taken = self.visual_block_insert_state.take();
        match taken {
            None => {},
            Some(st) => {
                self.drop_all_anchors();
                match pre_captured_insert {
                    Some(txt) => {
                        if txt.as_str().unicode_len() > 0 {
                            let ghost e1 = *self;
                            let cursor_row = self.active_window().row;
                            proof {
                                self.lemma_cur_idx();
                                o.lemma_cur_idx();
                            }
                            let bi = self.active_buf_idx();
                            self.buffers[bi].insert_block_text(&st.rows, cursor_row, st.col, txt.as_str());
                            self.buffers[bi].mark_modified();
                            self.buffers[bi].parse_syntax();
                            proof {
                                let bfin = self.buffers@[bi as int];
                                assert(self.buffers@ =~= e1.buffers@.update(bi as int, bfin));
                                Editor::lemma_wf_update_buf(e1, *self, bi as int, bfin);
                            }
                        }
                    },
                    None => {},
                }
                self.insert_buffer = None;
            },
        }
    }
}

} // verus!
