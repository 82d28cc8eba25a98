//! A window: a viewport onto one buffer with its own cursor.

use vstd::prelude::*;

verus! {

#[derive(Clone, Copy)]
pub struct Window {
    pub id: usize,
    /// Id of the buffer the window shows.
    pub buf_id: usize,
    /// Cursor line (0-based).
    pub row: usize,
    /// Cursor column as a char index into the line.
    pub col: usize,
    /// Visual column the cursor tries to keep when moving between lines.
    pub desired_col: usize,
    /// First line shown.
    pub scroll_line: usize,
    /// First column shown.
    pub scroll_col: usize,
    /// Cursor position before the last jump, for ping-pong jumps.
    pub last_jump: Option<(usize, usize)>,
    /// Start of a visual selection.
    pub visual_anchor: Option<(usize, usize)>,
    /// Rows of text the window shows.
    pub height: usize,
    /// Columns the window takes.
    pub width: usize,
    /// Id of the window showing the other side of a side-by-side diff.
    pub diff_sibling: Option<usize>,
}

impl Window {
    /// A window on buffer `buf_id` with the cursor at the top.
    pub fn new(id: usize, buf_id: usize) -> (w: Self)
        ensures
            w.id == id,
            w.buf_id == buf_id,
            w.row == 0,
            w.col == 0,
            w.desired_col == 0,
            w.scroll_line == 0,
            w.scroll_col == 0,
            w.diff_sibling is None,
            w.last_jump is None,
            w.visual_anchor is None,
            w.height == 0,
            w.width == 0,
    {
        Window {
            id,
            buf_id,
            row: 0,
            col: 0,
            desired_col: 0,
            scroll_line: 0,
            scroll_col: 0,
            last_jump: None,
            visual_anchor: None,
            height: 0,
            width: 0,
            diff_sibling: None,
        }
    }

    /// Id of the buffer the window shows.
    pub fn buffer_id(&self) -> (id: usize)
        ensures
            id == self.buf_id,
    {
        self.buf_id
    }

    /// Remember the cursor position as the target of the next ping-pong
    /// jump.
    pub fn save_jump_position(&mut self)
        ensures
            *final(self) == (Window { last_jump: Some((old(self).row, old(self).col)), ..*old(self) }),
    {
        self.last_jump = Some((self.row, self.col));
    }
}

} // verus!
