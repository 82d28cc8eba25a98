//! The buffer text lives in a `ropey::Rope`.  These are the rope calls the
//! editor makes, each with what ropey documents about it.  The rope is
//! used with ropey's default features off, so `'\n'` is its only line
//! break.

use crate::lines::{line_of_char, line_start, num_lines};
use ropey::Rope;
use vstd::prelude::*;

verus! {

#[verifier::external_type_specification]
#[verifier::external_body]
pub struct ExRope(Rope);

/// The chars a rope holds, in order.
pub uninterp spec fn rope_chars(r: Rope) -> Seq<char>;

/// `Rope::from_str`: the new rope holds exactly the chars of `text`.
#[verifier::external_body]
pub(crate) fn rope_from_str(text: &str) -> (r: Rope)
    ensures
        rope_chars(r) == text@,
{
    Rope::from_str(text)
}

/// `Clone` for `Rope`: the copy holds the same chars.
#[verifier::external_body]
pub(crate) fn rope_clone(r: &Rope) -> (c: Rope)
    ensures
        rope_chars(c) == rope_chars(*r),
{
    r.clone()
}

/// `Rope::len_chars`: the number of chars held.
#[verifier::external_body]
pub(crate) fn rope_len_chars(r: &Rope) -> (n: usize)
    ensures
        n == rope_chars(*r).len(),
{
    r.len_chars()
}

/// `Rope::len_lines`: the number of line breaks plus one.
#[verifier::external_body]
pub(crate) fn rope_len_lines(r: &Rope) -> (n: usize)
    ensures
        n == num_lines(rope_chars(*r)),
{
    r.len_lines()
}

/// `Rope::char`: the char at `idx`; ropey panics when `idx >= len_chars()`.
#[verifier::external_body]
pub(crate) fn rope_char(r: &Rope, idx: usize) -> (c: char)
    requires
        idx < rope_chars(*r).len(),
    ensures
        c == rope_chars(*r)[idx as int],
{
    r.char(idx)
}

/// `Rope::line_to_char`: the char index where line `line` starts, or the
/// length for the one-past-the-end line; ropey panics past that.
#[verifier::external_body]
pub(crate) fn rope_line_to_char(r: &Rope, line: usize) -> (idx: usize)
    requires
        line <= num_lines(rope_chars(*r)),
    ensures
        idx == line_start(rope_chars(*r), line as nat),
{
    r.line_to_char(line)
}

/// `Rope::char_to_line`: the number of line breaks before `idx`; ropey
/// panics when `idx > len_chars()`.
#[verifier::external_body]
pub(crate) fn rope_char_to_line(r: &Rope, idx: usize) -> (line: usize)
    requires
        idx <= rope_chars(*r).len(),
    ensures
        line == line_of_char(rope_chars(*r), idx as nat),
{
    r.char_to_line(idx)
}

/// `Rope::insert`: `text` goes in at char index `idx`; ropey panics when
/// `idx > len_chars()`.
#[verifier::external_body]
pub(crate) fn rope_insert(r: &mut Rope, idx: usize, text: &str)
    requires
        idx <= rope_chars(*old(r)).len(),
    ensures
        rope_chars(*final(r)) == rope_chars(*old(r)).take(idx as int) + text@ + rope_chars(
            *old(r),
        ).skip(idx as int),
{
    r.insert(idx, text)
}

/// `Rope::remove` over `start..end`: those chars leave; ropey panics when
/// `start > end` or `end > len_chars()`.
#[verifier::external_body]
pub(crate) fn rope_remove(r: &mut Rope, start: usize, end: usize)
    requires
        start <= end <= rope_chars(*old(r)).len(),
    ensures
        rope_chars(*final(r)) == rope_chars(*old(r)).take(start as int) + rope_chars(
            *old(r),
        ).skip(end as int),
{
    r.remove(start..end)
}

/// `Rope::slice(start..end)` turned into a `String`: the chars in that
/// range; ropey panics on a range out of bounds.
#[verifier::external_body]
pub(crate) fn rope_slice_string(r: &Rope, start: usize, end: usize) -> (s: String)
    requires
        start <= end <= rope_chars(*r).len(),
    ensures
        s@ == rope_chars(*r).subrange(start as int, end as int),
{
    r.slice(start..end).to_string()
}

/// `Rope::to_string`: all the chars of the rope.
#[verifier::external_body]
pub(crate) fn rope_to_string(r: &Rope) -> (s: String)
    ensures
        s@ == rope_chars(*r),
{
    r.to_string()
}

} // verus!
