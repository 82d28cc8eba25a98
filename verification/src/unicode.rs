//! Grapheme clusters (`unicode-segmentation`) and display widths
//! (`unicode-width`).

use vstd::prelude::*;

verus! {

/// The extended grapheme clusters of `s`, in order.
pub uninterp spec fn grapheme_split(s: Seq<char>) -> Seq<Seq<char>>;

/// The display width of `s` in terminal columns.
pub uninterp spec fn str_width(s: Seq<char>) -> nat;

/// Is every char of `s` ASCII, with no carriage return right before a
/// line feed?
pub open spec fn plain_ascii(s: Seq<char>) -> bool {
    &&& forall|i: int| 0 <= i < s.len() ==> (#[trigger] s[i] as u32) < 0x80
    &&& forall|i: int| 0 <= i < s.len() - 1 ==> !(#[trigger] s[i] == '\r' && s[i + 1] == '\n')
}

/// Each char of `s` alone.
pub open spec fn singletons(s: Seq<char>) -> Seq<Seq<char>> {
    Seq::new(s.len(), |i: int| seq![s[i]])
}

/// `UnicodeSegmentation::graphemes(s, true)`, each cluster copied out.
/// The iterator yields consecutive non-empty slices of `s` that together
/// cover it; which slices they are is named by `grapheme_split`.  Two
/// facts of the segmentation rules (UAX #29, `check_pair` in
/// `grapheme.rs`) are stated: among ASCII chars only a carriage return
/// followed by a line feed joins (GB3; everything else breaks by GB4, GB5
/// or GB999), and a tab, a control char, always starts a cluster of its
/// own (GB5), so a trailing tab adds one cluster to those of the rest.
#[verifier::external_body]
pub(crate) fn graphemes_of(s: &str) -> (g: Vec<String>)
    ensures
        g@.len() == grapheme_split(s@).len(),
        forall|i: int| 0 <= i < g@.len() ==> #[trigger] g@[i]@ == grapheme_split(s@)[i],
        g@.map_values(|x: String| x@).flatten() == s@,
        forall|i: int| 0 <= i < g@.len() ==> #[trigger] g@[i]@.len() > 0,
        plain_ascii(s@) ==> g@.map_values(|x: String| x@) == singletons(s@),
        s@.len() > 0 && s@.last() == '\t' ==> g@.map_values(|x: String| x@) == grapheme_split(
            s@.drop_last(),
        ).push(seq!['\t']),
{
    unicode_segmentation::UnicodeSegmentation::graphemes(s, true).map(|x| x.to_string()).collect()
}

/// `UnicodeWidthStr::width`: the display width that `unicode-width`
/// computes for `s`.  A single ASCII char has width 1 (`width_in_generic`
/// in `lookup.rs`: every char up to U+00A0 counts 1, but for a carriage
/// return before a line feed).
#[verifier::external_body]
pub(crate) fn display_width(s: &str) -> (w: usize)
    ensures
        w == str_width(s@),
        s@.len() == 1 && (s@[0] as u32) < 0x80 ==> w == 1,
{
    unicode_width::UnicodeWidthStr::width(s)
}

} // verus!
