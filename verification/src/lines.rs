//! Line structure of text, as the rope sees it: lines are separated by
//! `'\n'` and every text has one more line than it has line feeds.

use vstd::prelude::*;

verus! {

/// Number of line feeds in `s`.
pub open spec fn count_nl(s: Seq<char>) -> nat
    decreases s.len(),
{
    if s.len() == 0 {
        0
    } else {
        (if s[0] == '\n' { 1nat } else { 0nat }) + count_nl(s.drop_first())
    }
}

/// Number of lines in `s`: one more than its line feeds.
pub open spec fn num_lines(s: Seq<char>) -> nat {
    count_nl(s) + 1
}

/// Char index at which line `k` of `s` starts: just after the `k`-th line
/// feed; `s.len()` when `s` has fewer than `k` line feeds.
pub open spec fn line_start(s: Seq<char>, k: nat) -> nat
    decreases s.len(),
{
    if k == 0 {
        0
    } else if s.len() == 0 {
        0
    } else if s[0] == '\n' {
        1 + line_start(s.drop_first(), (k - 1) as nat)
    } else {
        1 + line_start(s.drop_first(), k)
    }
}

/// The text of line `k` of `s` without its line feed (empty past the end).
pub open spec fn line_of(s: Seq<char>, k: nat) -> Seq<char> {
    if k >= num_lines(s) {
        Seq::empty()
    } else {
        let start = line_start(s, k);
        let end = line_start(s, k + 1);
        if end > start {
            if s[end - 1] == '\n' {
                s.subrange(start as int, end - 1)
            } else {
                s.subrange(start as int, end as int)
            }
        } else {
            Seq::empty()
        }
    }
}

/// Number of chars on line `k` of `s`, not counting its line feed.
pub open spec fn line_len(s: Seq<char>, k: nat) -> nat {
    line_of(s, k).len()
}

/// Line on which char index `i` of `s` lies: the line feeds before it.
pub open spec fn line_of_char(s: Seq<char>, i: nat) -> nat {
    count_nl(s.take(i as int))
}

pub proof fn lemma_line_start_bounds(s: Seq<char>, k: nat)
    ensures
        line_start(s, k) <= s.len(),
        line_start(s, k) <= line_start(s, k + 1),
    decreases s.len(),
{
    if k == 0 {
        if s.len() > 0 {
            lemma_line_start_bounds(s.drop_first(), 0);
        }
    } else if s.len() > 0 {
        if s[0] == '\n' {
            lemma_line_start_bounds(s.drop_first(), (k - 1) as nat);
        } else {
            lemma_line_start_bounds(s.drop_first(), k);
        }
    }
}

pub proof fn lemma_line_start_mono(s: Seq<char>, j: nat, k: nat)
    requires
        j <= k,
    ensures
        line_start(s, j) <= line_start(s, k),
        line_start(s, k) <= s.len(),
    decreases k - j,
{
    lemma_line_start_bounds(s, k);
    if j < k {
        lemma_line_start_mono(s, j, (k - 1) as nat);
        lemma_line_start_bounds(s, (k - 1) as nat);
    }
}

pub proof fn lemma_line_len_bound(s: Seq<char>, k: nat)
    requires
        k < num_lines(s),
    ensures
        line_start(s, k) + line_len(s, k) <= s.len(),
        line_start(s, k) + line_len(s, k) <= line_start(s, k + 1),
{
    lemma_line_start_bounds(s, k);
    lemma_line_start_bounds(s, k + 1);
}

/// Line `k` for `1 <= k <= count_nl(s)` starts just after a line feed;
/// any later line starts at the end of the text.
pub proof fn lemma_line_start_after_nl(s: Seq<char>, k: nat)
    ensures
        1 <= k <= count_nl(s) ==> line_start(s, k) >= 1 && line_start(s, k) <= s.len() && s[line_start(
            s,
            k,
        ) - 1] == '\n',
        k > count_nl(s) ==> line_start(s, k) == s.len(),
    decreases s.len(),
{
    if k == 0 || s.len() == 0 {
    } else if s[0] == '\n' {
        lemma_line_start_after_nl(s.drop_first(), (k - 1) as nat);
        lemma_line_start_bounds(s.drop_first(), (k - 1) as nat);
        if k >= 2 && k <= count_nl(s) {
            let j = line_start(s.drop_first(), (k - 1) as nat);
            assert(s[j as int] == s.drop_first()[j - 1]);
        }
    } else {
        lemma_line_start_after_nl(s.drop_first(), k);
        lemma_line_start_bounds(s.drop_first(), k);
        if 1 <= k <= count_nl(s) {
            let j = line_start(s.drop_first(), k);
            assert(s[j as int] == s.drop_first()[j - 1]);
        }
    }
}

/// Line feeds add up over a concatenation.
pub proof fn lemma_count_nl_concat(a: Seq<char>, b: Seq<char>)
    ensures
        count_nl(a + b) == count_nl(a) + count_nl(b),
    decreases a.len(),
{
    if a.len() == 0 {
        assert(a + b =~= b);
    } else {
        assert((a + b).drop_first() =~= a.drop_first() + b);
        lemma_count_nl_concat(a.drop_first(), b);
    }
}

/// A line that starts within `a` starts at the same place in `a + b`.
pub proof fn lemma_line_start_prefix(a: Seq<char>, b: Seq<char>, k: nat)
    requires
        k <= count_nl(a),
    ensures
        line_start(a + b, k) == line_start(a, k),
    decreases a.len(),
{
    if k > 0 {
        assert((a + b).drop_first() =~= a.drop_first() + b);
        assert((a + b)[0] == a[0]);
        if a[0] == '\n' {
            lemma_line_start_prefix(a.drop_first(), b, (k - 1) as nat);
        } else {
            lemma_line_start_prefix(a.drop_first(), b, k);
        }
    }
}

/// A line that starts after the line feeds of `a` starts in `b`.
pub proof fn lemma_line_start_suffix(a: Seq<char>, b: Seq<char>, k: nat)
    requires
        k > count_nl(a),
    ensures
        line_start(a + b, k) == a.len() + line_start(b, (k - count_nl(a)) as nat),
    decreases a.len(),
{
    if a.len() == 0 {
        assert(a + b =~= b);
    } else {
        assert((a + b).drop_first() =~= a.drop_first() + b);
        assert((a + b)[0] == a[0]);
        if a[0] == '\n' {
            lemma_line_start_suffix(a.drop_first(), b, (k - 1) as nat);
        } else {
            lemma_line_start_suffix(a.drop_first(), b, k);
        }
    }
}

/// Lines that end in a line feed start strictly before the next one.
pub proof fn lemma_line_start_strict(s: Seq<char>, k: nat)
    requires
        k + 1 <= count_nl(s),
    ensures
        line_start(s, k) < line_start(s, k + 1),
    decreases s.len(),
{
    if k > 0 {
        if s[0] == '\n' {
            lemma_line_start_strict(s.drop_first(), (k - 1) as nat);
        } else {
            lemma_line_start_strict(s.drop_first(), k);
        }
    }
}

} // verus!
