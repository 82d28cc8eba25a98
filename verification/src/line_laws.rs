//! How the lines of a text make it up.

use vstd::prelude::*;
use crate::lines::{
    count_nl, line_len, line_of, line_start, num_lines, lemma_count_nl_concat, lemma_line_len_bound,
    lemma_line_start_after_nl, lemma_line_start_bounds, lemma_line_start_strict,
};

verus! {

/// The first `n` lines of `t` joined with line feeds.
pub open spec fn lines_joined(t: Seq<char>, n: nat) -> Seq<char>
    decreases n,
{
    if n <= 1 {
        if n == 0 { Seq::empty() } else { line_of(t, 0) }
    } else {
        lines_joined(t, (n - 1) as nat) + seq!['\n'] + line_of(t, (n - 1) as nat)
    }
}

/// A line that is followed by another ends just before the line feed
/// that starts the next.
proof fn lemma_inner_line(t: Seq<char>, k: nat)
    requires
        k < count_nl(t),
    ensures
        line_start(t, k) + line_len(t, k) + 1 == line_start(t, k + 1),
        t[(line_start(t, k) + line_len(t, k)) as int] == '\n',
        line_of(t, k) == t.subrange(line_start(t, k) as int, (line_start(t, k) + line_len(t, k)) as int),
{
    lemma_line_start_strict(t, k);
    lemma_line_start_after_nl(t, k + 1);
    lemma_line_start_bounds(t, k + 1);
}

/// The last line runs to the end of the text.
proof fn lemma_last_line(t: Seq<char>)
    ensures
        line_start(t, count_nl(t)) + line_len(t, count_nl(t)) == t.len(),
        line_of(t, count_nl(t)) == t.subrange(line_start(t, count_nl(t)) as int, t.len() as int),
{
    let k = count_nl(t);
    let ls = line_start(t, k);
    lemma_line_start_after_nl(t, k + 1);
    lemma_line_start_bounds(t, k);
    if t.len() > ls && t[t.len() - 1] == '\n' {
        crate::typing_laws::lemma_row_of_cursor(t, k, 0);
        let a = t.take(ls as int);
        let b = t.subrange(ls as int, t.len() - 1);
        let c = seq!['\n'];
        assert(t =~= a + (b + c));
        lemma_count_nl_concat(a, b + c);
        lemma_count_nl_concat(b, c);
        assert(count_nl(c) == 1) by {
            reveal_with_fuel(count_nl, 2);
            assert(c.drop_first() =~= Seq::<char>::empty());
        }
    }
}

/// Joining all lines of a text with line feeds gives back the text.
pub proof fn lemma_lines_join(t: Seq<char>)
    ensures
        lines_joined(t, num_lines(t)) == t,
{
    let c = count_nl(t);
    assert forall|n: nat| 1 <= n <= c + 1 implies #[trigger] lines_joined(t, n) == t.take(
        (line_start(t, (n - 1) as nat) + line_len(t, (n - 1) as nat)) as int,
    ) by {
        lemma_joined_prefix(t, n);
    }
    lemma_last_line(t);
    assert(t.take(t.len() as int) =~= t);
}

proof fn lemma_joined_prefix(t: Seq<char>, n: nat)
    requires
        1 <= n <= count_nl(t) + 1,
    ensures
        lines_joined(t, n) == t.take((line_start(t, (n - 1) as nat) + line_len(t, (n - 1) as nat)) as int),
    decreases n,
{
    let k = (n - 1) as nat;
    if k == count_nl(t) {
        lemma_last_line(t);
    } else {
        lemma_inner_line(t, k);
    }
    lemma_line_len_bound(t, k);
    if n == 1 {
        assert(line_start(t, 0) == 0);
        assert(t.take(line_len(t, 0) as int) =~= line_of(t, 0));
    } else {
        let j = (n - 2) as nat;
        lemma_joined_prefix(t, (n - 1) as nat);
        lemma_inner_line(t, j);
        let e = line_start(t, j) + line_len(t, j);
        assert(line_start(t, k) == e + 1);
        assert(t.take(e as int) + seq!['\n'] + line_of(t, k) =~= t.take((line_start(t, k) + line_len(t, k)) as int));
    }
}

} // verus!
