//! Text helpers of completion: the word after a member-access trigger,
//! the triggers themselves, and snippet placeholders taken out of an
//! inserted completion.

use crate::editor::Editor;
use crate::text::{chars_of, occurs_at, string_from_chars, string_push};
use vstd::prelude::*;

verus! {

/// Start of the last occurrence of `w` in `s` at or before `i`.
pub open spec fn last_occ_from(s: Seq<char>, w: Seq<char>, i: int) -> Option<int>
    decreases i + 1,
{
    if i < 0 {
        None
    } else if occurs_at(s, w, i) {
        Some(i)
    } else {
        last_occ_from(s, w, i - 1)
    }
}

/// Start of the last occurrence of `w` in `s`.
pub open spec fn last_occ(s: Seq<char>, w: Seq<char>) -> Option<int> {
    last_occ_from(s, w, s.len() - w.len())
}

/// End of the last `w` in `s`, or 0.
pub open spec fn end_after(s: Seq<char>, w: Seq<char>) -> int {
    match last_occ(s, w) {
        Some(p) => p + w.len(),
        None => 0,
    }
}

/// Where the word being completed starts: after the last `::`, `->` or
/// `.`, whichever ends last; 0 when there is none.
pub open spec fn trigger_end(s: Seq<char>) -> int {
    let a = end_after(s, "::"@);
    let b = end_after(s, "->"@);
    let c = end_after(s, "."@);
    let ab = if a >= b { a } else { b };
    if ab >= c { ab } else { c }
}

/// `s` holds `w`.
pub open spec fn holds(s: Seq<char>, w: Seq<char>) -> bool {
    exists|p: int| #[trigger] occurs_at(s, w, p)
}

/// Index just past the first `}` at or after `k` (the end when none).
pub open spec fn past_brace(s: Seq<char>, k: int) -> int
    decreases s.len() - k,
{
    if k >= s.len() {
        s.len() as int
    } else if s[k] == '}' {
        k + 1
    } else {
        past_brace(s, k + 1)
    }
}

/// Index just past the ASCII digits from `k` on.
pub open spec fn past_digits(s: Seq<char>, k: int) -> int
    decreases s.len() - k,
{
    if k >= s.len() || !('0' <= s[k] <= '9') {
        k
    } else {
        past_digits(s, k + 1)
    }
}

/// `s` from `i` on with the snippet placeholders `$N` and `${...}` taken
/// out.
pub open spec fn strip_from(s: Seq<char>, i: int) -> Seq<char>
    decreases s.len() - i, 0int,
{
    if i < 0 || i >= s.len() {
        Seq::empty()
    } else if s[i] == '$' {
        if i + 1 < s.len() && s[i + 1] == '{' {
            let j = past_brace(s, i + 2);
            if i < j <= s.len() {
                strip_from(s, j)
            } else {
                Seq::empty()
            }
        } else {
            let j = past_digits(s, i + 1);
            if i < j <= s.len() {
                strip_from(s, j)
            } else {
                Seq::empty()
            }
        }
    } else {
        seq![s[i]] + strip_from(s, i + 1)
    }
}

/// Length of the longest common prefix of `a` and `b`.
pub open spec fn common_prefix(a: Seq<char>, b: Seq<char>) -> nat
    decreases a.len(),
{
    if a.len() == 0 || b.len() == 0 || a[0] != b[0] {
        0
    } else {
        1 + common_prefix(a.drop_first(), b.drop_first())
    }
}

/// `common_prefix` is the length of the longest common prefix: both
/// strings agree on that many chars, and the next chars differ (or one
/// string ends there).
pub proof fn lemma_common_prefix(a: Seq<char>, b: Seq<char>)
    ensures
        ({
            let n = common_prefix(a, b);
            &&& n <= a.len() && n <= b.len()
            &&& a.take(n as int) == b.take(n as int)
            &&& n < a.len() && n < b.len() ==> a[n as int] != b[n as int]
        }),
    decreases a.len(),
{
    if !(a.len() == 0 || b.len() == 0 || a[0] != b[0]) {
        lemma_common_prefix(a.drop_first(), b.drop_first());
        let n = common_prefix(a, b);
        assert(a.take(n as int) =~= seq![a[0]] + a.drop_first().take(n - 1));
        assert(b.take(n as int) =~= seq![b[0]] + b.drop_first().take(n - 1));
    } else {
        assert(a.take(0) =~= b.take(0));
    }
}

/// The last occurrence at or before `i`: it occurs there, and none
/// starts after it up to `i`; when there is none, none starts up to `i`.
pub proof fn lemma_last_occ_found(s: Seq<char>, w: Seq<char>, i: int)
    ensures
        last_occ_from(s, w, i) matches Some(p) ==> p <= i && occurs_at(s, w, p) && forall|q: int|
            p < q <= i ==> !#[trigger] occurs_at(s, w, q),
        last_occ_from(s, w, i) is None ==> forall|q: int| q <= i ==> !#[trigger] occurs_at(s, w, q),
    decreases i + 1,
{
    if i >= 0 && !occurs_at(s, w, i) {
        lemma_last_occ_found(s, w, i - 1);
    }
}

proof fn lemma_past_brace(s: Seq<char>, k: int)
    requires
        0 <= k <= s.len(),
    ensures
        k <= past_brace(s, k) <= s.len(),
    decreases s.len() - k,
{
    if k < s.len() && s[k] != '}' {
        lemma_past_brace(s, k + 1);
    }
}

proof fn lemma_past_digits(s: Seq<char>, k: int)
    requires
        0 <= k <= s.len(),
    ensures
        k <= past_digits(s, k) <= s.len(),
    decreases s.len() - k,
{
    if k < s.len() && '0' <= s[k] <= '9' {
        lemma_past_digits(s, k + 1);
    }
}

fn occurs_exec(v: &Vec<char>, w: &Vec<char>, p: usize) -> (b: bool)
    requires
        p + w@.len() <= v@.len(),
    ensures
        b == occurs_at(v@, w@, p as int),
{
    let m = w.len();
    let n = v.len();
    let mut k: usize = 0;
    while k < m
        invariant
            k <= m,
            m == w@.len(),
            n == v@.len(),
            p + m <= v@.len(),
            forall|j: int| 0 <= j < k ==> v@[p + j] == w@[j],
        decreases m - k,
    {
        if v[p + k] != w[k] {
            proof {
                assert(v@.subrange(p as int, p + m)[k as int] != w@[k as int]);
            }
            return false;
        }
        k = k + 1;
    }
    proof {
        assert(v@.subrange(p as int, p + m) =~= w@);
    }
    true
}

fn last_occ_exec(v: &Vec<char>, w: &Vec<char>) -> (r: Option<usize>)
    ensures
        match last_occ(v@, w@) {
            Some(p) => r matches Some(q) && q as int == p,
            None => r is None,
        },
        r matches Some(q) ==> q + w@.len() <= v@.len(),
{
    let n = v.len();
    let m = w.len();
    if m > n {
        proof {
            assert(last_occ(v@, w@) is None);
        }
        return None;
    }
    let mut p = n - m;
    loop
        invariant
            p <= n - m,
            n == v@.len(),
            m == w@.len(),
            m <= n,
            last_occ(v@, w@) == last_occ_from(v@, w@, p as int),
        decreases p,
    {
        if occurs_exec(v, w, p) {
            return Some(p);
        }
        if p == 0 {
            proof {
                assert(last_occ_from(v@, w@, -1) is None);
            }
            return None;
        }
        p = p - 1;
    }
}

impl Editor {
    /// The word fragment after the last trigger: for `person.ag` it is
    /// `ag`, for `person.` nothing, for `hello` all of it.
    pub fn post_trigger_prefix(text: &str) -> (r: String)
        ensures
            r@ == text@.skip(trigger_end(text@)),
    {
        proof {
            reveal_strlit("::");
            reveal_strlit("->");
            reveal_strlit(".");
        }
        let v = chars_of(text);
        let n = v.len();
        let dc = chars_of("::");
        let ar = chars_of("->");
        let dot = chars_of(".");
        let mut te: usize = 0;
        match last_occ_exec(&v, &dc) {
            Some(p) => {
                te = p + 2;
            },
            None => {},
        }
        match last_occ_exec(&v, &ar) {
            Some(p) => {
                if p + 2 > te {
                    te = p + 2;
                }
            },
            None => {},
        }
        match last_occ_exec(&v, &dot) {
            Some(p) => {
                if p + 1 > te {
                    te = p + 1;
                }
            },
            None => {},
        }
        proof {
            assert(te as int == trigger_end(text@));
        }
        let rest = vstd::slice::slice_subrange(v.as_slice(), te, v.len());
        proof {
            assert(rest@ =~= text@.skip(te as int));
        }
        string_from_chars(rest)
    }

    /// Does `text` hold a member-access trigger (`::`, `->` or `.`)?
    pub fn has_completion_trigger(text: &str) -> (b: bool)
        ensures
            b == (holds(text@, "::"@) || holds(text@, "->"@) || holds(text@, "."@)),
    {
        let v = chars_of(text);
        let r = last_occ_exec(&v, &chars_of("::")).is_some() || last_occ_exec(&v, &chars_of("->")).is_some()
            || last_occ_exec(&v, &chars_of(".")).is_some();
        proof {
            lemma_last_occ_holds(text@, "::"@);
            lemma_last_occ_holds(text@, "->"@);
            lemma_last_occ_holds(text@, "."@);
        }
        r
    }

    /// Is `text` exactly a trigger (`.`, `::` or `->`)?
    pub fn is_exact_trigger(text: &str) -> (b: bool)
        ensures
            b == (text@ == "."@ || text@ == "::"@ || text@ == "->"@),
    {
        crate::text::str_eq(text, ".") || crate::text::str_eq(text, "::") || crate::text::str_eq(text, "->")
    }

    /// `text` with the snippet placeholders `$N` and `${...}` taken out.
    pub fn strip_lsp_snippets(text: &str) -> (r: String)
        ensures
            r@ == strip_from(text@, 0),
    {
        let v = chars_of(text);
        let n = v.len();
        let mut out = String::new();
        let mut i: usize = 0;
        while i < n
            invariant
                i <= n,
                n == v@.len(),
                v@ == text@,
                out@ + strip_from(v@, i as int) == strip_from(v@, 0),
            decreases n - i,
        {
            if v[i] == '$' {
                let mut j = i + 1;
                if j < n && v[j] == '{' {
                    j = j + 1;
                    while j < n && v[j] != '}'
                        invariant
                            i + 2 <= j <= n,
                            n == v@.len(),
                            past_brace(v@, i + 2) == past_brace(v@, j as int),
                        decreases n - j,
                    {
                        j = j + 1;
                    }
                    if j < n {
                        j = j + 1;
                    }
                    proof {
                        lemma_past_brace(v@, i + 2);
                    }
                } else {
                    proof {
                        lemma_past_digits(v@, (i + 1) as int);
                    }
                    while j < n && '0' <= v[j] && v[j] <= '9'
                        invariant
                            i + 1 <= j <= n,
                            n == v@.len(),
                            past_digits(v@, i + 1) == past_digits(v@, j as int),
                        decreases n - j,
                    {
                        j = j + 1;
                    }
                }
                i = j;
            } else {
                let ghost before = out@;
                string_push(&mut out, v[i]);
                proof {
                    assert(strip_from(v@, i as int) == seq![v@[i as int]] + strip_from(v@, i + 1));
                    assert(out@ + strip_from(v@, i + 1) =~= before + strip_from(v@, i as int));
                }
                i = i + 1;
            }
        }
        out
    }

    /// Length of the longest common prefix of `a` and `b`, in chars.
    pub fn common_prefix_len(a: &str, b: &str) -> (n: usize)
        ensures
            n == common_prefix(a@, b@),
    {
        let av = chars_of(a);
        let bv = chars_of(b);
        let mut i: usize = 0;
        proof {
            assert(av@.skip(0) =~= av@);
            assert(bv@.skip(0) =~= bv@);
        }
        while i < av.len() && i < bv.len() && av[i] == bv[i]
            invariant
                i <= av@.len(),
                i <= bv@.len(),
                common_prefix(av@, bv@) == i + common_prefix(av@.skip(i as int), bv@.skip(i as int)),
            decreases av@.len() - i,
        {
            proof {
                assert(av@.skip(i as int).drop_first() =~= av@.skip(i + 1));
                assert(bv@.skip(i as int).drop_first() =~= bv@.skip(i + 1));
            }
            i = i + 1;
        }
        i
    }
}

proof fn lemma_last_occ_holds(s: Seq<char>, w: Seq<char>)
    ensures
        (last_occ(s, w) is Some) == holds(s, w),
{
    lemma_last_occ_from(s, w, s.len() - w.len());
}

proof fn lemma_last_occ_from(s: Seq<char>, w: Seq<char>, i: int)
    requires
        i >= s.len() - w.len(),
    ensures
        (last_occ_from(s, w, i) is Some) == holds(s, w),
{
    lemma_last_occ_upto(s, w, i);
    assert forall|p: int| #[trigger] occurs_at(s, w, p) implies p <= i by {}
}

proof fn lemma_last_occ_upto(s: Seq<char>, w: Seq<char>, i: int)
    ensures
        (last_occ_from(s, w, i) is Some) == (exists|p: int| p <= i && #[trigger] occurs_at(s, w, p)),
    decreases i + 1,
{
    if i >= 0 && !occurs_at(s, w, i) {
        lemma_last_occ_upto(s, w, i - 1);
        assert forall|p: int| p <= i && #[trigger] occurs_at(s, w, p) implies p <= i - 1 by {}
    }
    if i < 0 {
        assert forall|p: int| p <= i implies !#[trigger] occurs_at(s, w, p) by {}
    }
}

} // verus!
