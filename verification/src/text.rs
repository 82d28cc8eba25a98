//! Char-level helpers over std strings.

use vstd::prelude::*;

verus! {

/// `str::chars` collected into a vector: the chars of `s`, in order.
#[verifier::external_body]
pub(crate) fn chars_of(s: &str) -> (v: Vec<char>)
    ensures
        v@ == s@,
{
    s.chars().collect()
}

/// Collecting chars into a `String`: the string holds exactly those chars.
#[verifier::external_body]
pub(crate) fn string_from_chars(v: &[char]) -> (s: String)
    ensures
        s@ == v@,
{
    v.iter().collect()
}

/// `String::push`: the char is appended.
#[verifier::external_body]
pub(crate) fn string_push(s: &mut String, c: char)
    ensures
        final(s)@ == old(s)@.push(c),
{
    s.push(c)
}

/// What `char::is_alphanumeric` answers for `c`.
pub uninterp spec fn spec_is_alphanumeric(c: char) -> bool;

/// What `char::is_whitespace` answers for `c`.
pub uninterp spec fn spec_is_whitespace(c: char) -> bool;

pub open spec fn is_ascii_alnum(c: char) -> bool {
    ('a' <= c <= 'z') || ('A' <= c <= 'Z') || ('0' <= c <= '9')
}

/// `char::is_alphanumeric`: alphabetic or numeric in the Unicode sense.
/// Stated beyond the name: among ASCII chars exactly letters and digits.
#[verifier::external_body]
pub(crate) fn char_is_alphanumeric(c: char) -> (b: bool)
    ensures
        b == spec_is_alphanumeric(c),
        (c as u32) < 128 ==> (b <==> is_ascii_alnum(c)),
{
    c.is_alphanumeric()
}

/// `char::is_whitespace`: the Unicode `White_Space` property.  Stated
/// beyond the name: among ASCII chars exactly tab, line feed, vertical
/// tab, form feed, carriage return and space.
#[verifier::external_body]
pub(crate) fn char_is_whitespace(c: char) -> (b: bool)
    ensures
        b == spec_is_whitespace(c),
        (c as u32) < 128 ==> (b <==> (c == ' ' || ('\t' <= c <= '\r'))),
{
    c.is_whitespace()
}

/// A char that may stand in an identifier: alphanumeric or `_`.
pub open spec fn is_word_char(c: char) -> bool {
    spec_is_alphanumeric(c) || c == '_'
}

pub fn word_char(c: char) -> (b: bool)
    ensures
        b == is_word_char(c),
{
    c == '_' || char_is_alphanumeric(c)
}

/// Number of chars at the start of `s` that are whitespace.
pub open spec fn leading_ws(s: Seq<char>) -> nat
    decreases s.len(),
{
    if s.len() > 0 && spec_is_whitespace(s[0]) {
        1 + leading_ws(s.drop_first())
    } else {
        0
    }
}

pub proof fn lemma_leading_ws_bound(s: Seq<char>)
    ensures
        leading_ws(s) <= s.len(),
        forall|i: int| 0 <= i < leading_ws(s) ==> spec_is_whitespace(#[trigger] s[i]),
        leading_ws(s) < s.len() ==> !spec_is_whitespace(s[leading_ws(s) as int]),
    decreases s.len(),
{
    if s.len() > 0 && spec_is_whitespace(s[0]) {
        lemma_leading_ws_bound(s.drop_first());
        assert forall|i: int| 0 <= i < leading_ws(s) implies spec_is_whitespace(#[trigger] s[i]) by {
            if i > 0 {
                assert(s[i] == s.drop_first()[i - 1]);
            }
        }
    }
}

/// Count of whitespace chars at the start of `v`.
pub fn count_leading_ws(v: &Vec<char>) -> (n: usize)
    ensures
        n == leading_ws(v@),
{
    proof {
        lemma_leading_ws_bound(v@);
    }
    let mut i: usize = 0;
    while i < v.len() && char_is_whitespace(v[i])
        invariant
            i <= v.len(),
            forall|j: int| 0 <= j < i ==> spec_is_whitespace(#[trigger] v@[j]),
            i <= leading_ws(v@),
        decreases v.len() - i,
    {
        proof {
            lemma_leading_ws_shift(v@, i as nat);
        }
        i = i + 1;
    }
    proof {
        lemma_leading_ws_shift(v@, i as nat);
    }
    i
}

proof fn lemma_leading_ws_shift(s: Seq<char>, i: nat)
    requires
        i <= s.len(),
        forall|j: int| 0 <= j < i ==> spec_is_whitespace(#[trigger] s[j]),
    ensures
        leading_ws(s) == i + leading_ws(s.skip(i as int)),
    decreases i,
{
    if i > 0 {
        assert(spec_is_whitespace(s[0]));
        let t = s.drop_first();
        assert forall|j: int| 0 <= j < i - 1 implies spec_is_whitespace(#[trigger] t[j]) by {
            assert(t[j] == s[j + 1]);
        }
        lemma_leading_ws_shift(t, (i - 1) as nat);
        assert(t.skip(i - 1) =~= s.skip(i as int));
    } else {
        assert(s.skip(0) =~= s);
    }
}

} // verus!

verus! {

/// `==` on two `str`s: equal exactly when they hold the same chars.
#[verifier::external_body]
pub(crate) fn str_eq(a: &str, b: &str) -> (r: bool)
    ensures
        r == (a@ == b@),
{
    a == b
}

/// What `Path::new(p).file_name()` gives for `p`, as chars.
pub uninterp spec fn spec_path_file_name(p: Seq<char>) -> Option<Seq<char>>;

/// `Path::new(p).file_name()` turned back into a `String` (a path made
/// from a `str` is always valid UTF-8, so `to_str` keeps it whole).
#[verifier::external_body]
pub(crate) fn path_file_name(p: &str) -> (r: Option<String>)
    ensures
        r matches Some(s) ==> spec_path_file_name(p@) == Some(s@),
        r is None ==> spec_path_file_name(p@) is None,
{
    std::path::Path::new(p).file_name().and_then(|n| n.to_str()).map(|s| s.to_string())
}

/// `w` occurs in `s` starting at char `p`.
pub open spec fn occurs_at(s: Seq<char>, w: Seq<char>, p: int) -> bool {
    0 <= p && p + w.len() <= s.len() && s.subrange(p, p + w.len()) == w
}

/// Does `s` start with `prefix`?
pub open spec fn has_prefix(s: Seq<char>, prefix: Seq<char>) -> bool {
    prefix.len() <= s.len() && s.take(prefix.len() as int) == prefix
}

/// `str::strip_prefix`: the rest after `prefix` when `s` starts with it.
pub fn strip_prefix(s: &str, prefix: &str) -> (r: Option<String>)
    ensures
        r matches Some(t) ==> has_prefix(s@, prefix@) && t@ == s@.skip(prefix@.len() as int),
        r is None ==> !has_prefix(s@, prefix@),
{
    let sv = chars_of(s);
    let pv = chars_of(prefix);
    if pv.len() > sv.len() {
        return None;
    }
    let mut i: usize = 0;
    while i < pv.len()
        invariant
            pv@.len() <= sv@.len(),
            sv@ == s@,
            pv@ == prefix@,
            i <= pv@.len(),
            forall|j: int| 0 <= j < i ==> sv@[j] == pv@[j],
        decreases pv@.len() - i,
    {
        if sv[i] != pv[i] {
            assert(s@.take(prefix@.len() as int)[i as int] != prefix@[i as int]);
            return None;
        }
        i = i + 1;
    }
    assert(s@.take(prefix@.len() as int) =~= prefix@);
    let rest = vstd::slice::slice_subrange(sv.as_slice(), pv.len(), sv.len());
    Some(string_from_chars(rest))
}

} // verus!

verus! {

/// Decimal digits of `n`, most significant first (`"0"` for zero).
pub open spec fn decimal(n: nat) -> Seq<char>
    decreases n,
{
    if n < 10 {
        seq![digit_char(n)]
    } else {
        decimal(n / 10).push(digit_char(n % 10))
    }
}

pub open spec fn digit_char(d: nat) -> char {
    if d == 0 {
        '0'
    } else if d == 1 {
        '1'
    } else if d == 2 {
        '2'
    } else if d == 3 {
        '3'
    } else if d == 4 {
        '4'
    } else if d == 5 {
        '5'
    } else if d == 6 {
        '6'
    } else if d == 7 {
        '7'
    } else if d == 8 {
        '8'
    } else {
        '9'
    }
}

fn digit(d: usize) -> (c: char)
    requires
        d < 10,
    ensures
        c == digit_char(d as nat),
{
    if d == 0 {
        '0'
    } else if d == 1 {
        '1'
    } else if d == 2 {
        '2'
    } else if d == 3 {
        '3'
    } else if d == 4 {
        '4'
    } else if d == 5 {
        '5'
    } else if d == 6 {
        '6'
    } else if d == 7 {
        '7'
    } else if d == 8 {
        '8'
    } else {
        '9'
    }
}

/// Append the decimal digits of `n` to `s`.
pub fn push_decimal(s: &mut String, n: usize)
    ensures
        final(s)@ == old(s)@ + decimal(n as nat),
    decreases n,
{
    if n < 10 {
        string_push(s, digit(n));
        assert(decimal(n as nat) =~= seq![digit_char(n as nat)]);
    } else {
        push_decimal(s, n / 10);
        string_push(s, digit(n % 10));
        assert(old(s)@ + decimal((n / 10) as nat) + seq![digit_char((n % 10) as nat)] =~= old(s)@
            + decimal(n as nat));
    }
}

/// `n` in decimal.
pub fn usize_to_string(n: usize) -> (s: String)
    ensures
        s@ == decimal(n as nat),
{
    let mut s = String::new();
    push_decimal(&mut s, n);
    assert(Seq::<char>::empty() + decimal(n as nat) =~= decimal(n as nat));
    s
}

/// Append `t` to `s`.
pub fn push_str(s: &mut String, t: &str)
    ensures
        final(s)@ == old(s)@ + t@,
{
    vstd::string::StringExecFns::append(s, t);
}

} // verus!

verus! {

/// `s` without its trailing whitespace.
pub open spec fn trim_end_ws(s: Seq<char>) -> Seq<char>
    decreases s.len(),
{
    if s.len() > 0 && spec_is_whitespace(s.last()) {
        trim_end_ws(s.drop_last())
    } else {
        s
    }
}

/// `s` without its leading whitespace.
pub open spec fn trim_start_ws(s: Seq<char>) -> Seq<char> {
    s.skip(leading_ws(s) as int)
}

/// `s` without its trailing `'\r'` and `'\n'` chars.
pub open spec fn trim_end_crlf(s: Seq<char>) -> Seq<char>
    decreases s.len(),
{
    if s.len() > 0 && (s.last() == '\r' || s.last() == '\n') {
        trim_end_crlf(s.drop_last())
    } else {
        s
    }
}

/// End of `v[lo..hi]` once trailing whitespace is trimmed:
/// `v[lo..e] == trim_end_ws(v[lo..hi])`.
pub fn trim_end_ws_index(v: &Vec<char>, lo: usize, hi: usize) -> (e: usize)
    requires
        lo <= hi <= v@.len(),
    ensures
        lo <= e <= hi,
        v@.subrange(lo as int, e as int) == trim_end_ws(v@.subrange(lo as int, hi as int)),
{
    let mut e = hi;
    while e > lo && char_is_whitespace(v[e - 1])
        invariant
            lo <= e <= hi <= v@.len(),
            trim_end_ws(v@.subrange(lo as int, hi as int)) == trim_end_ws(
                v@.subrange(lo as int, e as int),
            ),
        decreases e,
    {
        proof {
            let s = v@.subrange(lo as int, e as int);
            assert(s.last() == v@[e - 1]);
            assert(s.drop_last() =~= v@.subrange(lo as int, e - 1));
        }
        e = e - 1;
    }
    proof {
        let s = v@.subrange(lo as int, e as int);
        if e > lo {
            assert(s.last() == v@[e - 1]);
        }
    }
    e
}

/// End of `v[lo..hi]` once trailing `'\r'`/`'\n'` are trimmed.
pub fn trim_end_crlf_index(v: &Vec<char>, lo: usize, hi: usize) -> (e: usize)
    requires
        lo <= hi <= v@.len(),
    ensures
        lo <= e <= hi,
        v@.subrange(lo as int, e as int) == trim_end_crlf(v@.subrange(lo as int, hi as int)),
{
    let mut e = hi;
    while e > lo && (v[e - 1] == '\r' || v[e - 1] == '\n')
        invariant
            lo <= e <= hi <= v@.len(),
            trim_end_crlf(v@.subrange(lo as int, hi as int)) == trim_end_crlf(
                v@.subrange(lo as int, e as int),
            ),
        decreases e,
    {
        proof {
            let s = v@.subrange(lo as int, e as int);
            assert(s.last() == v@[e - 1]);
            assert(s.drop_last() =~= v@.subrange(lo as int, e - 1));
        }
        e = e - 1;
    }
    proof {
        let s = v@.subrange(lo as int, e as int);
        if e > lo {
            assert(s.last() == v@[e - 1]);
        }
    }
    e
}

/// Start of `v[lo..hi]` once leading whitespace is trimmed:
/// `v[b..hi] == trim_start_ws(v[lo..hi])`.
pub fn trim_start_ws_index(v: &Vec<char>, lo: usize, hi: usize) -> (b: usize)
    requires
        lo <= hi <= v@.len(),
    ensures
        lo <= b <= hi,
        v@.subrange(b as int, hi as int) == trim_start_ws(v@.subrange(lo as int, hi as int)),
        b - lo == leading_ws(v@.subrange(lo as int, hi as int)),
{
    let ghost s = v@.subrange(lo as int, hi as int);
    let mut b = lo;
    proof {
        assert(s.skip(0) =~= s);
        lemma_leading_ws_bound(s);
    }
    while b < hi && char_is_whitespace(v[b])
        invariant
            s == v@.subrange(lo as int, hi as int),
            lo <= b <= hi <= v@.len(),
            leading_ws(s) == (b - lo) + leading_ws(s.skip(b - lo)),
        decreases hi - b,
    {
        proof {
            assert(s.skip(b - lo)[0] == v@[b as int]);
            assert(s.skip(b - lo).drop_first() =~= s.skip(b - lo + 1));
        }
        b = b + 1;
    }
    proof {
        if b < hi {
            assert(s.skip(b - lo)[0] == v@[b as int]);
        }
        assert(s.skip(b - lo) =~= v@.subrange(b as int, hi as int));
    }
    b
}

} // verus!

verus! {

/// `s` with its chars `start..end` replaced by `ins`.
pub fn splice_str(s: &str, start: usize, end: usize, ins: &str) -> (r: String)
    requires
        start <= end <= s@.len(),
    ensures
        r@ == s@.take(start as int) + ins@ + s@.skip(end as int),
{
    let v = chars_of(s);
    let w = chars_of(ins);
    let mut out: Vec<char> = Vec::new();
    let mut i: usize = 0;
    while i < start
        invariant
            v@ == s@,
            start <= end <= v@.len(),
            i <= start,
            out@ == v@.take(i as int),
        decreases start - i,
    {
        out.push(v[i]);
        i = i + 1;
        proof {
            assert(out@ =~= v@.take(i as int));
        }
    }
    let mut j: usize = 0;
    while j < w.len()
        invariant
            v@ == s@,
            w@ == ins@,
            start <= end <= v@.len(),
            j <= w@.len(),
            out@ == v@.take(start as int) + w@.take(j as int),
        decreases w@.len() - j,
    {
        out.push(w[j]);
        j = j + 1;
        proof {
            assert(out@ =~= v@.take(start as int) + w@.take(j as int));
        }
    }
    let mut k: usize = end;
    while k < v.len()
        invariant
            v@ == s@,
            w@ == ins@,
            start <= end <= k <= v@.len(),
            out@ == v@.take(start as int) + w@ + v@.subrange(end as int, k as int),
        decreases v@.len() - k,
    {
        out.push(v[k]);
        k = k + 1;
        proof {
            assert(out@ =~= v@.take(start as int) + w@ + v@.subrange(end as int, k as int));
        }
    }
    proof {
        assert(w@.take(w@.len() as int) =~= w@);
        assert(v@.subrange(end as int, v@.len() as int) =~= v@.skip(end as int));
    }
    string_from_chars(out.as_slice())
}

} // verus!

verus! {

/// `str::trim`: `s` without leading and trailing whitespace.
pub fn trim_str(s: &str) -> (r: String)
    ensures
        r@ == trim_end_ws(trim_start_ws(s@)),
{
    let v = chars_of(s);
    let n = v.len();
    let b = trim_start_ws_index(&v, 0, n);
    let e = trim_end_ws_index(&v, b, n);
    proof {
        assert(v@.subrange(0, n as int) =~= s@);
    }
    let r = vstd::slice::slice_subrange(v.as_slice(), b, e);
    string_from_chars(r)
}

} // verus!

verus! {

/// Does `s` end with `suffix`?
pub open spec fn has_suffix(s: Seq<char>, suffix: Seq<char>) -> bool {
    suffix.len() <= s.len() && s.skip(s.len() - suffix.len()) == suffix
}

/// `str::ends_with`.
pub fn ends_with(s: &str, suffix: &str) -> (b: bool)
    ensures
        b == has_suffix(s@, suffix@),
{
    let sv = chars_of(s);
    let tv = chars_of(suffix);
    let n = sv.len();
    let m = tv.len();
    if m > n {
        return false;
    }
    let off = n - m;
    let mut i: usize = 0;
    while i < m
        invariant
            sv@ == s@,
            tv@ == suffix@,
            n == sv@.len(),
            m == tv@.len(),
            m <= n,
            off == n - m,
            i <= m,
            forall|j: int| 0 <= j < i ==> sv@[off + j] == tv@[j],
        decreases m - i,
    {
        if sv[off + i] != tv[i] {
            assert(s@.skip(off as int)[i as int] != suffix@[i as int]);
            return false;
        }
        i = i + 1;
    }
    assert(s@.skip(off as int) =~= suffix@);
    true
}

} // verus!
