//! Reading `cargo build` output: where each error, warning or note points,
//! the snippet a line quotes, and the text of the build buffer.

use crate::subst::{find_from, first_occ_from, lemma_first_occ};
use crate::text::{chars_of, string_from_chars, has_prefix, trim_end_ws, trim_start_ws, leading_ws,
    trim_start_ws_index, trim_end_ws_index, spec_is_whitespace, char_is_whitespace, push_str, string_push, decimal,
    push_decimal};
use vstd::prelude::*;

verus! {

#[derive(Debug, Clone, Copy, PartialEq, Eq, Structural)]
pub enum BuildSeverity {
    Error,
    Warning,
    Note,
}

/// A location the compiler reported.
#[derive(Debug, Clone)]
pub struct BuildDiagnostic {
    pub file_path: String,
    pub line_number: usize,
    pub column: usize,
    pub severity: BuildSeverity,
    pub message: String,
}

pub open spec fn trim_seq(s: Seq<char>) -> Seq<char> {
    trim_end_ws(trim_start_ws(s))
}

fn trim_vec(v: &Vec<char>, lo: usize, hi: usize) -> (r: (usize, usize))
    requires
        lo <= hi <= v@.len(),
    ensures
        lo <= r.0 <= r.1 <= hi,
        v@.subrange(r.0 as int, r.1 as int) == trim_seq(v@.subrange(lo as int, hi as int)),
{
    let b = trim_start_ws_index(v, lo, hi);
    let e = trim_end_ws_index(v, b, hi);
    (b, e)
}

fn sub_vec(v: &Vec<char>, lo: usize, hi: usize) -> (r: Vec<char>)
    requires
        lo <= hi <= v@.len(),
    ensures
        r@ == v@.subrange(lo as int, hi as int),
{
    vstd::slice::slice_to_vec(vstd::slice::slice_subrange(v.as_slice(), lo, hi))
}

fn lit(s: &str) -> (v: Vec<char>)
    ensures
        v@ == s@,
{
    chars_of(s)
}

/// Where `": <label>"` first occurs in `line` and how long the marker is
/// (with `": "` or `"[code]: "` after it), when it is followed by either.
pub open spec fn sev_candidate(line: Seq<char>, label: Seq<char>) -> Option<(int, int)> {
    let m = ": "@ + label;
    match first_occ_from(line, m, 0) {
        None => None,
        Some(pos) => {
            let after = pos + m.len();
            let rest = line.skip(after);
            if has_prefix(rest, ": "@) {
                Some((pos, m.len() + 2int))
            } else if has_prefix(rest, "["@) {
                match first_occ_from(line, "]: "@, after) {
                    Some(q) => Some((pos, m.len() + (q - after) + 3)),
                    None => None,
                }
            } else {
                None
            }
        },
    }
}

pub open spec fn first_pos(o: Option<(int, int, BuildSeverity)>) -> int {
    match o {
        Some((p, _, _)) => p,
        None => 0,
    }
}

/// The earliest severity marker of `line`: position, length, severity
/// (errors win ties, then warnings).
pub open spec fn severity_marker(line: Seq<char>) -> Option<(int, int, BuildSeverity)> {
    let e = sev_candidate(line, "error"@);
    let w = sev_candidate(line, "warning"@);
    let n = sev_candidate(line, "note"@);
    let best1: Option<(int, int, BuildSeverity)> = match e {
        Some((p, l)) => Some((p, l, BuildSeverity::Error)),
        None => None,
    };
    let best2 = match w {
        Some((p, l)) => if best1 is None || p < first_pos(best1) {
            Some((p, l, BuildSeverity::Warning))
        } else {
            best1
        },
        None => best1,
    };
    match n {
        Some((p, l)) => if best2 is None || p < first_pos(best2) {
            Some((p, l, BuildSeverity::Note))
        } else {
            best2
        },
        None => best2,
    }
}

fn candidate(v: &Vec<char>, label: &str) -> (r: Option<(usize, usize)>)
    ensures
        match sev_candidate(v@, label@) {
            Some((p, l)) => r == Some((p as usize, l as usize)) && 0 <= p && 0 <= l && p + l <= v@.len(),
            None => r is None,
        },
{
    let n = v.len();
    let mut ms = String::from_str(": ");
    push_str(&mut ms, label);
    let m = chars_of(ms.as_str());
    let pos = match find_from(v, &m, 0) {
        Some(p) => p,
        None => return None,
    };
    proof {
        lemma_first_occ(v@, m@, 0);
    }
    let after = pos + m.len();
    let colon = lit(": ");
    let bracket = lit("[");
    let close = lit("]: ");
    proof {
        assert(v@.skip(after as int).len() == n - after);
    }
    if n - after >= 2 && v[after] == ':' && v[after + 1] == ' ' {
        proof {
            reveal_strlit(": ");
            assert(v@.skip(after as int).take(2) =~= ": "@);
        }
        return Some((pos, m.len() + 2));
    }
    proof {
        reveal_strlit(": ");
        if has_prefix(v@.skip(after as int), ": "@) {
            assert(v@.skip(after as int)[0] == ": "@[0]);
            assert(v@.skip(after as int)[1] == ": "@[1]);
        }
    }
    if n - after >= 1 && v[after] == '[' {
        proof {
            reveal_strlit("[");
            assert(v@.skip(after as int).take(1) =~= "["@);
        }
        match find_from(v, &close, after) {
            Some(q) => {
                proof {
                    lemma_first_occ(v@, close@, after as int);
                    reveal_strlit("]: ");
                }
                Some((pos, m.len() + (q - after) + 3))
            },
            None => None,
        }
    } else {
        proof {
            reveal_strlit("[");
            if has_prefix(v@.skip(after as int), "["@) {
                assert(v@.skip(after as int)[0] == "["@[0]);
            }
        }
        None
    }
}

/// See `severity_marker`.
pub fn find_severity_marker(v: &Vec<char>) -> (r: Option<(usize, usize, BuildSeverity)>)
    ensures
        match severity_marker(v@) {
            Some((p, l, s)) => r == Some((p as usize, l as usize, s)) && 0 <= p && 0 <= l && p + l <= v@.len(),
            None => r is None,
        },
{
    let vlen = v.len();
    let ghost e = sev_candidate(v@, "error"@);
    let ghost w = sev_candidate(v@, "warning"@);
    let ghost nn = sev_candidate(v@, "note"@);
    let ghost best1: Option<(int, int, BuildSeverity)> = match e {
        Some((p, l)) => Some((p, l, BuildSeverity::Error)),
        None => None,
    };
    let ghost best2 = match w {
        Some((p, l)) => if best1 is None || p < first_pos(best1) {
            Some((p, l, BuildSeverity::Warning))
        } else {
            best1
        },
        None => best1,
    };
    let mut best: Option<(usize, usize, BuildSeverity)> = match candidate(v, "error") {
        Some((p, l)) => Some((p, l, BuildSeverity::Error)),
        None => None,
    };
    proof {
        assert(match best1 {
            Some((p, l, s)) => best == Some((p as usize, l as usize, s)) && 0 <= p && 0 <= l && p + l <= v@.len(),
            None => best is None,
        });
    }
    match candidate(v, "warning") {
        Some((p, l)) => {
            let better = match best {
                Some((bp, _, _)) => p < bp,
                None => true,
            };
            if better {
                best = Some((p, l, BuildSeverity::Warning));
            }
        },
        None => {},
    }
    proof {
        assert(match best2 {
            Some((p, l, s)) => best == Some((p as usize, l as usize, s)) && 0 <= p && 0 <= l && p + l <= v@.len(),
            None => best is None,
        });
    }
    match candidate(v, "note") {
        Some((p, l)) => {
            let better = match best {
                Some((bp, _, _)) => p < bp,
                None => true,
            };
            if better {
                best = Some((p, l, BuildSeverity::Note));
            }
        },
        None => {},
    }
    best
}

/// Value of the decimal digits `d`.
pub open spec fn digits_value(d: Seq<char>) -> nat
    decreases d.len(),
{
    if d.len() == 0 {
        0
    } else {
        digits_value(d.drop_last()) * 10 + ((d.last() as nat) - ('0' as nat)) as nat
    }
}

pub open spec fn all_digits(d: Seq<char>) -> bool {
    forall|i: int| 0 <= i < d.len() ==> '0' <= #[trigger] d[i] <= '9'
}

/// `str::parse::<usize>`: an optional `+` and at least one digit, the
/// value fitting in `usize`.
pub open spec fn parse_usize(s: Seq<char>) -> Option<nat> {
    let d = if s.len() > 0 && s[0] == '+' { s.drop_first() } else { s };
    if d.len() == 0 || !all_digits(d) || digits_value(d) > usize::MAX {
        None
    } else {
        Some(digits_value(d))
    }
}

proof fn lemma_decimal_digits(n: nat)
    ensures
        all_digits(crate::text::decimal(n)),
        digits_value(crate::text::decimal(n)) == n,
        crate::text::decimal(n).len() > 0,
    decreases n,
{
    let d = crate::text::decimal(n);
    if n < 10 {
        assert(d == seq![crate::text::digit_char(n)]);
        assert(d.drop_last() =~= Seq::<char>::empty());
        reveal_with_fuel(digits_value, 2);
        assert(((crate::text::digit_char(n) as nat) - ('0' as nat)) as nat == n);
    } else {
        lemma_decimal_digits(n / 10);
        let d0 = crate::text::decimal(n / 10);
        let r = n % 10;
        assert(d == d0.push(crate::text::digit_char(r)));
        assert(d.drop_last() =~= d0);
        vstd::arithmetic::div_mod::lemma_fundamental_div_mod(n as int, 10);
        vstd::arithmetic::div_mod::lemma_mod_pos_bound(n as int, 10);
        assert(((crate::text::digit_char(r) as nat) - ('0' as nat)) as nat == r);
        assert(n == (n / 10) * 10 + r);
        assert forall|i: int| 0 <= i < d.len() implies '0' <= #[trigger] d[i] <= '9' by {
            if i < d0.len() {
                assert(d[i] == d0[i]);
            }
        }
    }
}

/// Reading back the decimal text of a number gives the number.
pub proof fn lemma_parse_decimal(n: nat)
    requires
        n <= usize::MAX,
    ensures
        parse_usize(crate::text::decimal(n)) == Some(n),
{
    lemma_decimal_digits(n);
    let d = crate::text::decimal(n);
    assert('0' <= d[0] <= '9');
}

pub(crate) fn parse_usize_exec(v: &Vec<char>, lo: usize, hi: usize) -> (r: Option<usize>)
    requires
        lo <= hi <= v@.len(),
    ensures
        match parse_usize(v@.subrange(lo as int, hi as int)) {
            Some(n) => r == Some(n as usize),
            None => r is None,
        },
{
    let ghost s = v@.subrange(lo as int, hi as int);
    let mut i = lo;
    if i < hi && v[i] == '+' {
        i = i + 1;
    }
    let ghost d = v@.subrange(i as int, hi as int);
    proof {
        if lo < hi && v@[lo as int] == '+' {
            assert(s.drop_first() =~= d);
        } else {
            assert(s =~= d);
        }
    }
    if i >= hi {
        return None;
    }
    let start = i;
    let mut val: usize = 0;
    proof {
        assert(v@.subrange(start as int, start as int) =~= Seq::<char>::empty());
    }
    while i < hi
        invariant
            start <= i <= hi <= v@.len(),
            s == v@.subrange(lo as int, hi as int),
            d == (if s.len() > 0 && s[0] == '+' { s.drop_first() } else { s }),
            d.len() > 0,
            d == v@.subrange(start as int, hi as int),
            all_digits(v@.subrange(start as int, i as int)),
            val == digits_value(v@.subrange(start as int, i as int)),
        decreases hi - i,
    {
        let c = v[i];
        if !('0' <= c && c <= '9') {
            proof {
                assert(d[i - start] == c);
            }
            return None;
        }
        let dv = (c as u32 - '0' as u32) as usize;
        proof {
            let p = v@.subrange(start as int, i + 1);
            assert(p.drop_last() =~= v@.subrange(start as int, i as int));
            assert(p.last() == c);
        }
        if val > (usize::MAX - dv) / 10 {
            proof {
                let p = v@.subrange(start as int, i + 1);
                assert(digits_value(p) == val * 10 + dv);
                assert(val * 10 + dv > usize::MAX) by (nonlinear_arith)
                    requires
                        val > (usize::MAX - dv) / 10,
                        dv <= 9,
                ;
                if all_digits(d) {
                    lemma_digits_mono(d, (i + 1 - start) as nat);
                    assert(d.take(i + 1 - start) =~= v@.subrange(start as int, i + 1));
                }
            }
            return None;
        }
        proof {
            assert(val * 10 + dv <= usize::MAX) by (nonlinear_arith)
                requires
                    val <= (usize::MAX - dv) / 10,
                    dv <= 9,
            ;
        }
        val = val * 10 + dv;
        i = i + 1;
    }
    proof {
        assert(v@.subrange(start as int, hi as int) =~= d);
    }
    Some(val)
}

/// A longer run of digits is worth at least as much as its start.
proof fn lemma_digits_mono(d: Seq<char>, k: nat)
    requires
        k <= d.len(),
        all_digits(d),
    ensures
        digits_value(d.take(k as int)) <= digits_value(d),
    decreases d.len() - k,
{
    if k < d.len() {
        lemma_digits_mono(d, k + 1);
        let t = d.take(k + 1int);
        assert(t.drop_last() =~= d.take(k as int));
        assert('0' <= t.last() <= '9');
    } else {
        assert(d.take(k as int) =~= d);
    }
}

} // verus!

verus! {

/// `s` without trailing whitespace and `:` chars.
pub open spec fn trim_end_ws_colon(s: Seq<char>) -> Seq<char>
    decreases s.len(),
{
    if s.len() > 0 && (spec_is_whitespace(s.last()) || s.last() == ':') {
        trim_end_ws_colon(s.drop_last())
    } else {
        s
    }
}

/// Index of the last `c` in `s`.
pub open spec fn last_index(s: Seq<char>, c: char) -> Option<int>
    decreases s.len(),
{
    if s.len() == 0 {
        None
    } else if s.last() == c {
        Some(s.len() - 1)
    } else {
        last_index(s.drop_last(), c)
    }
}

proof fn lemma_last_index(s: Seq<char>, c: char)
    ensures
        last_index(s, c) matches Some(i) ==> 0 <= i < s.len() && s[i] == c && forall|j: int| i < j < s.len() ==> s[j] != c,
        last_index(s, c) is None ==> forall|j: int| 0 <= j < s.len() ==> s[j] != c,
    decreases s.len(),
{
    if s.len() > 0 && s.last() != c {
        let t = s.drop_last();
        lemma_last_index(t, c);
        assert forall|j: int| 0 <= j < t.len() implies #[trigger] s[j] == t[j] by {}
    }
}

/// `path:line:col` (trailing whitespace and colons ignored): the path,
/// the line and the column.
pub open spec fn path_line_col(s: Seq<char>) -> Option<(Seq<char>, nat, nat)> {
    let s1 = trim_end_ws_colon(s);
    match last_index(s1, ':') {
        None => None,
        Some(i1) => {
            let rest = s1.take(i1);
            match parse_usize(s1.skip(i1 + 1)) {
                None => None,
                Some(col) => match last_index(rest, ':') {
                    None => None,
                    Some(i2) => match parse_usize(rest.skip(i2 + 1)) {
                        None => None,
                        Some(line) => if i2 == 0 {
                            None
                        } else {
                            Some((rest.take(i2), line, col))
                        },
                    },
                },
            }
        },
    }
}

fn rfind_char(v: &Vec<char>, lo: usize, hi: usize, c: char) -> (r: Option<usize>)
    requires
        lo <= hi <= v@.len(),
    ensures
        match last_index(v@.subrange(lo as int, hi as int), c) {
            Some(i) => r == Some((lo + i) as usize),
            None => r is None,
        },
{
    let ghost s = v@.subrange(lo as int, hi as int);
    let mut k = hi;
    proof {
        assert(s.take((k - lo) as int) =~= s);
    }
    while k > lo
        invariant
            lo <= k <= hi <= v@.len(),
            s == v@.subrange(lo as int, hi as int),
            last_index(s, c) == last_index(s.take((k - lo) as int), c),
        decreases k,
    {
        proof {
            let t = s.take((k - lo) as int);
            assert(t.last() == v@[k - 1]);
            assert(t.drop_last() =~= s.take(k - 1 - lo));
        }
        if v[k - 1] == c {
            return Some(k - 1);
        }
        k = k - 1;
    }
    proof {
        assert(s.take(0) =~= Seq::<char>::empty());
    }
    None
}

/// End of `v[lo..hi]` without its trailing whitespace and colons.
fn trim_ws_colon_end(v: &Vec<char>, lo: usize, hi: usize) -> (e: usize)
    requires
        lo <= hi <= v@.len(),
    ensures
        lo <= e <= hi,
        v@.subrange(lo as int, e as int) == trim_end_ws_colon(v@.subrange(lo as int, hi as int)),
{
    let ghost s = v@.subrange(lo as int, hi as int);
    let mut e = hi;
    proof {
        assert(s.take((e - lo) as int) =~= s);
    }
    while e > lo && (char_is_whitespace(v[e - 1]) || v[e - 1] == ':')
        invariant
            lo <= e <= hi <= v@.len(),
            s == v@.subrange(lo as int, hi as int),
            trim_end_ws_colon(s) == trim_end_ws_colon(s.take((e - lo) as int)),
        decreases e,
    {
        proof {
            let t = s.take((e - lo) as int);
            assert(t.last() == v@[e - 1]);
            assert(t.drop_last() =~= s.take(e - 1 - lo));
        }
        e = e - 1;
    }
    proof {
        let t = s.take((e - lo) as int);
        assert(t =~= v@.subrange(lo as int, e as int));
        if e > lo {
            assert(t.last() == v@[e - 1]);
        }
    }
    e
}

/// Parse `path:line:col` out of `v[lo..hi]`.
fn parse_plc(v: &Vec<char>, lo: usize, hi: usize) -> (r: Option<(String, usize, usize)>)
    requires
        lo <= hi <= v@.len(),
    ensures
        match path_line_col(v@.subrange(lo as int, hi as int)) {
            Some((p, l, c)) => r matches Some((rp, rl, rc)) && rp@ == p && rl == l && rc == c,
            None => r is None,
        },
{
    let e = trim_ws_colon_end(v, lo, hi);
    let ghost s1 = v@.subrange(lo as int, e as int);
    let i1 = match rfind_char(v, lo, e, ':') {
        Some(i) => i,
        None => return None,
    };
    proof {
        lemma_last_index(s1, ':');
        assert(v@.subrange(i1 + 1, e as int) =~= s1.skip(i1 + 1 - lo));
    }
    let col = match parse_usize_exec(v, i1 + 1, e) {
        Some(c) => c,
        None => return None,
    };
    let ghost rest = s1.take(i1 - lo);
    proof {
        assert(v@.subrange(lo as int, i1 as int) =~= rest);
    }
    let i2 = match rfind_char(v, lo, i1, ':') {
        Some(i) => i,
        None => return None,
    };
    proof {
        lemma_last_index(rest, ':');
        assert(v@.subrange(i2 + 1, i1 as int) =~= rest.skip(i2 + 1 - lo));
    }
    let line = match parse_usize_exec(v, i2 + 1, i1) {
        Some(l) => l,
        None => return None,
    };
    if i2 == lo {
        return None;
    }
    let path = string_from_chars(vstd::slice::slice_subrange(v.as_slice(), lo, i2));
    proof {
        assert(path@ =~= rest.take(i2 - lo));
    }
    Some((path, line, col))
}

/// Public form of the `path:line:col` parser.
pub fn parse_path_line_col(s: &str) -> (r: Option<BuildDiagnostic>)
    ensures
        match path_line_col(s@) {
            Some((p, l, c)) => r matches Some(d) && d.file_path@ == p && d.line_number == l && d.column == c
                && d.severity == BuildSeverity::Error && d.message@ == Seq::<char>::empty(),
            None => r is None,
        },
{
    let v = chars_of(s);
    proof {
        assert(v@.subrange(0, v@.len() as int) =~= s@);
    }
    match parse_plc(&v, 0, v.len()) {
        Some((p, l, c)) => Some(
            BuildDiagnostic { file_path: p, line_number: l, column: c, severity: BuildSeverity::Error, message: String::new() },
        ),
        None => None,
    }
}

/// What a line of build output points at: `path:line:col: severity: message`
/// (short form), or `--> path:line:col` (human form).
pub open spec fn location_of(line: Seq<char>) -> Option<(Seq<char>, nat, nat, BuildSeverity, Seq<char>)> {
    let t = trim_seq(line);
    match severity_marker(t) {
        Some((idx, len, sev)) => match path_line_col(trim_seq(t.take(idx))) {
            Some((p, l, c)) => Some((p, l, c, sev, trim_seq(t.skip(idx + len)))),
            None => None,
        },
        None => match first_occ_from(t, "-->"@, 0) {
            Some(i) => match path_line_col(trim_seq(t.skip(i + 3))) {
                Some((p, l, c)) => Some((p, l, c, BuildSeverity::Error, Seq::empty())),
                None => None,
            },
            None => None,
        },
    }
}

pub open spec fn diag_view(d: BuildDiagnostic) -> (Seq<char>, nat, nat, BuildSeverity, Seq<char>) {
    (d.file_path@, d.line_number as nat, d.column as nat, d.severity, d.message@)
}

/// See `location_of`.
pub fn parse_location(line: &str) -> (r: Option<BuildDiagnostic>)
    ensures
        match location_of(line@) {
            Some(x) => r matches Some(d) && diag_view(d) == x,
            None => r is None,
        },
{
    let lv = chars_of(line);
    let (b, e) = trim_vec(&lv, 0, lv.len());
    proof {
        assert(lv@.subrange(0, lv@.len() as int) =~= line@);
    }
    let t = sub_vec(&lv, b, e);
    match find_severity_marker(&t) {
        Some((idx, len, sev)) => {
            let (lb, le) = trim_vec(&t, 0, idx);
            let (mb, me) = trim_vec(&t, idx + len, t.len());
            proof {
                assert(t@.subrange(0, idx as int) =~= t@.take(idx as int));
                assert(t@.subrange(idx + len, t@.len() as int) =~= t@.skip(idx + len));
            }
            match parse_plc(&t, lb, le) {
                Some((p, l, c)) => {
                    let msg = string_from_chars(vstd::slice::slice_subrange(t.as_slice(), mb, me));
                    Some(BuildDiagnostic { file_path: p, line_number: l, column: c, severity: sev, message: msg })
                },
                None => None,
            }
        },
        None => {
            let arrow = lit("-->");
            match find_from(&t, &arrow, 0) {
                Some(i) => {
                    proof {
                        lemma_first_occ(t@, arrow@, 0);
                        reveal_strlit("-->");
                    }
                    let (pb, pe) = trim_vec(&t, i + 3, t.len());
                    proof {
                        assert(t@.subrange(i + 3, t@.len() as int) =~= t@.skip(i + 3));
                    }
                    match parse_plc(&t, pb, pe) {
                        Some((p, l, c)) => Some(
                            BuildDiagnostic {
                                file_path: p,
                                line_number: l,
                                column: c,
                                severity: BuildSeverity::Error,
                                message: String::new(),
                            },
                        ),
                        None => None,
                    }
                },
                None => None,
            }
        },
    }
}

} // verus!

verus! {

/// What `Path::new(p).is_relative()` answers.
pub uninterp spec fn spec_path_is_relative(p: Seq<char>) -> bool;

/// What `Path::new(root).join(p)` gives, as text.
pub uninterp spec fn spec_path_join(root: Seq<char>, p: Seq<char>) -> Seq<char>;

/// `Path::is_relative`.
#[verifier::external_body]
fn path_is_relative(p: &str) -> (b: bool)
    ensures
        b == spec_path_is_relative(p@),
{
    std::path::Path::new(p).is_relative()
}

/// `Path::join`, turned back into a `String`.
#[verifier::external_body]
fn path_join(root: &str, p: &str) -> (r: String)
    ensures
        r@ == spec_path_join(root@, p@),
{
    std::path::Path::new(root).join(p).to_string_lossy().to_string()
}

/// The pieces of `s` between line feeds (one more than there are line
/// feeds).
pub open spec fn split_nl(s: Seq<char>) -> Seq<Seq<char>>
    decreases s.len(),
{
    if s.len() == 0 {
        seq![Seq::empty()]
    } else {
        let p = split_nl(s.drop_last());
        if s.last() == '\n' {
            p.push(Seq::empty())
        } else {
            p.update(p.len() - 1, p.last().push(s.last()))
        }
    }
}

proof fn lemma_split_nl_len(s: Seq<char>)
    ensures
        split_nl(s).len() >= 1,
    decreases s.len(),
{
    if s.len() > 0 {
        lemma_split_nl_len(s.drop_last());
    }
}

pub open spec fn strip_cr(s: Seq<char>) -> Seq<char> {
    if s.len() > 0 && s.last() == '\r' {
        s.drop_last()
    } else {
        s
    }
}

/// `str::lines`: the lines of `s`; a line ended by `"\n"` or `"\r\n"`
/// loses that ending, and an empty last piece is no line.
pub open spec fn lines_of(s: Seq<char>) -> Seq<Seq<char>> {
    let p = split_nl(s);
    let full = p.drop_last().map_values(|l: Seq<char>| strip_cr(l));
    if p.last().len() == 0 {
        full
    } else {
        full.push(p.last())
    }
}

/// Split `s` into its lines.
pub fn split_lines(s: &str) -> (r: Vec<String>)
    ensures
        r@.map_values(|x: String| x@) == lines_of(s@),
{
    let v = chars_of(s);
    let mut done: Vec<String> = Vec::new();
    let mut cur: Vec<char> = Vec::new();
    let mut i: usize = 0;
    proof {
        assert(v@.take(0) =~= Seq::<char>::empty());
        lemma_split_nl_len(s@);
    }
    while i < v.len()
        invariant
            v@ == s@,
            i <= v@.len(),
            split_nl(v@.take(i as int)) == done@.map_values(|x: String| x@).map_values(|l: Seq<char>| l) + seq![cur@],
            done@.map_values(|x: String| x@).len() == done@.len(),
        decreases v@.len() - i,
    {
        let c = v[i];
        let ghost before = split_nl(v@.take(i as int));
        proof {
            assert(v@.take(i + 1).drop_last() =~= v@.take(i as int));
            assert(v@.take(i + 1).last() == c);
            lemma_split_nl_len(v@.take(i as int));
        }
        if c == '\n' {
            let line = string_from_chars(cur.as_slice());
            done.push(line);
            cur = Vec::new();
            proof {
                assert(split_nl(v@.take(i + 1)) =~= done@.map_values(|x: String| x@).map_values(|l: Seq<char>| l) + seq![cur@]);
            }
        } else {
            cur.push(c);
            proof {
                assert(split_nl(v@.take(i + 1)) =~= done@.map_values(|x: String| x@).map_values(|l: Seq<char>| l) + seq![cur@]);
            }
        }
        i = i + 1;
    }
    proof {
        assert(v@.take(v@.len() as int) =~= s@);
    }
    let ghost pieces = split_nl(s@);
    let mut out: Vec<String> = Vec::new();
    let mut k: usize = 0;
    while k < done.len()
        invariant
            k <= done@.len(),
            pieces == done@.map_values(|x: String| x@).map_values(|l: Seq<char>| l) + seq![cur@],
            out@.map_values(|x: String| x@) == pieces.take(k as int).map_values(|l: Seq<char>| strip_cr(l)),
        decreases done@.len() - k,
    {
        let lv = chars_of(done[k].as_str());
        let e = if lv.len() > 0 && lv[lv.len() - 1] == '\r' {
            lv.len() - 1
        } else {
            lv.len()
        };
        let t = string_from_chars(vstd::slice::slice_subrange(lv.as_slice(), 0, e));
        proof {
            assert(pieces[k as int] == done@[k as int]@);
            assert(t@ =~= strip_cr(pieces[k as int]));
        }
        let ghost before = out@.map_values(|x: String| x@);
        out.push(t);
        proof {
            assert(out@.map_values(|x: String| x@) =~= before.push(t@));
            assert(pieces.take(k + 1).map_values(|l: Seq<char>| strip_cr(l)) =~= pieces.take(k as int).map_values(
                |l: Seq<char>| strip_cr(l),
            ).push(strip_cr(pieces[k as int])));
        }
        k = k + 1;
    }
    proof {
        assert(pieces.drop_last() =~= pieces.take(done@.len() as int));
        assert(pieces.last() == cur@);
    }
    if cur.len() > 0 {
        out.push(string_from_chars(cur.as_slice()));
    }
    proof {
        assert(out@.map_values(|x: String| x@) =~= lines_of(s@));
    }
    out
}

} // verus!

verus! {

pub open spec fn joined(root: Seq<char>, p: Seq<char>) -> Seq<char> {
    if spec_path_is_relative(p) {
        spec_path_join(root, p)
    } else {
        p
    }
}

/// The diagnostic one line of cargo output gives, if any; relative paths
/// are taken from the project root.
pub open spec fn cargo_diag(line: Seq<char>, root: Seq<char>) -> Option<(Seq<char>, nat, nat, BuildSeverity, Seq<char>)> {
    let t = trim_seq(line);
    let short = match severity_marker(t) {
        Some((idx, len, sev)) => match path_line_col(trim_seq(t.take(idx))) {
            Some((p, l, c)) => Some((joined(root, p), l, c, sev, trim_seq(t.skip(idx + len)))),
            None => None,
        },
        None => None,
    };
    if short is Some {
        short
    } else {
        match first_occ_from(t, "-->"@, 0) {
            Some(i) => match path_line_col(trim_seq(t.skip(i + 3))) {
                Some((p, l, c)) => Some((joined(root, p), l, c, BuildSeverity::Error, Seq::empty())),
                None => None,
            },
            None => None,
        }
    }
}

/// The diagnostics of `lines`, in order.
pub open spec fn cargo_diags(lines: Seq<Seq<char>>, root: Seq<char>) -> Seq<(Seq<char>, nat, nat, BuildSeverity, Seq<char>)>
    decreases lines.len(),
{
    if lines.len() == 0 {
        Seq::empty()
    } else {
        let rest = cargo_diags(lines.drop_last(), root);
        match cargo_diag(lines.last(), root) {
            Some(d) => rest.push(d),
            None => rest,
        }
    }
}

fn join_root(root: &str, p: String) -> (r: String)
    ensures
        r@ == joined(root@, p@),
{
    if path_is_relative(p.as_str()) {
        path_join(root, p.as_str())
    } else {
        p
    }
}

fn cargo_line(line: &str, root: &str) -> (r: Option<BuildDiagnostic>)
    ensures
        match cargo_diag(line@, root@) {
            Some(x) => r matches Some(d) && diag_view(d) == x,
            None => r is None,
        },
{
    let lv = chars_of(line);
    let (b, e) = trim_vec(&lv, 0, lv.len());
    proof {
        assert(lv@.subrange(0, lv@.len() as int) =~= line@);
    }
    let t = sub_vec(&lv, b, e);
    match find_severity_marker(&t) {
        Some((idx, len, sev)) => {
            let (lb, le) = trim_vec(&t, 0, idx);
            proof {
                assert(t@.subrange(0, idx as int) =~= t@.take(idx as int));
                assert(t@.subrange(idx + len, t@.len() as int) =~= t@.skip(idx + len));
            }
            match parse_plc(&t, lb, le) {
                Some((p, l, c)) => {
                    let (mb, me) = trim_vec(&t, idx + len, t.len());
                    let msg = string_from_chars(vstd::slice::slice_subrange(t.as_slice(), mb, me));
                    let jp = join_root(root, p);
                    return Some(BuildDiagnostic { file_path: jp, line_number: l, column: c, severity: sev, message: msg });
                },
                None => {},
            }
        },
        None => {},
    }
    let arrow = lit("-->");
    match find_from(&t, &arrow, 0) {
        Some(i) => {
            proof {
                lemma_first_occ(t@, arrow@, 0);
                reveal_strlit("-->");
            }
            let (pb, pe) = trim_vec(&t, i + 3, t.len());
            proof {
                assert(t@.subrange(i + 3, t@.len() as int) =~= t@.skip(i + 3));
            }
            match parse_plc(&t, pb, pe) {
                Some((p, l, c)) => {
                    let jp = join_root(root, p);
                    Some(
                        BuildDiagnostic {
                            file_path: jp,
                            line_number: l,
                            column: c,
                            severity: BuildSeverity::Error,
                            message: String::new(),
                        },
                    )
                },
                None => None,
            }
        },
        None => None,
    }
}

/// The diagnostics of cargo's `output`, paths relative to `project_root`
/// made absolute.
pub fn parse_cargo_output(output: &str, project_root: &str) -> (ds: Vec<BuildDiagnostic>)
    ensures
        ds@.map_values(|d: BuildDiagnostic| diag_view(d)) == cargo_diags(lines_of(output@), project_root@),
{
    let lines = split_lines(output);
    let ghost ls = lines_of(output@);
    let mut ds: Vec<BuildDiagnostic> = Vec::new();
    let mut i: usize = 0;
    proof {
        assert(ls.take(0) =~= Seq::<Seq<char>>::empty());
    }
    while i < lines.len()
        invariant
            ls == lines@.map_values(|x: String| x@),
            i <= lines@.len(),
            ds@.map_values(|d: BuildDiagnostic| diag_view(d)) == cargo_diags(ls.take(i as int), project_root@),
        decreases lines@.len() - i,
    {
        let ghost before = ds@.map_values(|d: BuildDiagnostic| diag_view(d));
        proof {
            assert(ls.take(i + 1).drop_last() =~= ls.take(i as int));
            assert(ls.take(i + 1).last() == lines@[i as int]@);
        }
        match cargo_line(lines[i].as_str(), project_root) {
            Some(d) => {
                ds.push(d);
                proof {
                    assert(ds@.map_values(|d: BuildDiagnostic| diag_view(d)) =~= before.push(diag_view(d)));
                }
            },
            None => {},
        }
        i = i + 1;
    }
    proof {
        assert(ls.take(lines@.len() as int) =~= ls);
    }
    ds
}

/// Text inside the last `{ }` pair of `line`, trimmed.
pub open spec fn brace_content(line: Seq<char>) -> Option<Seq<char>> {
    match last_index(line, '}') {
        None => None,
        Some(close) => match last_index(line.take(close), '{') {
            None => None,
            Some(open) => Some(trim_seq(line.subrange(open + 1, close))),
        },
    }
}

fn brace_exec(v: &Vec<char>) -> (r: Option<(usize, usize)>)
    ensures
        match brace_content(v@) {
            Some(c) => r matches Some((b, e)) && b <= e <= v@.len() && v@.subrange(b as int, e as int) == c,
            None => r is None,
        },
{
    proof {
        assert(v@.subrange(0, v@.len() as int) =~= v@);
    }
    let close = match rfind_char(v, 0, v.len(), '}') {
        Some(c) => c,
        None => return None,
    };
    proof {
        lemma_last_index(v@, '}');
        assert(v@.subrange(0, close as int) =~= v@.take(close as int));
    }
    let open = match rfind_char(v, 0, close, '{') {
        Some(o) => o,
        None => return None,
    };
    proof {
        lemma_last_index(v@.take(close as int), '{');
    }
    let (b, e) = trim_vec(v, open + 1, close);
    Some((b, e))
}

/// See `brace_content`.
pub fn extract_brace_content(line: &str) -> (r: Option<String>)
    ensures
        crate::buffer::opt_view(r) == brace_content(line@),
{
    let v = chars_of(line);
    match brace_exec(&v) {
        Some((b, e)) => Some(string_from_chars(vstd::slice::slice_subrange(v.as_slice(), b, e))),
        None => None,
    }
}

/// What a build line quotes: the last `{ }` content, else the last
/// backquoted text, else the source code after `"| "` (unless it is a
/// marker line).
pub open spec fn snippet_of(line: Seq<char>) -> Option<Seq<char>> {
    let braces = match brace_content(line) {
        Some(c) => if c.len() > 0 { Some(c) } else { None },
        None => None,
    };
    let ticks = match last_index(line, '`') {
        None => None,
        Some(close) => match last_index(line.take(close), '`') {
            None => None,
            Some(open) => if close > open + 1 {
                let c = trim_seq(line.subrange(open + 1, close));
                if c.len() > 0 { Some(c) } else { None }
            } else {
                None
            },
        },
    };
    let code = match first_occ_from(line, "| "@, 0) {
        None => None,
        Some(p) => {
            let c = trim_seq(line.skip(p + 2));
            if c.len() > 0 && c[0] != '^' && c[0] != '~' && c[0] != '-' && c[0] != '|' {
                Some(c)
            } else {
                None
            }
        },
    };
    if braces is Some {
        braces
    } else if ticks is Some {
        ticks
    } else {
        code
    }
}

/// See `snippet_of`.
pub fn extract_snippet(line: &str) -> (r: Option<String>)
    ensures
        crate::buffer::opt_view(r) == snippet_of(line@),
{
    let v = chars_of(line);
    let n = v.len();
    proof {
        assert(v@.subrange(0, n as int) =~= v@);
    }
    match brace_exec(&v) {
        Some((b, e)) => {
            if b < e {
                return Some(string_from_chars(vstd::slice::slice_subrange(v.as_slice(), b, e)));
            }
        },
        None => {},
    }
    match rfind_char(&v, 0, n, '`') {
        Some(close) => {
            proof {
                lemma_last_index(v@, '`');
                assert(v@.subrange(0, close as int) =~= v@.take(close as int));
            }
            match rfind_char(&v, 0, close, '`') {
                Some(open) => {
                    proof {
                        lemma_last_index(v@.take(close as int), '`');
                    }
                    if close > open + 1 {
                        let (b, e) = trim_vec(&v, open + 1, close);
                        if b < e {
                            return Some(string_from_chars(vstd::slice::slice_subrange(v.as_slice(), b, e)));
                        }
                    }
                },
                None => {},
            }
        },
        None => {},
    }
    let bar = lit("| ");
    match find_from(&v, &bar, 0) {
        Some(p) => {
            proof {
                lemma_first_occ(v@, bar@, 0);
                reveal_strlit("| ");
                assert(v@.subrange(p + 2, n as int) =~= v@.skip(p + 2));
            }
            let (b, e) = trim_vec(&v, p + 2, n);
            if b < e {
                let c = v[b];
                if c != '^' && c != '~' && c != '-' && c != '|' {
                    return Some(string_from_chars(vstd::slice::slice_subrange(v.as_slice(), b, e)));
                }
            }
            None
        },
        None => None,
    }
}

} // verus!

verus! {

pub open spec fn count_sev(ds: Seq<BuildDiagnostic>, s: BuildSeverity) -> nat
    decreases ds.len(),
{
    if ds.len() == 0 {
        0
    } else {
        count_sev(ds.drop_last(), s) + (if ds.last().severity == s { 1nat } else { 0nat })
    }
}

pub open spec fn rule_of(n: nat) -> Seq<char> {
    Seq::new(n, |i: int| '\u{2500}')
}

/// The text of the build buffer.
pub open spec fn build_buffer_text(raw: Seq<char>, ds: Seq<BuildDiagnostic>) -> Seq<char> {
    "  [BUILD] cargo build --release \u{2014} "@ + decimal(count_sev(ds, BuildSeverity::Error)) + " error(s), "@
        + decimal(count_sev(ds, BuildSeverity::Warning)) + " warning(s)\n"@
        + "  "@ + rule_of(40) + "\n\n"@
        + "  "@ + rule_of(14) + " Raw Output "@ + rule_of(14) + "\n"@
        + (if trim_seq(raw).len() == 0 {
            "  (no output)\n"@
        } else if raw.len() > 0 && raw.last() == '\n' {
            raw
        } else {
            raw.push('\n')
        })
        + "\n"@ + "  "@ + rule_of(40) + "\n"@
        + "  [Enter] goto error  [r] rebuild  [q] close\n"@
}

fn count_severity(ds: &[BuildDiagnostic], s: BuildSeverity) -> (n: usize)
    ensures
        n == count_sev(ds@, s),
{
    let mut n: usize = 0;
    let mut i: usize = 0;
    while i < ds.len()
        invariant
            i <= ds@.len(),
            n == count_sev(ds@.take(i as int), s),
            n <= i,
        decreases ds@.len() - i,
    {
        proof {
            assert(ds@.take(i + 1).drop_last() =~= ds@.take(i as int));
        }
        if ds[i].severity == s {
            n = n + 1;
        }
        i = i + 1;
    }
    proof {
        assert(ds@.take(ds@.len() as int) =~= ds@);
    }
    n
}

fn push_rule(s: &mut String, n: usize)
    ensures
        final(s)@ == old(s)@ + rule_of(n as nat),
{
    let ghost start = s@;
    let mut i: usize = 0;
    while i < n
        invariant
            i <= n,
            s@ == start + rule_of(i as nat),
        decreases n - i,
    {
        string_push(s, '\u{2500}');
        i = i + 1;
        proof {
            assert(s@ =~= start + rule_of(i as nat));
        }
    }
}

/// See `build_buffer_text`.
pub fn format_build_buffer(raw_output: &str, diagnostics: &[BuildDiagnostic]) -> (text: String)
    ensures
        text@ == build_buffer_text(raw_output@, diagnostics@),
{
    let errors = count_severity(diagnostics, BuildSeverity::Error);
    let warns = count_severity(diagnostics, BuildSeverity::Warning);
    let mut b = String::from_str("  [BUILD] cargo build --release \u{2014} ");
    push_decimal(&mut b, errors);
    push_str(&mut b, " error(s), ");
    push_decimal(&mut b, warns);
    push_str(&mut b, " warning(s)\n");
    push_str(&mut b, "  ");
    push_rule(&mut b, 40);
    push_str(&mut b, "\n\n");
    push_str(&mut b, "  ");
    push_rule(&mut b, 14);
    push_str(&mut b, " Raw Output ");
    push_rule(&mut b, 14);
    push_str(&mut b, "\n");
    let t = crate::text::trim_str(raw_output);
    if t.as_str().is_empty() {
        push_str(&mut b, "  (no output)\n");
    } else {
        push_str(&mut b, raw_output);
        let rv = chars_of(raw_output);
        if !(rv.len() > 0 && rv[rv.len() - 1] == '\n') {
            string_push(&mut b, '\n');
        }
    }
    push_str(&mut b, "\n");
    push_str(&mut b, "  ");
    push_rule(&mut b, 40);
    push_str(&mut b, "\n");
    push_str(&mut b, "  [Enter] goto error  [r] rebuild  [q] close\n");
    proof {
        assert(b@ =~= build_buffer_text(raw_output@, diagnostics@));
    }
    b
}

impl crate::editor::Editor {
    /// Try to parse a location from a build output line (see
    /// `location_of`).
    pub fn parse_location_from_line(&self, line: &str) -> (r: Option<BuildDiagnostic>)
        ensures
            match location_of(line@) {
                Some(x) => r matches Some(d) && diag_view(d) == x,
                None => r is None,
            },
    {
        parse_location(line)
    }
}

} // verus!
