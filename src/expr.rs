//! Policy condition expressions rewritten as filter-script expressions.
//!
//! The supported subset: the request attributes `request.time.hour`,
//! `request.time.minute`, `request.time.day` and `request.domain`; calls
//! `X.contains(Y)` where `X` is an ASCII identifier and `Y` holds no `)`;
//! the operators `&&`, `||`, `!`, `!=` and the comparisons, which keep their form.
use vstd::prelude::*;
use crate::text::{chars_of, string_of, push_str, replace_all, replaced, contains, contains_seq,
    matches_at, occurs_at, trimmed, trim_of};

verus! {

/// A character of an identifier: an ASCII letter or digit, or `_`.
pub open spec fn is_word(c: char) -> bool {
    ('a' <= c && c <= 'z') || ('A' <= c && c <= 'Z') || ('0' <= c && c <= '9') || c == '_'
}

/// The end of the run of identifier characters that starts at `i`.
pub open spec fn word_end(s: Seq<char>, i: int) -> int
    decreases s.len() - i,
{
    if 0 <= i < s.len() && is_word(s[i]) {
        word_end(s, i + 1)
    } else {
        i
    }
}

/// The first position at or after `i` that holds `)`, or the length of `s`.
pub open spec fn close_at(s: Seq<char>, i: int) -> int
    decreases s.len() - i,
{
    if 0 <= i < s.len() && s[i] != ')' {
        close_at(s, i + 1)
    } else {
        i
    }
}

pub open spec fn contains_call() -> Seq<char> {
    ".contains("@
}

/// Whether a call `X.contains(Y)` starts at `i`.
pub open spec fn call_at(s: Seq<char>, i: int) -> bool {
    0 <= i < s.len() && is_word(s[i]) && i < word_end(s, i) && occurs_at(
        s,
        contains_call(),
        word_end(s, i),
    ) && ({
        let a = word_end(s, i) + 10;
        let k = close_at(s, a);
        a < k < s.len()
    })
}

/// `s` from position `i` on, with each call `X.contains(Y)` written as
/// `string.find(X, Y) ~= nil`.
pub open spec fn rewrite_from(s: Seq<char>, i: int) -> Seq<char>
    decreases s.len() - i,
{
    if i < 0 || i >= s.len() {
        Seq::empty()
    } else if call_at(s, i) {
        let j = word_end(s, i);
        let k = close_at(s, j + 10);
        "string.find("@ + s.subrange(i, j) + ", "@ + s.subrange(j + 10, k) + ") ~= nil"@
            + rewrite_from(s, k + 1)
    } else {
        seq![s[i]] + rewrite_from(s, i + 1)
    }
}

fn word_char(c: char) -> (r: bool)
    ensures
        r == is_word(c),
{
    ('a' <= c && c <= 'z') || ('A' <= c && c <= 'Z') || ('0' <= c && c <= '9') || c == '_'
}

fn find_word_end(s: &Vec<char>, i: usize) -> (r: usize)
    requires
        i <= s@.len(),
    ensures
        r as int == word_end(s@, i as int),
        i <= r <= s@.len(),
        (i < s@.len() && is_word(s@[i as int])) ==> i < r,
    decreases s@.len() - i,
{
    if i < s.len() && word_char(s[i]) {
        find_word_end(s, i + 1)
    } else {
        i
    }
}

fn find_close(s: &Vec<char>, i: usize) -> (r: usize)
    requires
        i <= s@.len(),
    ensures
        r as int == close_at(s@, i as int),
        i <= r <= s@.len(),
    decreases s@.len() - i,
{
    if i < s.len() && s[i] != ')' {
        find_close(s, i + 1)
    } else {
        i
    }
}

/// Rewrites each `X.contains(Y)` of `s` into `string.find(X, Y) ~= nil`.
pub fn rewrite_contains(s: &Vec<char>) -> (r: Vec<char>)
    ensures
        r@ == rewrite_from(s@, 0),
{
    let pat = chars_of(".contains(");
    let mut out: Vec<char> = Vec::new();
    let mut i: usize = 0;
    let n = s.len();
    proof {
        assert(out@ + rewrite_from(s@, 0) =~= rewrite_from(s@, 0));
    }
    while i < n
        invariant
            n == s@.len(),
            pat@ == contains_call(),
            i <= n,
            out@ + rewrite_from(s@, i as int) == rewrite_from(s@, 0),
        decreases n - i,
    {
        let mut found = false;
        if word_char(s[i]) {
            let j = find_word_end(s, i);
            if matches_at(s, &pat, j) {
                proof {
                    reveal_strlit(".contains(");
                }
                let a = j + 10;
                let k = find_close(s, a);
                if a < k && k < n {
                    found = true;
                    let ghost before = out@;
                    push_str(&mut out, "string.find(");
                    let mut m: usize = i;
                    while m < j
                        invariant
                            i <= m <= j,
                            j <= n,
                            n == s@.len(),
                            out@ == before + "string.find("@ + s@.subrange(i as int, m as int),
                        decreases j - m,
                    {
                        out.push(s[m]);
                        m = m + 1;
                        proof {
                            assert(out@ =~= before + "string.find("@ + s@.subrange(i as int, m as int));
                        }
                    }
                    push_str(&mut out, ", ");
                    let ghost mid = out@;
                    let mut m2: usize = a;
                    while m2 < k
                        invariant
                            a <= m2 <= k,
                            k < n,
                            n == s@.len(),
                            out@ == mid + s@.subrange(a as int, m2 as int),
                        decreases k - m2,
                    {
                        out.push(s[m2]);
                        m2 = m2 + 1;
                        proof {
                            assert(out@ =~= mid + s@.subrange(a as int, m2 as int));
                        }
                    }
                    push_str(&mut out, ") ~= nil");
                    proof {
                        assert(call_at(s@, i as int));
                        assert(out@ + rewrite_from(s@, k + 1) =~= before + rewrite_from(s@, i as int));
                    }
                    i = k + 1;
                }
            }
        }
        if !found {
            proof {
                assert(!call_at(s@, i as int));
                assert(out@.push(s@[i as int]) + rewrite_from(s@, i + 1) =~= out@ + rewrite_from(
                    s@,
                    i as int,
                ));
            }
            out.push(s[i]);
            i = i + 1;
        }
    }
    proof {
        assert(out@ + rewrite_from(s@, i as int) =~= out@);
    }
    out
}

/// The request attributes written as script variables.
pub open spec fn with_variables(e: Seq<char>) -> Seq<char> {
    replaced(
        replaced(
            replaced(replaced(e, "request.time.hour"@, "current_hour"@), "request.time.minute"@,
                "current_minute"@),
            "request.time.day"@,
            "current_day"@,
        ),
        "request.domain"@,
        "qname"@,
    )
}

/// The logical operators written as the script writes them.
pub open spec fn with_operators(e: Seq<char>) -> Seq<char> {
    replaced(
        replaced(replaced(replaced(e, "&&"@, " and "@), "||"@, " or "@), "!="@, "~="@),
        "!"@,
        "not "@,
    )
}

/// Completes a bare `string.find(qname, ...` with ` ~= nil`.
pub open spec fn closed(e: Seq<char>) -> Seq<char> {
    if contains(e, "string.find(qname"@) && !contains(e, "~= nil"@) && !contains(e, "== nil"@)
        && !contains(e, ")"@) {
        e + " ~= nil"@
    } else {
        e
    }
}

/// The script expression for an already trimmed condition expression.
pub open spec fn lua_expr(e: Seq<char>) -> Seq<char> {
    replaced(closed(with_operators(rewrite_from(with_variables(e), 0))), "\""@, "'"@)
}

/// Rewrites a trimmed condition expression as a script expression.
pub fn convert_trimmed_expr(e: &str) -> (r: String)
    ensures
        r@ == lua_expr(e@),
{
    let v = chars_of(e);
    let v = replace_all(&v, "request.time.hour", "current_hour");
    let v = replace_all(&v, "request.time.minute", "current_minute");
    let v = replace_all(&v, "request.time.day", "current_day");
    let v = replace_all(&v, "request.domain", "qname");
    let v = rewrite_contains(&v);
    let v = replace_all(&v, "&&", " and ");
    let v = replace_all(&v, "||", " or ");
    let v = replace_all(&v, "!=", "~=");
    let mut v = replace_all(&v, "!", "not ");
    let find = chars_of("string.find(qname");
    let nil1 = chars_of("~= nil");
    let nil2 = chars_of("== nil");
    let close = chars_of(")");
    if contains_seq(&v, &find) && !contains_seq(&v, &nil1) && !contains_seq(&v, &nil2)
        && !contains_seq(&v, &close) {
        push_str(&mut v, " ~= nil");
    }
    let v = replace_all(&v, "\"", "'");
    string_of(&v)
}

/// Rewrites a condition expression as a script expression, after trimming it.
pub fn convert_cerbos_expr_to_lua(expr: &str) -> (r: String)
    ensures
        r@ == lua_expr(trim_of(expr@)),
{
    let t = trimmed(expr);
    convert_trimmed_expr(t.as_str())
}

} // verus!
