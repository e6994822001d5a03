//! The security auditor's report: its hardening score, warnings, suggestions
//! and per-section test results, read from the tool's textual report.
//!
//! The report's layout follows these patterns: the score is what
//! `Hardening\s+index\s*[=:]\s*\[?(\d+)\]?` captures first; each `[WARNING]` or
//! `[SUGGESTION]` gives what `\s*(.+)` captures after it, trimmed; a line holding
//! `[+]\s+([^\[]+)` opens a section; a line `^\s+- \[([A-Z_]+)\]\s+(.+)` inside
//! a section is one of its items. `\s` is the Unicode White_Space set, `\d` the
//! Unicode decimal digits, and `.` any character but a line feed.
use vstd::prelude::*;
use vstd::string::StringExecFns;
use crate::keyed::{Keyed, upsert, upsert_vec, keys_unique, lemma_upsert_unique};
use crate::text::{is_white_space, white_space_fn, run_end, lemma_run_end, skip_white_space, chars_of, string_of, push_range, index_from, find_char_from, occurs_at,
    matches_at, trimmed, trim_of, split_on, lemma_index_from_bounds, lemma_index_from_shift,
    lemma_split_nonempty};

verus! {

pub open spec fn is_space(c: char) -> bool {
    is_white_space(c)
}

/// Whether `c` is a decimal digit of any script: the Unicode Decimal_Number
/// category (Unicode 16), which the `\d` class of patterns matches.
pub open spec fn is_digit(c: char) -> bool {
    let u = c as u32;
    (0x30 <= u && u <= 0x39) || (0x660 <= u && u <= 0x669) || (0x6F0 <= u && u <= 0x6F9) ||
        (0x7C0 <= u && u <= 0x7C9) || (0x966 <= u && u <= 0x96F) ||
        (0x9E6 <= u && u <= 0x9EF) || (0xA66 <= u && u <= 0xA6F) ||
        (0xAE6 <= u && u <= 0xAEF) || (0xB66 <= u && u <= 0xB6F) ||
        (0xBE6 <= u && u <= 0xBEF) || (0xC66 <= u && u <= 0xC6F) ||
        (0xCE6 <= u && u <= 0xCEF) || (0xD66 <= u && u <= 0xD6F) ||
        (0xDE6 <= u && u <= 0xDEF) || (0xE50 <= u && u <= 0xE59) ||
        (0xED0 <= u && u <= 0xED9) || (0xF20 <= u && u <= 0xF29) ||
        (0x1040 <= u && u <= 0x1049) || (0x1090 <= u && u <= 0x1099) ||
        (0x17E0 <= u && u <= 0x17E9) || (0x1810 <= u && u <= 0x1819) ||
        (0x1946 <= u && u <= 0x194F) || (0x19D0 <= u && u <= 0x19D9) ||
        (0x1A80 <= u && u <= 0x1A89) || (0x1A90 <= u && u <= 0x1A99) ||
        (0x1B50 <= u && u <= 0x1B59) || (0x1BB0 <= u && u <= 0x1BB9) ||
        (0x1C40 <= u && u <= 0x1C49) || (0x1C50 <= u && u <= 0x1C59) ||
        (0xA620 <= u && u <= 0xA629) || (0xA8D0 <= u && u <= 0xA8D9) ||
        (0xA900 <= u && u <= 0xA909) || (0xA9D0 <= u && u <= 0xA9D9) ||
        (0xA9F0 <= u && u <= 0xA9F9) || (0xAA50 <= u && u <= 0xAA59) ||
        (0xABF0 <= u && u <= 0xABF9) || (0xFF10 <= u && u <= 0xFF19) ||
        (0x104A0 <= u && u <= 0x104A9) || (0x10D30 <= u && u <= 0x10D39) ||
        (0x10D40 <= u && u <= 0x10D49) || (0x11066 <= u && u <= 0x1106F) ||
        (0x110F0 <= u && u <= 0x110F9) || (0x11136 <= u && u <= 0x1113F) ||
        (0x111D0 <= u && u <= 0x111D9) || (0x112F0 <= u && u <= 0x112F9) ||
        (0x11450 <= u && u <= 0x11459) || (0x114D0 <= u && u <= 0x114D9) ||
        (0x11650 <= u && u <= 0x11659) || (0x116C0 <= u && u <= 0x116C9) ||
        (0x116D0 <= u && u <= 0x116E3) || (0x11730 <= u && u <= 0x11739) ||
        (0x118E0 <= u && u <= 0x118E9) || (0x11950 <= u && u <= 0x11959) ||
        (0x11BF0 <= u && u <= 0x11BF9) || (0x11C50 <= u && u <= 0x11C59) ||
        (0x11D50 <= u && u <= 0x11D59) || (0x11DA0 <= u && u <= 0x11DA9) ||
        (0x11F50 <= u && u <= 0x11F59) || (0x16130 <= u && u <= 0x16139) ||
        (0x16A60 <= u && u <= 0x16A69) || (0x16AC0 <= u && u <= 0x16AC9) ||
        (0x16B50 <= u && u <= 0x16B59) || (0x16D70 <= u && u <= 0x16D79) ||
        (0x1CCF0 <= u && u <= 0x1CCF9) || (0x1D7CE <= u && u <= 0x1D7FF) ||
        (0x1E140 <= u && u <= 0x1E149) || (0x1E2F0 <= u && u <= 0x1E2F9) ||
        (0x1E4F0 <= u && u <= 0x1E4F9) || (0x1E5F1 <= u && u <= 0x1E5FA) ||
        (0x1E950 <= u && u <= 0x1E959) || (0x1FBF0 <= u && u <= 0x1FBF9)
}

/// Whether `c` is an ASCII digit, the only digits a number is read from.
pub open spec fn is_ascii_digit(c: char) -> bool {
    '0' <= c && c <= '9'
}

pub open spec fn is_status_char(c: char) -> bool {
    ('A' <= c && c <= 'Z') || c == '_'
}

pub open spec fn space_fn() -> spec_fn(char) -> bool {
    white_space_fn()
}

pub open spec fn digit_fn() -> spec_fn(char) -> bool {
    |c: char| is_digit(c)
}

pub open spec fn status_fn() -> spec_fn(char) -> bool {
    |c: char| is_status_char(c)
}

fn digit_char(c: char) -> (r: bool)
    ensures
        r == is_digit(c),
{
    let u = c as u32;
    (0x30 <= u && u <= 0x39) || (0x660 <= u && u <= 0x669) || (0x6F0 <= u && u <= 0x6F9) ||
        (0x7C0 <= u && u <= 0x7C9) || (0x966 <= u && u <= 0x96F) ||
        (0x9E6 <= u && u <= 0x9EF) || (0xA66 <= u && u <= 0xA6F) ||
        (0xAE6 <= u && u <= 0xAEF) || (0xB66 <= u && u <= 0xB6F) ||
        (0xBE6 <= u && u <= 0xBEF) || (0xC66 <= u && u <= 0xC6F) ||
        (0xCE6 <= u && u <= 0xCEF) || (0xD66 <= u && u <= 0xD6F) ||
        (0xDE6 <= u && u <= 0xDEF) || (0xE50 <= u && u <= 0xE59) ||
        (0xED0 <= u && u <= 0xED9) || (0xF20 <= u && u <= 0xF29) ||
        (0x1040 <= u && u <= 0x1049) || (0x1090 <= u && u <= 0x1099) ||
        (0x17E0 <= u && u <= 0x17E9) || (0x1810 <= u && u <= 0x1819) ||
        (0x1946 <= u && u <= 0x194F) || (0x19D0 <= u && u <= 0x19D9) ||
        (0x1A80 <= u && u <= 0x1A89) || (0x1A90 <= u && u <= 0x1A99) ||
        (0x1B50 <= u && u <= 0x1B59) || (0x1BB0 <= u && u <= 0x1BB9) ||
        (0x1C40 <= u && u <= 0x1C49) || (0x1C50 <= u && u <= 0x1C59) ||
        (0xA620 <= u && u <= 0xA629) || (0xA8D0 <= u && u <= 0xA8D9) ||
        (0xA900 <= u && u <= 0xA909) || (0xA9D0 <= u && u <= 0xA9D9) ||
        (0xA9F0 <= u && u <= 0xA9F9) || (0xAA50 <= u && u <= 0xAA59) ||
        (0xABF0 <= u && u <= 0xABF9) || (0xFF10 <= u && u <= 0xFF19) ||
        (0x104A0 <= u && u <= 0x104A9) || (0x10D30 <= u && u <= 0x10D39) ||
        (0x10D40 <= u && u <= 0x10D49) || (0x11066 <= u && u <= 0x1106F) ||
        (0x110F0 <= u && u <= 0x110F9) || (0x11136 <= u && u <= 0x1113F) ||
        (0x111D0 <= u && u <= 0x111D9) || (0x112F0 <= u && u <= 0x112F9) ||
        (0x11450 <= u && u <= 0x11459) || (0x114D0 <= u && u <= 0x114D9) ||
        (0x11650 <= u && u <= 0x11659) || (0x116C0 <= u && u <= 0x116C9) ||
        (0x116D0 <= u && u <= 0x116E3) || (0x11730 <= u && u <= 0x11739) ||
        (0x118E0 <= u && u <= 0x118E9) || (0x11950 <= u && u <= 0x11959) ||
        (0x11BF0 <= u && u <= 0x11BF9) || (0x11C50 <= u && u <= 0x11C59) ||
        (0x11D50 <= u && u <= 0x11D59) || (0x11DA0 <= u && u <= 0x11DA9) ||
        (0x11F50 <= u && u <= 0x11F59) || (0x16130 <= u && u <= 0x16139) ||
        (0x16A60 <= u && u <= 0x16A69) || (0x16AC0 <= u && u <= 0x16AC9) ||
        (0x16B50 <= u && u <= 0x16B59) || (0x16D70 <= u && u <= 0x16D79) ||
        (0x1CCF0 <= u && u <= 0x1CCF9) || (0x1D7CE <= u && u <= 0x1D7FF) ||
        (0x1E140 <= u && u <= 0x1E149) || (0x1E2F0 <= u && u <= 0x1E2F9) ||
        (0x1E4F0 <= u && u <= 0x1E4F9) || (0x1E5F1 <= u && u <= 0x1E5FA) ||
        (0x1E950 <= u && u <= 0x1E959) || (0x1FBF0 <= u && u <= 0x1FBF9)
}

fn skip_spaces(s: &Vec<char>, i: usize) -> (r: usize)
    requires
        i <= s@.len(),
    ensures
        r as int == run_end(s@, i as int, space_fn()),
        i <= r <= s@.len(),
{
    skip_white_space(s, i)
}

fn skip_digits(s: &Vec<char>, i: usize) -> (r: usize)
    requires
        i <= s@.len(),
    ensures
        r as int == run_end(s@, i as int, digit_fn()),
        i <= r <= s@.len(),
    decreases s@.len() - i,
{
    if i < s.len() && digit_char(s[i]) {
        skip_digits(s, i + 1)
    } else {
        i
    }
}

fn skip_status(s: &Vec<char>, i: usize) -> (r: usize)
    requires
        i <= s@.len(),
    ensures
        r as int == run_end(s@, i as int, status_fn()),
        i <= r <= s@.len(),
    decreases s@.len() - i,
{
    if i < s.len() && (('A' <= s[i] && s[i] <= 'Z') || s[i] == '_') {
        skip_status(s, i + 1)
    } else {
        i
    }
}

/// The first position at or after `i` where `p` occurs, or -1.
pub open spec fn find_from(s: Seq<char>, p: Seq<char>, i: int) -> int
    decreases s.len() + 1 - i,
{
    if i < 0 || i + p.len() > s.len() {
        -1
    } else if occurs_at(s, p, i) {
        i
    } else {
        find_from(s, p, i + 1)
    }
}

proof fn lemma_find_from(s: Seq<char>, p: Seq<char>, i: int)
    requires
        0 <= i,
    ensures
        find_from(s, p, i) == -1 || (i <= find_from(s, p, i) && occurs_at(s, p, find_from(s, p, i))),
    decreases s.len() + 1 - i,
{
    if i + p.len() <= s.len() && !occurs_at(s, p, i) {
        lemma_find_from(s, p, i + 1);
    }
}

/// The first position at or after `i` where `p` occurs.
pub fn find_seq(s: &Vec<char>, p: &Vec<char>, i: usize) -> (r: Option<usize>)
    ensures
        match r {
            Some(k) => find_from(s@, p@, i as int) == k as int,
            None => find_from(s@, p@, i as int) == -1,
        },
    decreases s@.len() + 1 - i,
{
    if i > s.len() || p.len() > s.len() - i {
        None
    } else if matches_at(s, p, i) {
        assert(find_from(s@, p@, i as int) == i as int);
        Some(i)
    } else if i >= s.len() {
        assert(find_from(s@, p@, i + 1) == -1);
        None
    } else {
        let r = find_seq(s, p, i + 1);
        assert(find_from(s@, p@, i as int) == find_from(s@, p@, i + 1));
        r
    }
}

/// The texts that `marker` introduces in `s` from position `p` on: after each
/// occurrence and the whitespace that follows it, which may run over line
/// ends, the rest of that line, trimmed. A marker followed by whitespace alone
/// to the end of the text gives nothing.
pub open spec fn marked_from(s: Seq<char>, marker: Seq<char>, p: int) -> Seq<Seq<char>>
    decreases s.len() - p,
{
    let i = find_from(s, marker, p);
    if p < 0 || p > s.len() || i < 0 {
        Seq::empty()
    } else {
        let j = run_end(s, i + marker.len(), space_fn());
        let e = index_from(s, '\n', j);
        if j >= s.len() || e <= p || e > s.len() {
            Seq::empty()
        } else {
            seq![trim_of(s.subrange(j, e))] + marked_from(s, marker, e)
        }
    }
}

/// The texts that `marker` introduces in `s`, in order.
fn collect_marked(s: &Vec<char>, marker: &str) -> (r: Vec<String>)
    requires
        marker@.len() > 0,
    ensures
        sviews(r@) == marked_from(s@, marker@, 0),
{
    let m = chars_of(marker);
    let n = s.len();
    let mut out: Vec<String> = Vec::new();
    let mut p: usize = 0;
    proof {
        assert(sviews(out@) + marked_from(s@, m@, 0) =~= marked_from(s@, m@, 0));
    }
    loop
        invariant
            n == s@.len(),
            m@ == marker@,
            m@.len() > 0,
            p <= n,
            sviews(out@) + marked_from(s@, m@, p as int) == marked_from(s@, m@, 0),
        decreases n - p,
    {
        let i = match find_seq(s, &m, p) {
            Some(i) => i,
            None => {
                proof {
                    assert(sviews(out@) + marked_from(s@, m@, p as int) =~= sviews(out@));
                }
                return out;
            },
        };
        proof {
            lemma_find_from(s@, m@, p as int);
        }
        assert(i + m@.len() <= n);
        let j = skip_spaces(s, i + m.len());
        if j >= n {
            proof {
                assert(sviews(out@) + marked_from(s@, m@, p as int) =~= sviews(out@));
            }
            return out;
        }
        let e = find_char_from(s, '\n', j);
        proof {
            lemma_run_end(s@, i + m@.len(), space_fn());
            assert(!is_white_space(s@[j as int]));
            assert(s@[j as int] != '\n');
            lemma_index_from_bounds(s@, '\n', j + 1);
            assert(e > j);
        }
        let mut piece: Vec<char> = Vec::new();
        push_range(&mut piece, s, j, e);
        let t = trimmed(string_of(&piece).as_str());
        let ghost before = out@;
        out.push(t);
        proof {
            assert(sviews(out@) =~= sviews(before).push(trim_of(s@.subrange(j as int, e as int))));
            assert(sviews(out@) + marked_from(s@, m@, e as int) =~= sviews(before) + marked_from(s@, m@, p as int));
        }
        p = e;
    }
}

/// The lines of `s`, as `str::lines` gives them: split at `\n`, a final empty
/// piece dropped, a trailing `\r` removed from each.
pub open spec fn lines_of(s: Seq<char>) -> Seq<Seq<char>> {
    let parts = split_on(s, '\n');
    let kept = if parts.last().len() == 0 {
        parts.drop_last()
    } else {
        parts
    };
    strip_all(kept)
}

/// Each line without its trailing carriage return.
pub open spec fn strip_all(ls: Seq<Seq<char>>) -> Seq<Seq<char>> {
    ls.map_values(|l: Seq<char>| strip_cr(l))
}

pub open spec fn strip_cr(l: Seq<char>) -> Seq<char> {
    if l.len() > 0 && l.last() == '\r' {
        l.drop_last()
    } else {
        l
    }
}

/// The views of character vectors.
pub open spec fn cviews(v: Seq<Vec<char>>) -> Seq<Seq<char>> {
    v.map_values(|x: Vec<char>| x@)
}

/// The pieces of `v` between the separators `c`.
pub fn split_chars(v: &Vec<char>, c: char) -> (r: Vec<Vec<char>>)
    ensures
        cviews(r@) == split_on(v@, c),
{
    let mut out: Vec<Vec<char>> = Vec::new();
    let mut start: usize = 0;
    let n = v.len();
    proof {
        assert(v@.skip(0) =~= v@);
        assert(cviews(out@) + split_on(v@.skip(0), c) =~= split_on(v@, c));
    }
    loop
        invariant
            n == v@.len(),
            start <= n,
            cviews(out@) + split_on(v@.skip(start as int), c) == split_on(v@, c),
        decreases n - start,
    {
        let end = find_char_from(v, c, start);
        let ghost rest = v@.skip(start as int);
        proof {
            lemma_index_from_shift(v@, c, start as int, start as int);
            lemma_index_from_bounds(v@, c, start as int);
        }
        let mut piece: Vec<char> = Vec::new();
        push_range(&mut piece, v, start, end);
        let ghost before = out@;
        out.push(piece);
        proof {
            assert(rest.subrange(0, end - start) =~= v@.subrange(start as int, end as int));
            assert(cviews(out@) =~= cviews(before).push(v@.subrange(start as int, end as int)));
        }
        if end >= n {
            proof {
                assert(rest =~= v@.subrange(start as int, end as int));
                assert(split_on(rest, c) == seq![rest]);
                assert(cviews(out@) =~= cviews(before) + split_on(rest, c));
            }
            return out;
        }
        proof {
            assert(rest.skip(end - start + 1) =~= v@.skip(end + 1));
            assert(split_on(rest, c) == seq![rest.subrange(0, end - start)] + split_on(
                rest.skip(end - start + 1),
                c,
            ));
            assert(cviews(out@) + split_on(v@.skip(end + 1), c) =~= cviews(before) + split_on(rest, c));
        }
        start = end + 1;
    }
}

/// The lines of a text.
pub fn split_lines(s: &str) -> (r: Vec<Vec<char>>)
    ensures
        cviews(r@) == lines_of(s@),
{
    let v = chars_of(s);
    let mut parts = split_chars(&v, '\n');
    proof {
        lemma_split_nonempty(v@, '\n');
    }
    let last = parts.len() - 1;
    if parts[last].len() == 0 {
        let ghost before_pop = parts@;
        parts.pop();
        proof {
            assert(cviews(parts@) =~= cviews(before_pop).drop_last());
        }
    }
    let ghost kept = cviews(parts@);
    let mut out: Vec<Vec<char>> = Vec::new();
    let mut i: usize = 0;
    while i < parts.len()
        invariant
            i <= parts@.len(),
            kept == cviews(parts@),
            cviews(out@) == strip_all(kept.subrange(0, i as int)),
        decreases parts@.len() - i,
    {
        let p = &parts[i];
        let mut line: Vec<char> = Vec::new();
        let mut e = p.len();
        if e > 0 && p[e - 1] == '\r' {
            e = e - 1;
        }
        push_range(&mut line, p, 0, e);
        let ghost before = out@;
        out.push(line);
        proof {
            assert(line@ =~= strip_cr(p@));
            assert(kept[i as int] == p@);
            assert(cviews(out@) =~= cviews(before).push(line@));
            assert(strip_all(kept.subrange(0, i + 1)) =~= strip_all(kept.subrange(0, i as int)).push(strip_cr(kept[i as int])));
            assert(cviews(out@) =~= strip_all(kept.subrange(0, i + 1)));
        }
        i = i + 1;
    }
    proof {
        assert(kept.subrange(0, i as int) =~= kept);
    }
    out
}

/// Where the digits of a score stand when a score pattern starts at `i`.
pub open spec fn score_digits_at(s: Seq<char>, i: int) -> Option<(int, int)> {
    if !occurs_at(s, "Hardening"@, i) {
        None
    } else {
        let j = run_end(s, i + 9, space_fn());
        if j == i + 9 || !occurs_at(s, "index"@, j) {
            None
        } else {
            let k = run_end(s, j + 5, space_fn());
            if k >= s.len() || !(s[k] == '=' || s[k] == ':') {
                None
            } else {
                let l = run_end(s, k + 1, space_fn());
                let d = if l < s.len() && s[l] == '[' {
                    l + 1
                } else {
                    l
                };
                let e = run_end(s, d, digit_fn());
                if e == d {
                    None
                } else {
                    Some((d, e))
                }
            }
        }
    }
}

/// The digits of the first score pattern at or after `i`.
pub open spec fn first_score(s: Seq<char>, i: int) -> Option<(int, int)>
    decreases s.len() - i,
{
    if i < 0 || i >= s.len() {
        None
    } else {
        match score_digits_at(s, i) {
            Some(x) => Some(x),
            None => first_score(s, i + 1),
        }
    }
}

/// The number that decimal digits stand for.
pub open spec fn digits_value(ds: Seq<char>) -> nat
    decreases ds.len(),
{
    if ds.len() == 0 {
        0
    } else {
        digits_value(ds.drop_last()) * 10 + (ds.last() as u32 - '0' as u32) as nat
    }
}

/// Whether every character is an ASCII digit.
pub open spec fn all_ascii_digits(ds: Seq<char>) -> bool {
    forall|k: int| 0 <= k < ds.len() ==> is_ascii_digit(ds[k])
}

/// The report's hardening score: the number the first score pattern captures,
/// when its digits are ASCII, as `u32` parsing asks, and it fits a `u32`.
pub open spec fn report_score(s: Seq<char>) -> Option<u32> {
    match first_score(s, 0) {
        Some(p) => if all_ascii_digits(s.subrange(p.0, p.1)) && digits_value(s.subrange(p.0, p.1))
            <= u32::MAX {
            Some(digits_value(s.subrange(p.0, p.1)) as u32)
        } else {
            None
        },
        None => None,
    }
}

pub open spec fn span_of(p: (usize, usize)) -> (int, int) {
    (p.0 as int, p.1 as int)
}

pub open spec fn span_ok(p: (usize, usize), s: Seq<char>) -> bool {
    p.0 <= p.1 <= s.len() && p.1 == run_end(s, p.0 as int, digit_fn())
}

fn score_at(s: &Vec<char>, i: usize) -> (r: Option<(usize, usize)>)
    requires
        i < s@.len(),
    ensures
        match r {
            Some(p) => score_digits_at(s@, i as int) == Some((p.0 as int, p.1 as int)) && span_ok(p, s@),
            None => score_digits_at(s@, i as int) is None,
        },
{
    let h = chars_of("Hardening");
    let x = chars_of("index");
    proof {
        reveal_strlit("Hardening");
        reveal_strlit("index");
    }
    if !matches_at(s, &h, i) {
        return None;
    }
    let sl = s.len();
    assert(i + 9 <= sl);
    let j = skip_spaces(s, i + 9);
    if j == i + 9 || !matches_at(s, &x, j) {
        return None;
    }
    assert(j + 5 <= sl);
    let k = skip_spaces(s, j + 5);
    if k >= s.len() || !(s[k] == '=' || s[k] == ':') {
        return None;
    }
    let l = skip_spaces(s, k + 1);
    let d = if l < s.len() && s[l] == '[' {
        l + 1
    } else {
        l
    };
    let e = skip_digits(s, d);
    if e == d {
        None
    } else {
        Some((d, e))
    }
}

fn digit_value(c: char) -> (r: u64)
    requires
        is_ascii_digit(c),
    ensures
        r as nat == (c as u32 - '0' as u32) as nat,
        r <= 9,
{
    (c as u32 - '0' as u32) as u64
}

/// The hardening score of a report.
pub fn parse_score(s: &Vec<char>) -> (r: Option<u32>)
    ensures
        r == report_score(s@),
{
    let mut i: usize = 0;
    let mut found: Option<(usize, usize)> = None;
    while i < s.len() && found.is_none()
        invariant
            i <= s@.len(),
            found is None ==> first_score(s@, 0) == first_score(s@, i as int),
            found is Some ==> first_score(s@, 0) == Some(span_of(found->0)) && span_ok(found->0, s@),
        decreases s@.len() - i,
    {
        match score_at(s, i) {
            Some(p) => {
                found = Some(p);
            },
            None => {},
        }
        i = i + 1;
    }
    let (d, e) = match found {
        Some(p) => p,
        None => {
            return None;
        },
    };
    proof {
        lemma_run_end(s@, d as int, digit_fn());
    }
    let ghost ds = s@.subrange(d as int, e as int);
    let mut acc: u64 = 0;
    let mut big = false;
    let mut k: usize = d;
    while k < e
        invariant
            d <= k <= e,
            e <= s@.len(),
            ds == s@.subrange(d as int, e as int),
            first_score(s@, 0) == Some((d as int, e as int)),
            forall|j: int| d <= j < e ==> is_digit(s@[j]),
            forall|j: int| d <= j < k ==> is_ascii_digit(s@[j]),
            !big ==> acc as nat == digits_value(s@.subrange(d as int, k as int)) && acc <= u32::MAX,
            big ==> digits_value(s@.subrange(d as int, k as int)) > u32::MAX,
        decreases e - k,
    {
        let ghost pre = s@.subrange(d as int, k + 1);
        proof {
            assert(pre.drop_last() =~= s@.subrange(d as int, k as int));
            assert(pre.last() == s@[k as int]);
        }
        if !('0' <= s[k] && s[k] <= '9') {
            proof {
                assert(!is_ascii_digit(ds[k - d]));
            }
            return None;
        }
        if !big {
            let v = digit_value(s[k]);
            let next = acc * 10 + v;
            if next > u32::MAX as u64 {
                big = true;
            } else {
                acc = next;
            }
        }
        k = k + 1;
    }
    proof {
        assert forall|j: int| 0 <= j < ds.len() implies is_ascii_digit(ds[j]) by {
            assert(ds[j] == s@[d + j]);
        }
    }
    if big {
        None
    } else {
        Some(acc as u32)
    }
}

/// The name of the section a `[+]` at `i` opens: after it, at least one
/// whitespace, then the text up to the next `[`, trimmed. When that text is
/// empty, a whitespace run of two or more gives up its last character to it,
/// which trims to an empty name.
pub open spec fn header_at(l: Seq<char>, i: int) -> Option<Seq<char>> {
    if !occurs_at(l, "[+]"@, i) {
        None
    } else {
        let j = run_end(l, i + 3, space_fn());
        let e = index_from(l, '[', j);
        if j == i + 3 {
            None
        } else if e > j {
            Some(trim_of(l.subrange(j, e)))
        } else if j - (i + 3) >= 2 {
            Some(Seq::empty())
        } else {
            None
        }
    }
}

/// The name of the section the first opening `[+]` at or after `i` gives.
pub open spec fn header_from(l: Seq<char>, i: int) -> Option<Seq<char>>
    decreases l.len() - i,
{
    if i < 0 || i >= l.len() {
        None
    } else {
        match header_at(l, i) {
            Some(n) => Some(n),
            None => header_from(l, i + 1),
        }
    }
}

/// The name of the section a line opens, if it opens one.
pub open spec fn header_of(l: Seq<char>) -> Option<Seq<char>> {
    header_from(l, 0)
}

/// Plugin and option of an item's message: the trimmed parts around its first
/// colon, or `unknown` and the whole message.
pub open spec fn plugin_option(msg: Seq<char>) -> (Seq<char>, Seq<char>) {
    let c = index_from(msg, ':', 0);
    if c < msg.len() {
        (trim_of(msg.subrange(0, c)), trim_of(msg.skip(c + 1)))
    } else {
        ("unknown"@, msg)
    }
}

/// The item a line holds, as plugin, option, status and message: leading
/// whitespace, `- [`, an upper-case status, `]`, whitespace, then the message,
/// trimmed. A line that ends in two or more whitespace characters after `]`
/// holds an item with an empty message.
pub open spec fn item_of(l: Seq<char>) -> Option<(Seq<char>, Seq<char>, Seq<char>, Seq<char>)> {
    let j = run_end(l, 0, space_fn());
    if j == 0 || !occurs_at(l, "- ["@, j) {
        None
    } else {
        let k = run_end(l, j + 3, status_fn());
        if k == j + 3 || k >= l.len() || l[k] != ']' {
            None
        } else {
            let m = run_end(l, k + 1, space_fn());
            if m == k + 1 || (m >= l.len() && m - (k + 1) < 2) {
                None
            } else {
                let msg = if m >= l.len() {
                    Seq::empty()
                } else {
                    trim_of(l.skip(m))
                };
                let po = plugin_option(msg);
                Some((po.0, po.1, l.subrange(j + 3, k), msg))
            }
        }
    }
}

/// One test result of a section.
pub struct AuditItem {
    pub plugin: String,
    pub option: String,
    pub status: String,
    pub message: String,
}

/// A section of the report and its items.
pub struct AuditSection {
    pub name: String,
    pub items: Vec<AuditItem>,
}

pub open spec fn item_view(it: AuditItem) -> (Seq<char>, Seq<char>, Seq<char>, Seq<char>) {
    (it.plugin@, it.option@, it.status@, it.message@)
}

pub open spec fn items_view(its: Seq<AuditItem>) -> Seq<(Seq<char>, Seq<char>, Seq<char>, Seq<char>)> {
    its.map_values(|it: AuditItem| item_view(it))
}

pub open spec fn section_view(s: AuditSection) -> (Seq<char>, Seq<(Seq<char>, Seq<char>, Seq<char>, Seq<char>)>) {
    (s.name@, items_view(s.items@))
}

pub open spec fn sections_view(ss: Seq<AuditSection>) -> Seq<(Seq<char>, Seq<(Seq<char>, Seq<char>, Seq<char>, Seq<char>)>)> {
    ss.map_values(|s: AuditSection| section_view(s))
}

impl Keyed for AuditSection {
    open spec fn key_view(&self) -> Seq<char> {
        self.name@
    }

    fn key(&self) -> (r: &str) {
        self.name.as_str()
    }
}

proof fn lemma_sections_upsert(v: Seq<AuditSection>, a: AuditSection)
    ensures
        sections_view(upsert(v, a)) == upsert_section(sections_view(v), section_view(a)),
    decreases v.len(),
{
    if v.len() == 0 {
        assert(sections_view(upsert(v, a)) =~= seq![section_view(a)]);
    } else {
        assert(sections_view(v).skip(1) =~= sections_view(v.skip(1)));
        assert(sections_view(v)[0] == section_view(v[0]));
        if v[0].name@ == a.name@ {
            assert(sections_view(upsert(v, a)) =~= seq![section_view(a)] + sections_view(v).skip(1));
        } else {
            lemma_sections_upsert(v.skip(1), a);
            assert(sections_view(upsert(v, a)) =~= seq![sections_view(v)[0]] + upsert_section(
                sections_view(v).skip(1),
                section_view(a),
            ));
        }
    }
}

fn header_at_exec(l: &Vec<char>, i: usize) -> (r: Option<String>)
    requires
        i < l@.len(),
    ensures
        match r {
            Some(n) => header_at(l@, i as int) == Some(n@),
            None => header_at(l@, i as int) is None,
        },
{
    let mark = chars_of("[+]");
    proof {
        reveal_strlit("[+]");
    }
    if !matches_at(l, &mark, i) {
        return None;
    }
    let ll = l.len();
    assert(i + 3 <= ll);
    let j = skip_spaces(l, i + 3);
    let e = find_char_from(l, '[', j);
    if j == i + 3 {
        None
    } else if e > j {
        let mut name: Vec<char> = Vec::new();
        push_range(&mut name, l, j, e);
        Some(trimmed(string_of(&name).as_str()))
    } else if j - (i + 3) >= 2 {
        Some(String::new())
    } else {
        None
    }
}

fn header_name(l: &Vec<char>) -> (r: Option<String>)
    ensures
        match r {
            Some(n) => header_of(l@) == Some(n@),
            None => header_of(l@) is None,
        },
{
    let mut i: usize = 0;
    while i < l.len()
        invariant
            i <= l@.len(),
            header_from(l@, 0) == header_from(l@, i as int),
        decreases l@.len() - i,
    {
        match header_at_exec(l, i) {
            Some(n) => {
                return Some(n);
            },
            None => {},
        }
        i = i + 1;
    }
    None
}

fn split_message(msg: String) -> (r: (String, String))
    ensures
        (r.0@, r.1@) == plugin_option(msg@),
{
    let v = chars_of(msg.as_str());
    let c = find_char_from(&v, ':', 0);
    if c < v.len() {
        let mut a: Vec<char> = Vec::new();
        push_range(&mut a, &v, 0, c);
        let mut b: Vec<char> = Vec::new();
        push_range(&mut b, &v, c + 1, v.len());
        proof {
            assert(b@ =~= msg@.skip(c + 1));
        }
        (trimmed(string_of(&a).as_str()), trimmed(string_of(&b).as_str()))
    } else {
        (String::from_str("unknown"), msg)
    }
}

fn item_line(l: &Vec<char>) -> (r: Option<AuditItem>)
    ensures
        match r {
            Some(it) => item_of(l@) == Some(item_view(it)),
            None => item_of(l@) is None,
        },
{
    let dash = chars_of("- [");
    proof {
        reveal_strlit("- [");
    }
    let j = skip_spaces(l, 0);
    if j == 0 || !matches_at(l, &dash, j) {
        return None;
    }
    let ll = l.len();
    assert(j + 3 <= ll);
    let k = skip_status(l, j + 3);
    if k == j + 3 || k >= l.len() || l[k] != ']' {
        return None;
    }
    let m = skip_spaces(l, k + 1);
    if m == k + 1 || (m >= l.len() && m - (k + 1) < 2) {
        return None;
    }
    let msg = if m >= l.len() {
        String::new()
    } else {
        let mut rest: Vec<char> = Vec::new();
        push_range(&mut rest, l, m, l.len());
        proof {
            assert(rest@ =~= l@.skip(m as int));
        }
        trimmed(string_of(&rest).as_str())
    };
    let mut status: Vec<char> = Vec::new();
    push_range(&mut status, l, j + 3, k);
    let message = msg.clone();
    let (plugin, option) = split_message(msg);
    Some(AuditItem { plugin, option, status: string_of(&status), message })
}

/// The views of strings.
pub open spec fn sviews(v: Seq<String>) -> Seq<Seq<char>> {
    v.map_values(|x: String| x@)
}

/// The view of an item: plugin, option, status, message.
pub type ItemView = (Seq<char>, Seq<char>, Seq<char>, Seq<char>);

/// The view of a section: name and items.
pub type SectionView = (Seq<char>, Seq<ItemView>);

/// The sections with `s` in place of the section of the same name, or `s`
/// appended when no section has that name: a later section of a name replaces
/// an earlier one.
pub open spec fn upsert_section(done: Seq<SectionView>, s: SectionView) -> Seq<SectionView>
    decreases done.len(),
{
    if done.len() == 0 {
        seq![s]
    } else if done[0].0 == s.0 {
        seq![s] + done.skip(1)
    } else {
        seq![done[0]] + upsert_section(done.skip(1), s)
    }
}

/// The sections so far, with the open section, if any, put in when it has items.
pub open spec fn close_section(cur: Option<Seq<char>>, items: Seq<ItemView>, done: Seq<SectionView>) -> Seq<SectionView> {
    if cur is Some && items.len() > 0 {
        upsert_section(done, (cur->0, items))
    } else {
        done
    }
}

/// One line's effect on the open section, its items and the closed sections.
pub open spec fn section_step(acc: (Option<Seq<char>>, Seq<ItemView>, Seq<SectionView>), l: Seq<char>) -> (Option<Seq<char>>, Seq<ItemView>, Seq<SectionView>) {
    let a1 = match header_of(l) {
        Some(n) => (Some(n), Seq::empty(), close_section(acc.0, acc.1, acc.2)),
        None => acc,
    };
    if a1.0 is Some {
        match item_of(l) {
            Some(it) => (a1.0, a1.1.push(it), a1.2),
            None => a1,
        }
    } else {
        a1
    }
}

pub open spec fn sections_fold(ls: Seq<Seq<char>>) -> (Option<Seq<char>>, Seq<ItemView>, Seq<SectionView>)
    decreases ls.len(),
{
    if ls.len() == 0 {
        (None, Seq::empty(), Seq::empty())
    } else {
        section_step(sections_fold(ls.drop_last()), ls.last())
    }
}

/// The sections of a report that have items, in the order they open.
pub open spec fn report_sections(s: Seq<char>) -> Seq<SectionView> {
    let a = sections_fold(lines_of(s));
    close_section(a.0, a.1, a.2)
}

pub open spec fn opt_view(o: Option<String>) -> Option<Seq<char>> {
    match o {
        Some(x) => Some(x@),
        None => None,
    }
}

fn close_open(cur: Option<String>, items: Vec<AuditItem>, done: &mut Vec<AuditSection>)
    requires
        keys_unique(old(done)@),
    ensures
        keys_unique(final(done)@),
        sections_view(final(done)@) == close_section(opt_view(cur), items_view(items@), sections_view(old(done)@)),
{
    match cur {
        Some(c) => {
            if items.len() > 0 {
                let sec = AuditSection { name: c, items };
                proof {
                    lemma_sections_upsert(done@, sec);
                    lemma_upsert_unique(done@, sec);
                }
                upsert_vec(done, sec);
            }
        },
        None => {},
    }
}

/// The sections of a report, from its lines.
fn parse_sections(ls: &Vec<Vec<char>>) -> (r: Vec<AuditSection>)
    ensures
        keys_unique(r@),
        sections_view(r@) == ({
            let a = sections_fold(cviews(ls@));
            close_section(a.0, a.1, a.2)
        }),
{
    let mut cur: Option<String> = None;
    let mut items: Vec<AuditItem> = Vec::new();
    let mut done: Vec<AuditSection> = Vec::new();
    let mut i: usize = 0;
    proof {
        assert(cviews(ls@).subrange(0, 0).len() == 0);
        assert(items_view(items@) =~= Seq::<ItemView>::empty());
        assert(sections_view(done@) =~= Seq::<SectionView>::empty());
    }
    while i < ls.len()
        invariant
            i <= ls@.len(),
            (opt_view(cur), items_view(items@), sections_view(done@)) == sections_fold(cviews(ls@).subrange(0, i as int)),
            keys_unique(done@),
        decreases ls@.len() - i,
    {
        let ghost sub = cviews(ls@).subrange(0, i + 1);
        let ghost acc = (opt_view(cur), items_view(items@), sections_view(done@));
        proof {
            assert(sub.drop_last() =~= cviews(ls@).subrange(0, i as int));
            assert(sub.last() == ls@[i as int]@);
        }
        let l = &ls[i];
        match header_name(l) {
            Some(n) => {
                let old_items = items;
                items = Vec::new();
                close_open(cur, old_items, &mut done);
                cur = Some(n);
                proof {
                    assert(items_view(items@) =~= Seq::<ItemView>::empty());
                }
            },
            None => {},
        }
        let ghost a1 = (opt_view(cur), items_view(items@), sections_view(done@));
        if cur.is_some() {
            match item_line(l) {
                Some(it) => {
                    let ghost iv = item_view(it);
                    let ghost before = items@;
                    items.push(it);
                    proof {
                        assert(items_view(items@) =~= items_view(before).push(iv));
                    }
                },
                None => {},
            }
        }
        i = i + 1;
    }
    proof {
        assert(cviews(ls@).subrange(0, i as int) =~= cviews(ls@));
    }
    close_open(cur, items, &mut done);
    done
}

/// The structured form of an audit report.
pub struct AuditReport {
    pub node: String,
    /// When the report was read, in RFC 3339 form.
    pub timestamp: String,
    pub score: Option<u32>,
    pub warnings: Vec<String>,
    pub suggestions: Vec<String>,
    pub sections: Vec<AuditSection>,
}

/// Reads an audit report's text into its structured form, for node `node` at `timestamp`.
pub fn parse_lynis_report(content: &str, node: String, timestamp: String) -> (r: AuditReport)
    ensures
        r.node == node,
        r.timestamp == timestamp,
        r.score == report_score(content@),
        sviews(r.warnings@) == marked_from(content@, "[WARNING]"@, 0),
        sviews(r.suggestions@) == marked_from(content@, "[SUGGESTION]"@, 0),
        sections_view(r.sections@) == report_sections(content@),
        keys_unique(r.sections@),
{
    let all = chars_of(content);
    let score = parse_score(&all);
    let ls = split_lines(content);
    proof {
        reveal_strlit("[WARNING]");
        reveal_strlit("[SUGGESTION]");
    }
    let warnings = collect_marked(&all, "[WARNING]");
    let suggestions = collect_marked(&all, "[SUGGESTION]");
    let sections = parse_sections(&ls);
    AuditReport { node, timestamp, score, warnings, suggestions, sections }
}

/// The node name a report carries: the configured id, or `unknown`.
pub fn report_node(node_id: Option<String>) -> (r: String)
    ensures
        r@ == match node_id {
            Some(n) => n@,
            None => "unknown"@,
        },
{
    match node_id {
        Some(n) => n,
        None => String::from_str("unknown"),
    }
}

/// The security auditor adapter: its configuration and the node it reports for.
pub struct LynisService {
    pub config: crate::config::LynisServiceConfig,
    pub node_id: Option<String>,
}

impl LynisService {
    pub fn new(config: crate::config::LynisServiceConfig, node_id: Option<String>) -> (r: LynisService)
        ensures
            r.config == config,
            r.node_id == node_id,
    {
        LynisService { config, node_id }
    }

    pub fn name(&self) -> (r: &'static str)
        ensures
            r@ == "lynis"@,
    {
        "lynis"
    }

    /// The interval between audits, in seconds.
    pub fn audit_interval_secs(&self) -> (r: u64)
        ensures
            r == self.config.audit_interval_secs,
    {
        self.config.audit_interval_secs
    }
}

pub open spec fn audit_key_of(prefix: Seq<char>, node: Seq<char>) -> Seq<char> {
    prefix + "/audit/lynis/"@ + node
}

/// The store key a node's report is published under.
pub fn audit_key(prefix: &str, node: &str) -> (r: String)
    ensures
        r@ == audit_key_of(prefix@, node@),
{
    let mut buf = chars_of(prefix);
    crate::text::push_str(&mut buf, "/audit/lynis/");
    crate::text::push_str(&mut buf, node);
    proof {
        assert(buf@ =~= audit_key_of(prefix@, node@));
    }
    string_of(&buf)
}

} // verus!
