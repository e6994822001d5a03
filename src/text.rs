use vstd::prelude::*;

verus! {

/// The characters of a string, in order.
pub fn chars_of(s: &str) -> (r: Vec<char>)
    ensures
        r@ == s@,
{
    let mut out: Vec<char> = Vec::new();
    for c in it: s.chars()
        invariant
            out@ == it.seq().subrange(0, it.index() as int),
    {
        out.push(c);
    }
    out
}

/// Relies on `String: FromIterator<char>`: the string holds the characters in order.
#[verifier::external_body]
pub(crate) fn string_of(v: &Vec<char>) -> (r: String)
    ensures
        r@ == v@,
{
    v.iter().collect()
}

/// Appends the characters of `s`.
pub fn push_str(buf: &mut Vec<char>, s: &str)
    ensures
        final(buf)@ == old(buf)@ + s@,
{
    let ghost start = buf@;
    for c in it: s.chars()
        invariant
            buf@ == start + it.seq().subrange(0, it.index() as int),
    {
        buf.push(c);
        proof {
            assert(buf@ =~= start + it.seq().subrange(0, it.index() + 1));
        }
    }
    proof {
        assert(buf@ =~= start + s@);
    }
}

pub open spec fn digit_char(d: nat) -> char {
    seq!['0', '1', '2', '3', '4', '5', '6', '7', '8', '9'][d as int]
}

/// The decimal digits of `n`, without sign or leading zeros.
pub open spec fn decimal(n: nat) -> Seq<char>
    decreases n,
{
    if n < 10 {
        seq![digit_char(n)]
    } else {
        decimal(n / 10).push(digit_char(n % 10))
    }
}

fn digit(d: u64) -> (c: char)
    requires
        d < 10,
    ensures
        c == digit_char(d as nat),
{
    match d {
        0 => '0',
        1 => '1',
        2 => '2',
        3 => '3',
        4 => '4',
        5 => '5',
        6 => '6',
        7 => '7',
        8 => '8',
        _ => '9',
    }
}

/// Appends `n` written in decimal.
pub fn push_decimal(buf: &mut Vec<char>, n: u64)
    ensures
        final(buf)@ == old(buf)@ + decimal(n as nat),
    decreases n,
{
    if n >= 10 {
        push_decimal(buf, n / 10);
    }
    let ghost mid = buf@;
    buf.push(digit(n % 10));
    proof {
        if n >= 10 {
            assert(buf@ =~= old(buf)@ + decimal(n as nat));
        } else {
            assert(buf@ =~= old(buf)@ + decimal(n as nat));
        }
    }
}

/// Whether `p` is a prefix of `s`.
pub open spec fn starts_with(s: Seq<char>, p: Seq<char>) -> bool {
    p.len() <= s.len() && s.subrange(0, p.len() as int) == p
}

/// Whether `p` occurs in `s` starting at position `i`.
pub open spec fn occurs_at(s: Seq<char>, p: Seq<char>, i: int) -> bool {
    0 <= i && i + p.len() <= s.len() && s.subrange(i, i + p.len()) == p
}

/// Whether `p` occurs anywhere in `s`.
pub open spec fn contains(s: Seq<char>, p: Seq<char>) -> bool {
    exists|i: int| occurs_at(s, p, i)
}

/// Whether `p` occurs in `s` at position `i`.
pub fn matches_at(s: &Vec<char>, p: &Vec<char>, i: usize) -> (r: bool)
    ensures
        r == occurs_at(s@, p@, i as int),
{
    if i > s.len() || p.len() > s.len() - i {
        return false;
    }
    let mut k: usize = 0;
    while k < p.len()
        invariant
            i <= s@.len(),
            i + p@.len() <= s@.len(),
            k <= p@.len(),
            forall|m: int| 0 <= m < k ==> s@[i + m] == p@[m],
        decreases p@.len() - k,
    {
        let sl = s.len();
        assert(i + k < sl);
        if s[i + k] != p[k] {
            proof {
                assert(s@.subrange(i as int, i + p@.len())[k as int] != p@[k as int]);
            }
            return false;
        }
        k = k + 1;
    }
    proof {
        assert(s@.subrange(i as int, i + p@.len()) =~= p@);
    }
    true
}

/// Whether `p` occurs anywhere in `s`.
pub fn contains_seq(s: &Vec<char>, p: &Vec<char>) -> (r: bool)
    ensures
        r == contains(s@, p@),
{
    let mut i: usize = 0;
    while i < s.len()
        invariant
            i <= s@.len(),
            forall|j: int| 0 <= j < i ==> !occurs_at(s@, p@, j),
        decreases s@.len() - i,
    {
        if matches_at(s, p, i) {
            return true;
        }
        i = i + 1;
    }
    if matches_at(s, p, i) {
        return true;
    }
    proof {
        assert forall|j: int| !occurs_at(s@, p@, j) by {
            if 0 <= j && j <= i {
            }
        }
    }
    false
}

/// Whether `p` occurs anywhere in `s`.
pub fn str_contains(s: &str, p: &str) -> (r: bool)
    ensures
        r == contains(s@, p@),
{
    let sv = chars_of(s);
    let pv = chars_of(p);
    contains_seq(&sv, &pv)
}

/// The texts of the items of `s`, one after the other.
pub open spec fn joined<A>(s: Seq<A>, f: spec_fn(A) -> Seq<char>) -> Seq<char>
    decreases s.len(),
{
    if s.len() == 0 {
        Seq::empty()
    } else {
        joined(s.drop_last(), f) + f(s.last())
    }
}

pub proof fn lemma_joined_step<A>(s: Seq<A>, i: int, f: spec_fn(A) -> Seq<char>)
    requires
        0 <= i < s.len(),
    ensures
        joined(s.subrange(0, i + 1), f) == joined(s.subrange(0, i), f) + f(s[i]),
{
    assert(s.subrange(0, i + 1).drop_last() =~= s.subrange(0, i));
}

pub proof fn lemma_joined_all<A>(s: Seq<A>, f: spec_fn(A) -> Seq<char>)
    ensures
        joined(s.subrange(0, s.len() as int), f) == joined(s, f),
        joined(s.subrange(0, 0), f) == Seq::<char>::empty(),
{
    assert(s.subrange(0, s.len() as int) =~= s);
}

/// Replacing an item by one of the same text leaves the joined text as it was.
pub proof fn lemma_joined_update<A>(s: Seq<A>, i: int, x: A, f: spec_fn(A) -> Seq<char>)
    requires
        0 <= i < s.len(),
        f(x) == f(s[i]),
    ensures
        joined(s.update(i, x), f) == joined(s, f),
    decreases s.len(),
{
    let u = s.update(i, x);
    if i == s.len() - 1 {
        assert(u.drop_last() =~= s.drop_last());
    } else {
        lemma_joined_update(s.drop_last(), i, x, f);
        assert(u.drop_last() =~= s.drop_last().update(i, x));
    }
}

/// The first position at or after `i` that holds `c`, or the length of `s`.
pub open spec fn index_from(s: Seq<char>, c: char, i: int) -> int
    decreases s.len() - i,
{
    if 0 <= i < s.len() && s[i] != c {
        index_from(s, c, i + 1)
    } else {
        i
    }
}

/// The position of the first `c` at or after `i`, or the length of `s`.
pub fn find_char_from(s: &Vec<char>, c: char, i: usize) -> (r: usize)
    requires
        i <= s@.len(),
    ensures
        r as int == index_from(s@, c, i as int),
        i <= r <= s@.len(),
    decreases s@.len() - i,
{
    if i < s.len() && s[i] != c {
        find_char_from(s, c, i + 1)
    } else {
        i
    }
}

/// Appends `s[from..to]`.
pub fn push_range(buf: &mut Vec<char>, s: &Vec<char>, from: usize, to: usize)
    requires
        from <= to <= s@.len(),
    ensures
        final(buf)@ == old(buf)@ + s@.subrange(from as int, to as int),
{
    let ghost start = buf@;
    let mut m: usize = from;
    while m < to
        invariant
            from <= m <= to,
            to <= s@.len(),
            buf@ == start + s@.subrange(from as int, m as int),
        decreases to - m,
    {
        buf.push(s[m]);
        m = m + 1;
        proof {
            assert(buf@ =~= start + s@.subrange(from as int, m as int));
        }
    }
}

/// The pieces of `s` between the separators `c`.
pub open spec fn split_on(s: Seq<char>, c: char) -> Seq<Seq<char>>
    decreases s.len() via split_on_decreases
{
    let i = index_from(s, c, 0);
    if i >= s.len() {
        seq![s]
    } else {
        seq![s.subrange(0, i)] + split_on(s.skip(i + 1), c)
    }
}

#[via_fn]
pub proof fn split_on_decreases(s: Seq<char>, c: char) {
    lemma_index_from_bounds(s, c, 0);
}

pub proof fn lemma_index_from_bounds(s: Seq<char>, c: char, i: int)
    requires
        0 <= i <= s.len(),
    ensures
        i <= index_from(s, c, i) <= s.len(),
        index_from(s, c, i) < s.len() ==> s[index_from(s, c, i)] == c,
    decreases s.len() - i,
{
    if i < s.len() && s[i] != c {
        lemma_index_from_bounds(s, c, i + 1);
    }
}

pub proof fn lemma_index_from_shift(s: Seq<char>, c: char, i: int, k: int)
    requires
        0 <= k <= i <= s.len(),
    ensures
        index_from(s, c, i) - k == index_from(s.skip(k), c, i - k),
    decreases s.len() - i,
{
    if i < s.len() && s[i] != c {
        lemma_index_from_shift(s, c, i + 1, k);
    }
}

pub proof fn lemma_split_nonempty(s: Seq<char>, c: char)
    ensures
        split_on(s, c).len() >= 1,
    decreases s.len(),
{
    lemma_index_from_bounds(s, c, 0);
    let i = index_from(s, c, 0);
    if i < s.len() {
        lemma_split_nonempty(s.skip(i + 1), c);
    }
}

/// `s` with every occurrence of `from`, taken left to right without overlap,
/// replaced by `to`. An empty `from` replaces nothing.
pub open spec fn replaced(s: Seq<char>, from: Seq<char>, to: Seq<char>) -> Seq<char>
    decreases s.len(),
{
    if s.len() == 0 {
        s
    } else if from.len() > 0 && starts_with(s, from) {
        to + replaced(s.skip(from.len() as int), from, to)
    } else {
        seq![s[0]] + replaced(s.skip(1), from, to)
    }
}

/// Replaces every occurrence of `from` in `s` by `to`, left to right.
pub fn replace_all(s: &Vec<char>, from: &str, to: &str) -> (r: Vec<char>)
    ensures
        r@ == replaced(s@, from@, to@),
{
    let fv = chars_of(from);
    let mut out: Vec<char> = Vec::new();
    let mut i: usize = 0;
    let n = s.len();
    proof {
        assert(s@.skip(0) =~= s@);
        assert(out@ + replaced(s@, from@, to@) =~= replaced(s@, from@, to@));
    }
    while i < n
        invariant
            n == s@.len(),
            fv@ == from@,
            i <= n,
            out@ + replaced(s@.skip(i as int), from@, to@) == replaced(s@, from@, to@),
        decreases n - i,
    {
        let ghost rest = s@.skip(i as int);
        if fv.len() > 0 && matches_at(s, &fv, i) {
            proof {
                assert(rest.subrange(0, from@.len() as int) =~= s@.subrange(i as int, i + from@.len()));
                assert(rest.skip(from@.len() as int) =~= s@.skip(i + from@.len()));
                assert(out@ + to@ + replaced(s@.skip(i + from@.len()), from@, to@) =~= out@ + (to@
                    + replaced(rest.skip(from@.len() as int), from@, to@)));
            }
            push_str(&mut out, to);
            i = i + fv.len();
        } else {
            proof {
                if from@.len() > 0 && starts_with(rest, from@) {
                    assert(rest.subrange(0, from@.len() as int) =~= s@.subrange(i as int, i + from@.len()));
                }
                assert(rest.skip(1) =~= s@.skip(i + 1));
                assert(out@.push(s@[i as int]) + replaced(s@.skip(i + 1), from@, to@) =~= out@ + (seq![rest[0]]
                    + replaced(rest.skip(1), from@, to@)));
            }
            out.push(s[i]);
            i = i + 1;
        }
    }
    proof {
        assert(out@ + replaced(s@.skip(i as int), from@, to@) =~= out@);
    }
    out
}

/// Whether `c` has the Unicode White_Space property, the whitespace of
/// `str::trim` and of the `\s` class of patterns.
pub open spec fn is_white_space(c: char) -> bool {
    let u = c as u32;
    (0x9 <= u && u <= 0xD) || u == 0x20 || u == 0x85 || u == 0xA0 || u == 0x1680 || (0x2000 <= u && u
        <= 0x200A) || u == 0x2028 || u == 0x2029 || u == 0x202F || u == 0x205F || u == 0x3000
}

/// Whether `c` has the Unicode White_Space property.
pub fn white_space(c: char) -> (r: bool)
    ensures
        r == is_white_space(c),
{
    let u = c as u32;
    (0x9 <= u && u <= 0xD) || u == 0x20 || u == 0x85 || u == 0xA0 || u == 0x1680 || (0x2000 <= u && u
        <= 0x200A) || u == 0x2028 || u == 0x2029 || u == 0x202F || u == 0x205F || u == 0x3000
}

/// The end of the run of characters satisfying `p` from `i` on.
pub open spec fn run_end(s: Seq<char>, i: int, p: spec_fn(char) -> bool) -> int
    decreases s.len() - i,
{
    if 0 <= i < s.len() && p(s[i]) {
        run_end(s, i + 1, p)
    } else {
        i
    }
}

pub proof fn lemma_run_end(s: Seq<char>, i: int, p: spec_fn(char) -> bool)
    requires
        0 <= i <= s.len(),
    ensures
        i <= run_end(s, i, p) <= s.len(),
        forall|j: int| i <= j < run_end(s, i, p) ==> p(s[j]),
        run_end(s, i, p) < s.len() ==> !p(s[run_end(s, i, p)]),
    decreases s.len() - i,
{
    if i < s.len() && p(s[i]) {
        lemma_run_end(s, i + 1, p);
    }
}

pub open spec fn white_space_fn() -> spec_fn(char) -> bool {
    |c: char| is_white_space(c)
}

/// The end of the whitespace run from `i` on.
pub fn skip_white_space(s: &Vec<char>, i: usize) -> (r: usize)
    requires
        i <= s@.len(),
    ensures
        r as int == run_end(s@, i as int, white_space_fn()),
        i <= r <= s@.len(),
    decreases s@.len() - i,
{
    if i < s.len() && white_space(s[i]) {
        skip_white_space(s, i + 1)
    } else {
        i
    }
}

/// The start of the whitespace that ends the first `j` characters.
pub open spec fn trailing_start(s: Seq<char>, j: int) -> int
    decreases j,
{
    if 0 < j <= s.len() && is_white_space(s[j - 1]) {
        trailing_start(s, j - 1)
    } else {
        j
    }
}

/// What `str::trim` leaves of a string: the text without its leading and
/// trailing White_Space characters.
pub open spec fn trim_of(s: Seq<char>) -> Seq<char> {
    let a = run_end(s, 0, white_space_fn());
    let b = trailing_start(s, s.len() as int);
    if a >= b {
        Seq::empty()
    } else {
        s.subrange(a, b)
    }
}

/// The text without its leading and trailing whitespace.
pub fn trimmed(s: &str) -> (r: String)
    ensures
        r@ == trim_of(s@),
{
    let v = chars_of(s);
    let a = skip_white_space(&v, 0);
    let mut b: usize = v.len();
    while b > 0 && white_space(v[b - 1])
        invariant
            b <= v@.len(),
            trailing_start(v@, b as int) == trailing_start(v@, v@.len() as int),
        decreases b,
    {
        b = b - 1;
    }
    let mut out: Vec<char> = Vec::new();
    if a < b {
        push_range(&mut out, &v, a, b);
    }
    proof {
        assert(trailing_start(v@, b as int) == b);
        if a >= b {
            assert(out@ =~= trim_of(v@));
        } else {
            assert(out@ =~= trim_of(v@));
        }
    }
    string_of(&out)
}

} // verus!
