//! Expiry and least-recently-inserted eviction of cache entries.
use vstd::prelude::*;

verus! {

/// Age of an entry inserted at `t`, seen at `now`; zero for a time before the insert.
pub open spec fn age(t: u64, now: u64) -> nat {
    if now >= t {
        (now - t) as nat
    } else {
        0
    }
}

/// Whether an entry inserted at `t` is still live at `now` under lifetime `ttl`.
pub open spec fn live(t: u64, now: u64, ttl: u64) -> bool {
    age(t, now) <= ttl
}

/// Whether an entry inserted at `t` is still live at `now` under lifetime `ttl`.
pub fn is_live(t: u64, now: u64, ttl: u64) -> (r: bool)
    ensures
        r == live(t, now, ttl),
{
    now.saturating_sub(t) <= ttl
}

/// An entry put at `t` is read back at every time in `[t, t + ttl]` and at no time after.
pub proof fn lemma_ttl_window(t: u64, r: u64, ttl: u64)
    requires
        t <= r,
    ensures
        r <= t + ttl ==> live(t, r, ttl),
        r > t + ttl ==> !live(t, r, ttl),
{
}

/// Sum of the sizes.
pub open spec fn total(sizes: Seq<u64>) -> nat
    decreases sizes.len(),
{
    if sizes.len() == 0 {
        0
    } else {
        total(sizes.drop_last()) + sizes.last() as nat
    }
}

/// Sum of the sizes at the given positions.
pub open spec fn total_at(sizes: Seq<u64>, idx: Seq<usize>) -> nat
    decreases idx.len(),
{
    if idx.len() == 0 {
        0
    } else {
        total_at(sizes, idx.drop_last()) + sizes[idx.last() as int] as nat
    }
}

/// Whether the stamps at positions `order` never decrease.
pub open spec fn ascending(stamps: Seq<u64>, order: Seq<usize>) -> bool {
    forall|a: int, b: int|
        0 <= a < b < order.len() ==> stamps[order[a] as int] <= stamps[order[b] as int]
}

/// The positions `0..n`, each once, in `order`.
pub open spec fn is_permutation(order: Seq<usize>, n: nat) -> bool {
    &&& order.len() == n
    &&& forall|a: int| 0 <= a < order.len() ==> order[a] < n
    &&& forall|a: int, b: int| 0 <= a < b < order.len() ==> order[a] != order[b]
    &&& forall|j: int| 0 <= j < n ==> #[trigger] listed(order, j)
}

/// The positions of the entries by ascending insertion time.
pub fn order_by_stamp(stamps: &Vec<u64>) -> (order: Vec<usize>)
    ensures
        is_permutation(order@, stamps@.len()),
        ascending(stamps@, order@),
{
    let n = stamps.len();
    let mut out: Vec<usize> = Vec::new();
    let mut i: usize = 0;
    while i < n
        invariant
            n == stamps@.len(),
            i <= n,
            is_permutation(out@, i as nat),
            ascending(stamps@, out@),
        decreases n - i,
    {
        let p = stamps[i];
        let mut k: usize = 0;
        while k < out.len() && stamps[out[k]] <= p
            invariant
                n == stamps@.len(),
                i < n,
                k <= out@.len(),
                forall|a: int| 0 <= a < out@.len() ==> out@[a] < i,
                forall|a: int| 0 <= a < k ==> stamps@[out@[a] as int] <= p,
            decreases out@.len() - k,
        {
            k = k + 1;
        }
        let ghost before = out@;
        proof {
            if k < before.len() {
                assert(stamps@[before[k as int] as int] > p);
            }
        }
        out.insert(k, i);
        proof {
            let o = out@;
            assert(o == before.insert(k as int, i));
            assert forall|a: int, b: int| 0 <= a < b < o.len() implies stamps@[o[a] as int]
                <= stamps@[o[b] as int] by {
                if a < k && b == k {
                } else if a == k && b > k {
                    assert(o[b] == before[b - 1]);
                    assert(stamps@[before[k as int] as int] > p);
                    assert(stamps@[before[k as int] as int] <= stamps@[before[b - 1] as int] || b - 1
                        == k);
                } else if a < k && b > k {
                    assert(o[b] == before[b - 1]);
                } else if a > k {
                    assert(o[a] == before[a - 1]);
                    assert(o[b] == before[b - 1]);
                }
            }
            assert forall|a: int, b: int| 0 <= a < b < o.len() implies o[a] != o[b] by {
                if a < k && b > k {
                    assert(o[b] == before[b - 1]);
                } else if a > k {
                    assert(o[a] == before[a - 1]);
                    assert(o[b] == before[b - 1]);
                }
            }
            assert forall|j: int| 0 <= j < i + 1 implies #[trigger] listed(o, j) by {
                if j == i {
                    assert(o[k as int] == j);
                } else {
                    assert(listed(before, j));
                    let a0 = choose|a: int| 0 <= a < before.len() && before[a] == j;
                    if a0 < k {
                        assert(o[a0] == j);
                    } else {
                        assert(o[a0 + 1] == j);
                    }
                }
            }
        }
        i = i + 1;
    }
    out
}

pub proof fn lemma_total_at_step(sizes: Seq<u64>, order: Seq<usize>, m: int)
    requires
        0 <= m < order.len(),
    ensures
        total_at(sizes, order.subrange(0, m + 1)) == total_at(sizes, order.subrange(0, m))
            + sizes[order[m] as int],
{
    assert(order.subrange(0, m + 1).drop_last() =~= order.subrange(0, m));
}

/// Whether position `j` is among `idx`.
pub open spec fn listed(idx: Seq<usize>, j: int) -> bool {
    exists|a: int| 0 <= a < idx.len() && idx[a] == j
}

/// Plans the eviction that brings the entries under `cap` bytes: entries leave
/// by ascending insertion time until the rest fits. Returns the positions that
/// leave, in that order.
pub fn eviction_plan(sizes: &Vec<u64>, stamps: &Vec<u64>, cap: u64) -> (evict: Vec<usize>)
    requires
        sizes@.len() == stamps@.len(),
        total(sizes@) <= u64::MAX,
    ensures
        forall|a: int| 0 <= a < evict@.len() ==> evict@[a] < sizes@.len(),
        forall|a: int, b: int| 0 <= a < b < evict@.len() ==> evict@[a] != evict@[b],
        total(sizes@) - total_at(sizes@, evict@) <= cap,
        total_unlisted(sizes@, evict@, sizes@.len() as int) <= cap,
        total(sizes@) <= cap ==> evict@.len() == 0,
        evict@.len() > 0 ==> total(sizes@) - total_at(sizes@, evict@.drop_last()) > cap,
        forall|a: int, j: int|
            0 <= a < evict@.len() && 0 <= j < sizes@.len() && !listed(evict@, j)
                ==> stamps@[evict@[a] as int] <= stamps@[j],
{
    let n = sizes.len();
    let mut sum: u64 = 0;
    let mut i: usize = 0;
    while i < n
        invariant
            n == sizes@.len(),
            i <= n,
            sum as nat == total(sizes@.subrange(0, i as int)),
            total(sizes@) <= u64::MAX,
        decreases n - i,
    {
        proof {
            assert(sizes@.subrange(0, i + 1).drop_last() =~= sizes@.subrange(0, i as int));
            lemma_total_prefix_le(sizes@, i + 1);
        }
        sum = sum + sizes[i];
        i = i + 1;
    }
    proof {
        assert(sizes@.subrange(0, n as int) =~= sizes@);
    }
    let order = order_by_stamp(stamps);
    let mut evict: Vec<usize> = Vec::new();
    let mut rest: u64 = sum;
    let mut m: usize = 0;
    while rest > cap && m < n
        invariant
            n == sizes@.len(),
            n == stamps@.len(),
            m <= n,
            is_permutation(order@, n as nat),
            ascending(stamps@, order@),
            evict@ == order@.subrange(0, m as int),
            rest as nat == total(sizes@) - total_at(sizes@, evict@),
            total_at(sizes@, evict@) <= total(sizes@),
            m > 0 ==> rest + sizes@[order@[m - 1] as int] > cap,
        decreases n - m,
    {
        let j = order[m];
        proof {
            lemma_total_at_step(sizes@, order@, m as int);
            lemma_total_at_le(sizes@, order@, (m + 1) as int);
        }
        rest = rest - sizes[j];
        evict.push(j);
        m = m + 1;
        proof {
            assert(evict@ =~= order@.subrange(0, m as int));
        }
    }
    proof {
        lemma_stays_total(sizes@, evict@);
        if rest > cap {
            assert(m == n);
            assert(evict@ =~= order@);
            lemma_total_at_le(sizes@, order@, n as int);
            lemma_total_perm(sizes@, order@);
        }
        if m > 0 {
            assert(evict@.drop_last() =~= order@.subrange(0, m - 1));
            lemma_total_at_step(sizes@, order@, m - 1);
        }
        assert forall|a: int, j: int|
            0 <= a < evict@.len() && 0 <= j < sizes@.len() && !listed(evict@, j) implies stamps@[evict@[a] as int]
            <= stamps@[j] by {
            assert(listed(order@, j));
            let b = choose|b: int| 0 <= b < order@.len() && order@[b] == j;
            if b < m {
                assert(evict@[b] == j);
            }
            assert(evict@[a] == order@[a]);
        }
    }
    evict
}

/// Sum of the sizes of the first `n` positions that are not among `idx`:
/// what stays after the positions in `idx` leave.
pub open spec fn total_unlisted(sizes: Seq<u64>, idx: Seq<usize>, n: int) -> nat
    decreases n,
{
    if n <= 0 {
        0
    } else {
        total_unlisted(sizes, idx, n - 1) + if listed(idx, n - 1) {
            0
        } else {
            sizes[n - 1] as nat
        }
    }
}

/// Sum of the sizes of the first `n` positions that are among `idx`.
pub open spec fn total_listed(sizes: Seq<u64>, idx: Seq<usize>, n: int) -> nat
    decreases n,
{
    if n <= 0 {
        0
    } else {
        total_listed(sizes, idx, n - 1) + if listed(idx, n - 1) {
            sizes[n - 1] as nat
        } else {
            0
        }
    }
}

proof fn lemma_listed_split(sizes: Seq<u64>, idx: Seq<usize>, n: int)
    requires
        0 <= n <= sizes.len(),
    ensures
        total_unlisted(sizes, idx, n) + total_listed(sizes, idx, n) == total(sizes.subrange(0, n)),
    decreases n,
{
    if n > 0 {
        lemma_listed_split(sizes, idx, n - 1);
        assert(sizes.subrange(0, n).drop_last() =~= sizes.subrange(0, n - 1));
    }
}

proof fn lemma_listed_same(sizes: Seq<u64>, a: Seq<usize>, b: Seq<usize>, n: int)
    requires
        forall|j: int| 0 <= j < n ==> (listed(a, j) <==> listed(b, j)),
    ensures
        total_listed(sizes, a, n) == total_listed(sizes, b, n),
    decreases n,
{
    if n > 0 {
        lemma_listed_same(sizes, a, b, n - 1);
    }
}

proof fn lemma_listed_total_at(sizes: Seq<u64>, idx: Seq<usize>, k: int)
    requires
        0 <= k <= sizes.len(),
        forall|a: int| 0 <= a < idx.len() ==> idx[a] < k,
        forall|a: int, b: int| 0 <= a < b < idx.len() ==> idx[a] != idx[b],
    ensures
        total_at(sizes, idx) == total_listed(sizes, idx, k),
    decreases k,
{
    if k == 0 {
        if idx.len() > 0 {
            assert(idx[0] < 0);
        }
    } else {
        let j = k - 1;
        if listed(idx, j) {
            let a = choose|a: int| 0 <= a < idx.len() && idx[a] == j;
            let rest = idx.remove(a);
            assert forall|b: int| 0 <= b < rest.len() implies rest[b] < j by {
                if b < a {
                    assert(rest[b] == idx[b]);
                } else {
                    assert(rest[b] == idx[b + 1]);
                }
            }
            assert forall|b: int, c: int| 0 <= b < c < rest.len() implies rest[b] != rest[c] by {
                if c < a {
                } else if b < a {
                    assert(rest[c] == idx[c + 1]);
                } else {
                    assert(rest[b] == idx[b + 1]);
                    assert(rest[c] == idx[c + 1]);
                }
            }
            assert forall|i: int| 0 <= i < j implies (listed(rest, i) <==> listed(idx, i)) by {
                if listed(idx, i) {
                    let c = choose|c: int| 0 <= c < idx.len() && idx[c] == i;
                    if c < a {
                        assert(rest[c] == i);
                    } else {
                        assert(rest[c - 1] == i);
                    }
                }
                if listed(rest, i) {
                    let c = choose|c: int| 0 <= c < rest.len() && rest[c] == i;
                    if c < a {
                        assert(idx[c] == i);
                    } else {
                        assert(idx[c + 1] == i);
                    }
                }
            }
            lemma_listed_total_at(sizes, rest, j);
            lemma_listed_same(sizes, rest, idx, j);
            lemma_total_at_remove(sizes, idx, a);
        } else {
            assert forall|b: int| 0 <= b < idx.len() implies idx[b] < j by {
                assert(idx[b] != j);
            }
            lemma_listed_total_at(sizes, idx, j);
        }
    }
}

/// What stays after an eviction adds up to the total less what leaves.
pub proof fn lemma_stays_total(sizes: Seq<u64>, idx: Seq<usize>)
    requires
        forall|a: int| 0 <= a < idx.len() ==> idx[a] < sizes.len(),
        forall|a: int, b: int| 0 <= a < b < idx.len() ==> idx[a] != idx[b],
    ensures
        total_unlisted(sizes, idx, sizes.len() as int) + total_at(sizes, idx) == total(sizes),
{
    lemma_listed_split(sizes, idx, sizes.len() as int);
    lemma_listed_total_at(sizes, idx, sizes.len() as int);
    assert(sizes.subrange(0, sizes.len() as int) =~= sizes);
}

proof fn lemma_total_prefix_le(sizes: Seq<u64>, i: int)
    requires
        0 <= i <= sizes.len(),
    ensures
        total(sizes.subrange(0, i)) <= total(sizes),
    decreases sizes.len() - i,
{
    if i < sizes.len() {
        lemma_total_prefix_le(sizes, i + 1);
        assert(sizes.subrange(0, i + 1).drop_last() =~= sizes.subrange(0, i));
    } else {
        assert(sizes.subrange(0, i) =~= sizes);
    }
}

/// Summing over distinct positions of `sizes` gives at most the total.
proof fn lemma_total_at_le(sizes: Seq<u64>, order: Seq<usize>, m: int)
    requires
        is_permutation(order, sizes.len()),
        0 <= m <= order.len(),
    ensures
        total_at(sizes, order.subrange(0, m)) <= total(sizes),
{
    let idx = order.subrange(0, m);
    assert forall|a: int, b: int| 0 <= a < b < idx.len() implies idx[a] != idx[b] by {
        assert(idx[a] == order[a] && idx[b] == order[b]);
    }
    assert forall|a: int| 0 <= a < idx.len() implies idx[a] < sizes.len() by {
        assert(idx[a] == order[a]);
    }
    lemma_total_at_distinct(sizes, idx, sizes.len() as int);
    assert(sizes.subrange(0, sizes.len() as int) =~= sizes);
}

/// The sum over distinct positions below `k` is at most the sum of the first `k` sizes.
proof fn lemma_total_at_distinct(sizes: Seq<u64>, idx: Seq<usize>, k: int)
    requires
        0 <= k <= sizes.len(),
        forall|a: int| 0 <= a < idx.len() ==> idx[a] < k,
        forall|a: int, b: int| 0 <= a < b < idx.len() ==> idx[a] != idx[b],
    ensures
        total_at(sizes, idx) <= total(sizes.subrange(0, k)),
    decreases k,
{
    if k == 0 {
        if idx.len() > 0 {
            assert(idx[0] < 0);
        }
    } else {
        let j = k - 1;
        let pre = sizes.subrange(0, k);
        assert(pre.drop_last() =~= sizes.subrange(0, j));
        if exists|a: int| 0 <= a < idx.len() && idx[a] == j {
            let a = choose|a: int| 0 <= a < idx.len() && idx[a] == j;
            let rest = idx.remove(a);
            assert forall|b: int| 0 <= b < rest.len() implies rest[b] < j by {
                if b < a {
                    assert(rest[b] == idx[b]);
                    assert(idx[b] != idx[a]);
                } else {
                    assert(rest[b] == idx[b + 1]);
                    assert(idx[b + 1] != idx[a]);
                }
            }
            assert forall|b: int, c: int| 0 <= b < c < rest.len() implies rest[b] != rest[c] by {
                if c < a {
                } else if b < a {
                    assert(rest[c] == idx[c + 1]);
                } else {
                    assert(rest[b] == idx[b + 1]);
                    assert(rest[c] == idx[c + 1]);
                }
            }
            lemma_total_at_distinct(sizes, rest, j);
            lemma_total_at_remove(sizes, idx, a);
        } else {
            assert forall|b: int| 0 <= b < idx.len() implies idx[b] < j by {
                assert(idx[b] != j);
            }
            lemma_total_at_distinct(sizes, idx, j);
        }
    }
}

proof fn lemma_total_at_remove(sizes: Seq<u64>, idx: Seq<usize>, a: int)
    requires
        0 <= a < idx.len(),
    ensures
        total_at(sizes, idx) == total_at(sizes, idx.remove(a)) + sizes[idx[a] as int],
    decreases idx.len(),
{
    if a == idx.len() - 1 {
        assert(idx.remove(a) =~= idx.drop_last());
    } else {
        lemma_total_at_remove(sizes, idx.drop_last(), a);
        assert(idx.remove(a).drop_last() =~= idx.drop_last().remove(a));
        assert(idx.remove(a).last() == idx.last());
    }
}

/// Summing over a permutation of all positions gives the total.
proof fn lemma_total_perm(sizes: Seq<u64>, order: Seq<usize>)
    requires
        is_permutation(order, sizes.len()),
    ensures
        total_at(sizes, order) == total(sizes),
{
    lemma_total_perm_k(sizes, order, sizes.len() as int);
    assert(sizes.subrange(0, sizes.len() as int) =~= sizes);
}

proof fn lemma_total_perm_k(sizes: Seq<u64>, idx: Seq<usize>, k: int)
    requires
        0 <= k <= sizes.len(),
        forall|a: int| 0 <= a < idx.len() ==> idx[a] < k,
        forall|a: int, b: int| 0 <= a < b < idx.len() ==> idx[a] != idx[b],
        forall|j: int| 0 <= j < k ==> #[trigger] listed(idx, j),
    ensures
        total_at(sizes, idx) == total(sizes.subrange(0, k)),
    decreases k,
{
    if k == 0 {
        if idx.len() > 0 {
            assert(idx[0] < 0);
        }
    } else {
        let j = k - 1;
        assert(sizes.subrange(0, k).drop_last() =~= sizes.subrange(0, j));
        assert(listed(idx, j));
        let a = choose|a: int| 0 <= a < idx.len() && idx[a] == j;
        let rest = idx.remove(a);
        assert forall|b: int| 0 <= b < rest.len() implies rest[b] < j by {
            if b < a {
                assert(rest[b] == idx[b]);
                assert(idx[b] != idx[a]);
            } else {
                assert(rest[b] == idx[b + 1]);
                assert(idx[b + 1] != idx[a]);
            }
        }
        assert forall|b: int, c: int| 0 <= b < c < rest.len() implies rest[b] != rest[c] by {
            if c < a {
            } else if b < a {
                assert(rest[c] == idx[c + 1]);
            } else {
                assert(rest[b] == idx[b + 1]);
                assert(rest[c] == idx[c + 1]);
            }
        }
        assert forall|i: int| 0 <= i < j implies #[trigger] listed(rest, i) by {
            assert(listed(idx, i));
            let c = choose|c: int| 0 <= c < idx.len() && idx[c] == i;
            if c < a {
                assert(rest[c] == i);
            } else {
                assert(c != a);
                assert(rest[c - 1] == i);
            }
        }
        lemma_total_perm_k(sizes, rest, j);
        lemma_total_at_remove(sizes, idx, a);
    }
}

} // verus!
