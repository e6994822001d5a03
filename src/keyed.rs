//! Lists of items with unique keys, kept in the order in which keys first arrived.
use vstd::prelude::*;
use crate::text::chars_of;

verus! {

/// An item that carries a textual key.
pub trait Keyed {
    spec fn key_view(&self) -> Seq<char>;

    fn key(&self) -> (r: &str)
        ensures
            r@ == self.key_view();
}

/// `s` with `a` in place of the first item of the same key, or `a` appended
/// when no item has that key.
pub open spec fn upsert<A: Keyed>(s: Seq<A>, a: A) -> Seq<A>
    decreases s.len(),
{
    if s.len() == 0 {
        seq![a]
    } else if s[0].key_view() == a.key_view() {
        seq![a] + s.skip(1)
    } else {
        seq![s[0]] + upsert(s.skip(1), a)
    }
}

/// Whether no two items of `s` share a key.
pub open spec fn keys_unique<A: Keyed>(s: Seq<A>) -> bool {
    forall|i: int, j: int|
        0 <= i < s.len() && 0 <= j < s.len() && i != j ==> s[i].key_view() != s[j].key_view()
}

/// Whether some item of `s` has key `k`.
pub open spec fn has_key<A: Keyed>(s: Seq<A>, k: Seq<char>) -> bool {
    exists|i: int| 0 <= i < s.len() && s[i].key_view() == k
}

pub proof fn lemma_upsert_at<A: Keyed>(s: Seq<A>, a: A, i: int)
    requires
        0 <= i < s.len(),
        s[i].key_view() == a.key_view(),
        forall|j: int| 0 <= j < i ==> s[j].key_view() != a.key_view(),
    ensures
        upsert(s, a) == s.update(i, a),
    decreases s.len(),
{
    if i == 0 {
        assert(upsert(s, a) =~= s.update(i, a));
    } else {
        lemma_upsert_at(s.skip(1), a, i - 1);
        assert(upsert(s, a) =~= s.update(i, a));
    }
}

pub proof fn lemma_upsert_absent<A: Keyed>(s: Seq<A>, a: A)
    requires
        forall|j: int| 0 <= j < s.len() ==> s[j].key_view() != a.key_view(),
    ensures
        upsert(s, a) == s.push(a),
    decreases s.len(),
{
    if s.len() == 0 {
        assert(upsert(s, a) =~= s.push(a));
    } else {
        lemma_upsert_absent(s.skip(1), a);
        assert(upsert(s, a) =~= s.push(a));
    }
}

/// Putting the same item twice leaves what putting it once left.
pub proof fn lemma_upsert_idempotent<A: Keyed>(s: Seq<A>, a: A)
    ensures
        upsert(upsert(s, a), a) == upsert(s, a),
    decreases s.len(),
{
    if s.len() == 0 {
        assert(upsert(s, a).skip(1) =~= Seq::<A>::empty());
        assert(upsert(upsert(s, a), a) =~= upsert(s, a));
    } else if s[0].key_view() == a.key_view() {
        let u = upsert(s, a);
        assert(u.skip(1) =~= s.skip(1));
        assert(upsert(u, a) =~= u);
    } else {
        lemma_upsert_idempotent(s.skip(1), a);
        let u = upsert(s, a);
        assert(u.skip(1) =~= upsert(s.skip(1), a));
        assert(upsert(u, a) =~= u);
    }
}

/// Putting an item keeps keys unique.
pub proof fn lemma_upsert_unique<A: Keyed>(s: Seq<A>, a: A)
    requires
        keys_unique(s),
    ensures
        keys_unique(upsert(s, a)),
        has_key(upsert(s, a), a.key_view()),
        exists|i: int| 0 <= i < upsert(s, a).len() && upsert(s, a)[i] == a,
{
    if exists|i: int| 0 <= i < s.len() && s[i].key_view() == a.key_view() {
        let i = choose|i: int| 0 <= i < s.len() && s[i].key_view() == a.key_view();
        assert forall|j: int| 0 <= j < i implies s[j].key_view() != a.key_view() by {}
        lemma_upsert_at(s, a, i);
        assert(upsert(s, a)[i].key_view() == a.key_view());
        assert(upsert(s, a)[i] == a);
    } else {
        lemma_upsert_absent(s, a);
        assert(upsert(s, a)[s.len() as int].key_view() == a.key_view());
        assert(upsert(s, a)[s.len() as int] == a);
    }
}

/// The position of the first item with key `k`, if any.
pub fn find_key<A: Keyed>(v: &Vec<A>, k: &str) -> (r: Option<usize>)
    ensures
        match r {
            Some(i) => i < v@.len() && v@[i as int].key_view() == k@ && forall|j: int|
                0 <= j < i ==> v@[j].key_view() != k@,
            None => forall|j: int| 0 <= j < v@.len() ==> v@[j].key_view() != k@,
        },
{
    let kv = chars_of(k);
    let mut i: usize = 0;
    while i < v.len()
        invariant
            i <= v@.len(),
            kv@ == k@,
            forall|j: int| 0 <= j < i ==> v@[j].key_view() != k@,
        decreases v@.len() - i,
    {
        let cv = chars_of(v[i].key());
        if same_chars(&cv, &kv) {
            return Some(i);
        }
        i = i + 1;
    }
    None
}

/// Whether two character sequences are equal.
pub fn same_chars(a: &Vec<char>, b: &Vec<char>) -> (r: bool)
    ensures
        r == (a@ == b@),
{
    if a.len() != b.len() {
        return false;
    }
    let mut i: usize = 0;
    while i < a.len()
        invariant
            a@.len() == b@.len(),
            i <= a@.len(),
            forall|j: int| 0 <= j < i ==> a@[j] == b@[j],
        decreases a@.len() - i,
    {
        if a[i] != b[i] {
            return false;
        }
        i = i + 1;
    }
    proof {
        assert(a@ =~= b@);
    }
    true
}

/// Puts `a` in place of the item of the same key, or appends it.
pub fn upsert_vec<A: Keyed>(v: &mut Vec<A>, a: A)
    ensures
        final(v)@ == upsert(old(v)@, a),
{
    match find_key(v, a.key()) {
        Some(i) => {
            proof {
                lemma_upsert_at(v@, a, i as int);
            }
            v.set(i, a);
        },
        None => {
            proof {
                lemma_upsert_absent(v@, a);
            }
            v.push(a);
        },
    }
}

} // verus!
