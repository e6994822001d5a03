//! Store keys: the configured prefix and the routing of keys to their families.
use vstd::prelude::*;
use crate::text::{chars_of, string_of, push_str, push_range, contains, contains_seq, starts_with,
    matches_at, occurs_at};

verus! {

/// `key` under `prefix`: unchanged when it already starts with the prefix.
pub open spec fn full_key_of(prefix: Seq<char>, key: Seq<char>) -> Seq<char> {
    if starts_with(key, prefix) {
        key
    } else {
        prefix + key
    }
}

/// Puts a relative key under the configured prefix; a key that already starts
/// with the prefix passes through.
pub fn full_key(prefix: &str, key: &str) -> (r: String)
    ensures
        r@ == full_key_of(prefix@, key@),
{
    let pv = chars_of(prefix);
    let kv = chars_of(key);
    if matches_at(&kv, &pv, 0) {
        proof {
            assert(occurs_at(kv@, pv@, 0));
        }
        string_of(&kv)
    } else {
        let mut buf = pv;
        push_str(&mut buf, key);
        string_of(&buf)
    }
}

/// What follows the last `/` of `s`; all of `s` when it holds none.
pub open spec fn last_segment(s: Seq<char>) -> Seq<char>
    decreases s.len(),
{
    if s.len() == 0 {
        s
    } else if s.last() == '/' {
        Seq::empty()
    } else {
        last_segment(s.drop_last()).push(s.last())
    }
}

proof fn lemma_last_segment(s: Seq<char>, i: int)
    requires
        0 <= i <= s.len(),
        i == 0 || s[i - 1] == '/',
        forall|j: int| i <= j < s.len() ==> s[j] != '/',
    ensures
        last_segment(s) == s.subrange(i, s.len() as int),
    decreases s.len(),
{
    if s.len() == i {
        if i > 0 {
            assert(last_segment(s) =~= s.subrange(i, s.len() as int));
        } else {
            assert(last_segment(s) =~= s.subrange(i, s.len() as int));
        }
    } else {
        lemma_last_segment(s.drop_last(), i);
        assert(last_segment(s) =~= s.subrange(i, s.len() as int));
    }
}

/// The last path segment of a key.
pub fn key_last_segment(key: &str) -> (r: String)
    ensures
        r@ == last_segment(key@),
{
    let kv = chars_of(key);
    let mut i: usize = kv.len();
    while i > 0 && kv[i - 1] != '/'
        invariant
            i <= kv@.len(),
            forall|j: int| i <= j < kv@.len() ==> kv@[j] != '/',
        decreases i,
    {
        i = i - 1;
    }
    proof {
        lemma_last_segment(kv@, i as int);
    }
    let mut out: Vec<char> = Vec::new();
    push_range(&mut out, &kv, i, kv.len());
    proof {
        assert(out@ =~= kv@.subrange(i as int, kv@.len() as int));
    }
    string_of(&out)
}

/// The families of keys under the prefix.
#[derive(Debug, Clone, Copy, PartialEq, Eq, Structural)]
pub enum KeyKind {
    /// `.../dns/zones/<zone>`
    Zone,
    /// `.../dhcp/scopes/<scope>`
    Scope,
    /// `.../dhcp/ha-pairs/<pair>/nodes/<node>/status`
    HaStatus,
    /// `.../threats/domains/<domain>`
    Threat,
    /// `.../policies/<id>`
    Policy,
    /// `.../role-mappings/<address or subnet>`
    RoleMapping,
    /// `.../audit/lynis/<node>`
    Audit,
    Other,
}

pub open spec fn ends_with(s: Seq<char>, p: Seq<char>) -> bool {
    p.len() <= s.len() && s.subrange(s.len() - p.len(), s.len() as int) == p
}

/// The family of a key, by the path segments it holds, tried in the order of
/// the variants. A zone key ending in `/zonefile` belongs to no family.
pub open spec fn kind_of(k: Seq<char>) -> KeyKind {
    if contains(k, "/dns/zones/"@) && !ends_with(k, "/zonefile"@) {
        KeyKind::Zone
    } else if contains(k, "/dhcp/scopes/"@) {
        KeyKind::Scope
    } else if contains(k, "/dhcp/ha-pairs/"@) {
        KeyKind::HaStatus
    } else if contains(k, "/threats/domains/"@) {
        KeyKind::Threat
    } else if contains(k, "/policies/"@) {
        KeyKind::Policy
    } else if contains(k, "/role-mappings/"@) {
        KeyKind::RoleMapping
    } else if contains(k, "/audit/lynis/"@) {
        KeyKind::Audit
    } else {
        KeyKind::Other
    }
}

fn has_suffix(s: &Vec<char>, p: &Vec<char>) -> (r: bool)
    ensures
        r == ends_with(s@, p@),
{
    if p.len() > s.len() {
        return false;
    }
    let r = matches_at(s, p, s.len() - p.len());
    r
}

fn has(s: &Vec<char>, p: &str) -> (r: bool)
    ensures
        r == contains(s@, p@),
{
    let pv = chars_of(p);
    contains_seq(s, &pv)
}

/// The family of a key.
pub fn classify_key(key: &str) -> (r: KeyKind)
    ensures
        r == kind_of(key@),
{
    let kv = chars_of(key);
    let zf = chars_of("/zonefile");
    if has(&kv, "/dns/zones/") && !has_suffix(&kv, &zf) {
        KeyKind::Zone
    } else if has(&kv, "/dhcp/scopes/") {
        KeyKind::Scope
    } else if has(&kv, "/dhcp/ha-pairs/") {
        KeyKind::HaStatus
    } else if has(&kv, "/threats/domains/") {
        KeyKind::Threat
    } else if has(&kv, "/policies/") {
        KeyKind::Policy
    } else if has(&kv, "/role-mappings/") {
        KeyKind::RoleMapping
    } else if has(&kv, "/audit/lynis/") {
        KeyKind::Audit
    } else {
        KeyKind::Other
    }
}

} // verus!
