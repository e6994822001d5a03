//! The local cache: an embedded ordered key-value store whose entries carry
//! their insertion time, expire after a lifetime and are evicted oldest first
//! when the store outgrows its cap.
use vstd::prelude::*;

use vstd::string::{StrSliceExecFns, StringSliceAdditionalSpecFns};
use crate::config::CacheConfig;
use crate::entry::{encode_entry, decode_entry, decode_entry_spec, entry_bytes};
use crate::eviction::{total_unlisted, live, is_live, total, total_at, eviction_plan, listed};

verus! {

#[verifier::external_type_specification]
#[verifier::external_body]
pub struct ExDb(sled::Db);

#[verifier::external_type_specification]
#[verifier::external_body]
pub struct ExSledError(sled::Error);

/// What a database holds: stored bytes by key.
pub uninterp spec fn db_contents(db: sled::Db) -> Map<Seq<u8>, Seq<u8>>;

/// Relies on `sled::open`: opens, or creates, the database at `path`.
#[verifier::external_body]
fn db_open(path: &str) -> (r: Result<sled::Db, sled::Error>) {
    sled::open(path)
}

/// Relies on `sled::Tree::get`: the bytes stored under `key`, if any.
#[verifier::external_body]
fn db_get(db: &sled::Db, key: &Vec<u8>) -> (r: Result<Option<Vec<u8>>, sled::Error>)
    ensures
        r is Ok ==> (r->Ok_0 is Some <==> db_contents(*db).contains_key(key@)),
        r is Ok && r->Ok_0 is Some ==> r->Ok_0->0@ == db_contents(*db)[key@],
{
    match db.get(key.as_slice()) {
        Ok(Some(v)) => Ok(Some(v.to_vec())),
        Ok(None) => Ok(None),
        Err(e) => Err(e),
    }
}

/// Relies on `sled::Tree::insert`: afterwards `key` holds `value`.
#[verifier::external_body]
fn db_insert(db: &mut sled::Db, key: &Vec<u8>, value: Vec<u8>) -> (r: Result<(), sled::Error>)
    ensures
        r is Ok ==> db_contents(*final(db)) == db_contents(*old(db)).insert(key@, value@),
{
    match db.insert(key.as_slice(), value) {
        Ok(_) => Ok(()),
        Err(e) => Err(e),
    }
}

/// Relies on `sled::Tree::remove`: afterwards `key` holds nothing.
#[verifier::external_body]
fn db_remove(db: &mut sled::Db, key: &Vec<u8>) -> (r: Result<(), sled::Error>)
    ensures
        r is Ok ==> db_contents(*final(db)) == db_contents(*old(db)).remove(key@),
{
    match db.remove(key.as_slice()) {
        Ok(_) => Ok(()),
        Err(e) => Err(e),
    }
}

/// Whether key `a` comes before key `b` in byte-wise lexicographic order.
pub open spec fn key_before(a: Seq<u8>, b: Seq<u8>) -> bool
    decreases a.len(),
{
    if a.len() == 0 {
        b.len() > 0
    } else if b.len() == 0 {
        false
    } else if a[0] != b[0] {
        a[0] < b[0]
    } else {
        key_before(a.skip(1), b.skip(1))
    }
}

/// Whether the keys of `es` ascend.
pub open spec fn keys_ascend(es: Seq<(Vec<u8>, Vec<u8>)>) -> bool {
    forall|i: int, j: int| 0 <= i < j < es.len() ==> key_before(es[i].0@, es[j].0@)
}

/// Whether `es` lists the pairs of `m`, each key once.
pub open spec fn entries_match(es: Seq<(Vec<u8>, Vec<u8>)>, m: Map<Seq<u8>, Seq<u8>>) -> bool {
    &&& forall|i: int, j: int| 0 <= i < j < es.len() ==> es[i].0@ != es[j].0@
    &&& forall|i: int|
        0 <= i < es.len() ==> m.contains_key(#[trigger] es[i].0@) && m[es[i].0@] == es[i].1@
    &&& forall|k: Seq<u8>| m.contains_key(k) ==> exists|i: int| 0 <= i < es.len() && es[i].0@ == k
}

/// Relies on `sled::Tree::iter`: every stored pair, each key once, in
/// ascending key order.
#[verifier::external_body]
fn db_entries(db: &sled::Db) -> (r: Result<Vec<(Vec<u8>, Vec<u8>)>, sled::Error>)
    ensures
        r is Ok ==> entries_match(r->Ok_0@, db_contents(*db)),
        r is Ok ==> keys_ascend(r->Ok_0@),
{
    db.iter().map(|item| item.map(|(k, v)| (k.to_vec(), v.to_vec()))).collect()
}

/// A store that holds nothing.
pub open spec fn empty_store() -> Map<Seq<u8>, Seq<u8>> {
    Map::empty()
}

/// Relies on `sled::Tree::clear`: afterwards the tree holds nothing.
#[verifier::external_body]
fn db_clear(db: &mut sled::Db) -> (r: Result<(), sled::Error>)
    ensures
        r is Ok ==> db_contents(*final(db)) == empty_store(),
{
    db.clear()
}

/// Relies on `sled::Tree::len`: the number of stored pairs.
#[verifier::external_body]
fn db_len(db: &sled::Db) -> (r: usize)
    ensures
        r as nat == db_contents(*db).dom().len(),
{
    db.len()
}

/// Relies on `sled::Tree::flush`: writes buffered changes to disk.
#[verifier::external_body]
fn db_flush(db: &sled::Db) -> (r: Result<(), sled::Error>) {
    match db.flush() {
        Ok(_) => Ok(()),
        Err(e) => Err(e),
    }
}

/// Failures of the cache.
#[derive(Debug, Clone, Copy, PartialEq, Eq, Structural)]
pub enum CacheError {
    /// The embedded store reported an error.
    Store,
    /// The sizes of the stored pairs add up beyond what a `u64` holds.
    SizeOverflow,
}

/// What a lookup of `k` at `now` finds in `m`: the value of a live entry.
pub open spec fn cache_lookup(m: Map<Seq<u8>, Seq<u8>>, k: Seq<u8>, now: u64, ttl: u64) -> Option<Seq<u8>> {
    if m.contains_key(k) {
        match decode_entry_spec(m[k]) {
            Some(e) => if live(e.1, now, ttl) {
                Some(e.0)
            } else {
                None
            },
            None => None,
        }
    } else {
        None
    }
}

/// Whether stored bytes are an entry that is no longer live at `now`.
pub open spec fn expired(b: Seq<u8>, now: u64, ttl: u64) -> bool {
    match decode_entry_spec(b) {
        Some(e) => !live(e.1, now, ttl),
        None => false,
    }
}

/// Whether `after` is `before` less the pairs that satisfy `gone`.
pub open spec fn removed_where(
    before: Map<Seq<u8>, Seq<u8>>,
    after: Map<Seq<u8>, Seq<u8>>,
    gone: spec_fn(Seq<u8>) -> bool,
) -> bool {
    forall|k: Seq<u8>|
        #![trigger after.contains_key(k)]
        #![trigger before.contains_key(k)]
        (after.contains_key(k) <==> before.contains_key(k) && !gone(k)) && (after.contains_key(k)
            ==> after[k] == before[k])
}

pub open spec fn opt_bytes(v: Option<Vec<u8>>) -> Option<Seq<u8>> {
    match v {
        Some(b) => Some(b@),
        None => None,
    }
}

/// Size of a stored pair: key bytes and stored bytes.
pub open spec fn pair_size(e: (Vec<u8>, Vec<u8>)) -> u64 {
    (e.0@.len() + e.1@.len()) as u64
}

/// Insertion time of a stored pair; zero for bytes that are no entry.
pub open spec fn pair_stamp(e: (Vec<u8>, Vec<u8>)) -> u64 {
    match decode_entry_spec(e.1@) {
        Some(d) => d.1,
        None => 0,
    }
}

/// Whether `p` is a prefix of `s`.
pub open spec fn starts_with_bytes(s: Seq<u8>, p: Seq<u8>) -> bool {
    p.len() <= s.len() && s.subrange(0, p.len() as int) == p
}

fn has_byte_prefix(s: &Vec<u8>, p: &Vec<u8>) -> (r: bool)
    ensures
        r == starts_with_bytes(s@, p@),
{
    if p.len() > s.len() {
        return false;
    }
    let mut i: usize = 0;
    while i < p.len()
        invariant
            p@.len() <= s@.len(),
            i <= p@.len(),
            forall|j: int| 0 <= j < i ==> s@[j] == p@[j],
        decreases p@.len() - i,
    {
        if s[i] != p[i] {
            proof {
                assert(s@.subrange(0, p@.len() as int)[i as int] != p@[i as int]);
            }
            return false;
        }
        i = i + 1;
    }
    proof {
        assert(s@.subrange(0, p@.len() as int) =~= p@);
    }
    true
}

fn copy_bytes(s: &Vec<u8>) -> (r: Vec<u8>)
    ensures
        r@ == s@,
{
    let mut out: Vec<u8> = Vec::new();
    let mut i: usize = 0;
    while i < s.len()
        invariant
            i <= s@.len(),
            out@ == s@.subrange(0, i as int),
        decreases s@.len() - i,
    {
        out.push(s[i]);
        i = i + 1;
        proof {
            assert(out@ =~= s@.subrange(0, i as int));
        }
    }
    proof {
        assert(out@ =~= s@);
    }
    out
}

/// Whether one of the first `a` planned positions of `es` holds key `k`.
pub open spec fn planned(es: Seq<(Vec<u8>, Vec<u8>)>, ev: Seq<usize>, k: Seq<u8>, a: int) -> bool {
    exists|b: int| 0 <= b < a && es[ev[b] as int].0@ == k
}

/// Whether evicting positions `ev` of pairs `es` is what the eviction plan
/// asks under `cap`: the sizes of the pairs that stay add up to at most the
/// cap; nothing leaves when all fits; otherwise pairs leave until the rest fits
/// and no sooner; and no pair that stays is older than one that leaves.
pub open spec fn plan_holds(es: Seq<(Vec<u8>, Vec<u8>)>, ev: Seq<usize>, cap: u64) -> bool {
    let sizes = es.map_values(|e: (Vec<u8>, Vec<u8>)| pair_size(e));
    let stamps = es.map_values(|e: (Vec<u8>, Vec<u8>)| pair_stamp(e));
    &&& forall|a: int| 0 <= a < ev.len() ==> ev[a] < es.len()
    &&& forall|a: int, b: int| 0 <= a < b < ev.len() ==> ev[a] != ev[b]
    &&& total(sizes) - total_at(sizes, ev) <= cap
    &&& total_unlisted(sizes, ev, es.len() as int) <= cap
    &&& total(sizes) <= cap ==> ev.len() == 0
    &&& ev.len() > 0 ==> total(sizes) - total_at(sizes, ev.drop_last()) > cap
    &&& forall|a: int, j: int|
        0 <= a < ev.len() && 0 <= j < es.len() && !listed(ev, j) ==> stamps[ev[a] as int] <= stamps[j]
}

/// Whether `after` is `before` less the pairs that an eviction under `cap`
/// removes: the oldest entries, until the rest fits.
pub open spec fn evicted_oldest(before: Map<Seq<u8>, Seq<u8>>, after: Map<Seq<u8>, Seq<u8>>, cap: u64) -> bool {
    exists|es: Seq<(Vec<u8>, Vec<u8>)>, ev: Seq<usize>|
        entries_match(es, before) && plan_holds(es, ev, cap) && removed_where(
            before,
            after,
            |k: Seq<u8>| planned(es, ev, k, ev.len() as int),
        )
}

/// Whether a pair among the first `i` of `es` has key `k`.
pub open spec fn seen(es: Seq<(Vec<u8>, Vec<u8>)>, k: Seq<u8>, i: int) -> bool {
    exists|j: int| 0 <= j < i && es[j].0@ == k
}

/// Whether a pair among the first `i` of `es` has key `k` and has expired.
pub open spec fn gone_before(es: Seq<(Vec<u8>, Vec<u8>)>, k: Seq<u8>, i: int, now: u64, ttl: u64) -> bool {
    exists|j: int| 0 <= j < i && es[j].0@ == k && expired(es[j].1@, now, ttl)
}

/// After a put of `v` at `t`, a read of the key at any `r` in `[t, t + ttl]`
/// finds `v`, and a read after `t + ttl` finds nothing.
pub proof fn lemma_put_then_get(m: Map<Seq<u8>, Seq<u8>>, k: Seq<u8>, v: Seq<u8>, t: u64, r: u64, ttl: u64)
    requires
        t <= r,
        v.len() < 0x1_0000_0000_0000_0000,
    ensures
        r <= t + ttl ==> cache_lookup(m.insert(k, entry_bytes(v, t)), k, r, ttl) == Some(v),
        r > t + ttl ==> cache_lookup(m.insert(k, entry_bytes(v, t)), k, r, ttl) is None,
{
    crate::entry::lemma_entry_round_trip(v, t);
}

/// The cache: an embedded store, an entry lifetime and a size cap.
pub struct CacheManager {
    db: sled::Db,
    ttl_secs: u64,
    max_size_bytes: u64,
}

impl CacheManager {
    /// What the store holds.
    pub closed spec fn contents(&self) -> Map<Seq<u8>, Seq<u8>> {
        db_contents(self.db)
    }

    /// Lifetime of an entry, in seconds.
    pub closed spec fn ttl(&self) -> u64 {
        self.ttl_secs
    }

    /// Cap on the stored bytes.
    pub closed spec fn cap(&self) -> u64 {
        self.max_size_bytes
    }

    /// Opens the cache at the configured path, with the configured lifetime and cap.
    pub fn new(config: &CacheConfig) -> (r: Result<CacheManager, CacheError>)
        ensures
            r is Ok ==> r->Ok_0.ttl() == config.default_ttl_secs,
            r is Ok ==> r->Ok_0.cap() as int == if config.max_size_mb * 1048576 <= u64::MAX {
                config.max_size_mb * 1048576
            } else {
                u64::MAX as int
            },
    {
        let cap: u64 = if config.max_size_mb <= u64::MAX / 1048576 {
            config.max_size_mb * 1048576
        } else {
            u64::MAX
        };
        match db_open(config.path.as_str()) {
            Ok(db) => Ok(CacheManager { db, ttl_secs: config.default_ttl_secs, max_size_bytes: cap }),
            Err(_) => Err(CacheError::Store),
        }
    }

    /// The value under `key` at time `now`, if its entry is live. An expired
    /// entry is removed on the way; a failure of the store, on the read or on
    /// that removal, is an error.
    pub fn get(&mut self, key: &str, now: u64) -> (r: Result<Option<Vec<u8>>, CacheError>)
        ensures
            r is Ok ==> opt_bytes(r->Ok_0) == cache_lookup(old(self).contents(), key.spec_bytes(), now, old(self).ttl()),
            final(self).ttl() == old(self).ttl(),
            final(self).cap() == old(self).cap(),
            r is Ok ==> final(self).contents() == (if old(self).contents().contains_key(key.spec_bytes())
                && expired(old(self).contents()[key.spec_bytes()], now, old(self).ttl()) {
                old(self).contents().remove(key.spec_bytes())
            } else {
                old(self).contents()
            }),
    {
        let k = key.as_bytes_vec();
        match db_get(&self.db, &k) {
            Ok(Some(b)) => {
                match decode_entry(&b) {
                    Some((v, t)) => {
                        if is_live(t, now, self.ttl_secs) {
                            Ok(Some(v))
                        } else {
                            match db_remove(&mut self.db, &k) {
                                Ok(()) => Ok(None),
                                Err(_) => Err(CacheError::Store),
                            }
                        }
                    },
                    None => Ok(None),
                }
            },
            Ok(None) => Ok(None),
            Err(_) => Err(CacheError::Store),
        }
    }

    /// Stores `value` under `key`, stamped with `now`.
    pub fn put(&mut self, key: &str, value: &[u8], now: u64) -> (r: Result<(), CacheError>)
        ensures
            r is Ok ==> final(self).contents() == old(self).contents().insert(
                key.spec_bytes(),
                entry_bytes(value@, now),
            ),
            final(self).ttl() == old(self).ttl(),
            final(self).cap() == old(self).cap(),
    {
        let k = key.as_bytes_vec();
        let v = vstd::slice::slice_to_vec(value);
        let b = encode_entry(&v, now);
        match db_insert(&mut self.db, &k, b) {
            Ok(()) => Ok(()),
            Err(_) => Err(CacheError::Store),
        }
    }

    /// Removes the entry under `key`.
    pub fn delete(&mut self, key: &str) -> (r: Result<(), CacheError>)
        ensures
            r is Ok ==> final(self).contents() == old(self).contents().remove(key.spec_bytes()),
            final(self).ttl() == old(self).ttl(),
            final(self).cap() == old(self).cap(),
    {
        let k = key.as_bytes_vec();
        match db_remove(&mut self.db, &k) {
            Ok(()) => Ok(()),
            Err(_) => Err(CacheError::Store),
        }
    }

    /// Removes every entry.
    pub fn clear(&mut self) -> (r: Result<(), CacheError>)
        ensures
            r is Ok ==> final(self).contents() == empty_store(),
            final(self).ttl() == old(self).ttl(),
            final(self).cap() == old(self).cap(),
    {
        match db_clear(&mut self.db) {
            Ok(()) => Ok(()),
            Err(_) => Err(CacheError::Store),
        }
    }

    /// The number of stored entries.
    pub fn size(&self) -> (r: usize)
        ensures
            r as nat == self.contents().dom().len(),
    {
        db_len(&self.db)
    }

    /// The live entries whose keys start with `prefix`, as key and value bytes,
    /// in ascending key order.
    pub fn list_prefix(&self, prefix: &str, now: u64) -> (r: Result<Vec<(Vec<u8>, Vec<u8>)>, CacheError>)
        ensures
            r is Ok ==> forall|i: int|
                0 <= i < r->Ok_0@.len() ==> starts_with_bytes(#[trigger] r->Ok_0@[i].0@, prefix.spec_bytes())
                    && cache_lookup(self.contents(), r->Ok_0@[i].0@, now, self.ttl()) == Some(
                    r->Ok_0@[i].1@,
                ),
            r is Ok ==> keys_ascend(r->Ok_0@),
            r is Ok ==> forall|k: Seq<u8>|
                #![trigger self.contents().contains_key(k)]
                self.contents().contains_key(k) && starts_with_bytes(k, prefix.spec_bytes())
                    && cache_lookup(self.contents(), k, now, self.ttl()) is Some ==> exists|i: int|
                    0 <= i < r->Ok_0@.len() && r->Ok_0@[i].0@ == k,
    {
        let p = prefix.as_bytes_vec();
        let es = match db_entries(&self.db) {
            Ok(es) => es,
            Err(_) => {
                return Err(CacheError::Store);
            },
        };
        let ghost m = self.contents();
        let mut out: Vec<(Vec<u8>, Vec<u8>)> = Vec::new();
        let mut i: usize = 0;
        while i < es.len()
            invariant
                i <= es@.len(),
                entries_match(es@, m),
                m == self.contents(),
                p@ == prefix.spec_bytes(),
                forall|a: int|
                    0 <= a < out@.len() ==> starts_with_bytes(#[trigger] out@[a].0@, p@) && cache_lookup(
                        m,
                        out@[a].0@,
                        now,
                        self.ttl(),
                    ) == Some(out@[a].1@) && seen(es@, out@[a].0@, i as int),
                keys_ascend(es@),
                keys_ascend(out@),
                forall|j: int|
                    0 <= j < i && starts_with_bytes(#[trigger] es@[j].0@, p@) && cache_lookup(
                        m,
                        es@[j].0@,
                        now,
                        self.ttl(),
                    ) is Some ==> exists|a: int| 0 <= a < out@.len() && out@[a].0@ == es@[j].0@,
            decreases es@.len() - i,
        {
            let k = &es[i].0;
            let ghost before = out@;
            proof {
                assert(m.contains_key(es@[i as int].0@) && m[es@[i as int].0@] == es@[i as int].1@);
            }
            if has_byte_prefix(k, &p) {
                match decode_entry(&es[i].1) {
                    Some((v, t)) => {
                        if is_live(t, now, self.ttl_secs) {
                            proof {
                                assert forall|a: int| 0 <= a < before.len() implies key_before(before[a].0@, k@) by {
                                    let j = choose|j: int| 0 <= j < i && es@[j].0@ == before[a].0@;
                                }
                            }
                            out.push((copy_bytes(k), v));
                            proof {
                                assert(out@[before.len() as int].0@ == es@[i as int].0@);
                                assert forall|a: int| 0 <= a < before.len() implies out@[a] == before[a] by {}
                            }
                        }
                    },
                    None => {},
                }
            }
            proof {
                assert forall|a: int| 0 <= a < before.len() implies out@[a] == before[a] by {}
                assert forall|j: int|
                    0 <= j < i + 1 && starts_with_bytes(#[trigger] es@[j].0@, p@) && cache_lookup(
                        m,
                        es@[j].0@,
                        now,
                        self.ttl(),
                    ) is Some implies exists|a: int| 0 <= a < out@.len() && out@[a].0@ == es@[j].0@ by {
                    if j < i {
                        let a = choose|a: int| 0 <= a < before.len() && before[a].0@ == es@[j].0@;
                        assert(out@[a] == before[a]);
                    } else {
                        assert(out@[before.len() as int].0@ == es@[j].0@);
                    }
                }
                assert forall|a: int| 0 <= a < out@.len() implies #[trigger] seen(es@, out@[a].0@, i + 1) by {
                    if a < before.len() {
                        let j = choose|j: int| 0 <= j < i && es@[j].0@ == before[a].0@;
                        assert(out@[a] == before[a]);
                    } else {
                        assert(es@[i as int].0@ == out@[a].0@);
                    }
                }
                assert forall|a: int| 0 <= a < out@.len() implies starts_with_bytes(#[trigger] out@[a].0@, p@) && cache_lookup(
                        m,
                        out@[a].0@,
                        now,
                        self.ttl(),
                    ) == Some(out@[a].1@) && seen(es@, out@[a].0@, i + 1) by {
                    assert(seen(es@, out@[a].0@, i + 1));
                }
            }
            i = i + 1;
        }
        proof {
            assert forall|k: Seq<u8>|
                #![trigger m.contains_key(k)]
                m.contains_key(k) && starts_with_bytes(k, p@) && cache_lookup(m, k, now, self.ttl()) is Some
                    implies exists|a: int| 0 <= a < out@.len() && out@[a].0@ == k by {
                let j = choose|j: int| 0 <= j < es@.len() && es@[j].0@ == k;
                assert(starts_with_bytes(es@[j].0@, p@));
            }
        }
        Ok(out)
    }

    /// Removes the entries that are no longer live at `now`.
    pub fn sweep_expired(&mut self, now: u64) -> (r: Result<(), CacheError>)
        ensures
            r is Ok ==> removed_where(
                old(self).contents(),
                final(self).contents(),
                |k: Seq<u8>| expired(old(self).contents()[k], now, old(self).ttl()),
            ),
            final(self).ttl() == old(self).ttl(),
            final(self).cap() == old(self).cap(),
    {
        let es = match db_entries(&self.db) {
            Ok(es) => es,
            Err(_) => {
                return Err(CacheError::Store);
            },
        };
        let ghost m = self.contents();
        let ghost ttl = self.ttl();
        let mut i: usize = 0;
        while i < es.len()
            invariant
                i <= es@.len(),
                entries_match(es@, m),
                ttl == self.ttl(),
                ttl == old(self).ttl(),
                self.cap() == old(self).cap(),
                m == old(self).contents(),
                forall|k: Seq<u8>|
                    #![trigger self.contents().contains_key(k)]
                    (self.contents().contains_key(k) <==> m.contains_key(k) && !gone_before(es@, k, i as int, now, ttl))
                        && (self.contents().contains_key(k) ==> self.contents()[k] == m[k]),
            decreases es@.len() - i,
        {
            let ghost cur = self.contents();
            let ghost key = es@[i as int].0@;
            let mut removed = false;
            match decode_entry(&es[i].1) {
                Some((_, t)) => {
                    if !is_live(t, now, self.ttl_secs) {
                        match db_remove(&mut self.db, &es[i].0) {
                            Ok(()) => {
                                removed = true;
                            },
                            Err(_) => {
                                return Err(CacheError::Store);
                            },
                        }
                    }
                },
                None => {},
            }
            proof {
                assert(removed == expired(es@[i as int].1@, now, ttl));
                if removed {
                    assert(self.contents() == cur.remove(key));
                } else {
                    assert(self.contents() == cur);
                }
                assert forall|k: Seq<u8>|
                    gone_before(es@, k, i + 1, now, ttl) == (gone_before(es@, k, i as int, now, ttl) || (
                    es@[i as int].0@ == k && expired(es@[i as int].1@, now, ttl))) by {
                    if gone_before(es@, k, i + 1, now, ttl) {
                        let j = choose|j: int| 0 <= j < i + 1 && es@[j].0@ == k && expired(es@[j].1@, now, ttl);
                        if j < i {
                            assert(gone_before(es@, k, i as int, now, ttl));
                        }
                    }
                    if gone_before(es@, k, i as int, now, ttl) {
                        let j = choose|j: int| 0 <= j < i && es@[j].0@ == k && expired(es@[j].1@, now, ttl);
                        assert(0 <= j < i + 1 && es@[j].0@ == k && expired(es@[j].1@, now, ttl));
                    }
                    if es@[i as int].0@ == k && expired(es@[i as int].1@, now, ttl) {
                        assert(0 <= i < i + 1 && es@[i as int].0@ == k && expired(es@[i as int].1@, now, ttl));
                    }
                }
                assert forall|k: Seq<u8>|
                    #![trigger self.contents().contains_key(k)]
                    (self.contents().contains_key(k) <==> m.contains_key(k) && !gone_before(es@, k, i + 1, now, ttl))
                        && (self.contents().contains_key(k) ==> self.contents()[k] == m[k]) by {
                    assert(cur.contains_key(k) <==> m.contains_key(k) && !gone_before(es@, k, i as int, now, ttl));
                    if removed && k == key {
                        assert(gone_before(es@, k, i + 1, now, ttl));
                    }
                }
            }
            i = i + 1;
        }
        proof {
            assert forall|k: Seq<u8>| #![trigger m.contains_key(k)] m.contains_key(k) implies (
            gone_before(es@, k, es@.len() as int, now, ttl) == expired(m[k], now, ttl)) by {
                let j = choose|j: int| 0 <= j < es@.len() && es@[j].0@ == k;
                if expired(m[k], now, ttl) {
                    assert(es@[j].1@ == m[k]);
                }
            }
        }
        Ok(())
    }

    /// Brings the stored bytes under the cap: entries leave oldest insertion
    /// first until the rest fits.
    pub fn enforce_size_limit(&mut self) -> (r: Result<(), CacheError>)
        ensures
            r is Ok ==> evicted_oldest(old(self).contents(), final(self).contents(), old(self).cap()),
            final(self).ttl() == old(self).ttl(),
            final(self).cap() == old(self).cap(),
    {
        let es = match db_entries(&self.db) {
            Ok(es) => es,
            Err(_) => {
                return Err(CacheError::Store);
            },
        };
        let ghost m = self.contents();
        let mut sizes: Vec<u64> = Vec::new();
        let mut stamps: Vec<u64> = Vec::new();
        let mut sum: u64 = 0;
        let mut i: usize = 0;
        while i < es.len()
            invariant
                i <= es@.len(),
                sizes@ == es@.subrange(0, i as int).map_values(|e: (Vec<u8>, Vec<u8>)| pair_size(e)),
                stamps@ == es@.subrange(0, i as int).map_values(|e: (Vec<u8>, Vec<u8>)| pair_stamp(e)),
                sum as nat == total(sizes@),
            decreases es@.len() - i,
        {
            let kl = es[i].0.len() as u64;
            let vl = es[i].1.len() as u64;
            if kl > u64::MAX - vl || sum > u64::MAX - (kl + vl) {
                return Err(CacheError::SizeOverflow);
            }
            let size = kl + vl;
            let stamp = match decode_entry(&es[i].1) {
                Some((_, t)) => t,
                None => 0,
            };
            let ghost before = sizes@;
            sizes.push(size);
            stamps.push(stamp);
            sum = sum + size;
            proof {
                assert(sizes@.drop_last() == before);
                assert(es@.subrange(0, i + 1).map_values(|e: (Vec<u8>, Vec<u8>)| pair_size(e)) =~= sizes@);
                assert(es@.subrange(0, i + 1).map_values(|e: (Vec<u8>, Vec<u8>)| pair_stamp(e)) =~= stamps@);
            }
            i = i + 1;
        }
        proof {
            assert(es@.subrange(0, i as int) =~= es@);
        }
        let plan = eviction_plan(&sizes, &stamps, self.max_size_bytes);
        let ghost cap = self.cap();
        let mut a: usize = 0;
        while a < plan.len()
            invariant
                a <= plan@.len(),
                entries_match(es@, m),
                m == old(self).contents(),
                cap == old(self).cap(),
                self.cap() == old(self).cap(),
                self.ttl() == old(self).ttl(),
                forall|b: int| 0 <= b < plan@.len() ==> plan@[b] < es@.len(),
                forall|b: int, c: int| 0 <= b < c < plan@.len() ==> plan@[b] != plan@[c],
                removed_where(m, self.contents(), |k: Seq<u8>| planned(es@, plan@, k, a as int)),
            decreases plan@.len() - a,
        {
            let ghost cur = self.contents();
            match db_remove(&mut self.db, &es[plan[a]].0) {
                Ok(()) => {},
                Err(_) => {
                    return Err(CacheError::Store);
                },
            }
            proof {
                let key = es@[plan@[a as int] as int].0@;
                assert forall|k: Seq<u8>| planned(es@, plan@, k, a + 1) == (planned(es@, plan@, k, a as int) || k == key) by {
                    if planned(es@, plan@, k, a + 1) {
                        let b = choose|b: int| 0 <= b < a + 1 && es@[plan@[b] as int].0@ == k;
                        if b < a {
                            assert(planned(es@, plan@, k, a as int));
                        }
                    }
                    if planned(es@, plan@, k, a as int) {
                        let b = choose|b: int| 0 <= b < a && es@[plan@[b] as int].0@ == k;
                        assert(0 <= b < a + 1 && es@[plan@[b] as int].0@ == k);
                    }
                    if k == key {
                        assert(0 <= a < a + 1 && es@[plan@[a as int] as int].0@ == k);
                    }
                }
                assert(removed_where(m, self.contents(), |k: Seq<u8>| planned(es@, plan@, k, a + 1)));
            }
            a = a + 1;
        }
        proof {
            assert(plan_holds(es@, plan@, cap));
        }
        Ok(())
    }

    /// Writes buffered changes to disk.
    pub fn flush(&self) -> (r: Result<(), CacheError>) {
        match db_flush(&self.db) {
            Ok(()) => Ok(()),
            Err(_) => Err(CacheError::Store),
        }
    }
}

} // verus!
