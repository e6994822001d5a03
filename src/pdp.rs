//! The policy decision point adapter: cached policy documents and the
//! decision read from a decision point's answer.
use vstd::prelude::*;
use vstd::slice::slice_to_vec;
use crate::config::CerbosServiceConfig;
use crate::keyed::{Keyed, upsert, upsert_vec, keys_unique, lemma_upsert_unique, find_key,
    same_chars};
use crate::keys::{kind_of, classify_key, KeyKind, key_last_segment, last_segment};
use crate::text::{chars_of, string_of, push_str};

verus! {

/// The effect a decision point gave one action.
pub struct ActionEffect {
    pub action: String,
    /// Whether the effect is Allow.
    pub allow: bool,
}

/// Whether the answer allows `action`: some effect for that action is Allow.
/// Anything else is a denial.
pub open spec fn allowed(results: Seq<ActionEffect>, action: Seq<char>) -> bool {
    exists|i: int| 0 <= i < results.len() && results[i].action@ == action && results[i].allow
}

/// Reads the decision for `action` from a decision point's answer.
pub fn decide(results: &Vec<ActionEffect>, action: &str) -> (r: bool)
    ensures
        r == allowed(results@, action@),
{
    let a = chars_of(action);
    let mut i: usize = 0;
    while i < results.len()
        invariant
            i <= results@.len(),
            a@ == action@,
            forall|j: int| 0 <= j < i ==> !(results@[j].action@ == action@ && results@[j].allow),
        decreases results@.len() - i,
    {
        if results[i].allow && same_chars(&chars_of(results[i].action.as_str()), &a) {
            return true;
        }
        i = i + 1;
    }
    false
}

pub open spec fn request_id_of(unique: Seq<char>) -> Seq<char> {
    "nnoe-"@ + unique
}

/// The id of a check request, from a unique token.
pub fn request_id(unique: &str) -> (r: String)
    ensures
        r@ == request_id_of(unique@),
{
    let mut buf = chars_of("nnoe-");
    push_str(&mut buf, unique);
    string_of(&buf)
}

/// A policy document cached under its id.
pub struct CachedPolicy {
    pub id: String,
    pub document: Vec<u8>,
}

impl Keyed for CachedPolicy {
    open spec fn key_view(&self) -> Seq<char> {
        self.id@
    }

    fn key(&self) -> (r: &str) {
        self.id.as_str()
    }
}

/// The policy decision point adapter.
pub struct CerbosService {
    pub config: CerbosServiceConfig,
    pub policy_cache: Vec<CachedPolicy>,
}

impl CerbosService {
    pub fn new(config: CerbosServiceConfig) -> (r: CerbosService)
        ensures
            r.config == config,
            r.policy_cache@.len() == 0,
    {
        CerbosService { config, policy_cache: Vec::new() }
    }

    pub fn name(&self) -> (r: &'static str)
        ensures
            r@ == "cerbos"@,
    {
        "cerbos"
    }

    pub open spec fn wf(&self) -> bool {
        keys_unique(self.policy_cache@)
    }

    /// What caching a policy put under `key` does: `o` before, `n` after.
    pub open spec fn policy_cached(o: CerbosService, n: CerbosService, key: Seq<char>, value: Seq<u8>) -> bool {
        &&& n.wf()
        &&& n.config == o.config
        &&& kind_of(key) != KeyKind::Policy ==> n.policy_cache == o.policy_cache
        &&& kind_of(key) == KeyKind::Policy ==> exists|p: CachedPolicy|
                p.id@ == last_segment(key) && p.document@ == value && n.policy_cache@ == upsert(
                    o.policy_cache@,
                    p,
                )
    }

    /// Caches a policy put under `key`, under the key's last segment; a key of
    /// another family changes nothing.
    pub fn on_config_change(&mut self, key: &str, value: &[u8])
        requires
            old(self).wf(),
        ensures
            Self::policy_cached(*old(self), *final(self), key@, value@),
    {
        if classify_key(key) != KeyKind::Policy {
            return;
        }
        let p = CachedPolicy { id: key_last_segment(key), document: slice_to_vec(value) };
        let ghost pv = p;
        proof {
            lemma_upsert_unique(self.policy_cache@, p);
        }
        upsert_vec(&mut self.policy_cache, p);
        proof {
            assert(pv.id@ == last_segment(key@) && pv.document@ == value@);
        }
    }

    /// The cached document of policy `id`, if any.
    pub fn load_policy_from_cache(&self, id: &str) -> (r: Option<&Vec<u8>>)
        ensures
            r is Some <==> exists|i: int| 0 <= i < self.policy_cache@.len() && self.policy_cache@[i].id@ == id@,
            r is Some ==> exists|i: int|
                0 <= i < self.policy_cache@.len() && self.policy_cache@[i].id@ == id@ && self.policy_cache@[i].document
                    == *r->0,
    {
        match find_key(&self.policy_cache, id) {
            Some(i) => Some(&self.policy_cache[i].document),
            None => None,
        }
    }

    /// Forgets the cached policies, as reload and shutdown do.
    pub fn clear_cache(&mut self)
        ensures
            final(self).config == old(self).config,
            final(self).policy_cache@.len() == 0,
    {
        self.policy_cache = Vec::new();
    }
}

} // verus!
