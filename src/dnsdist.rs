//! The DNS filter adapter: its state, how store events change it, and the
//! artifacts written from it.
use vstd::prelude::*;
use crate::config::DnsdistServiceConfig;
use crate::filter::{insert_pos, sorted_rules, rule_text_fn, RoleMapping, ThreatEntry, FilterRule, lua_script, rpz_zone_text,
    generate_lua_script, generate_rpz_zone_file, generate_config, filter_config_text};
use crate::keyed::{upsert, upsert_vec, keys_unique, lemma_upsert_unique, lemma_upsert_idempotent,
    same_chars};
use crate::keys::{kind_of, classify_key, KeyKind, key_last_segment, last_segment};
use crate::policy::{PolicyDoc, compile_policy, compiled_from, kept, governs_dns,
    RULE_PRIORITY_BASE};
use crate::text::{chars_of, joined};

verus! {

/// The rules of `rs` that did not come from policy `id`.
pub open spec fn without_policy(rs: Seq<FilterRule>, id: Seq<char>) -> Seq<FilterRule>
    decreases rs.len(),
{
    if rs.len() == 0 {
        rs
    } else if rs.last().policy@ == id {
        without_policy(rs.drop_last(), id)
    } else {
        without_policy(rs.drop_last(), id).push(rs.last())
    }
}

/// The rules after policy `id` compiled to `c`: its earlier rules give way to `c`.
pub open spec fn with_policy(rs: Seq<FilterRule>, id: Seq<char>, c: Seq<FilterRule>) -> Seq<FilterRule> {
    without_policy(rs, id) + c
}

pub proof fn lemma_without_concat(a: Seq<FilterRule>, b: Seq<FilterRule>, id: Seq<char>)
    ensures
        without_policy(a + b, id) == without_policy(a, id) + without_policy(b, id),
    decreases b.len(),
{
    if b.len() == 0 {
        assert(a + b =~= a);
        assert(without_policy(a, id) + without_policy(b, id) =~= without_policy(a, id));
    } else {
        lemma_without_concat(a, b.drop_last(), id);
        assert((a + b).drop_last() =~= a + b.drop_last());
        assert((a + b).last() == b.last());
        if b.last().policy@ == id {
        } else {
            assert(without_policy(a, id) + without_policy(b.drop_last(), id).push(b.last()) =~= (
            without_policy(a, id) + without_policy(b.drop_last(), id)).push(b.last()));
        }
    }
}

pub proof fn lemma_without_all_of(c: Seq<FilterRule>, id: Seq<char>)
    requires
        forall|k: int| 0 <= k < c.len() ==> c[k].policy@ == id,
    ensures
        without_policy(c, id) == Seq::<FilterRule>::empty(),
    decreases c.len(),
{
    if c.len() > 0 {
        lemma_without_all_of(c.drop_last(), id);
    }
}

pub proof fn lemma_without_idempotent(rs: Seq<FilterRule>, id: Seq<char>)
    ensures
        without_policy(without_policy(rs, id), id) == without_policy(rs, id),
    decreases rs.len(),
{
    if rs.len() > 0 {
        lemma_without_idempotent(rs.drop_last(), id);
        if rs.last().policy@ != id {
            let w = without_policy(rs.drop_last(), id).push(rs.last());
            assert(w.drop_last() =~= without_policy(rs.drop_last(), id));
        }
    }
}

/// Putting the same policy twice leaves the rules that putting it once left.
pub proof fn lemma_with_policy_idempotent(rs: Seq<FilterRule>, id: Seq<char>, c: Seq<FilterRule>)
    requires
        forall|k: int| 0 <= k < c.len() ==> c[k].policy@ == id,
    ensures
        with_policy(with_policy(rs, id, c), id, c) == with_policy(rs, id, c),
{
    lemma_without_concat(without_policy(rs, id), c, id);
    lemma_without_all_of(c, id);
    lemma_without_idempotent(rs, id);
    assert(without_policy(rs, id) + Seq::<FilterRule>::empty() =~= without_policy(rs, id));
}

/// Putting the same threat twice leaves the block list that putting it once left.
pub proof fn lemma_threat_idempotent(ts: Seq<ThreatEntry>, t: ThreatEntry)
    ensures
        upsert(upsert(ts, t), t) == upsert(ts, t),
{
    lemma_upsert_idempotent(ts, t);
}

/// Putting the same role mapping twice leaves the mappings that putting it once left.
pub proof fn lemma_role_mapping_idempotent(ms: Seq<RoleMapping>, m: RoleMapping)
    ensures
        upsert(upsert(ms, m), m) == upsert(ms, m),
{
    lemma_upsert_idempotent(ms, m);
}

/// Whether two rules read the same: same policy, name, code and priority.
pub open spec fn same_rule(a: FilterRule, b: FilterRule) -> bool {
    a.policy@ == b.policy@ && a.name@ == b.name@ && a.lua_code@ == b.lua_code@ && a.priority == b.priority
}

/// Whether two rule lists read the same, rule by rule.
pub open spec fn same_rules(a: Seq<FilterRule>, b: Seq<FilterRule>) -> bool {
    a.len() == b.len() && forall|i: int| 0 <= i < a.len() ==> same_rule(#[trigger] a[i], b[i])
}

proof fn lemma_insert_pos_same(a: Seq<FilterRule>, b: Seq<FilterRule>, p: u32)
    requires
        same_rules(a, b),
    ensures
        insert_pos(a, p) == insert_pos(b, p),
    decreases a.len(),
{
    if a.len() > 0 {
        assert(same_rule(a[0], b[0]));
        assert forall|i: int| 0 <= i < a.skip(1).len() implies same_rule(#[trigger] a.skip(1)[i], b.skip(1)[i]) by {
            assert(same_rule(a[i + 1], b[i + 1]));
        }
        lemma_insert_pos_same(a.skip(1), b.skip(1), p);
    }
}

proof fn lemma_sorted_same(a: Seq<FilterRule>, b: Seq<FilterRule>)
    requires
        same_rules(a, b),
    ensures
        same_rules(sorted_rules(a), sorted_rules(b)),
    decreases a.len(),
{
    if a.len() > 0 {
        assert forall|i: int| 0 <= i < a.drop_last().len() implies same_rule(#[trigger] a.drop_last()[i], b.drop_last()[i]) by {
            assert(same_rule(a[i], b[i]));
        }
        lemma_sorted_same(a.drop_last(), b.drop_last());
        let ra = sorted_rules(a.drop_last());
        let rb = sorted_rules(b.drop_last());
        assert(same_rule(a.last(), b.last()));
        lemma_insert_pos_same(ra, rb, a.last().priority);
        let k = insert_pos(ra, a.last().priority);
        lemma_insert_pos_le(ra, a.last().priority);
        let sa = ra.insert(k, a.last());
        let sb = rb.insert(k, b.last());
        assert forall|i: int| 0 <= i < sa.len() implies same_rule(#[trigger] sa[i], sb[i]) by {
            if i < k {
                assert(same_rule(ra[i], rb[i]));
            } else if i > k {
                assert(same_rule(ra[i - 1], rb[i - 1]));
            }
        }
    }
}

proof fn lemma_insert_pos_le(s: Seq<FilterRule>, p: u32)
    ensures
        0 <= insert_pos(s, p) <= s.len(),
    decreases s.len(),
{
    if s.len() > 0 {
        lemma_insert_pos_le(s.skip(1), p);
    }
}

proof fn lemma_joined_rules_same(a: Seq<FilterRule>, b: Seq<FilterRule>)
    requires
        same_rules(a, b),
    ensures
        joined(a, rule_text_fn()) == joined(b, rule_text_fn()),
    decreases a.len(),
{
    if a.len() > 0 {
        assert forall|i: int| 0 <= i < a.drop_last().len() implies same_rule(#[trigger] a.drop_last()[i], b.drop_last()[i]) by {
            assert(same_rule(a[i], b[i]));
        }
        lemma_joined_rules_same(a.drop_last(), b.drop_last());
        assert(same_rule(a.last(), b.last()));
    }
}

/// Putting the same policy under the same key again writes the same script.
pub proof fn lemma_policy_put_idempotent(
    d0: DnsdistService,
    d1: DnsdistService,
    d2: DnsdistService,
    key: Seq<char>,
    doc: Option<PolicyDoc>,
    r1: Option<FilterArtifacts>,
    r2: Option<FilterArtifacts>,
)
    requires
        DnsdistService::policy_update(d0, d1, key, doc, r1),
        DnsdistService::policy_update(d1, d2, key, doc, r2),
    ensures
        r1 is Some <==> r2 is Some,
        r2 is Some ==> r2->0.script@ == r1->0.script@,
{
    if kind_of(key) == KeyKind::Policy && doc is Some && governs_dns(doc->0) {
        let id = last_segment(key);
        let ks = kept(doc->0.rules@);
        let c1 = choose|c: Seq<FilterRule>| c.len() == ks.len() && (forall|k: int| 0 <= k < c.len() ==> compiled_from(#[trigger] c[k], id, doc->0.rules@[ks[k]], ks[k])) && d1.rules@ == with_policy(d0.rules@, id, c);
        let c2 = choose|c: Seq<FilterRule>| c.len() == ks.len() && (forall|k: int| 0 <= k < c.len() ==> compiled_from(#[trigger] c[k], id, doc->0.rules@[ks[k]], ks[k])) && d2.rules@ == with_policy(d1.rules@, id, c);
        let w = without_policy(d0.rules@, id);
        assert forall|k: int| 0 <= k < c1.len() implies c1[k].policy@ == id by {
            assert(compiled_from(c1[k], id, doc->0.rules@[ks[k]], ks[k]));
        }
        lemma_without_concat(w, c1, id);
        lemma_without_all_of(c1, id);
        lemma_without_idempotent(d0.rules@, id);
        assert(w + Seq::<FilterRule>::empty() =~= w);
        assert(without_policy(d1.rules@, id) == w);
        let a = w + c1;
        let b = w + c2;
        assert forall|i: int| 0 <= i < a.len() implies same_rule(#[trigger] a[i], b[i]) by {
            if i >= w.len() {
                let k = i - w.len();
                assert(compiled_from(c1[k], id, doc->0.rules@[ks[k]], ks[k]));
                assert(compiled_from(c2[k], id, doc->0.rules@[ks[k]], ks[k]));
            }
        }
        lemma_sorted_same(a, b);
        lemma_joined_rules_same(sorted_rules(a), sorted_rules(b));
    }
}

/// What the filter adapter asks to be written after a change.
pub struct FilterArtifacts {
    pub script: String,
    /// The response-policy zone; none while no domain is blocked.
    pub rpz_zone: Option<String>,
}

/// The DNS filter adapter.
pub struct DnsdistService {
    pub config: DnsdistServiceConfig,
    pub role_mappings: Vec<RoleMapping>,
    pub threats: Vec<ThreatEntry>,
    pub rules: Vec<FilterRule>,
}

impl DnsdistService {
    pub fn new(config: DnsdistServiceConfig) -> (r: DnsdistService)
        ensures
            r.config == config,
            r.role_mappings@.len() == 0,
            r.threats@.len() == 0,
            r.rules@.len() == 0,
    {
        DnsdistService { config, role_mappings: Vec::new(), threats: Vec::new(), rules: Vec::new() }
    }

    pub fn name(&self) -> (r: &'static str)
        ensures
            r@ == "dnsdist"@,
    {
        "dnsdist"
    }

    /// Whether blocked domains and mapped subjects are each listed once.
    pub open spec fn wf(&self) -> bool {
        keys_unique(self.threats@) && keys_unique(self.role_mappings@)
    }

    /// The script and zone for the state now.
    pub fn artifacts(&self) -> (r: FilterArtifacts)
        ensures
            r.script@ == lua_script(self.role_mappings@, self.threats@, self.rules@),
            self.threats@.len() == 0 ==> r.rpz_zone is None,
            self.threats@.len() > 0 ==> r.rpz_zone is Some && r.rpz_zone->0@ == rpz_zone_text(self.threats@),
    {
        FilterArtifacts {
            script: generate_lua_script(&self.role_mappings, &self.threats, &self.rules),
            rpz_zone: generate_rpz_zone_file(&self.threats),
        }
    }

    /// The engine's main configuration.
    pub fn config_text(&self) -> (r: String)
        ensures
            r@ == filter_config_text(self.config),
    {
        generate_config(&self.config)
    }

    /// What taking threat `t` under `key` does: `o` before, `n` after, `r` returned.
    pub open spec fn threat_update(o: DnsdistService, n: DnsdistService, key: Seq<char>, t: ThreatEntry, r: Option<FilterArtifacts>) -> bool {
        &&& n.wf()
        &&& n.config == o.config
        &&& n.role_mappings == o.role_mappings
        &&& n.rules == o.rules
        &&& kind_of(key) != KeyKind::Threat ==> r is None && n.threats == o.threats
        &&& kind_of(key) == KeyKind::Threat ==> n.threats@ == upsert(o.threats@, t) && r is Some
                && r->0.script@ == lua_script(n.role_mappings@, n.threats@, n.rules@)
                && r->0.rpz_zone is Some && r->0.rpz_zone->0@ == rpz_zone_text(n.threats@)
    }

    /// Takes a threat put under `key`: a key of another family changes
    /// nothing; otherwise the domain is added to the block list, or its entry replaced.
    pub fn on_threat(&mut self, key: &str, t: ThreatEntry) -> (r: Option<FilterArtifacts>)
        requires
            old(self).wf(),
        ensures
            Self::threat_update(*old(self), *final(self), key@, t, r),
    {
        if classify_key(key) != KeyKind::Threat {
            return None;
        }
        proof {
            lemma_upsert_unique(self.threats@, t);
        }
        upsert_vec(&mut self.threats, t);
        Some(self.artifacts())
    }

    /// What taking role mapping `roles` under `key` does: `o` before, `n` after, `r` returned.
    pub open spec fn role_update(o: DnsdistService, n: DnsdistService, key: Seq<char>, roles: Vec<String>, r: Option<FilterArtifacts>) -> bool {
        &&& n.wf()
        &&& n.config == o.config
        &&& n.threats == o.threats
        &&& n.rules == o.rules
        &&& kind_of(key) != KeyKind::RoleMapping ==> r is None && n.role_mappings == o.role_mappings
        &&& kind_of(key) == KeyKind::RoleMapping ==> (exists|m: RoleMapping|
                m.subject@ == last_segment(key) && m.roles == roles && n.role_mappings@ == upsert(
                    o.role_mappings@,
                    m,
                )) && r is Some && r->0.script@ == lua_script(
                n.role_mappings@,
                n.threats@,
                n.rules@
        )
    }

    /// Takes a role mapping put under `key`, for the subject named by the
    /// key's last segment: a key of another family changes nothing.
    pub fn on_role_mapping(&mut self, key: &str, roles: Vec<String>) -> (r: Option<FilterArtifacts>)
        requires
            old(self).wf(),
        ensures
            Self::role_update(*old(self), *final(self), key@, roles, r),
    {
        if classify_key(key) != KeyKind::RoleMapping {
            return None;
        }
        let m = RoleMapping { subject: key_last_segment(key), roles };
        let ghost mv = m;
        proof {
            lemma_upsert_unique(self.role_mappings@, m);
        }
        upsert_vec(&mut self.role_mappings, m);
        proof {
            assert(mv.subject@ == last_segment(key@) && mv.roles == roles && self.role_mappings@ == upsert(old(self).role_mappings@, mv));
        }
        Some(self.artifacts())
    }

    /// What taking policy `doc` under `key` does: `o` before, `n` after, `r` returned.
    pub open spec fn policy_update(o: DnsdistService, n: DnsdistService, key: Seq<char>, doc: Option<PolicyDoc>, r: Option<FilterArtifacts>) -> bool {
        &&& n.wf()
        &&& n.config == o.config
        &&& n.threats == o.threats
        &&& n.role_mappings == o.role_mappings
        &&& !(kind_of(key) == KeyKind::Policy && doc is Some && governs_dns(doc->0)) ==> r is None
                && n.rules == o.rules
        &&& kind_of(key) == KeyKind::Policy && doc is Some && governs_dns(doc->0) ==> (exists|c: Seq<FilterRule>|
                c.len() == kept(doc->0.rules@).len() && (forall|k: int|
                    0 <= k < c.len() ==> compiled_from(
                        #[trigger] c[k],
                        last_segment(key),
                        doc->0.rules@[kept(doc->0.rules@)[k]],
                        kept(doc->0.rules@)[k],
                    )) && n.rules@ == with_policy(o.rules@, last_segment(key), c)) && r is Some
                && r->0.script@ == lua_script(n.role_mappings@, n.threats@, n.rules@)
    }

    /// Takes a policy put under `key`, with id the key's last segment. A key of
    /// another family, a document without a resource policy, or one for another
    /// resource than DNS queries, changes nothing. Otherwise the policy's earlier
    /// rules give way to its newly compiled ones.
    pub fn on_policy(&mut self, key: &str, doc: Option<PolicyDoc>) -> (r: Option<FilterArtifacts>)
        requires
            old(self).wf(),
            doc is Some ==> doc->0.rules@.len() + RULE_PRIORITY_BASE <= u32::MAX,
        ensures
            Self::policy_update(*old(self), *final(self), key@, doc, r),
    {
        if classify_key(key) != KeyKind::Policy {
            return None;
        }
        let d = match doc {
            Some(d) => d,
            None => {
                return None;
            },
        };
        let res = chars_of(d.resource.as_str());
        if !same_chars(&res, &chars_of("dns_query")) {
            return None;
        }
        let id = key_last_segment(key);
        let compiled = compile_policy(id.as_str(), &d);
        remove_policy(&mut self.rules, id.as_str());
        let ghost before = self.rules@;
        let mut compiled = compiled;
        let ghost cv = compiled@;
        self.rules.append(&mut compiled);
        proof {
            assert(self.rules@ == before + cv);
            assert(forall|k: int| 0 <= k < cv.len() ==> compiled_from(
                #[trigger] cv[k],
                last_segment(key@),
                d.rules@[kept(d.rules@)[k]],
                kept(d.rules@)[k],
            ));
            assert(self.rules@ == with_policy(old(self).rules@, last_segment(key@), cv));
            assert(d == doc->0);
        }
        Some(self.artifacts())
    }

    /// Forgets the rules and blocked domains.
    pub fn shutdown(&mut self)
        ensures
            final(self).config == old(self).config,
            final(self).role_mappings == old(self).role_mappings,
            final(self).threats@.len() == 0,
            final(self).rules@.len() == 0,
    {
        self.rules = Vec::new();
        self.threats = Vec::new();
    }
}

/// Removes the rules that came from policy `id`.
pub fn remove_policy(rules: &mut Vec<FilterRule>, id: &str)
    ensures
        final(rules)@ == without_policy(old(rules)@, id@),
{
    let idv = chars_of(id);
    let ghost orig = rules@;
    let ghost mut j: int = 0;
    let mut i: usize = 0;
    proof {
        assert(orig.subrange(0, 0).len() == 0);
        assert(rules@.subrange(0, 0) =~= without_policy(orig.subrange(0, 0), id@));
        assert(rules@.skip(0) =~= orig.skip(0));
    }
    while i < rules.len()
        invariant
            idv@ == id@,
            0 <= j <= orig.len(),
            i <= rules@.len(),
            rules@.subrange(0, i as int) == without_policy(orig.subrange(0, j), id@),
            rules@.skip(i as int) == orig.skip(j),
        decreases rules@.len() - i,
    {
        let ghost before = rules@;
        proof {
            assert(orig.skip(j).len() == before.len() - i);
            assert(before.skip(i as int)[0] == orig.skip(j)[0]);
            assert(before[i as int] == orig[j]);
            assert forall|k: int| 0 <= k < before.len() - i - 1 implies #[trigger] before.skip(i + 1)[k]
                == orig.skip(j + 1)[k] by {
                assert(before.skip(i as int)[1 + k] == orig.skip(j)[1 + k]);
            }
            assert(before.skip(i + 1) =~= orig.skip(j + 1));
            let s = orig.subrange(0, j + 1);
            assert(s.drop_last() =~= orig.subrange(0, j));
            assert(s.last() == orig[j]);
        }
        if same_chars(&chars_of(rules[i].policy.as_str()), &idv) {
            rules.remove(i);
            proof {
                assert(rules@ == before.remove(i as int));
                assert(rules@.subrange(0, i as int) =~= before.subrange(0, i as int));
                assert(rules@.skip(i as int) =~= orig.skip(j + 1));
                j = j + 1;
            }
        } else {
            i = i + 1;
            proof {
                assert(rules@.subrange(0, i as int) =~= before.subrange(0, i - 1).push(before[i - 1]));
                assert(rules@.skip(i as int) =~= orig.skip(j + 1));
                j = j + 1;
            }
        }
    }
    proof {
        assert(orig.skip(j).len() == 0);
        assert(j == orig.len());
        assert(orig.subrange(0, j) =~= orig);
        assert(rules@ =~= rules@.subrange(0, i as int));
    }
}

} // verus!
