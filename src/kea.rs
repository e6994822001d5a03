//! The DHCP adapter: scopes from the store and the engine configuration built
//! from them, written only by the Primary of an HA pair.
use vstd::prelude::*;
use vstd::string::StringExecFns;
use crate::config::DhcpServiceConfig;
use crate::ha::{HaCoordinator, HaState};
use crate::keyed::{Keyed, upsert, upsert_vec, keys_unique, lemma_upsert_unique, same_chars};
use crate::keys::{kind_of, classify_key, KeyKind, key_last_segment, last_segment};
use crate::text::{push_str, push_range, chars_of, string_of, find_char_from, trimmed, trim_of,
    split_on, lemma_index_from_bounds, lemma_index_from_shift};

verus! {

/// A DHCP option of a scope.
#[derive(Debug, Clone)]
pub struct DhcpOption {
    pub name: String,
    pub value: String,
}

/// A scope as published in the store.
#[derive(Debug, Clone)]
pub struct ScopeSpec {
    pub subnet: String,
    pub pool_start: String,
    pub pool_end: String,
    pub gateway: Option<String>,
    pub options: Vec<DhcpOption>,
}

/// A scope known to the adapter, under its id.
pub struct Scope {
    pub id: String,
    pub spec: ScopeSpec,
}

impl Keyed for Scope {
    open spec fn key_view(&self) -> Seq<char> {
        self.id@
    }

    fn key(&self) -> (r: &str) {
        self.id.as_str()
    }
}

/// An option row of a subnet in the engine's configuration.
pub struct KeaOption {
    pub name: String,
    pub data: String,
}

/// A subnet of the engine's configuration.
pub struct KeaSubnet {
    pub subnet: String,
    /// The pool range, `start - end`.
    pub pool: String,
    pub option_data: Vec<KeaOption>,
}

/// The engine's configuration: the served interface, a memory lease database,
/// one subnet per scope.
pub struct KeaConfig {
    pub interface: String,
    pub subnets: Vec<KeaSubnet>,
}

/// The DNS servers of a scope: the `dns-servers` option split on commas, each
/// trimmed; one well-known resolver when the option is absent.
pub open spec fn dns_servers(opts: Seq<DhcpOption>) -> Seq<Seq<char>> {
    if exists|i: int| 0 <= i < opts.len() && opts[i].name@ == "dns-servers"@ {
        let i = choose|i: int| 0 <= i < opts.len() && opts[i].name@ == "dns-servers"@ && forall|j: int| 0 <= j < i ==> opts[j].name@ != "dns-servers"@;
        trim_all(split_on(opts[i].value@, ','))
    } else {
        seq!["8.8.8.8"@]
    }
}

/// The views of the strings.
pub open spec fn views_of(v: Seq<String>) -> Seq<Seq<char>> {
    v.map_values(|x: String| x@)
}

/// Each piece trimmed.
pub open spec fn trim_all(ps: Seq<Seq<char>>) -> Seq<Seq<char>> {
    ps.map_values(|p: Seq<char>| trim_of(p))
}

/// The pieces of `s` between commas, each trimmed.
pub fn split_trimmed(s: &str) -> (r: Vec<String>)
    ensures
        views_of(r@) == trim_all(split_on(s@, ',')),
{
    let v = chars_of(s);
    let mut out: Vec<String> = Vec::new();
    let mut start: usize = 0;
    let n = v.len();
    proof {
        assert(v@.skip(0) =~= v@);
        assert(views_of(out@) + trim_all(split_on(v@.skip(0), ','))
            =~= trim_all(split_on(v@, ',')));
    }
    loop
        invariant
            v@ == s@,
            n == v@.len(),
            start <= n,
            views_of(out@) + trim_all(split_on(v@.skip(start as int), ',')) == trim_all(split_on(v@, ',')),
        decreases n - start,
    {
        let end = find_char_from(&v, ',', start);
        let ghost rest = v@.skip(start as int);
        proof {
            lemma_index_from_shift(v@, ',', start as int, start as int);
            lemma_index_from_bounds(v@, ',', start as int);
        }
        let mut piece: Vec<char> = Vec::new();
        push_range(&mut piece, &v, start, end);
        let t = trimmed(string_of(&piece).as_str());
        let ghost before = out@;
        out.push(t);
        proof {
            assert(rest.subrange(0, end - start) =~= v@.subrange(start as int, end as int));
            assert(views_of(out@) =~= views_of(before).push(trim_of(piece@)));
        }
        if end >= n {
            proof {
                assert(rest =~= v@.subrange(start as int, end as int));
                assert(piece@ == rest);
                assert(split_on(rest, ',') == seq![rest]);
                assert(trim_all(split_on(rest, ',')) =~= seq![trim_of(rest)]);
                assert(views_of(out@) =~= views_of(before) + trim_all(split_on(rest, ',')));

                assert(views_of(out@) =~= trim_all(split_on(v@, ',')));
            }
            return out;
        }
        proof {
            assert(rest.skip(end - start + 1) =~= v@.skip(end + 1));
            let tail = split_on(rest.skip(end - start + 1), ',');
            assert(split_on(rest, ',') == seq![rest.subrange(0, end - start)] + tail);
            assert(trim_all(split_on(rest, ',')) =~= seq![trim_of(piece@)]
                + trim_all(tail));
            assert(views_of(out@) + trim_all(split_on(v@.skip(end + 1), ',')) =~= views_of(before) + trim_all(split_on(rest, ',')));
        }
        start = end + 1;
    }
}

/// The views of option rows: name and data.
pub open spec fn option_views(os: Seq<KeaOption>) -> Seq<(Seq<char>, Seq<char>)> {
    os.map_values(|o: KeaOption| (o.name@, o.data@))
}

/// The pieces joined by `, `.
pub open spec fn comma_joined(ps: Seq<Seq<char>>) -> Seq<char>
    decreases ps.len(),
{
    if ps.len() == 0 {
        Seq::empty()
    } else if ps.len() == 1 {
        ps[0]
    } else {
        comma_joined(ps.drop_last()) + ", "@ + ps.last()
    }
}

/// The scope's own options, but `dns-servers`, as name and value.
pub open spec fn passthrough(os: Seq<DhcpOption>) -> Seq<(Seq<char>, Seq<char>)>
    decreases os.len(),
{
    if os.len() == 0 {
        Seq::empty()
    } else {
        passthrough(os.drop_last()) + (if os.last().name@ == "dns-servers"@ {
            Seq::empty()
        } else {
            seq![(os.last().name@, os.last().value@)]
        })
    }
}

/// The option rows of a scope's subnet: `routers` for the gateway, if any;
/// `domain-name-servers` with the DNS servers joined by `, `; then the scope's
/// other options.
pub open spec fn subnet_options(s: ScopeSpec) -> Seq<(Seq<char>, Seq<char>)> {
    (match s.gateway {
        Some(g) => seq![("routers"@, g@)],
        None => Seq::empty(),
    }) + seq![("domain-name-servers"@, comma_joined(dns_servers(s.options@)))] + passthrough(s.options@)
}

/// The pool range of a scope: `start - end`.
pub open spec fn pool_text(s: ScopeSpec) -> Seq<char> {
    s.pool_start@ + " - "@ + s.pool_end@
}

/// Whether `k` is the subnet built from scope `s`.
pub open spec fn subnet_of(s: ScopeSpec, k: KeaSubnet) -> bool {
    &&& k.subnet@ == s.subnet@
    &&& k.pool@ == pool_text(s)
    &&& option_views(k.option_data@) == subnet_options(s)
}

fn find_dns_option(opts: &Vec<DhcpOption>) -> (r: Option<usize>)
    ensures
        match r {
            Some(i) => i < opts@.len() && opts@[i as int].name@ == "dns-servers"@ && forall|j: int|
                0 <= j < i ==> opts@[j].name@ != "dns-servers"@,
            None => forall|j: int| 0 <= j < opts@.len() ==> opts@[j].name@ != "dns-servers"@,
        },
{
    let key = chars_of("dns-servers");
    let mut i: usize = 0;
    while i < opts.len()
        invariant
            i <= opts@.len(),
            key@ == "dns-servers"@,
            forall|j: int| 0 <= j < i ==> opts@[j].name@ != "dns-servers"@,
        decreases opts@.len() - i,
    {
        if same_chars(&chars_of(opts[i].name.as_str()), &key) {
            return Some(i);
        }
        i = i + 1;
    }
    None
}

/// The DNS servers of a scope's options.
pub fn scope_dns_servers(opts: &Vec<DhcpOption>) -> (r: Vec<String>)
    ensures
        views_of(r@) == dns_servers(opts@),
{
    match find_dns_option(opts) {
        Some(i) => {
            let r = split_trimmed(opts[i].value.as_str());
            proof {
                let c = choose|c: int| 0 <= c < opts@.len() && opts@[c].name@ == "dns-servers"@ && forall|j: int| 0 <= j < c ==> opts@[j].name@ != "dns-servers"@;
                if c < i {
                } else if c > i {
                    assert(opts@[i as int].name@ != "dns-servers"@);
                }
            }
            r
        },
        None => {
            let mut r: Vec<String> = Vec::new();
            r.push(String::from_str("8.8.8.8"));
            proof {
                assert(views_of(r@) =~= seq!["8.8.8.8"@]);
            }
            r
        },
    }
}

/// Builds the subnet of a scope.
pub fn build_subnet(s: &ScopeSpec) -> (k: KeaSubnet)
    ensures
        subnet_of(*s, k),
{
    let mut rows: Vec<KeaOption> = Vec::new();
    match &s.gateway {
        Some(g) => {
            rows.push(KeaOption { name: String::from_str("routers"), data: g.clone() });
        },
        None => {},
    }
    let ghost r1 = option_views(rows@);
    proof {
        assert(r1 =~= match s.gateway {
            Some(g) => seq![("routers"@, g@)],
            None => Seq::<(Seq<char>, Seq<char>)>::empty(),
        });
    }
    let servers = scope_dns_servers(&s.options);
    let mut joined: Vec<char> = Vec::new();
    let mut i: usize = 0;
    proof {
        assert(views_of(servers@).subrange(0, 0).len() == 0);
        assert(joined@ =~= comma_joined(views_of(servers@).subrange(0, 0)));
    }
    while i < servers.len()
        invariant
            i <= servers@.len(),
            joined@ == comma_joined(views_of(servers@).subrange(0, i as int)),
        decreases servers@.len() - i,
    {
        if i > 0 {
            push_str(&mut joined, ", ");
        }
        push_str(&mut joined, servers[i].as_str());
        proof {
            let ps = views_of(servers@).subrange(0, i + 1);
            assert(ps.drop_last() =~= views_of(servers@).subrange(0, i as int));
            assert(ps.last() == servers@[i as int]@);
            if i == 0 {
                assert(joined@ =~= comma_joined(ps));
            } else {
                assert(joined@ =~= comma_joined(ps));
            }
        }
        i = i + 1;
    }
    proof {
        assert(views_of(servers@).subrange(0, i as int) =~= views_of(servers@));
    }
    rows.push(KeaOption { name: String::from_str("domain-name-servers"), data: string_of(&joined) });
    let ghost r2 = option_views(rows@);
    proof {
        assert(r2 =~= r1 + seq![("domain-name-servers"@, comma_joined(dns_servers(s.options@)))]);
    }
    let dns = chars_of("dns-servers");
    let mut j: usize = 0;
    proof {
        assert(s.options@.subrange(0, 0).len() == 0);
        assert(option_views(rows@) =~= r2 + passthrough(s.options@.subrange(0, 0)));
    }
    while j < s.options.len()
        invariant
            j <= s.options@.len(),
            dns@ == "dns-servers"@,
            option_views(rows@) == r2 + passthrough(s.options@.subrange(0, j as int)),
        decreases s.options@.len() - j,
    {
        let o = &s.options[j];
        let ghost before = option_views(rows@);
        let ghost rows0 = rows@;
        if !same_chars(&chars_of(o.name.as_str()), &dns) {
            let row = KeaOption { name: o.name.clone(), data: o.value.clone() };
            rows.push(row);
            proof {
                assert(rows@ == rows0.push(row));
                assert(option_views(rows@) =~= before.push((o.name@, o.value@)));
            }
        }
        proof {
            let os = s.options@.subrange(0, j + 1);
            assert(os.drop_last() =~= s.options@.subrange(0, j as int));
            assert(os.last() == s.options@[j as int]);
            assert(option_views(rows@) =~= r2 + passthrough(os));
        }
        j = j + 1;
    }
    proof {
        assert(s.options@.subrange(0, j as int) =~= s.options@);
    }
    let mut pool = chars_of(s.pool_start.as_str());
    push_str(&mut pool, " - ");
    push_str(&mut pool, s.pool_end.as_str());
    KeaSubnet { subnet: s.subnet.clone(), pool: string_of(&pool), option_data: rows }
}

/// Whether the subnets are those of the scopes, in order.
pub open spec fn subnets_of(scopes: Seq<Scope>, subnets: Seq<KeaSubnet>) -> bool {
    subnets.len() == scopes.len() && forall|i: int| 0 <= i < scopes.len() ==> subnet_of(scopes[i].spec, #[trigger] subnets[i])
}

/// The DHCP adapter: its configuration, its scopes and its HA coordinator.
pub struct KeaService {
    pub config: DhcpServiceConfig,
    pub scopes: Vec<Scope>,
    pub ha: HaCoordinator,
}

impl KeaService {
    pub fn new(config: DhcpServiceConfig) -> (r: KeaService)
        ensures
            r.config == config,
            r.scopes@.len() == 0,
            r.ha.state == HaState::Unknown,
            !r.ha.service_running,
    {
        KeaService { config, scopes: Vec::new(), ha: HaCoordinator::new() }
    }

    pub fn name(&self) -> (r: &'static str)
        ensures
            r@ == "kea-dhcp"@,
    {
        "kea-dhcp"
    }

    /// Whether no two scopes share an id.
    pub open spec fn wf(&self) -> bool {
        keys_unique(self.scopes@)
    }

    /// Whether this node writes the engine's configuration: always outside an
    /// HA pair, only as Primary within one.
    pub open spec fn writes_config(&self) -> bool {
        self.config.ha_pair_id is None || self.ha.state == HaState::Primary
    }

    /// The engine's configuration for the scopes known now.
    pub fn generate_config(&self) -> (r: KeaConfig)
        ensures
            r.interface == self.config.interface,
            subnets_of(self.scopes@, r.subnets@),
    {
        let mut subnets: Vec<KeaSubnet> = Vec::new();
        let mut i: usize = 0;
        while i < self.scopes.len()
            invariant
                i <= self.scopes@.len(),
                subnets@.len() == i,
                forall|k: int| 0 <= k < i ==> subnet_of(self.scopes@[k].spec, #[trigger] subnets@[k]),
            decreases self.scopes@.len() - i,
        {
            subnets.push(build_subnet(&self.scopes[i].spec));
            i = i + 1;
        }
        KeaConfig { interface: self.config.interface.clone(), subnets }
    }

    /// What taking scope `spec` under `key` does: `o` before, `n` after, `r` returned.
    pub open spec fn scope_update(o: KeaService, n: KeaService, key: Seq<char>, spec: ScopeSpec, r: Option<KeaConfig>) -> bool {
        &&& n.wf()
        &&& n.config == o.config
        &&& n.ha == o.ha
        &&& kind_of(key) != KeyKind::Scope ==> r is None && n.scopes@ == o.scopes@
        &&& kind_of(key) == KeyKind::Scope ==> n.scopes@.len() >= 1 && (exists|i: int|
                0 <= i < n.scopes@.len() && n.scopes@[i].id@ == last_segment(key)
                    && n.scopes@[i].spec == spec && n.scopes@ == upsert(
                    o.scopes@,
                    n.scopes@[i],
                ))
        &&& kind_of(key) == KeyKind::Scope ==> (r is Some <==> o.writes_config())
        &&& r is Some ==> subnets_of(n.scopes@, r->0.subnets@) && r->0.interface
                == o.config.interface
    }

    /// Takes a scope put under `key`: a key of another family changes nothing.
    /// The scope, under the key's last segment, is added or replaced; the new
    /// configuration is returned when this node writes it.
    pub fn on_config_change(&mut self, key: &str, spec: ScopeSpec) -> (r: Option<KeaConfig>)
        requires
            old(self).wf(),
        ensures
            Self::scope_update(*old(self), *final(self), key@, spec, r),
    {
        if classify_key(key) != KeyKind::Scope {
            return None;
        }
        let id = key_last_segment(key);
        let sc = Scope { id, spec };
        let ghost scv = sc;
        proof {
            lemma_upsert_unique(self.scopes@, sc);
        }
        upsert_vec(&mut self.scopes, sc);
        proof {
            let i = choose|i: int| 0 <= i < self.scopes@.len() && self.scopes@[i] == scv;
            assert(self.scopes@[i].id@ == last_segment(key@));
        }
        if self.config.ha_pair_id.is_none() || self.ha.may_write_config() {
            Some(self.generate_config())
        } else {
            None
        }
    }
}

/// Putting the same scope under the same key again leaves every scope's
/// content as it was, and the configuration it gives describes the same subnets.
pub proof fn lemma_scope_put_idempotent(
    s0: KeaService,
    s1: KeaService,
    s2: KeaService,
    key: Seq<char>,
    spec: ScopeSpec,
    r1: Option<KeaConfig>,
    r2: Option<KeaConfig>,
)
    requires
        s0.wf(),
        KeaService::scope_update(s0, s1, key, spec, r1),
        KeaService::scope_update(s1, s2, key, spec, r2),
    ensures
        r1 is Some <==> r2 is Some,
        s2.scopes@.len() == s1.scopes@.len(),
        forall|i: int| 0 <= i < s1.scopes@.len() ==> (#[trigger] s2.scopes@[i]).spec == s1.scopes@[i].spec,
        r2 is Some ==> subnets_of(s1.scopes@, r2->0.subnets@) && r2->0.interface == r1->0.interface,
{
    if kind_of(key) == KeyKind::Scope {
        let name = last_segment(key);
        let z1 = s1.scopes@;
        let z2 = s2.scopes@;
        let i1 = choose|i: int| 0 <= i < z1.len() && z1[i].id@ == name && z1[i].spec == spec && z1 == upsert(s0.scopes@, z1[i]);
        let i2 = choose|i: int| 0 <= i < z2.len() && z2[i].id@ == name && z2[i].spec == spec && z2 == upsert(z1, z2[i]);
        let w2 = z2[i2];
        let j = choose|j: int| 0 <= j < z1.len() && z1[j].id@ == name && forall|k: int| 0 <= k < j ==> z1[k].id@ != name;
        assert(exists|j: int| 0 <= j < z1.len() && z1[j].id@ == name && forall|k: int| 0 <= k < j ==> z1[k].id@ != name) by {
            if i1 > 0 {
                assert forall|k: int| 0 <= k < i1 implies z1[k].id@ != name by {
                    assert(z1[k].key_view() != z1[i1].key_view());
                }
            }
        }
        assert(j == i1) by {
            if j != i1 {
                assert(z1[j].key_view() != z1[i1].key_view());
            }
        }
        crate::keyed::lemma_upsert_at(z1, w2, j);
        assert(z2 =~= z1.update(j, w2));
    }
}

} // verus!
