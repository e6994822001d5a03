//! The registry of service adapters: unique names, registration order, and
//! the fan-out of store events to every adapter.
use vstd::prelude::*;
use crate::audit::LynisService;
use crate::config::{AgentConfig, NodeRole};
use crate::dnsdist::{DnsdistService, FilterArtifacts};
use crate::filter::ThreatEntry;
use crate::kea::{KeaService, KeaConfig, ScopeSpec};
use crate::keys::{classify_key, kind_of, KeyKind};
use crate::knot::{KnotService, ZoneArtifacts};
use crate::pdp::CerbosService;
use crate::policy::{PolicyDoc, RULE_PRIORITY_BASE};
use crate::zone::ZoneSpec;
use crate::knot::knot_config_text;
use crate::kea::subnets_of;
use crate::filter::{lua_script, rpz_zone_text};
use crate::text::chars_of;
use crate::keyed::same_chars;

verus! {

/// The value of a store event, read according to the family of its key.
pub enum ConfigValue {
    Zone(ZoneSpec),
    Scope(ScopeSpec),
    Threat(ThreatEntry),
    /// A policy document; none when it holds no resource policy.
    Policy(Option<PolicyDoc>),
    /// The roles of a role mapping.
    RoleMapping(Vec<String>),
    /// A value that could not be read for its key's family.
    Unreadable,
}

/// The adapters the agent knows.
pub enum ServiceAdapter {
    Knot(KnotService),
    Kea(KeaService),
    Dnsdist(DnsdistService),
    Cerbos(CerbosService),
    Lynis(LynisService),
}

pub open spec fn adapter_name(a: ServiceAdapter) -> Seq<char> {
    match a {
        ServiceAdapter::Knot(_) => "knot-dns"@,
        ServiceAdapter::Kea(_) => "kea-dhcp"@,
        ServiceAdapter::Dnsdist(_) => "dnsdist"@,
        ServiceAdapter::Cerbos(_) => "cerbos"@,
        ServiceAdapter::Lynis(_) => "lynis"@,
    }
}

pub open spec fn adapter_wf(a: ServiceAdapter) -> bool {
    match a {
        ServiceAdapter::Knot(k) => k.wf(),
        ServiceAdapter::Kea(k) => k.wf(),
        ServiceAdapter::Dnsdist(d) => d.wf(),
        ServiceAdapter::Cerbos(c) => c.wf(),
        ServiceAdapter::Lynis(_) => true,
    }
}

/// What reloading an adapter asks for: the DNS engine's configuration for the
/// known zones; the DHCP configuration when this node writes it; the filter
/// script and zone; an audit run. The decision point forgets its cached policies.
pub open spec fn reloaded(before: ServiceAdapter, after: ServiceAdapter, r: AdapterEffect) -> bool {
    match before {
        ServiceAdapter::Knot(k) => after == before && r is DnsConfig && r->DnsConfig_0@ == knot_config_text(
            k.config,
            k.zones@,
        ),
        ServiceAdapter::Kea(k) => after == before && if k.writes_config() {
            r is Dhcp && r->Dhcp_0.interface == k.config.interface && subnets_of(k.scopes@, r->Dhcp_0.subnets@)
        } else {
            r is Nothing
        },
        ServiceAdapter::Dnsdist(d) => after == before && r is Filter && r->Filter_0.script@ == lua_script(
            d.role_mappings@,
            d.threats@,
            d.rules@,
        ) && (d.threats@.len() == 0 ==> r->Filter_0.rpz_zone is None) && (d.threats@.len() > 0
            ==> r->Filter_0.rpz_zone is Some && r->Filter_0.rpz_zone->0@ == rpz_zone_text(d.threats@)),
        ServiceAdapter::Cerbos(c) => after is Cerbos && after->Cerbos_0.config == c.config
            && after->Cerbos_0.policy_cache@.len() == 0 && r is Nothing,
        ServiceAdapter::Lynis(_) => after == before && r is RunAudit,
    }
}

/// The init manager's unit of an adapter's service, which its health probe
/// asks about; none for the adapters probed otherwise.
pub open spec fn unit_of(a: ServiceAdapter) -> Option<Seq<char>> {
    match a {
        ServiceAdapter::Knot(_) => Some("knot"@),
        ServiceAdapter::Kea(_) => Some("kea-dhcp4"@),
        ServiceAdapter::Dnsdist(_) => Some("dnsdist"@),
        _ => None,
    }
}

impl ServiceAdapter {
    /// The unit of the adapter's service, for its health probe.
    pub fn service_unit(&self) -> (r: Option<&'static str>)
        ensures
            match r {
                Some(u) => unit_of(*self) == Some(u@),
                None => unit_of(*self) is None,
            },
    {
        match self {
            ServiceAdapter::Knot(_) => Some("knot"),
            ServiceAdapter::Kea(_) => Some("kea-dhcp4"),
            ServiceAdapter::Dnsdist(_) => Some("dnsdist"),
            _ => None,
        }
    }

    /// Re-materialises the adapter's artifacts, or clears its cache.
    pub fn reload(&mut self) -> (r: AdapterEffect)
        requires
            adapter_wf(*old(self)),
        ensures
            reloaded(*old(self), *final(self), r),
            adapter_wf(*final(self)),
            adapter_name(*final(self)) == adapter_name(*old(self)),
    {
        match self {
            ServiceAdapter::Knot(k) => AdapterEffect::DnsConfig(k.config_text()),
            ServiceAdapter::Kea(k) => {
                if k.config.ha_pair_id.is_none() || k.ha.may_write_config() {
                    AdapterEffect::Dhcp(k.generate_config())
                } else {
                    AdapterEffect::Nothing
                }
            },
            ServiceAdapter::Dnsdist(d) => AdapterEffect::Filter(d.artifacts()),
            ServiceAdapter::Cerbos(c) => {
                c.clear_cache();
                proof {
                    assert(crate::keyed::keys_unique(c.policy_cache@));
                }
                AdapterEffect::Nothing
            },
            ServiceAdapter::Lynis(_) => AdapterEffect::RunAudit,
        }
    }

    /// The adapter's name, its key in the registry.
    pub fn name(&self) -> (r: &'static str)
        ensures
            r@ == adapter_name(*self),
    {
        match self {
            ServiceAdapter::Knot(_) => "knot-dns",
            ServiceAdapter::Kea(_) => "kea-dhcp",
            ServiceAdapter::Dnsdist(_) => "dnsdist",
            ServiceAdapter::Cerbos(_) => "cerbos",
            ServiceAdapter::Lynis(_) => "lynis",
        }
    }
}

/// The services a node can run.
#[derive(Debug, Clone, Copy, PartialEq, Eq, Structural)]
pub enum ServiceKind {
    Dns,
    Dhcp,
    Filter,
    Pdp,
    Audit,
}

pub open spec fn enabled_if(on: bool, k: ServiceKind) -> Seq<ServiceKind> {
    if on {
        seq![k]
    } else {
        Seq::empty()
    }
}

/// The services a node registers, in registration order: none on a node that
/// only replicates the store; otherwise each configured and enabled service.
pub open spec fn services_of(c: AgentConfig) -> Seq<ServiceKind> {
    if c.node.role == NodeRole::DbOnly {
        Seq::empty()
    } else {
        enabled_if(c.services.dns is Some && c.services.dns->0.enabled, ServiceKind::Dns)
            + enabled_if(c.services.dhcp is Some && c.services.dhcp->0.enabled, ServiceKind::Dhcp)
            + enabled_if(c.services.dnsdist is Some && c.services.dnsdist->0.enabled, ServiceKind::Filter)
            + enabled_if(c.services.cerbos is Some && c.services.cerbos->0.enabled, ServiceKind::Pdp)
            + enabled_if(c.services.lynis is Some && c.services.lynis->0.enabled, ServiceKind::Audit)
    }
}

fn push_if(v: &mut Vec<ServiceKind>, on: bool, k: ServiceKind)
    ensures
        final(v)@ == old(v)@ + enabled_if(on, k),
{
    if on {
        v.push(k);
    }
    proof {
        assert(final(v)@ =~= old(v)@ + enabled_if(on, k));
    }
}

/// The services this node registers, in order.
pub fn enabled_services(c: &AgentConfig) -> (r: Vec<ServiceKind>)
    ensures
        r@ == services_of(*c),
{
    let mut v: Vec<ServiceKind> = Vec::new();
    if c.node.role.is_db_only() {
        return v;
    }
    let s = &c.services;
    push_if(&mut v, matches!(&s.dns, Some(d) if d.enabled), ServiceKind::Dns);
    push_if(&mut v, matches!(&s.dhcp, Some(d) if d.enabled), ServiceKind::Dhcp);
    push_if(&mut v, matches!(&s.dnsdist, Some(d) if d.enabled), ServiceKind::Filter);
    push_if(&mut v, matches!(&s.cerbos, Some(d) if d.enabled), ServiceKind::Pdp);
    push_if(&mut v, matches!(&s.lynis, Some(d) if d.enabled), ServiceKind::Audit);
    proof {
        assert(v@ =~= services_of(*c));
    }
    v
}

/// What an adapter asks the agent to do after an event.
pub enum AdapterEffect {
    Nothing,
    Zone(ZoneArtifacts),
    /// The DNS engine's configuration, to write before a reload.
    DnsConfig(String),
    Dhcp(KeaConfig),
    Filter(FilterArtifacts),
    /// Run the security audit now.
    RunAudit,
}

/// Why an adapter could not take an event.
#[derive(Debug, Clone, Copy, PartialEq, Eq, Structural)]
pub enum PluginError {
    /// The value could not be read for its key's family.
    Unreadable,
    /// A policy with more rules than priorities can number.
    TooManyRules,
}

/// What one adapter made of an event.
pub struct Outcome {
    pub name: &'static str,
    pub result: Result<AdapterEffect, PluginError>,
}

/// Why a registration was refused.
#[derive(Debug, Clone, Copy, PartialEq, Eq, Structural)]
pub enum RegistryError {
    /// An adapter of that name is registered already.
    Duplicate,
}

pub open spec fn names_of(s: Seq<ServiceAdapter>) -> Seq<Seq<char>> {
    s.map_values(|a: ServiceAdapter| adapter_name(a))
}

/// The registry: adapters in the order they registered.
pub struct PluginRegistry {
    pub adapters: Vec<ServiceAdapter>,
}

impl PluginRegistry {
    pub fn new() -> (r: PluginRegistry)
        ensures
            r.adapters@.len() == 0,
    {
        PluginRegistry { adapters: Vec::new() }
    }

    /// Whether names are unique and every adapter is well formed.
    pub open spec fn wf(&self) -> bool {
        &&& forall|i: int, j: int|
            0 <= i < j < self.adapters@.len() ==> adapter_name(self.adapters@[i]) != adapter_name(self.adapters@[j])
        &&& forall|i: int| 0 <= i < self.adapters@.len() ==> adapter_wf(#[trigger] self.adapters@[i])
    }

    /// Registers an adapter under its name; refused when the name is taken.
    pub fn register(&mut self, a: ServiceAdapter) -> (r: Result<(), RegistryError>)
        requires
            old(self).wf(),
            adapter_wf(a),
        ensures
            final(self).wf(),
            r is Err <==> exists|i: int| 0 <= i < old(self).adapters@.len() && adapter_name(old(self).adapters@[i]) == adapter_name(a),
            r is Ok ==> final(self).adapters@ == old(self).adapters@.push(a),
            r is Err ==> final(self).adapters@ == old(self).adapters@,
    {
        let name = chars_of(a.name());
        let mut i: usize = 0;
        while i < self.adapters.len()
            invariant
                i <= self.adapters@.len(),
                self.wf(),
                self.adapters@ == old(self).adapters@,
                name@ == adapter_name(a),
                forall|j: int| 0 <= j < i ==> adapter_name(self.adapters@[j]) != adapter_name(a),
            decreases self.adapters@.len() - i,
        {
            if same_chars(&chars_of(self.adapters[i].name()), &name) {
                return Err(RegistryError::Duplicate);
            }
            i = i + 1;
        }
        self.adapters.push(a);
        Ok(())
    }

    /// The position of the adapter named `name`, if any.
    pub fn position(&self, name: &str) -> (r: Option<usize>)
        ensures
            match r {
                Some(i) => i < self.adapters@.len() && adapter_name(self.adapters@[i as int]) == name@,
                None => forall|j: int| 0 <= j < self.adapters@.len() ==> adapter_name(self.adapters@[j]) != name@,
            },
    {
        let n = chars_of(name);
        let mut i: usize = 0;
        while i < self.adapters.len()
            invariant
                i <= self.adapters@.len(),
                n@ == name@,
                forall|j: int| 0 <= j < i ==> adapter_name(self.adapters@[j]) != name@,
            decreases self.adapters@.len() - i,
        {
            if same_chars(&chars_of(self.adapters[i].name()), &n) {
                return Some(i);
            }
            i = i + 1;
        }
        None
    }

    /// Each adapter's name with whether it is healthy: the probe at its
    /// position said so. A probe that failed, or is missing, counts as unhealthy,
    /// so the report never fails as a whole.
    pub fn health_check_all(&self, probes: &Vec<Option<bool>>) -> (r: Vec<(&'static str, bool)>)
        ensures
            r@.len() == self.adapters@.len(),
            forall|i: int|
                0 <= i < r@.len() ==> (#[trigger] r@[i]).0@ == adapter_name(self.adapters@[i]) && r@[i].1 == (i
                    < probes@.len() && probes@[i] == Some(true)),
    {
        let mut out: Vec<(&'static str, bool)> = Vec::new();
        let mut i: usize = 0;
        while i < self.adapters.len()
            invariant
                i <= self.adapters@.len(),
                out@.len() == i,
                forall|j: int|
                    0 <= j < i ==> (#[trigger] out@[j]).0@ == adapter_name(self.adapters@[j]) && out@[j].1 == (j
                        < probes@.len() && probes@[j] == Some(true)),
            decreases self.adapters@.len() - i,
        {
            let healthy = if i < probes.len() {
                match probes[i] {
                    Some(b) => b,
                    None => false,
                }
            } else {
                false
            };
            out.push((self.adapters[i].name(), healthy));
            i = i + 1;
        }
        out
    }

    /// Reloads every adapter, in registration order, each giving what its
    /// reload asks for.
    pub fn reload_all(&mut self) -> (r: Vec<(&'static str, AdapterEffect)>)
        requires
            old(self).wf(),
        ensures
            final(self).wf(),
            final(self).adapters@.len() == old(self).adapters@.len(),
            r@.len() == old(self).adapters@.len(),
            forall|i: int|
                0 <= i < r@.len() ==> (#[trigger] r@[i]).0@ == adapter_name(old(self).adapters@[i]) && reloaded(
                    old(self).adapters@[i],
                    final(self).adapters@[i],
                    r@[i].1,
                ),
    {
        let n = self.adapters.len();
        let mut out: Vec<(&'static str, AdapterEffect)> = Vec::new();
        let ghost orig = self.adapters@;
        let ghost mut done: Seq<ServiceAdapter> = Seq::empty();
        let mut i: usize = 0;
        proof {
            assert(self.adapters@ =~= orig.skip(0) + done);
        }
        while i < n
            invariant
                n == orig.len(),
                i <= n,
                old(self).adapters@ == orig,
                old(self).wf(),
                self.adapters@ == orig.skip(i as int) + done,
                done.len() == i,
                out@.len() == i,
                forall|j: int|
                    0 <= j < i ==> (#[trigger] out@[j]).0@ == adapter_name(orig[j]) && reloaded(orig[j], done[j], out@[j].1)
                        && adapter_name(done[j]) == adapter_name(orig[j]) && adapter_wf(done[j]),
            decreases n - i,
        {
            let ghost before = self.adapters@;
            proof {
                assert(before[0] == orig[i as int]);
                assert(adapter_wf(orig[i as int]));
            }
            let mut a = self.adapters.remove(0);
            let effect = a.reload();
            out.push((a.name(), effect));
            let ghost a1 = a;
            self.adapters.push(a);
            proof {
                assert(self.adapters@ =~= orig.skip(i + 1) + done.push(a1));
                done = done.push(a1);
            }
            i = i + 1;
        }
        proof {
            assert(orig.skip(n as int) + done =~= done);
            assert forall|p: int, q: int| 0 <= p < q < self.adapters@.len() implies adapter_name(self.adapters@[p])
                != adapter_name(self.adapters@[q]) by {
                assert(out@[p].0@ == adapter_name(orig[p]));
                assert(out@[q].0@ == adapter_name(orig[q]));
                assert(adapter_name(done[p]) == adapter_name(orig[p]));
                assert(adapter_name(done[q]) == adapter_name(orig[q]));
            }
            assert forall|p: int| 0 <= p < self.adapters@.len() implies adapter_wf(#[trigger] self.adapters@[p]) by {
                assert(out@[p].0@ == adapter_name(orig[p]));
                assert(adapter_wf(done[p]));
            }
        }
        out
    }

    /// Hands an event to every adapter, in registration order. An adapter that
    /// fails does not keep the others from the event: each adapter takes the
    /// event as its own handler does, and gives its outcome.
    pub fn notify_config_change(&mut self, key: &str, raw: &[u8], value: ConfigValue) -> (r: Vec<Outcome>)
        requires
            old(self).wf(),
        ensures
            final(self).wf(),
            final(self).adapters@.len() == old(self).adapters@.len(),
            r@.len() == old(self).adapters@.len(),
            forall|i: int|
                0 <= i < r@.len() ==> (#[trigger] r@[i]).name@ == adapter_name(old(self).adapters@[i])
                    && handled(
                    old(self).adapters@[i],
                    final(self).adapters@[i],
                    key@,
                    raw@,
                    Some(value),
                    r@[i].result,
                ),
    {
        let ghost v = value;
        let ghost kind = kind_of(key@);
        let mut slot = Some(value);
        let n = self.adapters.len();
        let mut out: Vec<Outcome> = Vec::new();
        let ghost orig = self.adapters@;
        let ghost mut done: Seq<ServiceAdapter> = Seq::empty();
        let mut i: usize = 0;
        proof {
            assert(self.adapters@ =~= orig.skip(0) + done);
        }
        while i < n
            invariant
                n == orig.len(),
                i <= n,
                old(self).adapters@ == orig,
                old(self).wf(),
                kind == kind_of(key@),
                self.adapters@ == orig.skip(i as int) + done,
                done.len() == i,
                out@.len() == i,
                slot == Some(v) || exists|j: int| 0 <= j < i && consumes(orig[j], kind),
                forall|j: int|
                    0 <= j < i ==> (#[trigger] out@[j]).name@ == adapter_name(orig[j]) && handled(
                        orig[j],
                        done[j],
                        key@,
                        raw@,
                        Some(v),
                        out@[j].result,
                    ),
            decreases n - i,
        {
            let ghost before = self.adapters@;
            proof {
                assert(before[0] == orig[i as int]);
            }
            let mut a = self.adapters.remove(0);
            let ghost a0 = a;
            let ghost slot0 = slot;
            proof {
                assert(adapter_wf(a0));
                if consumes(a0, kind) && slot0 != Some(v) {
                    let j = choose|j: int| 0 <= j < i && consumes(orig[j], kind);
                    lemma_consumers_share_name(orig[j], a0, kind);
                    assert(false);
                }
            }
            let result = dispatch(&mut a, key, raw, &mut slot);
            proof {
                lemma_handled_value(a0, a, key@, raw@, slot0, Some(v), result);
            }
            out.push(Outcome { name: a.name(), result });
            let ghost a1 = a;
            self.adapters.push(a);
            proof {
                assert(self.adapters@ =~= orig.skip(i + 1) + done.push(a1));
                done = done.push(a1);
                assert forall|j: int| 0 <= j < i + 1 implies (#[trigger] out@[j]).name@ == adapter_name(orig[j])
                    && handled(orig[j], done[j], key@, raw@, Some(v), out@[j].result) by {}
                if consumes(a0, kind) {
                    assert(0 <= i < i + 1 && consumes(orig[i as int], kind));
                }
            }
            i = i + 1;
        }
        proof {
            assert(orig.skip(n as int) + done =~= done);
            assert forall|j: int| 0 <= j < done.len() implies adapter_name(done[j]) == adapter_name(orig[j])
                && adapter_wf(#[trigger] done[j]) by {
                lemma_handled_keeps(orig[j], done[j], key@, raw@, Some(v), out@[j].result);
            }
        }
        out
    }
}

/// Whether `a` is the adapter that takes values of key family `k`.
pub open spec fn consumes(a: ServiceAdapter, k: KeyKind) -> bool {
    match a {
        ServiceAdapter::Knot(_) => k == KeyKind::Zone,
        ServiceAdapter::Kea(_) => k == KeyKind::Scope,
        ServiceAdapter::Dnsdist(_) => k == KeyKind::Threat || k == KeyKind::Policy || k == KeyKind::RoleMapping,
        _ => false,
    }
}

proof fn lemma_consumers_share_name(a: ServiceAdapter, b: ServiceAdapter, k: KeyKind)
    requires
        consumes(a, k),
        consumes(b, k),
    ensures
        adapter_name(a) == adapter_name(b),
{
}

pub open spec fn zone_effect(o: Option<ZoneArtifacts>) -> Result<AdapterEffect, PluginError> {
    match o {
        Some(a) => Ok(AdapterEffect::Zone(a)),
        None => Ok(AdapterEffect::Nothing),
    }
}

pub open spec fn dhcp_effect(o: Option<KeaConfig>) -> Result<AdapterEffect, PluginError> {
    match o {
        Some(c) => Ok(AdapterEffect::Dhcp(c)),
        None => Ok(AdapterEffect::Nothing),
    }
}

pub open spec fn filter_effect(o: Option<FilterArtifacts>) -> Result<AdapterEffect, PluginError> {
    match o {
        Some(f) => Ok(AdapterEffect::Filter(f)),
        None => Ok(AdapterEffect::Nothing),
    }
}

pub open spec fn nothing() -> Result<AdapterEffect, PluginError> {
    Ok(AdapterEffect::Nothing)
}

/// Whether a policy has more rules than priorities can number.
pub open spec fn too_many_rules(doc: Option<PolicyDoc>) -> bool {
    doc is Some && doc->0.rules@.len() + RULE_PRIORITY_BASE > u32::MAX
}

/// What an adapter does with an event under `key`, whose value, read for the
/// key's family, is `v`: `before` and `after` are the adapter, `r` its outcome.
/// An adapter of another family leaves the event alone; a value that cannot
/// be read for the family is an error that changes nothing; otherwise the
/// adapter's own handler decides.
pub open spec fn handled(
    before: ServiceAdapter,
    after: ServiceAdapter,
    key: Seq<char>,
    raw: Seq<u8>,
    v: Option<ConfigValue>,
    r: Result<AdapterEffect, PluginError>,
) -> bool {
    let kind = kind_of(key);
    match before {
        ServiceAdapter::Knot(k) => if kind != KeyKind::Zone {
            r == nothing() && after == before
        } else {
            match v {
                Some(ConfigValue::Zone(z)) => after is Knot && exists|o: Option<ZoneArtifacts>|
                    KnotService::zone_update(k, after->Knot_0, key, z, o) && r == zone_effect(o),
                _ => r == Err::<AdapterEffect, PluginError>(PluginError::Unreadable) && after == before,
            }
        },
        ServiceAdapter::Kea(k) => if kind != KeyKind::Scope {
            r == nothing() && after == before
        } else {
            match v {
                Some(ConfigValue::Scope(sc)) => after is Kea && exists|o: Option<KeaConfig>|
                    KeaService::scope_update(k, after->Kea_0, key, sc, o) && r == dhcp_effect(o),
                _ => r == Err::<AdapterEffect, PluginError>(PluginError::Unreadable) && after == before,
            }
        },
        ServiceAdapter::Dnsdist(d) => if kind == KeyKind::Threat {
            match v {
                Some(ConfigValue::Threat(t)) => after is Dnsdist && exists|o: Option<FilterArtifacts>|
                    DnsdistService::threat_update(d, after->Dnsdist_0, key, t, o) && r == filter_effect(o),
                _ => r == Err::<AdapterEffect, PluginError>(PluginError::Unreadable) && after == before,
            }
        } else if kind == KeyKind::RoleMapping {
            match v {
                Some(ConfigValue::RoleMapping(roles)) => after is Dnsdist && exists|o: Option<FilterArtifacts>|
                    DnsdistService::role_update(d, after->Dnsdist_0, key, roles, o) && r == filter_effect(o),
                _ => r == Err::<AdapterEffect, PluginError>(PluginError::Unreadable) && after == before,
            }
        } else if kind == KeyKind::Policy {
            match v {
                Some(ConfigValue::Policy(doc)) => if too_many_rules(doc) {
                    r == Err::<AdapterEffect, PluginError>(PluginError::TooManyRules) && after == before
                } else {
                    after is Dnsdist && exists|o: Option<FilterArtifacts>|
                        DnsdistService::policy_update(d, after->Dnsdist_0, key, doc, o) && r == filter_effect(o)
                },
                _ => r == Err::<AdapterEffect, PluginError>(PluginError::Unreadable) && after == before,
            }
        } else {
            r == nothing() && after == before
        },
        ServiceAdapter::Cerbos(c) => after is Cerbos && CerbosService::policy_cached(c, after->Cerbos_0, key, raw)
            && r == nothing(),
        ServiceAdapter::Lynis(_) => r == nothing() && after == before,
    }
}

/// An adapter that does not take the key's family ignores the value; one that
/// does sees the value it was handed.
proof fn lemma_handled_value(
    before: ServiceAdapter,
    after: ServiceAdapter,
    key: Seq<char>,
    raw: Seq<u8>,
    v1: Option<ConfigValue>,
    v2: Option<ConfigValue>,
    r: Result<AdapterEffect, PluginError>,
)
    requires
        handled(before, after, key, raw, v1, r),
        consumes(before, kind_of(key)) ==> v1 == v2,
    ensures
        handled(before, after, key, raw, v2, r),
{
}

proof fn lemma_handled_keeps(
    before: ServiceAdapter,
    after: ServiceAdapter,
    key: Seq<char>,
    raw: Seq<u8>,
    v: Option<ConfigValue>,
    r: Result<AdapterEffect, PluginError>,
)
    requires
        handled(before, after, key, raw, v, r),
        adapter_wf(before),
    ensures
        adapter_name(after) == adapter_name(before),
        adapter_wf(after),
{
    let kind = kind_of(key);
    match before {
        ServiceAdapter::Knot(k) => {
            if kind == KeyKind::Zone {
                if let Some(ConfigValue::Zone(z)) = v {
                    let o = choose|o: Option<ZoneArtifacts>| KnotService::zone_update(k, after->Knot_0, key, z, o) && r == zone_effect(o);
                }
            }
        },
        ServiceAdapter::Kea(k) => {
            if kind == KeyKind::Scope {
                if let Some(ConfigValue::Scope(sc)) = v {
                    let o = choose|o: Option<KeaConfig>| KeaService::scope_update(k, after->Kea_0, key, sc, o) && r == dhcp_effect(o);
                }
            }
        },
        ServiceAdapter::Dnsdist(d) => {
            if kind == KeyKind::Threat {
                if let Some(ConfigValue::Threat(t)) = v {
                    let o = choose|o: Option<FilterArtifacts>| DnsdistService::threat_update(d, after->Dnsdist_0, key, t, o) && r == filter_effect(o);
                }
            } else if kind == KeyKind::RoleMapping {
                if let Some(ConfigValue::RoleMapping(roles)) = v {
                    let o = choose|o: Option<FilterArtifacts>| DnsdistService::role_update(d, after->Dnsdist_0, key, roles, o) && r == filter_effect(o);
                }
            } else if kind == KeyKind::Policy {
                if let Some(ConfigValue::Policy(doc)) = v {
                    if !too_many_rules(doc) {
                        let o = choose|o: Option<FilterArtifacts>| DnsdistService::policy_update(d, after->Dnsdist_0, key, doc, o) && r == filter_effect(o);
                    }
                }
            }
        },
        _ => {},
    }
}

/// Hands an event to one adapter. A value of the adapter's family is taken
/// out of `slot`.
fn dispatch(a: &mut ServiceAdapter, key: &str, raw: &[u8], slot: &mut Option<ConfigValue>) -> (r: Result<AdapterEffect, PluginError>)
    requires
        adapter_wf(*old(a)),
    ensures
        handled(*old(a), *final(a), key@, raw@, *old(slot), r),
        !consumes(*old(a), kind_of(key@)) ==> *final(slot) == *old(slot),
{
    let kind = classify_key(key);
    match a {
        ServiceAdapter::Knot(k) => {
            if kind != KeyKind::Zone {
                return Ok(AdapterEffect::Nothing);
            }
            match slot.take() {
                Some(ConfigValue::Zone(z)) => {
                    let ghost before = *k;
                    let ghost argv = z;
                    let res = k.on_config_change(key, z);
                    let out = match res {
                        Some(art) => Ok(AdapterEffect::Zone(art)),
                        None => Ok(AdapterEffect::Nothing),
                    };
                    proof {
                        assert(KnotService::zone_update(before, *k, key@, argv, res) && out == zone_effect(res));
                    }
                    out
                },
                _ => Err(PluginError::Unreadable),
            }
        },
        ServiceAdapter::Kea(k) => {
            if kind != KeyKind::Scope {
                return Ok(AdapterEffect::Nothing);
            }
            match slot.take() {
                Some(ConfigValue::Scope(sc)) => {
                    let ghost before = *k;
                    let ghost argv = sc;
                    let res = k.on_config_change(key, sc);
                    let out = match res {
                        Some(c) => Ok(AdapterEffect::Dhcp(c)),
                        None => Ok(AdapterEffect::Nothing),
                    };
                    proof {
                        assert(KeaService::scope_update(before, *k, key@, argv, res) && out == dhcp_effect(res));
                    }
                    out
                },
                _ => Err(PluginError::Unreadable),
            }
        },
        ServiceAdapter::Dnsdist(d) => {
            if kind == KeyKind::Threat {
                match slot.take() {
                    Some(ConfigValue::Threat(t)) => {
                        let ghost before = *d;
                        let ghost argv = t;
                        let res = d.on_threat(key, t);
                        let out = match res {
                            Some(f) => Ok(AdapterEffect::Filter(f)),
                            None => Ok(AdapterEffect::Nothing),
                        };
                        proof {
                            assert(DnsdistService::threat_update(before, *d, key@, argv, res) && out == filter_effect(res));
                        }
                        out
                    },
                    _ => Err(PluginError::Unreadable),
                }
            } else if kind == KeyKind::RoleMapping {
                match slot.take() {
                    Some(ConfigValue::RoleMapping(roles)) => {
                        let ghost before = *d;
                        let ghost argv = roles;
                        let res = d.on_role_mapping(key, roles);
                        let out = match res {
                            Some(f) => Ok(AdapterEffect::Filter(f)),
                            None => Ok(AdapterEffect::Nothing),
                        };
                        proof {
                            assert(DnsdistService::role_update(before, *d, key@, argv, res) && out == filter_effect(res));
                        }
                        out
                    },
                    _ => Err(PluginError::Unreadable),
                }
            } else if kind == KeyKind::Policy {
                match slot.take() {
                    Some(ConfigValue::Policy(doc)) => {
                        let fits = match &doc {
                            Some(p) => p.rules.len() <= (u32::MAX - RULE_PRIORITY_BASE) as usize,
                            None => true,
                        };
                        if !fits {
                            return Err(PluginError::TooManyRules);
                        }
                        let ghost before = *d;
                        let ghost argv = doc;
                        let res = d.on_policy(key, doc);
                        let out = match res {
                            Some(f) => Ok(AdapterEffect::Filter(f)),
                            None => Ok(AdapterEffect::Nothing),
                        };
                        proof {
                            assert(DnsdistService::policy_update(before, *d, key@, argv, res) && out == filter_effect(res));
                        }
                        out
                    },
                    _ => Err(PluginError::Unreadable),
                }
            } else {
                Ok(AdapterEffect::Nothing)
            }
        },
        ServiceAdapter::Cerbos(c) => {
            c.on_config_change(key, raw);
            Ok(AdapterEffect::Nothing)
        },
        ServiceAdapter::Lynis(_) => Ok(AdapterEffect::Nothing),
    }
}

} // verus!
