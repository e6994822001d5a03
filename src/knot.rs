//! The authoritative DNS adapter: zones from the store, their zone files, the
//! engine's configuration, its DNSSEC key files and its reload chain.
use vstd::prelude::*;
use vstd::string::StringExecFns;
use crate::config::DnsServiceConfig;
use crate::keyed::{Keyed, upsert, upsert_vec, keys_unique, lemma_upsert_unique};
use crate::keys::{kind_of, classify_key, KeyKind, key_last_segment, last_segment};
use crate::text::{push_str, push_decimal, chars_of, string_of, decimal, joined, lemma_joined_step,
    lemma_joined_all, contains, str_contains};
use crate::zone::{ZoneSpec, generate_zone_file, zone_file_text};

verus! {

/// A zone known to the adapter: its name in the store, where its file lies, and its content.
pub struct KnotZone {
    pub name: String,
    pub file: String,
    pub spec: ZoneSpec,
}

impl Keyed for KnotZone {
    open spec fn key_view(&self) -> Seq<char> {
        self.name@
    }

    fn key(&self) -> (r: &str) {
        self.name.as_str()
    }
}

pub open spec fn zone_file_path_of(zone_dir: Seq<char>, name: Seq<char>) -> Seq<char> {
    zone_dir + "/"@ + name + ".zone"@
}

/// Where the file of zone `name` lies: `<zone_dir>/<name>.zone`.
pub fn zone_file_path(zone_dir: &str, name: &str) -> (r: String)
    ensures
        r@ == zone_file_path_of(zone_dir@, name@),
{
    let mut buf = chars_of(zone_dir);
    push_str(&mut buf, "/");
    push_str(&mut buf, name);
    push_str(&mut buf, ".zone");
    proof {
        assert(buf@ =~= zone_file_path_of(zone_dir@, name@));
    }
    string_of(&buf)
}

pub open spec fn zone_block(z: KnotZone) -> Seq<char> {
    "  - domain: "@ + z.spec.domain@ + "\n    file: \""@ + z.file@
        + "\"\n    dnssec-signing: on\n    acl: [ local_transfer, local_update ]\n"@
}

pub open spec fn zone_block_fn() -> spec_fn(KnotZone) -> Seq<char> {
    |z: KnotZone| zone_block(z)
}

pub open spec fn acl_text() -> Seq<char> {
    "acl:\n  - id: local_transfer\n    address: [ 127.0.0.1, ::1 ]\n    action: transfer\n  - id: local_update\n    address: 127.0.0.1\n    action: update\n"@
}

/// The engine's configuration in its own syntax: a server section listening on
/// the configured address and on `::` at the configured port, the loopback
/// ACLs for transfers and updates, and one zone entry per zone with signing on.
pub open spec fn knot_config_text(c: DnsServiceConfig, zones: Seq<KnotZone>) -> Seq<char> {
    "server:\n    rundir: \"/var/lib/knot\"\n    listen: [ "@ + c.listen_address@ + "@"@ + decimal(
        c.listen_port as nat,
    ) + ", ::@"@ + decimal(c.listen_port as nat) + " ]\n\n"@ + acl_text() + (if zones.len() == 0 {
        Seq::empty()
    } else {
        "\nzone:\n"@ + joined(zones, zone_block_fn())
    })
}

/// Writes the engine's configuration for the given zones.
pub fn generate_config(c: &DnsServiceConfig, zones: &Vec<KnotZone>) -> (r: String)
    ensures
        r@ == knot_config_text(*c, zones@),
{
    let mut buf: Vec<char> = Vec::new();
    push_str(&mut buf, "server:\n    rundir: \"/var/lib/knot\"\n    listen: [ ");
    push_str(&mut buf, c.listen_address.as_str());
    push_str(&mut buf, "@");
    push_decimal(&mut buf, c.listen_port as u64);
    push_str(&mut buf, ", ::@");
    push_decimal(&mut buf, c.listen_port as u64);
    push_str(&mut buf, " ]\n\n");
    push_str(&mut buf, "acl:\n  - id: local_transfer\n    address: [ 127.0.0.1, ::1 ]\n    action: transfer\n  - id: local_update\n    address: 127.0.0.1\n    action: update\n");
    let ghost head = buf@;
    if zones.len() > 0 {
        push_str(&mut buf, "\nzone:\n");
        let ghost head2 = buf@;
        let mut i: usize = 0;
        proof {
            lemma_joined_all(zones@, zone_block_fn());
            assert(buf@ =~= head2 + joined(zones@.subrange(0, 0), zone_block_fn()));
        }
        while i < zones.len()
            invariant
                i <= zones@.len(),
                buf@ == head2 + joined(zones@.subrange(0, i as int), zone_block_fn()),
            decreases zones@.len() - i,
        {
            let z = &zones[i];
            push_str(&mut buf, "  - domain: ");
            push_str(&mut buf, z.spec.domain.as_str());
            push_str(&mut buf, "\n    file: \"");
            push_str(&mut buf, z.file.as_str());
            push_str(&mut buf, "\"\n    dnssec-signing: on\n    acl: [ local_transfer, local_update ]\n");
            proof {
                lemma_joined_step(zones@, i as int, zone_block_fn());
                assert(buf@ =~= head2 + joined(zones@.subrange(0, i + 1), zone_block_fn()));
            }
            i = i + 1;
        }
        proof {
            lemma_joined_all(zones@, zone_block_fn());
        }
    }
    proof {
        assert(buf@ =~= knot_config_text(*c, zones@));
    }
    string_of(&buf)
}

/// What a zone update asks to be written: the zone file and the engine's configuration.
pub struct ZoneArtifacts {
    /// The zone's name in the store.
    pub zone_name: String,
    /// The zone's domain, which its keys are generated for.
    pub domain: String,
    pub zone_file_path: String,
    pub zone_file: String,
    pub config: String,
    /// Whether the zone is seen for the first time, so that its keys are to be checked.
    pub first_seen: bool,
}

/// The authoritative DNS adapter.
pub struct KnotService {
    pub config: DnsServiceConfig,
    pub zones: Vec<KnotZone>,
}

/// Whether `zs` holds a zone named `name`.
pub open spec fn has_zone(zs: Seq<KnotZone>, name: Seq<char>) -> bool {
    exists|i: int| 0 <= i < zs.len() && zs[i].name@ == name
}

impl KnotService {
    pub fn new(config: DnsServiceConfig) -> (r: KnotService)
        ensures
            r.config == config,
            r.zones@.len() == 0,
    {
        KnotService { config, zones: Vec::new() }
    }

    pub fn name(&self) -> (r: &'static str)
        ensures
            r@ == "knot-dns"@,
    {
        "knot-dns"
    }

    /// Whether no two zones share a name.
    pub open spec fn wf(&self) -> bool {
        keys_unique(self.zones@)
    }

    /// The engine's configuration for the zones known now.
    pub fn config_text(&self) -> (r: String)
        ensures
            r@ == knot_config_text(self.config, self.zones@),
    {
        generate_config(&self.config, &self.zones)
    }

    /// What taking zone `spec` under `key` does: `o` before, `n` after, `r` returned.
    pub open spec fn zone_update(o: KnotService, n: KnotService, key: Seq<char>, spec: ZoneSpec, r: Option<ZoneArtifacts>) -> bool {
        &&& n.wf()
        &&& n.config == o.config
        &&& kind_of(key) != KeyKind::Zone ==> r is None && n.zones@ == o.zones@
        &&& kind_of(key) == KeyKind::Zone ==> r is Some
        &&& kind_of(key) == KeyKind::Zone ==> ({
                let z = n.zones@;
                let a = r->0;
                &&& has_zone(z, last_segment(key))
                &&& z == upsert(o.zones@, z[index_of_zone(z, last_segment(key))])
                &&& z[index_of_zone(z, last_segment(key))].name@ == last_segment(key)
                &&& z[index_of_zone(z, last_segment(key))].spec == spec
                &&& z[index_of_zone(z, last_segment(key))].file@ == zone_file_path_of(
                    o.config.zone_dir@,
                    last_segment(key),
                )
                &&& a.zone_name@ == last_segment(key)
                &&& a.domain@ == spec.domain@
                &&& a.zone_file_path@ == zone_file_path_of(o.config.zone_dir@, last_segment(key))
                &&& a.zone_file@ == zone_file_text(spec)
                &&& a.config@ == knot_config_text(o.config, z)
                &&& a.first_seen == !has_zone(o.zones@, last_segment(key))
        })
    }

    /// Takes a zone put under `key`. A key of another family, or a zone file
    /// key, changes nothing and asks for nothing. Otherwise the zone, named by
    /// the key's last segment, is added or replaced, and its file and the
    /// configuration are returned.
    pub fn on_config_change(&mut self, key: &str, spec: ZoneSpec) -> (r: Option<ZoneArtifacts>)
        requires
            old(self).wf(),
        ensures
            Self::zone_update(*old(self), *final(self), key@, spec, r),
    {
        if classify_key(key) != KeyKind::Zone {
            return None;
        }
        let name = key_last_segment(key);
        let file = zone_file_path(self.config.zone_dir.as_str(), name.as_str());
        let first_seen = crate::keyed::find_key(&self.zones, name.as_str()).is_none();
        let zone_file = generate_zone_file(&spec);
        let zone_file_path = zone_file_path(self.config.zone_dir.as_str(), name.as_str());
        let zone_name = name.clone();
        let domain = spec.domain.clone();
        let z = KnotZone { name, file, spec };
        let ghost zv = z;
        proof {
            lemma_upsert_unique(self.zones@, z);
        }
        upsert_vec(&mut self.zones, z);
        let config = generate_config(&self.config, &self.zones);
        proof {
            lemma_index_of_zone(self.zones@, zv);
        }
        Some(ZoneArtifacts { zone_name, domain, zone_file_path, zone_file, config, first_seen })
    }
}

pub open spec fn key_file_path_of(zone: Seq<char>, kind: Seq<char>, shadow: bool) -> Seq<char> {
    "/var/lib/knot/keys/"@ + zone + "."@ + kind + (if shadow {
        ".new.key"@
    } else {
        ".key"@
    })
}

/// The file of a zone's key of `kind` (`ksk` or `zsk`); a shadow key is the
/// one prepared for a rollover.
pub fn key_file_path(zone: &str, kind: &str, shadow: bool) -> (r: String)
    ensures
        r@ == key_file_path_of(zone@, kind@, shadow),
{
    let mut buf: Vec<char> = Vec::new();
    push_str(&mut buf, "/var/lib/knot/keys/");
    push_str(&mut buf, zone);
    push_str(&mut buf, ".");
    push_str(&mut buf, kind);
    if shadow {
        push_str(&mut buf, ".new.key");
    } else {
        push_str(&mut buf, ".key");
    }
    proof {
        assert(buf@ =~= key_file_path_of(zone@, kind@, shadow));
    }
    string_of(&buf)
}

/// Whether a zone's keys are to be generated: when either key file is missing.
pub fn needs_key_generation(ksk_exists: bool, zsk_exists: bool) -> (r: bool)
    ensures
        r == !(ksk_exists && zsk_exists),
{
    !(ksk_exists && zsk_exists)
}

/// What running an external command gave.
#[derive(Debug, Clone)]
pub enum CommandOutcome {
    /// It ran and exited with success.
    Succeeded,
    /// It ran and failed; its error and standard output.
    Failed(String),
    /// It could not be run.
    Unavailable,
}

/// The commands of the reload chain.
#[derive(Debug, Clone, Copy, PartialEq, Eq, Structural)]
pub enum ReloadCommand {
    /// The control utility's `reload`.
    ControlReload,
    /// The init manager's `is-active`.
    IsActive,
    /// The init manager's `stop`.
    Stop,
    /// The init manager's `start`.
    Start,
}

/// Where the reload chain stands: which command ran last.
#[derive(Debug, Clone, Copy, PartialEq, Eq, Structural)]
pub enum ReloadStage {
    Reloading,
    Checking,
    Stopping,
    Starting,
    Verifying,
    /// The control utility's `reload`, tried after a start that found the service loaded.
    ReloadingAgain,
}

/// Why a reload failed.
#[derive(Debug, Clone, Copy, PartialEq, Eq, Structural)]
pub enum ReloadError {
    /// The engine rejected its configuration; a restart would fail the same way.
    ConfigError,
    /// The init manager could not start the service.
    StartFailed,
    /// The service was started but is not active.
    NotActive,
    /// The reload tried after a start that found the service loaded failed.
    ReloadFailed,
}

/// What the chain does next: run a command, or stop with a result.
#[derive(Debug, Clone, Copy, PartialEq, Eq, Structural)]
pub enum ReloadStep {
    Run(ReloadCommand, ReloadStage),
    /// The service reloaded or restarted and is active.
    Done,
    Fail(ReloadError),
}

/// Whether a failure's text shows a configuration or syntax error.
pub open spec fn is_config_error(msg: Seq<char>) -> bool {
    contains(msg, "config"@) || contains(msg, "syntax"@)
}

/// The reload chain: the control utility's reload; on a configuration error,
/// stop with it; on any other failure, stop the service if it is active, start
/// it, and report success only when the check after the start finds it active.
/// A start that finds the service already loaded falls back to one more reload.
pub open spec fn reload_next(stage: ReloadStage, o: CommandOutcome) -> ReloadStep {
    match stage {
        ReloadStage::Reloading => match o {
            CommandOutcome::Succeeded => ReloadStep::Done,
            CommandOutcome::Failed(m) => if is_config_error(m@) {
                ReloadStep::Fail(ReloadError::ConfigError)
            } else {
                ReloadStep::Run(ReloadCommand::IsActive, ReloadStage::Checking)
            },
            CommandOutcome::Unavailable => ReloadStep::Run(ReloadCommand::IsActive, ReloadStage::Checking),
        },
        ReloadStage::Checking => match o {
            CommandOutcome::Succeeded => ReloadStep::Run(ReloadCommand::Stop, ReloadStage::Stopping),
            _ => ReloadStep::Run(ReloadCommand::Start, ReloadStage::Starting),
        },
        ReloadStage::Stopping => ReloadStep::Run(ReloadCommand::Start, ReloadStage::Starting),
        ReloadStage::Starting => match o {
            CommandOutcome::Succeeded => ReloadStep::Run(ReloadCommand::IsActive, ReloadStage::Verifying),
            CommandOutcome::Failed(m) => if contains(m@, "already loaded"@) {
                ReloadStep::Run(ReloadCommand::ControlReload, ReloadStage::ReloadingAgain)
            } else {
                ReloadStep::Fail(ReloadError::StartFailed)
            },
            CommandOutcome::Unavailable => ReloadStep::Fail(ReloadError::StartFailed),
        },
        ReloadStage::Verifying => match o {
            CommandOutcome::Succeeded => ReloadStep::Done,
            _ => ReloadStep::Fail(ReloadError::NotActive),
        },
        ReloadStage::ReloadingAgain => match o {
            CommandOutcome::Succeeded => ReloadStep::Done,
            _ => ReloadStep::Fail(ReloadError::ReloadFailed),
        },
    }
}

/// The first step of the chain: the control utility's reload.
pub fn reload_start() -> (r: ReloadStep)
    ensures
        r == ReloadStep::Run(ReloadCommand::ControlReload, ReloadStage::Reloading),
{
    ReloadStep::Run(ReloadCommand::ControlReload, ReloadStage::Reloading)
}

/// The next step of the chain, from the stage reached and what its command gave.
pub fn reload_step(stage: ReloadStage, o: &CommandOutcome) -> (r: ReloadStep)
    ensures
        r == reload_next(stage, *o),
{
    match stage {
        ReloadStage::Reloading => match o {
            CommandOutcome::Succeeded => ReloadStep::Done,
            CommandOutcome::Failed(m) => {
                if str_contains(m.as_str(), "config") || str_contains(m.as_str(), "syntax") {
                    ReloadStep::Fail(ReloadError::ConfigError)
                } else {
                    ReloadStep::Run(ReloadCommand::IsActive, ReloadStage::Checking)
                }
            },
            CommandOutcome::Unavailable => ReloadStep::Run(ReloadCommand::IsActive, ReloadStage::Checking),
        },
        ReloadStage::Checking => match o {
            CommandOutcome::Succeeded => ReloadStep::Run(ReloadCommand::Stop, ReloadStage::Stopping),
            _ => ReloadStep::Run(ReloadCommand::Start, ReloadStage::Starting),
        },
        ReloadStage::Stopping => ReloadStep::Run(ReloadCommand::Start, ReloadStage::Starting),
        ReloadStage::Starting => match o {
            CommandOutcome::Succeeded => ReloadStep::Run(ReloadCommand::IsActive, ReloadStage::Verifying),
            CommandOutcome::Failed(m) => {
                if str_contains(m.as_str(), "already loaded") {
                    ReloadStep::Run(ReloadCommand::ControlReload, ReloadStage::ReloadingAgain)
                } else {
                    ReloadStep::Fail(ReloadError::StartFailed)
                }
            },
            CommandOutcome::Unavailable => ReloadStep::Fail(ReloadError::StartFailed),
        },
        ReloadStage::Verifying => match o {
            CommandOutcome::Succeeded => ReloadStep::Done,
            _ => ReloadStep::Fail(ReloadError::NotActive),
        },
        ReloadStage::ReloadingAgain => match o {
            CommandOutcome::Succeeded => ReloadStep::Done,
            _ => ReloadStep::Fail(ReloadError::ReloadFailed),
        },
    }
}

/// After a restart, success is reported only from the liveness check that
/// follows the start: neither stopping nor starting ends the chain with success.
pub proof fn lemma_restart_success_needs_probe(o: CommandOutcome)
    ensures
        reload_next(ReloadStage::Starting, o) != ReloadStep::Done,
        reload_next(ReloadStage::Stopping, o) != ReloadStep::Done,
        reload_next(ReloadStage::Checking, o) != ReloadStep::Done,
        reload_next(ReloadStage::Verifying, o) == ReloadStep::Done <==> o is Succeeded,
{
}

/// Putting the same zone under the same key again writes the same zone file
/// and the same engine configuration, and no longer counts as a first sighting.
pub proof fn lemma_zone_put_idempotent(
    s0: KnotService,
    s1: KnotService,
    s2: KnotService,
    key: Seq<char>,
    spec: ZoneSpec,
    r1: Option<ZoneArtifacts>,
    r2: Option<ZoneArtifacts>,
)
    requires
        s0.wf(),
        KnotService::zone_update(s0, s1, key, spec, r1),
        KnotService::zone_update(s1, s2, key, spec, r2),
    ensures
        r1 is Some <==> r2 is Some,
        r2 is Some ==> r2->0.zone_file@ == r1->0.zone_file@ && r2->0.config@ == r1->0.config@
            && r2->0.zone_file_path@ == r1->0.zone_file_path@ && !r2->0.first_seen,
{
    if kind_of(key) == KeyKind::Zone {
        let name = last_segment(key);
        let z1 = s1.zones@;
        let z2 = s2.zones@;
        let j = index_of_zone(z1, name);
        let w2 = z2[index_of_zone(z2, name)];
        assert(z1[j].name@ == name);
        assert(has_zone(z1, name));
        assert forall|k: int| 0 <= k < j implies z1[k].key_view() != w2.key_view() by {
            assert(z1[k].key_view() != z1[j].key_view());
        }
        crate::keyed::lemma_upsert_at(z1, w2, j);
        assert(zone_block(w2) == zone_block(z1[j]));
        crate::text::lemma_joined_update(z1, j, w2, zone_block_fn());
        assert(z2 == z1.update(j, w2));
    }
}

/// The position of the zone named `name` in `zs`.
pub open spec fn index_of_zone(zs: Seq<KnotZone>, name: Seq<char>) -> int {
    choose|i: int| 0 <= i < zs.len() && zs[i].name@ == name
}

proof fn lemma_index_of_zone(zs: Seq<KnotZone>, z: KnotZone)
    requires
        keys_unique(zs),
        exists|i: int| 0 <= i < zs.len() && zs[i] == z,
    ensures
        zs[index_of_zone(zs, z.name@)] == z,
{
    let i = choose|i: int| 0 <= i < zs.len() && zs[i] == z;
    let j = index_of_zone(zs, z.name@);
    assert(zs[i].key_view() == z.name@);
    if i != j {
        assert(zs[i].key_view() != zs[j].key_view());
    }
}

} // verus!
