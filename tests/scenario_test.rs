use nnoe_agent::config::{DhcpServiceConfig, DnsServiceConfig, DnsdistServiceConfig};
use nnoe_agent::dnsdist::DnsdistService;
use nnoe_agent::filter::ThreatEntry;
use nnoe_agent::ha::{HaCoordinator, HaState, ServiceAction};
use nnoe_agent::kea::{DhcpOption, KeaService, ScopeSpec};
use nnoe_agent::knot::{
    reload_start, reload_step, CommandOutcome, KnotService, ReloadCommand, ReloadError, ReloadStage,
    ReloadStep,
};
use nnoe_agent::policy::{PolicyDoc, PolicyRule};
use nnoe_agent::zone::{DnsRecord, ZoneSpec};

fn dns_config() -> DnsServiceConfig {
    DnsServiceConfig {
        enabled: true,
        engine: "knot".to_string(),
        config_path: "/tmp/test-knot.conf".to_string(),
        zone_dir: "/tmp/test-zones".to_string(),
        listen_address: "127.0.0.1".to_string(),
        listen_port: 5353,
    }
}

fn example_zone() -> ZoneSpec {
    ZoneSpec {
        domain: "example.com".to_string(),
        ttl: Some(3600),
        records: vec![DnsRecord {
            name: "@".to_string(),
            record_type: "A".to_string(),
            value: "192.0.2.1".to_string(),
            ttl: None,
        }],
    }
}

fn filter_config() -> DnsdistServiceConfig {
    DnsdistServiceConfig {
        enabled: true,
        config_path: "/tmp/test-dnsdist.conf".to_string(),
        lua_script_path: "/tmp/test-rules.lua".to_string(),
        listen_address: "127.0.0.1".to_string(),
        listen_port: 5353,
        control_port: 5199,
        upstream_resolvers: vec!["8.8.8.8".to_string()],
    }
}

#[test]
fn zone_propagation_writes_zone_file_and_config() {
    let mut knot = KnotService::new(dns_config());
    let art = knot.on_config_change("/nnoe/dns/zones/example.com", example_zone()).unwrap();
    assert_eq!(art.zone_file_path, "/tmp/test-zones/example.com.zone");
    assert!(art.zone_file.contains("$ORIGIN example.com"));
    assert!(art.zone_file.contains("@\t3600\tA\t192.0.2.1"));
    assert!(art.zone_file.contains("SOA"));
    assert!(art.config.contains("domain: example.com"));
    assert!(art.config.contains("file: \"/tmp/test-zones/example.com.zone\""));
    assert!(art.first_seen);
    assert_eq!(reload_start(), ReloadStep::Run(ReloadCommand::ControlReload, ReloadStage::Reloading));
}

#[test]
fn test_knot_config_generation() {
    let knot = KnotService::new(dns_config());
    let text = knot.config_text();
    assert!(text.contains("server"), "Config should contain server section");
    assert!(text.contains("listen: [ 127.0.0.1@5353, ::@5353 ]"));
    let mut knot = knot;
    let art = knot.on_config_change("/nnoe/dns/zones/example.com", example_zone()).unwrap();
    assert!(art.config.contains("zone"), "Config should contain zone section");
}

#[test]
fn test_zone_update_flow() {
    let mut knot = KnotService::new(dns_config());
    knot.on_config_change("/nnoe/dns/zones/test.com", ZoneSpec {
        domain: "test.com".to_string(),
        ttl: Some(3600),
        records: vec![DnsRecord {
            name: "@".to_string(),
            record_type: "A".to_string(),
            value: "192.0.2.1".to_string(),
            ttl: None,
        }],
    });
    let art = knot
        .on_config_change("/nnoe/dns/zones/test.com", ZoneSpec {
            domain: "test.com".to_string(),
            ttl: Some(3600),
            records: vec![DnsRecord {
                name: "mail".to_string(),
                record_type: "A".to_string(),
                value: "192.0.2.2".to_string(),
                ttl: None,
            }],
        })
        .unwrap();
    assert!(art.zone_file.contains("mail"), "Zone file should contain updated record");
    assert!(art.zone_file.contains("192.0.2.2"), "Zone file should contain new IP");
    assert!(!art.first_seen);
    assert_eq!(knot.zones.len(), 1);
}

#[test]
fn zone_file_exact_text() {
    let text = nnoe_agent::zone::generate_zone_file(&example_zone());
    let expected = "$ORIGIN example.com.\n$TTL 3600\n\n@\tIN\tSOA\tns1.example.com. admin.example.com. (\n\t\t1\t; Serial\n\t\t3600\t; Refresh\n\t\t1800\t; Retry\n\t\t604800\t; Expire\n\t\t86400\t; Minimum TTL\n)\n\n@\t3600\tA\t192.0.2.1\n";
    assert_eq!(text, expected);
}

#[test]
fn zone_keys_of_other_families_are_ignored() {
    let mut knot = KnotService::new(dns_config());
    assert!(knot.on_config_change("/nnoe/dhcp/scopes/s1", example_zone()).is_none());
    assert!(knot.on_config_change("/nnoe/dns/zones/example.com/zonefile", example_zone()).is_none());
    assert_eq!(knot.zones.len(), 0);
}

#[test]
fn threat_add_blocks_domain() {
    let mut f = DnsdistService::new(filter_config());
    let art = f
        .on_threat("/nnoe/threats/domains/malicious.example.com", ThreatEntry {
            domain: "malicious.example.com".to_string(),
            source: "MISP".to_string(),
        })
        .unwrap();
    assert!(art.script.contains("[\"malicious.example.com\"] = true"));
    assert!(art.script.contains("return DNSAction.Drop"));
    let zone = art.rpz_zone.unwrap();
    assert!(zone.contains("malicious.example.com CNAME rpz-drop.nnoe.local."));
}

#[test]
fn test_dnsdist_config_generation() {
    let f = DnsdistService::new(filter_config());
    let text = f.config_text();
    assert!(text.contains("setLocal(\"127.0.0.1:5353\")"));
    assert!(text.contains("controlSocket(\"127.0.0.1:5199\")"));
    assert!(text.contains("newServer({address=\"8.8.8.8\", name=\"8.8.8.8\"})"));
    let mut none = filter_config();
    none.upstream_resolvers = vec![];
    let text = DnsdistService::new(none).config_text();
    assert!(text.contains("127.0.0.1:5353"));
    assert!(text.contains("8.8.8.8"));
}

#[test]
fn policy_becomes_script_rule() {
    let mut f = DnsdistService::new(filter_config());
    let doc = PolicyDoc {
        resource: "dns_query".to_string(),
        rules: vec![PolicyRule {
            actions: vec!["resolve".to_string()],
            effect: "EFFECT_ALLOW".to_string(),
            roles: vec!["admin".to_string()],
            expr: Some("request.domain.contains(\"malicious\") && request.time.hour < 18".to_string()),
        }],
    };
    let art = f.on_policy("/nnoe/policies/p1", Some(doc)).unwrap();
    assert!(art.script.contains("role == \"admin\""));
    assert!(art.script.contains("string.find(qname, \"malicious\")"));
    assert!(art.script.contains("if current_hour >= 18 then\n    return DNSAction.Drop"));
    assert!(art.script.contains("-- Rule: cerbos_p1_0"));
    assert_eq!(f.rules.len(), 1);
    assert_eq!(f.rules[0].priority, 1000);
}

#[test]
fn policy_for_other_resource_is_skipped() {
    let mut f = DnsdistService::new(filter_config());
    let doc = PolicyDoc { resource: "dhcp_lease".to_string(), rules: vec![] };
    assert!(f.on_policy("/nnoe/policies/lease-policy", Some(doc)).is_none());
    assert!(f.on_policy("/nnoe/policies/empty-policy", None).is_none());
    assert_eq!(f.rules.len(), 0);
}

#[test]
fn ha_failover_moves_primary() {
    let mut n1 = HaCoordinator::new();
    let mut n2 = HaCoordinator::new();
    // N1 holds the VIP and runs the service; N2 publishes Primary.
    let (a, _) = n1.tick(true, Some(HaState::Standby));
    assert_eq!(a, ServiceAction::Start);
    n1.set_service_running(true);
    // The VIP moves to N2.
    let (a2, _) = n2.tick(true, Some(HaState::Primary));
    assert_eq!(n2.state, HaState::Primary);
    assert_eq!(a2, ServiceAction::Start);
    let (a1, changed) = n1.tick(false, Some(HaState::Primary));
    assert_eq!(n1.state, HaState::Standby);
    assert_eq!(a1, ServiceAction::Stop);
    assert!(changed);
    assert!(!n1.may_write_config());
    assert!(n2.may_write_config());
}

#[test]
fn ha_assumes_primary_without_peer() {
    let mut n = HaCoordinator::new();
    n.tick(false, None);
    assert_eq!(n.state, HaState::Primary);
    n.tick(false, Some(HaState::Unknown));
    assert_eq!(n.state, HaState::Standby);
}

#[test]
fn reload_falls_back_to_restart() {
    let s = reload_step(ReloadStage::Reloading, &CommandOutcome::Failed("connection refused".to_string()));
    assert_eq!(s, ReloadStep::Run(ReloadCommand::IsActive, ReloadStage::Checking));
    let s = reload_step(ReloadStage::Checking, &CommandOutcome::Succeeded);
    assert_eq!(s, ReloadStep::Run(ReloadCommand::Stop, ReloadStage::Stopping));
    let s = reload_step(ReloadStage::Stopping, &CommandOutcome::Succeeded);
    assert_eq!(s, ReloadStep::Run(ReloadCommand::Start, ReloadStage::Starting));
    let s = reload_step(ReloadStage::Starting, &CommandOutcome::Succeeded);
    assert_eq!(s, ReloadStep::Run(ReloadCommand::IsActive, ReloadStage::Verifying));
    assert_eq!(reload_step(ReloadStage::Verifying, &CommandOutcome::Succeeded), ReloadStep::Done);
    assert_eq!(
        reload_step(ReloadStage::Verifying, &CommandOutcome::Failed(String::new())),
        ReloadStep::Fail(ReloadError::NotActive)
    );
}

#[test]
fn reload_syntax_error_is_not_restarted() {
    let s = reload_step(ReloadStage::Reloading, &CommandOutcome::Failed("syntax error in line 3".to_string()));
    assert_eq!(s, ReloadStep::Fail(ReloadError::ConfigError));
    let s = reload_step(ReloadStage::Reloading, &CommandOutcome::Unavailable);
    assert_eq!(s, ReloadStep::Run(ReloadCommand::IsActive, ReloadStage::Checking));
    let s = reload_step(ReloadStage::Starting, &CommandOutcome::Failed("unit already loaded".to_string()));
    assert_eq!(s, ReloadStep::Run(ReloadCommand::ControlReload, ReloadStage::ReloadingAgain));
}

#[test]
fn dhcp_scope_builds_subnet() {
    let mut kea = KeaService::new(DhcpServiceConfig {
        enabled: true,
        engine: "kea".to_string(),
        config_path: "/tmp/test-kea.conf".to_string(),
        ha_pair_id: None,
        interface: "eth0".to_string(),
        control_port: 8000,
    });
    let cfg = kea
        .on_config_change("/nnoe/test/dhcp/scopes/scope-1", ScopeSpec {
            subnet: "192.168.1.0/24".to_string(),
            pool_start: "192.168.1.100".to_string(),
            pool_end: "192.168.1.200".to_string(),
            gateway: Some("192.168.1.1".to_string()),
            options: vec![
                DhcpOption { name: "dns-servers".to_string(), value: "1.1.1.1, 8.8.4.4".to_string() },
                DhcpOption { name: "domain-name".to_string(), value: "example.com".to_string() },
            ],
        })
        .unwrap();
    assert_eq!(cfg.interface, "eth0");
    assert_eq!(cfg.subnets.len(), 1);
    let s = &cfg.subnets[0];
    assert_eq!(s.subnet, "192.168.1.0/24");
    assert_eq!(s.pool, "192.168.1.100 - 192.168.1.200");
    let rows: Vec<(String, String)> = s.option_data.iter().map(|o| (o.name.clone(), o.data.clone())).collect();
    assert_eq!(rows, vec![
        ("routers".to_string(), "192.168.1.1".to_string()),
        ("domain-name-servers".to_string(), "1.1.1.1, 8.8.4.4".to_string()),
        ("domain-name".to_string(), "example.com".to_string()),
    ]);
}

#[test]
fn dhcp_standby_does_not_write_config() {
    let mut kea = KeaService::new(DhcpServiceConfig {
        enabled: true,
        engine: "kea".to_string(),
        config_path: "/tmp/test-ha/kea.conf".to_string(),
        ha_pair_id: Some("test-pair-1".to_string()),
        interface: "eth0".to_string(),
        control_port: 8000,
    });
    kea.ha.tick(false, Some(HaState::Primary));
    let scope = ScopeSpec {
        subnet: "10.0.0.0/24".to_string(),
        pool_start: "10.0.0.10".to_string(),
        pool_end: "10.0.0.20".to_string(),
        gateway: None,
        options: vec![],
    };
    assert!(kea.on_config_change("/nnoe/dhcp/scopes/s", scope).is_none());
    assert_eq!(kea.scopes.len(), 1);
    let cfg = kea.generate_config();
    assert_eq!(cfg.subnets[0].option_data[0].name, "domain-name-servers");
    assert_eq!(cfg.subnets[0].option_data[0].data, "8.8.8.8");
}
