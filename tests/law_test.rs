use nnoe_agent::audit::{audit_key, parse_lynis_report, report_node};
use nnoe_agent::config::{CerbosServiceConfig, DnsServiceConfig, DnsdistServiceConfig};
use nnoe_agent::dnsdist::DnsdistService;
use nnoe_agent::entry::{decode_entry, encode_entry};
use nnoe_agent::eviction::{eviction_plan, is_live, order_by_stamp};
use nnoe_agent::expr::{convert_cerbos_expr_to_lua, convert_trimmed_expr};
use nnoe_agent::filter::{generate_role_lookup_lua, rpz_zone_path, RoleMapping, ThreatEntry};
use nnoe_agent::ha::{derive_ha_state, ha_status_key, parse_ha_state, select_peer_state, HaState};
use nnoe_agent::kea::split_trimmed;
use nnoe_agent::keys::{classify_key, full_key, key_last_segment, KeyKind};
use nnoe_agent::knot::{key_file_path, needs_key_generation, KnotService};
use nnoe_agent::metrics::AgentMetrics;
use nnoe_agent::pdp::{decide, request_id, ActionEffect, CerbosService};
use nnoe_agent::registry::{ConfigValue, PluginRegistry, RegistryError, ServiceAdapter};
use nnoe_agent::severity::{determine_severity, severity_for};
use nnoe_agent::supervisor::{restart_backoff, ChildEvent, Supervisor, SupervisorAction};
use nnoe_agent::watch::{plan_event, watch_prefixes, StepKind, WatchEvent};
use nnoe_agent::zone::{DnsRecord, ZoneSpec};

fn filter_config() -> DnsdistServiceConfig {
    DnsdistServiceConfig {
        enabled: true,
        config_path: "/tmp/f.conf".to_string(),
        lua_script_path: "/tmp/f.lua".to_string(),
        listen_address: "0.0.0.0".to_string(),
        listen_port: 53,
        control_port: 5199,
        upstream_resolvers: vec![],
    }
}

#[test]
fn same_threat_twice_gives_same_artifacts() {
    let mut f = DnsdistService::new(filter_config());
    let t = || ThreatEntry { domain: "bad.example".to_string(), source: "MISP".to_string() };
    let a1 = f.on_threat("/nnoe/threats/domains/bad.example", t()).unwrap();
    let a2 = f.on_threat("/nnoe/threats/domains/bad.example", t()).unwrap();
    assert_eq!(a1.script, a2.script);
    assert_eq!(a1.rpz_zone, a2.rpz_zone);
    assert_eq!(f.threats.len(), 1);
}

#[test]
fn same_zone_twice_gives_same_artifacts() {
    let mut k = KnotService::new(DnsServiceConfig {
        enabled: true,
        engine: "knot".to_string(),
        config_path: "/tmp/k.conf".to_string(),
        zone_dir: "/tmp/z".to_string(),
        listen_address: "0.0.0.0".to_string(),
        listen_port: 53,
    });
    let z = || ZoneSpec {
        domain: "a.test".to_string(),
        ttl: None,
        records: vec![DnsRecord { name: "www".to_string(), record_type: "A".to_string(), value: "192.0.2.9".to_string(), ttl: Some(60) }],
    };
    let a1 = k.on_config_change("/p/dns/zones/a.test", z()).unwrap();
    let a2 = k.on_config_change("/p/dns/zones/a.test", z()).unwrap();
    assert_eq!(a1.zone_file, a2.zone_file);
    assert_eq!(a1.config, a2.config);
    assert!(a1.zone_file.contains("www\t60\tA\t192.0.2.9\n"));
    assert!(a1.zone_file.contains("$TTL 3600\n"));
}

#[test]
fn ttl_window_bounds() {
    assert!(is_live(100, 100, 5));
    assert!(is_live(100, 105, 5));
    assert!(!is_live(100, 106, 5));
    assert!(is_live(100, 50, 5));
}

#[test]
fn eviction_removes_oldest_until_under_cap() {
    let sizes = vec![10u64, 10, 10];
    let stamps = vec![3u64, 1, 2];
    assert_eq!(eviction_plan(&sizes, &stamps, 15), vec![1usize, 2]);
    assert_eq!(eviction_plan(&sizes, &stamps, 30), Vec::<usize>::new());
    assert_eq!(eviction_plan(&sizes, &stamps, 0), vec![1usize, 2, 0]);
    assert_eq!(order_by_stamp(&vec![5u64, 5, 1]), vec![2usize, 0, 1]);
}

#[test]
fn ha_pair_never_two_primaries_after_tick() {
    for (v1, v2) in [(true, false), (false, true), (false, false)] {
        for s1 in [HaState::Primary, HaState::Standby, HaState::Unknown] {
            for s2 in [HaState::Primary, HaState::Standby, HaState::Unknown] {
                let a = derive_ha_state(v1, Some(s1));
                let b = derive_ha_state(v2, Some(s2));
                assert!(!(a == HaState::Primary && b == HaState::Primary));
            }
        }
    }
}

#[test]
fn watch_steps_keep_order() {
    let put = plan_event(&WatchEvent::Put("/p/dns/zones/a".to_string(), b"{}".to_vec()));
    assert_eq!(put.len(), 2);
    assert_eq!(put[0].kind, StepKind::CachePut);
    assert_eq!(put[1].kind, StepKind::Notify);
    assert_eq!(put[1].key, "/p/dns/zones/a");
    let del = plan_event(&WatchEvent::Delete("/p/dns/zones/a".to_string()));
    assert_eq!(del.len(), 1);
    assert_eq!(del[0].kind, StepKind::CacheDelete);
    let ps = watch_prefixes("/nnoe");
    assert_eq!(ps, vec!["/nnoe/dns/zones", "/nnoe/dhcp/scopes", "/nnoe/policies", "/nnoe/threats"]);
}

#[test]
fn every_adapter_sees_the_event() {
    let mut reg = PluginRegistry::new();
    reg.register(ServiceAdapter::Dnsdist(DnsdistService::new(filter_config()))).unwrap();
    reg.register(ServiceAdapter::Cerbos(CerbosService::new(CerbosServiceConfig {
        enabled: true,
        endpoint: "http://localhost:8222".to_string(),
        timeout_secs: 2,
    })))
    .unwrap();
    let dup = reg.register(ServiceAdapter::Dnsdist(DnsdistService::new(filter_config())));
    assert_eq!(dup.err(), Some(RegistryError::Duplicate));
    // The filter cannot read the value and fails; the decision point still caches the document.
    let out = reg.notify_config_change("/nnoe/policies/p1", b"raw", ConfigValue::Unreadable);
    assert_eq!(out.len(), 2);
    assert_eq!(out[0].name, "dnsdist");
    assert!(out[0].result.is_err());
    assert_eq!(out[1].name, "cerbos");
    assert!(out[1].result.is_ok());
    match &reg.adapters[1] {
        ServiceAdapter::Cerbos(c) => {
            assert_eq!(c.load_policy_from_cache("p1"), Some(&b"raw".to_vec()));
        }
        _ => panic!("registration order changed"),
    }
}

#[test]
fn entry_round_trip() {
    let b = encode_entry(&b"value".to_vec(), 1234);
    assert_eq!(b.len(), 21);
    assert_eq!(&b[0..8], &[5, 0, 0, 0, 0, 0, 0, 0]);
    assert_eq!(decode_entry(&b), Some((b"value".to_vec(), 1234)));
    assert_eq!(decode_entry(&vec![1, 2, 3]), None);
}

#[test]
fn expression_translation_exact() {
    let e = "request.domain.contains(\"malicious\") && request.time.hour < 18";
    assert_eq!(convert_trimmed_expr(e), "string.find(qname, 'malicious') ~= nil  and  current_hour < 18");
    assert_eq!(convert_cerbos_expr_to_lua("  request.time.day != 0  "), "current_day ~= 0");
    assert_eq!(convert_trimmed_expr("!blocked || x"), "not blocked  or  x");
}

#[test]
fn role_lookup_text() {
    assert_eq!(
        generate_role_lookup_lua(&vec![]),
        "  local role = \"user\" -- Default role, no mappings configured\n"
    );
    let t = generate_role_lookup_lua(&vec![RoleMapping {
        subject: "10.0.0.0/8".to_string(),
        roles: vec!["admin".to_string(), "ops".to_string()],
    }]);
    assert!(t.contains("    [\"10.0.0.0/8\"] = \"admin\",\n"));
}

#[test]
fn severity_by_category() {
    assert_eq!(determine_severity("Malware"), "high");
    assert_eq!(determine_severity("ATTACK-PATTERN"), "high");
    assert_eq!(determine_severity("Network-Activity"), "medium");
    assert_eq!(determine_severity("other"), "low");
    assert_eq!(severity_for("payload-delivery"), "medium");
    assert_eq!(severity_for("Malware"), "low");
}

#[test]
fn backoff_doubles_up_to_a_minute() {
    assert_eq!(restart_backoff(0), 1);
    assert_eq!(restart_backoff(1), 2);
    assert_eq!(restart_backoff(5), 32);
    assert_eq!(restart_backoff(6), 60);
    let mut s = Supervisor::new();
    assert_eq!(s.on_event(ChildEvent::Running), SupervisorAction::Poll);
    for n in 1..=5u64 {
        assert_eq!(s.on_event(ChildEvent::Exited), SupervisorAction::RestartAfter(1u64 << n));
    }
    assert_eq!(s.on_event(ChildEvent::Exited), SupervisorAction::GiveUp);
    assert!(!s.is_running());
    assert_eq!(s.on_event(ChildEvent::Restarted), SupervisorAction::Poll);
    assert_eq!(s.restart_count, 0);
}

#[test]
fn audit_report_parsing() {
    let report = "Hardening index : [67]\n[WARNING] weak ssh config \n[SUGGESTION] enable firewall\n[+] Boot and services\n  - [OK] Service Manager: systemd\n  - [WARNING] grub password\n[+] Empty section\n";
    let r = parse_lynis_report(report, report_node(None), "2025-01-01T00:00:00Z".to_string());
    assert_eq!(r.node, "unknown");
    assert_eq!(r.score, Some(67));
    assert_eq!(r.warnings, vec!["weak ssh config".to_string(), "grub password".to_string()]);
    assert_eq!(r.suggestions, vec!["enable firewall".to_string()]);
    assert_eq!(r.sections.len(), 1);
    assert_eq!(r.sections[0].name, "Boot and services");
    assert_eq!(r.sections[0].items.len(), 2);
    assert_eq!(r.sections[0].items[0].plugin, "Service Manager");
    assert_eq!(r.sections[0].items[0].option, "systemd");
    assert_eq!(r.sections[0].items[0].status, "OK");
    assert_eq!(r.sections[0].items[1].plugin, "unknown");
    assert_eq!(r.sections[0].items[1].option, "grub password");
    assert_eq!(audit_key("/nnoe", "n1"), "/nnoe/audit/lynis/n1");
    let r2 = parse_lynis_report("Hardening index = 99999999999\n", "n".to_string(), String::new());
    assert_eq!(r2.score, None);
}

#[test]
fn key_routing() {
    assert_eq!(full_key("/nnoe", "/dns/zones/a"), "/nnoe/dns/zones/a");
    assert_eq!(full_key("/nnoe", "/nnoe/dns/zones/a"), "/nnoe/dns/zones/a");
    assert_eq!(key_last_segment("/nnoe/dns/zones/example.com"), "example.com");
    assert_eq!(key_last_segment("plain"), "plain");
    assert_eq!(classify_key("/nnoe/dns/zones/a"), KeyKind::Zone);
    assert_eq!(classify_key("/nnoe/dns/zones/a/zonefile"), KeyKind::Other);
    assert_eq!(classify_key("/nnoe/dhcp/scopes/s"), KeyKind::Scope);
    assert_eq!(classify_key("/nnoe/threats/domains/x"), KeyKind::Threat);
    assert_eq!(classify_key("/nnoe/policies/p"), KeyKind::Policy);
    assert_eq!(classify_key("/nnoe/role-mappings/10.0.0.1"), KeyKind::RoleMapping);
    assert_eq!(classify_key("/nnoe/dhcp/ha-pairs/p/nodes/n/status"), KeyKind::HaStatus);
    assert_eq!(ha_status_key("/nnoe", "p", "n"), "/nnoe/dhcp/ha-pairs/p/nodes/n/status");
    assert_eq!(parse_ha_state("Primary"), Some(HaState::Primary));
    assert_eq!(parse_ha_state("bogus"), None);
}

#[test]
fn dns_servers_split_and_trimmed() {
    assert_eq!(split_trimmed(" 1.1.1.1 ,8.8.4.4"), vec!["1.1.1.1".to_string(), "8.8.4.4".to_string()]);
    assert_eq!(split_trimmed("9.9.9.9"), vec!["9.9.9.9".to_string()]);
}

#[test]
fn dnssec_keys_and_decisions() {
    assert_eq!(key_file_path("example.com", "ksk", false), "/var/lib/knot/keys/example.com.ksk.key");
    assert_eq!(key_file_path("example.com", "zsk", true), "/var/lib/knot/keys/example.com.zsk.new.key");
    assert!(needs_key_generation(true, false));
    assert!(!needs_key_generation(true, true));
}

#[test]
fn decision_needs_an_allow_for_the_action() {
    let res = vec![
        ActionEffect { action: "read".to_string(), allow: false },
        ActionEffect { action: "allow".to_string(), allow: true },
    ];
    assert!(decide(&res, "allow"));
    assert!(!decide(&res, "read"));
    assert!(!decide(&vec![], "allow"));
    assert_eq!(request_id("abc"), "nnoe-abc");
}

#[test]
fn metrics_count_and_wrap() {
    let mut m = AgentMetrics::new();
    m.increment_config_updates();
    m.increment_dhcp_leases();
    m.increment_dhcp_leases();
    m.decrement_dhcp_leases_active();
    assert_eq!(m.get_config_updates_total(), 1);
    assert_eq!(m.get_dhcp_leases_total(), 2);
    assert_eq!(m.get_dhcp_leases_active(), 1);
    let mut z = AgentMetrics::default();
    z.decrement_dhcp_leases_active();
    assert_eq!(z.get_dhcp_leases_active(), u64::MAX);
}

#[test]
fn rpz_path_and_peer_selection() {
    assert_eq!(rpz_zone_path("/etc/dnsdist/rules.lua"), "/etc/dnsdist/rpz/rpz.db");
    assert_eq!(rpz_zone_path("rules.lua"), "/var/lib/dnsdist/rpz/rpz.db");
    let own = "/nnoe/dhcp/ha-pairs/p/nodes/n1/status";
    let statuses = vec![
        (own.to_string(), Some(HaState::Primary)),
        ("/nnoe/dhcp/ha-pairs/p/nodes/n2/status".to_string(), Some(HaState::Standby)),
    ];
    assert_eq!(select_peer_state(&statuses, own), Some(HaState::Standby));
    assert_eq!(select_peer_state(&vec![(own.to_string(), Some(HaState::Primary))], own), None);
}

#[test]
fn unreadable_value_is_an_error_and_changes_nothing() {
    let mut reg = PluginRegistry::new();
    reg.register(ServiceAdapter::Knot(KnotService::new(DnsServiceConfig {
        enabled: true,
        engine: "knot".to_string(),
        config_path: "/tmp/k.conf".to_string(),
        zone_dir: "/tmp/z".to_string(),
        listen_address: "0.0.0.0".to_string(),
        listen_port: 53,
    })))
    .unwrap();
    reg.register(ServiceAdapter::Dnsdist(DnsdistService::new(filter_config()))).unwrap();
    let out = reg.notify_config_change("/nnoe/dns/zones/a.test", b"not json", ConfigValue::Unreadable);
    assert_eq!(out.len(), 2);
    assert!(matches!(out[0].result, Err(nnoe_agent::registry::PluginError::Unreadable)));
    assert!(matches!(out[1].result, Ok(nnoe_agent::registry::AdapterEffect::Nothing)));
    match &reg.adapters[0] {
        ServiceAdapter::Knot(k) => assert_eq!(k.zones.len(), 0),
        _ => panic!("registration order changed"),
    }
    let health = reg.health_check_all(&vec![Some(true), None]);
    assert_eq!(health, vec![("knot-dns", true), ("dnsdist", false)]);
    let reloaded = reg.reload_all();
    assert_eq!(reloaded.len(), 2);
    assert!(matches!(reloaded[0].1, nnoe_agent::registry::AdapterEffect::DnsConfig(_)));
}

#[test]
fn audit_report_follows_the_patterns() {
    // Unicode whitespace between the words, and a warning whose text starts on the next line.
    let report = "Hardening\u{a0}index : 42\n[WARNING]\n   next line text\n[+] S\n  - [OK]   \n  - [OK] a:b\n[+] S\n  - [WARNING] again\n";
    let r = parse_lynis_report(report, "n".to_string(), String::new());
    assert_eq!(r.score, Some(42));
    assert_eq!(r.warnings, vec!["next line text".to_string(), "again".to_string()]);
    assert_eq!(r.sections.len(), 1);
    assert_eq!(r.sections[0].items.len(), 1);
    assert_eq!(r.sections[0].items[0].message, "again");
    let r2 = parse_lynis_report("[+] S\n  - [OK]   \n", "n".to_string(), String::new());
    assert_eq!(r2.sections[0].items.len(), 1);
    assert_eq!(r2.sections[0].items[0].message, "");
    assert_eq!(r2.sections[0].items[0].plugin, "unknown");
    let r3 = parse_lynis_report("Hardening index : 4\u{663}\n", "n".to_string(), String::new());
    assert_eq!(r3.score, None);
}

#[test]
fn cache_list_is_in_key_order() {
    let config = nnoe_agent::config::CacheConfig {
        path: "/tmp/nnoe-test-cache-order".to_string(),
        default_ttl_secs: 60,
        max_size_mb: 10,
    };
    let mut cache = nnoe_agent::cache::CacheManager::new(&config).unwrap();
    cache.clear().unwrap();
    cache.put("p/b", b"2", 10).unwrap();
    cache.put("p/a", b"1", 10).unwrap();
    let l = cache.list_prefix("p/", 10).unwrap();
    assert_eq!(l, vec![(b"p/a".to_vec(), b"1".to_vec()), (b"p/b".to_vec(), b"2".to_vec())]);
}
