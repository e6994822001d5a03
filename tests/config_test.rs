use nnoe_agent::registry::{enabled_services, ServiceKind};
use nnoe_agent::config::{
    default_cache_max_size, default_cache_ttl, default_dhcp_engine, default_dns_engine,
    default_lynis_interval, default_timeout, AgentConfig, CerbosServiceConfig, LynisServiceConfig, NodeRole,
};

#[test]
fn test_config_loading() {
    let config = AgentConfig::default_config();
    assert_eq!(config.node.name, "nnoe-node-1");
}

#[test]
fn test_node_role_parsing() {
    let config = AgentConfig::default_config();
    match config.node.role {
        NodeRole::Active => {}
        _ => panic!("Unexpected role"),
    }
}

#[test]
fn test_default_config() {
    let config = AgentConfig::default_config();
    assert_eq!(config.node.name, "nnoe-node-1");
    assert!(matches!(config.node.role, NodeRole::Active));
}

#[test]
fn test_node_role_serialization() {
    let role_str = match NodeRole::Active {
        NodeRole::Management => "management",
        NodeRole::DbOnly => "db-only",
        NodeRole::Active => "active",
    };
    assert_eq!(role_str, "active");
}

#[test]
fn test_etcd_config_defaults() {
    let config = AgentConfig::default_config();
    assert_eq!(config.etcd.timeout_secs, 5);
    assert_eq!(config.cache.default_ttl_secs, 300);
    assert_eq!(config.cache.max_size_mb, 100);
}

#[test]
fn test_service_configs() {
    let config = AgentConfig::default_config();
    assert!(config.services.dns.is_none());
    assert!(config.services.dhcp.is_none());
}

#[test]
fn default_values_match_documented_defaults() {
    assert_eq!(default_timeout(), 5);
    assert_eq!(default_cache_ttl(), 300);
    assert_eq!(default_cache_max_size(), 100);
    assert_eq!(default_dns_engine(), "knot");
    assert_eq!(default_dhcp_engine(), "kea");
    assert_eq!(default_lynis_interval(), 86400);
}

#[test]
fn node_role_names() {
    assert_eq!(NodeRole::DbOnly.as_str(), "db-only");
    assert_eq!(NodeRole::Management.as_str(), "management");
    assert!(NodeRole::DbOnly.is_db_only());
    assert!(!NodeRole::Active.is_db_only());
}

#[test]
fn services_registered_by_role() {
    let mut config = AgentConfig::default_config();
    assert!(enabled_services(&config).is_empty());
    config.services.cerbos = Some(CerbosServiceConfig {
        enabled: true,
        endpoint: "http://localhost:8222".to_string(),
        timeout_secs: 2,
    });
    config.services.lynis = Some(LynisServiceConfig {
        enabled: false,
        audit_interval_secs: 86400,
        report_path: "/tmp/lynis.dat".to_string(),
    });
    assert_eq!(enabled_services(&config), vec![ServiceKind::Pdp]);
    config.node.role = NodeRole::DbOnly;
    assert!(enabled_services(&config).is_empty());
}
