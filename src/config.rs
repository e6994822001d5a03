use vstd::prelude::*;
use vstd::string::StringExecFns;

verus! {

/// Role of this node in the cluster.
#[derive(Debug, Clone, Copy, PartialEq, Eq, Structural)]
pub enum NodeRole {
    Management,
    DbOnly,
    Active,
}

impl NodeRole {
    /// The role's name as written in the configuration file.
    pub fn as_str(&self) -> (r: &'static str)
        ensures
            r@ == node_role_name(*self),
    {
        match self {
            NodeRole::Management => "management",
            NodeRole::DbOnly => "db-only",
            NodeRole::Active => "active",
        }
    }

    /// Whether this node only replicates the store and cache, running no services.
    pub fn is_db_only(&self) -> (r: bool)
        ensures
            r == (*self == NodeRole::DbOnly),
    {
        matches!(self, NodeRole::DbOnly)
    }
}

pub open spec fn node_role_name(r: NodeRole) -> Seq<char> {
    match r {
        NodeRole::Management => "management"@,
        NodeRole::DbOnly => "db-only"@,
        NodeRole::Active => "active"@,
    }
}

#[derive(Debug, Clone)]
pub struct NodeConfig {
    pub name: String,
    pub role: NodeRole,
    pub node_id: Option<String>,
}

#[derive(Debug, Clone)]
pub struct TlsConfig {
    pub ca_cert: String,
    pub cert: String,
    pub key: String,
}

#[derive(Debug, Clone)]
pub struct EtcdConfig {
    pub endpoints: Vec<String>,
    pub prefix: String,
    pub timeout_secs: u64,
    pub tls: Option<TlsConfig>,
}

#[derive(Debug, Clone)]
pub struct CacheConfig {
    pub path: String,
    pub default_ttl_secs: u64,
    pub max_size_mb: u64,
}

#[derive(Debug, Clone)]
pub struct NebulaConfig {
    pub enabled: bool,
    pub config_path: Option<String>,
    pub cert_path: Option<String>,
    pub key_path: Option<String>,
    pub lighthouse_hosts: Vec<String>,
}

#[derive(Debug, Clone)]
pub struct DnsServiceConfig {
    pub enabled: bool,
    pub engine: String,
    pub config_path: String,
    pub zone_dir: String,
    pub listen_address: String,
    pub listen_port: u16,
}

#[derive(Debug, Clone)]
pub struct DhcpServiceConfig {
    pub enabled: bool,
    pub engine: String,
    pub config_path: String,
    pub ha_pair_id: Option<String>,
    pub interface: String,
    pub control_port: u16,
}

#[derive(Debug, Clone)]
pub struct DnsdistServiceConfig {
    pub enabled: bool,
    pub config_path: String,
    pub lua_script_path: String,
    pub listen_address: String,
    pub listen_port: u16,
    pub control_port: u16,
    pub upstream_resolvers: Vec<String>,
}

#[derive(Debug, Clone)]
pub struct CerbosServiceConfig {
    pub enabled: bool,
    pub endpoint: String,
    pub timeout_secs: u64,
}

#[derive(Debug, Clone)]
pub struct LynisServiceConfig {
    pub enabled: bool,
    pub audit_interval_secs: u64,
    pub report_path: String,
}

#[derive(Debug, Clone)]
pub struct ServicesConfig {
    pub dns: Option<DnsServiceConfig>,
    pub dhcp: Option<DhcpServiceConfig>,
    pub dnsdist: Option<DnsdistServiceConfig>,
    pub cerbos: Option<CerbosServiceConfig>,
    pub lynis: Option<LynisServiceConfig>,
}

#[derive(Debug, Clone)]
pub struct LoggingConfig {
    pub level: String,
    pub json: bool,
    pub file: Option<String>,
}

#[derive(Debug, Clone)]
pub struct AgentConfig {
    pub node: NodeConfig,
    pub etcd: EtcdConfig,
    pub cache: CacheConfig,
    pub nebula: NebulaConfig,
    pub services: ServicesConfig,
    pub logging: LoggingConfig,
}

/// Store call timeout, in seconds, when the file names none.
pub fn default_timeout() -> (r: u64)
    ensures
        r == 5,
{
    5
}

/// Cache entry lifetime, in seconds, when the file names none.
pub fn default_cache_ttl() -> (r: u64)
    ensures
        r == 300,
{
    300
}

/// Cache size cap, in megabytes, when the file names none.
pub fn default_cache_max_size() -> (r: u64)
    ensures
        r == 100,
{
    100
}

pub fn default_dns_engine() -> (r: String)
    ensures
        r@ == "knot"@,
{
    String::from_str("knot")
}

pub fn default_dhcp_engine() -> (r: String)
    ensures
        r@ == "kea"@,
{
    String::from_str("kea")
}

pub fn default_listen_address() -> (r: String)
    ensures
        r@ == "0.0.0.0"@,
{
    String::from_str("0.0.0.0")
}

pub fn default_listen_port() -> (r: u16)
    ensures
        r == 53,
{
    53
}

pub fn default_interface() -> (r: String)
    ensures
        r@ == "eth0"@,
{
    String::from_str("eth0")
}

pub fn default_kea_control_port() -> (r: u16)
    ensures
        r == 8000,
{
    8000
}

pub fn default_dnsdist_control_port() -> (r: u16)
    ensures
        r == 5199,
{
    5199
}

pub fn default_prometheus_port() -> (r: u16)
    ensures
        r == 9090,
{
    9090
}

pub fn default_cerbos_timeout() -> (r: u64)
    ensures
        r == 2,
{
    2
}

/// Interval between two security audits: one day.
pub fn default_lynis_interval() -> (r: u64)
    ensures
        r == 86400,
{
    86400
}

pub fn default_log_level() -> (r: String)
    ensures
        r@ == "info"@,
{
    String::from_str("info")
}

impl AgentConfig {
    /// The configuration of a lone active node with no service enabled.
    pub fn default_config() -> (r: AgentConfig)
        ensures
            r.node.name@ == "nnoe-node-1"@,
            r.node.role == NodeRole::Active,
            r.node.node_id is None,
            r.etcd.endpoints@.len() == 1,
            r.etcd.endpoints@[0]@ == "http://127.0.0.1:2379"@,
            r.etcd.prefix@ == "/nnoe"@,
            r.etcd.timeout_secs == 5,
            r.etcd.tls is None,
            r.cache.path@ == "/var/nnoe/cache"@,
            r.cache.default_ttl_secs == 300,
            r.cache.max_size_mb == 100,
            !r.nebula.enabled,
            r.nebula.config_path is Some,
            r.nebula.config_path->0@ == "/etc/nebula/config.yml"@,
            r.nebula.cert_path is None,
            r.nebula.key_path is None,
            r.nebula.lighthouse_hosts@.len() == 0,
            r.services.dns is None,
            r.services.dhcp is None,
            r.services.dnsdist is None,
            r.services.cerbos is None,
            r.services.lynis is None,
            r.logging.level@ == "info"@,
            !r.logging.json,
            r.logging.file is None,
    {
        let mut endpoints: Vec<String> = Vec::new();
        endpoints.push(String::from_str("http://127.0.0.1:2379"));
        AgentConfig {
            node: NodeConfig {
                name: String::from_str("nnoe-node-1"),
                role: NodeRole::Active,
                node_id: None,
            },
            etcd: EtcdConfig {
                endpoints,
                prefix: String::from_str("/nnoe"),
                timeout_secs: default_timeout(),
                tls: None,
            },
            cache: CacheConfig {
                path: String::from_str("/var/nnoe/cache"),
                default_ttl_secs: default_cache_ttl(),
                max_size_mb: default_cache_max_size(),
            },
            nebula: NebulaConfig {
                enabled: false,
                config_path: Some(String::from_str("/etc/nebula/config.yml")),
                cert_path: None,
                key_path: None,
                lighthouse_hosts: Vec::new(),
            },
            services: ServicesConfig { dns: None, dhcp: None, dnsdist: None, cerbos: None, lynis: None },
            logging: LoggingConfig { level: default_log_level(), json: false, file: None },
        }
    }
}

} // verus!
