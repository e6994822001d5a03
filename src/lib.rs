//! Per-node orchestration agent for a DNS/DHCP/DDI platform: the reconciliation
//! logic between the control-plane store, the local cache and the service adapters.

// Text and keyed-list helpers.
pub mod text;
pub mod keyed;

// Configuration, counters, store keys and the watch tasks' steps.
pub mod config;
pub mod metrics;
pub mod keys;
pub mod watch;

// The local cache.
pub mod entry;
pub mod eviction;
pub mod cache;

// Service adapters and what they write.
pub mod zone;
pub mod knot;
pub mod ha;
pub mod kea;
pub mod expr;
pub mod filter;
pub mod policy;
pub mod dnsdist;
pub mod pdp;
pub mod audit;
pub mod severity;
pub mod registry;

// The overlay network's restart decisions.
pub mod supervisor;
