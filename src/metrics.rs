use vstd::prelude::*;

verus! {

/// Counters kept by the agent. Each counter wraps around on overflow, as a
/// machine counter does.
pub struct AgentMetrics {
    /// Configuration updates received from the store.
    pub config_updates_total: u64,
    /// Service reloads performed.
    pub service_reloads_total: u64,
    /// DNS queries processed.
    pub dns_queries_total: u64,
    /// DNS queries blocked.
    pub blocked_queries_total: u64,
    /// DHCP leases handed out.
    pub dhcp_leases_total: u64,
    /// DHCP leases currently active.
    pub dhcp_leases_active: u64,
}

/// The counter after one more event, wrapping at the top of `u64`.
pub open spec fn bumped(n: u64) -> u64 {
    if n == u64::MAX { 0 } else { (n + 1) as u64 }
}

/// The counter after one event less, wrapping at zero.
pub open spec fn dropped(n: u64) -> u64 {
    if n == 0 { u64::MAX } else { (n - 1) as u64 }
}

impl AgentMetrics {
    pub fn new() -> (r: AgentMetrics)
        ensures
            r.config_updates_total == 0,
            r.service_reloads_total == 0,
            r.dns_queries_total == 0,
            r.blocked_queries_total == 0,
            r.dhcp_leases_total == 0,
            r.dhcp_leases_active == 0,
    {
        AgentMetrics {
            config_updates_total: 0,
            service_reloads_total: 0,
            dns_queries_total: 0,
            blocked_queries_total: 0,
            dhcp_leases_total: 0,
            dhcp_leases_active: 0,
        }
    }

    pub fn increment_config_updates(&mut self)
        ensures
            final(self).config_updates_total == bumped(old(self).config_updates_total),
            final(self).service_reloads_total == old(self).service_reloads_total,
            final(self).dns_queries_total == old(self).dns_queries_total,
            final(self).blocked_queries_total == old(self).blocked_queries_total,
            final(self).dhcp_leases_total == old(self).dhcp_leases_total,
            final(self).dhcp_leases_active == old(self).dhcp_leases_active,
    {
        self.config_updates_total = self.config_updates_total.wrapping_add(1);
    }

    pub fn increment_service_reloads(&mut self)
        ensures
            final(self).config_updates_total == old(self).config_updates_total,
            final(self).service_reloads_total == bumped(old(self).service_reloads_total),
            final(self).dns_queries_total == old(self).dns_queries_total,
            final(self).blocked_queries_total == old(self).blocked_queries_total,
            final(self).dhcp_leases_total == old(self).dhcp_leases_total,
            final(self).dhcp_leases_active == old(self).dhcp_leases_active,
    {
        self.service_reloads_total = self.service_reloads_total.wrapping_add(1);
    }

    pub fn increment_dns_queries(&mut self)
        ensures
            final(self).config_updates_total == old(self).config_updates_total,
            final(self).service_reloads_total == old(self).service_reloads_total,
            final(self).dns_queries_total == bumped(old(self).dns_queries_total),
            final(self).blocked_queries_total == old(self).blocked_queries_total,
            final(self).dhcp_leases_total == old(self).dhcp_leases_total,
            final(self).dhcp_leases_active == old(self).dhcp_leases_active,
    {
        self.dns_queries_total = self.dns_queries_total.wrapping_add(1);
    }

    pub fn increment_blocked_queries(&mut self)
        ensures
            final(self).config_updates_total == old(self).config_updates_total,
            final(self).service_reloads_total == old(self).service_reloads_total,
            final(self).dns_queries_total == old(self).dns_queries_total,
            final(self).blocked_queries_total == bumped(old(self).blocked_queries_total),
            final(self).dhcp_leases_total == old(self).dhcp_leases_total,
            final(self).dhcp_leases_active == old(self).dhcp_leases_active,
    {
        self.blocked_queries_total = self.blocked_queries_total.wrapping_add(1);
    }

    /// A lease was handed out: it counts in the total and among the active ones.
    pub fn increment_dhcp_leases(&mut self)
        ensures
            final(self).config_updates_total == old(self).config_updates_total,
            final(self).service_reloads_total == old(self).service_reloads_total,
            final(self).dns_queries_total == old(self).dns_queries_total,
            final(self).blocked_queries_total == old(self).blocked_queries_total,
            final(self).dhcp_leases_total == bumped(old(self).dhcp_leases_total),
            final(self).dhcp_leases_active == bumped(old(self).dhcp_leases_active),
    {
        self.dhcp_leases_total = self.dhcp_leases_total.wrapping_add(1);
        self.dhcp_leases_active = self.dhcp_leases_active.wrapping_add(1);
    }

    pub fn decrement_dhcp_leases_active(&mut self)
        ensures
            final(self).config_updates_total == old(self).config_updates_total,
            final(self).service_reloads_total == old(self).service_reloads_total,
            final(self).dns_queries_total == old(self).dns_queries_total,
            final(self).blocked_queries_total == old(self).blocked_queries_total,
            final(self).dhcp_leases_total == old(self).dhcp_leases_total,
            final(self).dhcp_leases_active == dropped(old(self).dhcp_leases_active),
    {
        self.dhcp_leases_active = self.dhcp_leases_active.wrapping_sub(1);
    }

    pub fn get_config_updates_total(&self) -> (r: u64)
        ensures
            r == self.config_updates_total,
    {
        self.config_updates_total
    }

    pub fn get_service_reloads_total(&self) -> (r: u64)
        ensures
            r == self.service_reloads_total,
    {
        self.service_reloads_total
    }

    pub fn get_dns_queries_total(&self) -> (r: u64)
        ensures
            r == self.dns_queries_total,
    {
        self.dns_queries_total
    }

    pub fn get_blocked_queries_total(&self) -> (r: u64)
        ensures
            r == self.blocked_queries_total,
    {
        self.blocked_queries_total
    }

    pub fn get_dhcp_leases_total(&self) -> (r: u64)
        ensures
            r == self.dhcp_leases_total,
    {
        self.dhcp_leases_total
    }

    pub fn get_dhcp_leases_active(&self) -> (r: u64)
        ensures
            r == self.dhcp_leases_active,
    {
        self.dhcp_leases_active
    }
}

impl Default for AgentMetrics {
    fn default() -> (r: AgentMetrics)
        ensures
            r.config_updates_total == 0,
            r.service_reloads_total == 0,
            r.dns_queries_total == 0,
            r.blocked_queries_total == 0,
            r.dhcp_leases_total == 0,
            r.dhcp_leases_active == 0,
    {
        AgentMetrics::new()
    }
}

} // verus!
