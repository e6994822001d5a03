//! The primary/standby arbiter of an HA pair.
use vstd::prelude::*;
use crate::text::{chars_of, string_of, push_str};
use crate::keyed::same_chars;

verus! {

/// Role of a node within its HA pair.
#[derive(Debug, Clone, Copy, PartialEq, Eq, Structural)]
pub enum HaState {
    Unknown,
    Primary,
    Standby,
}

/// What the coordinator asks of the managed service after a tick.
#[derive(Debug, Clone, Copy, PartialEq, Eq, Structural)]
pub enum ServiceAction {
    Start,
    Stop,
    Keep,
}

/// The role a node takes: Primary when it holds the VIP; else Standby when the
/// peer publishes Primary; else Primary when no peer is seen; else Standby.
pub open spec fn decide_ha(has_vip: bool, peer: Option<HaState>) -> HaState {
    if has_vip {
        HaState::Primary
    } else if peer == Some(HaState::Primary) {
        HaState::Standby
    } else if peer is None {
        HaState::Primary
    } else {
        HaState::Standby
    }
}

/// The service action for a new role: a Primary starts the service when it is
/// not running, a Standby stops it when it is.
pub open spec fn action_for(state: HaState, running: bool) -> ServiceAction {
    match state {
        HaState::Primary => if running { ServiceAction::Keep } else { ServiceAction::Start },
        HaState::Standby => if running { ServiceAction::Stop } else { ServiceAction::Keep },
        HaState::Unknown => ServiceAction::Keep,
    }
}

/// The role this node takes, from the VIP probe and the peer's published status.
pub fn derive_ha_state(has_vip: bool, peer: Option<HaState>) -> (r: HaState)
    ensures
        r == decide_ha(has_vip, peer),
{
    if has_vip {
        HaState::Primary
    } else {
        match peer {
            Some(HaState::Primary) => HaState::Standby,
            None => HaState::Primary,
            Some(_) => HaState::Standby,
        }
    }
}

/// The coordinator of one node: its role and whether its service runs.
pub struct HaCoordinator {
    pub state: HaState,
    pub service_running: bool,
}

impl HaCoordinator {
    pub fn new() -> (r: HaCoordinator)
        ensures
            r.state == HaState::Unknown,
            !r.service_running,
    {
        HaCoordinator { state: HaState::Unknown, service_running: false }
    }

    /// One coordination tick: takes the new role and says what to do with the
    /// service; returns whether the role changed with the action.
    pub fn tick(&mut self, has_vip: bool, peer: Option<HaState>) -> (r: (ServiceAction, bool))
        ensures
            final(self).state == decide_ha(has_vip, peer),
            final(self).service_running == old(self).service_running,
            r.0 == action_for(decide_ha(has_vip, peer), old(self).service_running),
            r.1 == (old(self).state != decide_ha(has_vip, peer)),
    {
        let new_state = derive_ha_state(has_vip, peer);
        let changed = self.state != new_state;
        self.state = new_state;
        let action = match new_state {
            HaState::Primary => if self.service_running { ServiceAction::Keep } else { ServiceAction::Start },
            HaState::Standby => if self.service_running { ServiceAction::Stop } else { ServiceAction::Keep },
            HaState::Unknown => ServiceAction::Keep,
        };
        (action, changed)
    }

    /// Records that the service was started or stopped.
    pub fn set_service_running(&mut self, running: bool)
        ensures
            final(self).state == old(self).state,
            final(self).service_running == running,
    {
        self.service_running = running;
    }

    /// Whether this node may write the DHCP engine's configuration: only a Primary does.
    pub fn may_write_config(&self) -> (r: bool)
        ensures
            r == (self.state == HaState::Primary),
    {
        self.state == HaState::Primary
    }
}

/// At most one node of a pair comes out Primary from a tick, when at most one
/// of them holds the VIP and each sees a published status of the other.
pub proof fn lemma_ha_exclusive(vip1: bool, vip2: bool, seen_by_1: HaState, seen_by_2: HaState)
    requires
        !(vip1 && vip2),
    ensures
        !(decide_ha(vip1, Some(seen_by_1)) == HaState::Primary && decide_ha(vip2, Some(seen_by_2))
            == HaState::Primary),
{
}

/// A node that holds the VIP is Primary whatever its peer publishes; one that
/// does not and sees its peer is Standby.
pub proof fn lemma_ha_follows_vip(has_vip: bool, seen: HaState)
    ensures
        has_vip ==> decide_ha(has_vip, Some(seen)) == HaState::Primary,
        !has_vip ==> decide_ha(has_vip, Some(seen)) == HaState::Standby,
{
}

pub open spec fn ha_state_name(s: HaState) -> Seq<char> {
    match s {
        HaState::Unknown => "Unknown"@,
        HaState::Primary => "Primary"@,
        HaState::Standby => "Standby"@,
    }
}

/// The name under which a role is published.
pub fn ha_state_as_str(s: HaState) -> (r: &'static str)
    ensures
        r@ == ha_state_name(s),
{
    match s {
        HaState::Unknown => "Unknown",
        HaState::Primary => "Primary",
        HaState::Standby => "Standby",
    }
}

/// Reads a published role name.
pub fn parse_ha_state(s: &str) -> (r: Option<HaState>)
    ensures
        r == (if s@ == "Primary"@ {
            Some(HaState::Primary)
        } else if s@ == "Standby"@ {
            Some(HaState::Standby)
        } else if s@ == "Unknown"@ {
            Some(HaState::Unknown)
        } else {
            None::<HaState>
        }),
{
    let v = chars_of(s);
    if same_chars(&v, &chars_of("Primary")) {
        Some(HaState::Primary)
    } else if same_chars(&v, &chars_of("Standby")) {
        Some(HaState::Standby)
    } else if same_chars(&v, &chars_of("Unknown")) {
        Some(HaState::Unknown)
    } else {
        None
    }
}

/// The peer's role among published statuses: the first status not published
/// under this node's own key; none when no other status is seen.
pub open spec fn peer_state_in(statuses: Seq<(Seq<char>, Option<HaState>)>, own: Seq<char>) -> Option<HaState>
    decreases statuses.len(),
{
    if statuses.len() == 0 {
        None
    } else if statuses[0].0 != own {
        statuses[0].1
    } else {
        peer_state_in(statuses.skip(1), own)
    }
}

/// Picks the peer's role from the statuses published under a pair.
pub fn select_peer_state(statuses: &Vec<(String, Option<HaState>)>, own_key: &str) -> (r: Option<HaState>)
    ensures
        r == peer_state_in(statuses@.map_values(|p: (String, Option<HaState>)| (p.0@, p.1)), own_key@),
{
    let own = chars_of(own_key);
    let ghost all = statuses@.map_values(|p: (String, Option<HaState>)| (p.0@, p.1));
    let mut i: usize = 0;
    proof {
        assert(all.skip(0) =~= all);
    }
    while i < statuses.len()
        invariant
            i <= statuses@.len(),
            own@ == own_key@,
            all == statuses@.map_values(|p: (String, Option<HaState>)| (p.0@, p.1)),
            peer_state_in(all.skip(i as int), own_key@) == peer_state_in(all, own_key@),
        decreases statuses@.len() - i,
    {
        proof {
            assert(all.skip(i as int)[0] == (statuses@[i as int].0@, statuses@[i as int].1));
            assert(all.skip(i as int).skip(1) =~= all.skip(i + 1));
        }
        if !same_chars(&chars_of(statuses[i].0.as_str()), &own) {
            return statuses[i].1;
        }
        i = i + 1;
    }
    None
}

pub open spec fn ha_status_key_of(prefix: Seq<char>, pair: Seq<char>, node: Seq<char>) -> Seq<char> {
    prefix + "/dhcp/ha-pairs/"@ + pair + "/nodes/"@ + node + "/status"@
}

/// The store key under which `node` of `pair` publishes its status.
pub fn ha_status_key(prefix: &str, pair: &str, node: &str) -> (r: String)
    ensures
        r@ == ha_status_key_of(prefix@, pair@, node@),
{
    let mut buf = chars_of(prefix);
    push_str(&mut buf, "/dhcp/ha-pairs/");
    push_str(&mut buf, pair);
    push_str(&mut buf, "/nodes/");
    push_str(&mut buf, node);
    push_str(&mut buf, "/status");
    proof {
        assert(buf@ =~= ha_status_key_of(prefix@, pair@, node@));
    }
    string_of(&buf)
}

} // verus!
