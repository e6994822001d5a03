//! The DNS filter: threat domains, role mappings and compiled policy rules,
//! and the script, configuration and response-policy zone written from them.
use vstd::prelude::*;
use crate::config::DnsdistServiceConfig;
use crate::keyed::Keyed;
use crate::text::{push_str, push_decimal, push_range, chars_of, string_of, decimal, joined,
    lemma_joined_step, lemma_joined_all, index_from, find_char_from};

verus! {

/// Roles given to the clients of an address or subnet.
#[derive(Debug, Clone)]
pub struct RoleMapping {
    pub subject: String,
    pub roles: Vec<String>,
}

/// A domain to block, with the feed that reported it.
#[derive(Debug, Clone)]
pub struct ThreatEntry {
    pub domain: String,
    pub source: String,
}

impl Keyed for RoleMapping {
    open spec fn key_view(&self) -> Seq<char> {
        self.subject@
    }

    fn key(&self) -> (r: &str) {
        self.subject.as_str()
    }
}

impl Keyed for ThreatEntry {
    open spec fn key_view(&self) -> Seq<char> {
        self.domain@
    }

    fn key(&self) -> (r: &str) {
        self.domain.as_str()
    }
}

pub open spec fn role_entry(m: RoleMapping) -> Seq<char> {
    if m.roles@.len() > 0 {
        "    [\""@ + m.subject@ + "\"] = \""@ + m.roles@[0]@ + "\",\n"@
    } else {
        Seq::empty()
    }
}

pub open spec fn role_entry_fn() -> spec_fn(RoleMapping) -> Seq<char> {
    |m: RoleMapping| role_entry(m)
}

pub open spec fn role_lookup_head() -> Seq<char> {
    "  -- Role lookup based on client IP\n  local client_ip = dq.remoteaddr:toString()\n  local role = \"user\" -- Default role\n\n  -- Role mappings from the store\n  local role_map = {\n"@
}

pub open spec fn role_lookup_tail() -> Seq<char> {
    "  }\n\n  -- Exact address first, then subnets\n  if role_map[client_ip] then\n    role = role_map[client_ip]\n  else\n    for subnet, mapped_role in pairs(role_map) do\n      if string.find(client_ip, subnet, 1, true) then\n        role = mapped_role\n        break\n      end\n    end\n  end\n"@
}

pub open spec fn no_role_lookup() -> Seq<char> {
    "  local role = \"user\" -- Default role, no mappings configured\n"@
}

/// The body of the shared role lookup: a table from address or subnet to its
/// first role, and the search of the client's address in it.
pub open spec fn role_lookup_text(ms: Seq<RoleMapping>) -> Seq<char> {
    if ms.len() == 0 {
        no_role_lookup()
    } else {
        role_lookup_head() + joined(ms, role_entry_fn()) + role_lookup_tail()
    }
}

fn push_role_entry(buf: &mut Vec<char>, m: &RoleMapping)
    ensures
        final(buf)@ == old(buf)@ + role_entry(*m),
{
    if m.roles.len() > 0 {
        push_str(buf, "    [\"");
        push_str(buf, m.subject.as_str());
        push_str(buf, "\"] = \"");
        push_str(buf, m.roles[0].as_str());
        push_str(buf, "\",\n");
        proof {
            assert(final(buf)@ =~= old(buf)@ + role_entry(*m));
        }
    } else {
        proof {
            assert(buf@ =~= old(buf)@ + role_entry(*m));
        }
    }
}

fn push_role_lookup(buf: &mut Vec<char>, ms: &Vec<RoleMapping>)
    ensures
        final(buf)@ == old(buf)@ + role_lookup_text(ms@),
{
    if ms.len() == 0 {
        push_str(buf, "  local role = \"user\" -- Default role, no mappings configured\n");
        return;
    }
    push_str(buf, "  -- Role lookup based on client IP\n  local client_ip = dq.remoteaddr:toString()\n  local role = \"user\" -- Default role\n\n  -- Role mappings from the store\n  local role_map = {\n");
    let ghost head = buf@;
    let mut i: usize = 0;
    proof {
        lemma_joined_all(ms@, role_entry_fn());
        assert(buf@ =~= head + joined(ms@.subrange(0, 0), role_entry_fn()));
    }
    while i < ms.len()
        invariant
            i <= ms@.len(),
            buf@ == head + joined(ms@.subrange(0, i as int), role_entry_fn()),
        decreases ms@.len() - i,
    {
        push_role_entry(buf, &ms[i]);
        proof {
            lemma_joined_step(ms@, i as int, role_entry_fn());
            assert(buf@ =~= head + joined(ms@.subrange(0, i + 1), role_entry_fn()));
        }
        i = i + 1;
    }
    proof {
        lemma_joined_all(ms@, role_entry_fn());
    }
    push_str(buf, "  }\n\n  -- Exact address first, then subnets\n  if role_map[client_ip] then\n    role = role_map[client_ip]\n  else\n    for subnet, mapped_role in pairs(role_map) do\n      if string.find(client_ip, subnet, 1, true) then\n        role = mapped_role\n        break\n      end\n    end\n  end\n");
    proof {
        assert(final(buf)@ =~= old(buf)@ + role_lookup_text(ms@));
    }
}

/// The role lookup code for a set of role mappings.
pub fn generate_role_lookup_lua(ms: &Vec<RoleMapping>) -> (r: String)
    ensures
        r@ == role_lookup_text(ms@),
{
    let mut buf: Vec<char> = Vec::new();
    push_role_lookup(&mut buf, ms);
    proof {
        assert(buf@ =~= role_lookup_text(ms@));
    }
    string_of(&buf)
}

/// A compiled policy rule: script code and its place among the rules.
#[derive(Debug, Clone)]
pub struct FilterRule {
    /// The policy the rule came from.
    pub policy: String,
    pub name: String,
    pub lua_code: String,
    pub priority: u32,
}

pub open spec fn rpz_entry(t: ThreatEntry) -> Seq<char> {
    "  [\""@ + t.domain@ + "\"] = true,\n"@
}

pub open spec fn rpz_entry_fn() -> spec_fn(ThreatEntry) -> Seq<char> {
    |t: ThreatEntry| rpz_entry(t)
}

pub open spec fn rpz_action() -> Seq<char> {
    "}\n\naddLuaAction(AllRule(), function(dq)\n  local qname = dq.qname:toString()\n  if rpz_domains[qname] then\n    return DNSAction.Drop\n  end\n  return DNSAction.None\nend)\n\n"@
}

/// The table of blocked domains and the action that drops queries for them;
/// nothing when no domain is blocked.
pub open spec fn rpz_block(ts: Seq<ThreatEntry>) -> Seq<char> {
    if ts.len() == 0 {
        Seq::empty()
    } else {
        "-- Response Policy Zone (RPZ) Rules\nlocal rpz_domains = {\n"@ + joined(ts, rpz_entry_fn())
            + rpz_action()
    }
}

pub open spec fn rule_text(r: FilterRule) -> Seq<char> {
    "-- Rule: "@ + r.name@ + "\n"@ + r.lua_code@ + "\n\n"@
}

pub open spec fn rule_text_fn() -> spec_fn(FilterRule) -> Seq<char> {
    |r: FilterRule| rule_text(r)
}

/// Where a rule of priority `p` goes among rules sorted by priority: after
/// every rule of priority `p` or less.
pub open spec fn insert_pos(s: Seq<FilterRule>, p: u32) -> int
    decreases s.len(),
{
    if s.len() == 0 || s[0].priority > p {
        0
    } else {
        1 + insert_pos(s.skip(1), p)
    }
}

/// The rules in ascending order of priority; rules of equal priority keep their order.
pub open spec fn sorted_rules(s: Seq<FilterRule>) -> Seq<FilterRule>
    decreases s.len(),
{
    if s.len() == 0 {
        s
    } else {
        let r = sorted_rules(s.drop_last());
        r.insert(insert_pos(r, s.last().priority), s.last())
    }
}

pub proof fn lemma_insert_pos(s: Seq<FilterRule>, p: u32, k: int)
    requires
        0 <= k <= s.len(),
        forall|m: int| 0 <= m < k ==> s[m].priority <= p,
        k == s.len() || s[k].priority > p,
    ensures
        insert_pos(s, p) == k,
    decreases s.len(),
{
    if k > 0 {
        lemma_insert_pos(s.skip(1), p, k - 1);
    }
}

pub open spec fn picked(rules: Seq<FilterRule>, order: Seq<usize>) -> Seq<FilterRule> {
    order.map_values(|j: usize| rules[j as int])
}

/// The positions of the rules, in the order in which the script holds them.
pub fn sort_order(rules: &Vec<FilterRule>) -> (order: Vec<usize>)
    ensures
        order@.len() == rules@.len(),
        forall|k: int| 0 <= k < order@.len() ==> order@[k] < rules@.len(),
        picked(rules@, order@) == sorted_rules(rules@),
{
    let mut out: Vec<usize> = Vec::new();
    let n = rules.len();
    let mut i: usize = 0;
    proof {
        assert(rules@.subrange(0, 0) =~= Seq::<FilterRule>::empty());
        assert(picked(rules@, out@) =~= sorted_rules(rules@.subrange(0, 0)));
    }
    while i < n
        invariant
            n == rules@.len(),
            i <= n,
            out@.len() == i,
            forall|k: int| 0 <= k < out@.len() ==> out@[k] < i,
            picked(rules@, out@) == sorted_rules(rules@.subrange(0, i as int)),
        decreases n - i,
    {
        let p = rules[i].priority;
        let mut k: usize = 0;
        while k < out.len() && rules[out[k]].priority <= p
            invariant
                n == rules@.len(),
                i < n,
                k <= out@.len(),
                forall|m: int| 0 <= m < out@.len() ==> out@[m] < i,
                forall|m: int| 0 <= m < k ==> rules@[out@[m] as int].priority <= p,
            decreases out@.len() - k,
        {
            k = k + 1;
        }
        proof {
            let ps = picked(rules@, out@);
            lemma_insert_pos(ps, p, k as int);
            let s = rules@.subrange(0, i + 1);
            assert(s.drop_last() =~= rules@.subrange(0, i as int));
            assert(s.last() == rules@[i as int]);
        }
        let ghost before = out@;
        out.insert(k, i);
        i = i + 1;
        proof {
            assert(picked(rules@, out@) =~= picked(rules@, before).insert(k as int, rules@[i - 1]));
        }
    }
    proof {
        assert(rules@.subrange(0, n as int) =~= rules@);
    }
    out
}

pub open spec fn script_head() -> Seq<char> {
    "-- dnsdist filter rules, written by the agent from the store\n-- Edits here are overwritten\n\n-- Shared role lookup function\nlocal function get_client_role(dq)\n"@
}

pub open spec fn role_lookup_end() -> Seq<char> {
    "  return role\nend\n\n"@
}

/// The trailing action: drops queries whose name is longer than 250 characters.
pub open spec fn anomaly_text() -> Seq<char> {
    "-- Anomaly Detection Rule\naddLuaAction(AllRule(), function(dq)\n  local qname = dq.qname:toString()\n  -- Very long names suggest tunneling\n  if string.len(qname) > 250 then\n    return DNSAction.Drop\n  end\n  return DNSAction.None\nend)\n"@
}

/// The filter script: role lookup, block table, policy rules by ascending
/// priority, then the anomaly check.
pub open spec fn lua_script(ms: Seq<RoleMapping>, ts: Seq<ThreatEntry>, rules: Seq<FilterRule>) -> Seq<char> {
    script_head() + role_lookup_text(ms) + role_lookup_end() + rpz_block(ts) + joined(
        sorted_rules(rules),
        rule_text_fn(),
    ) + anomaly_text()
}

fn push_rpz_block(buf: &mut Vec<char>, ts: &Vec<ThreatEntry>)
    ensures
        final(buf)@ == old(buf)@ + rpz_block(ts@),
{
    if ts.len() == 0 {
        proof {
            assert(buf@ =~= old(buf)@ + rpz_block(ts@));
        }
        return;
    }
    push_str(buf, "-- Response Policy Zone (RPZ) Rules\nlocal rpz_domains = {\n");
    let ghost head = buf@;
    let mut i: usize = 0;
    proof {
        lemma_joined_all(ts@, rpz_entry_fn());
        assert(buf@ =~= head + joined(ts@.subrange(0, 0), rpz_entry_fn()));
    }
    while i < ts.len()
        invariant
            i <= ts@.len(),
            buf@ == head + joined(ts@.subrange(0, i as int), rpz_entry_fn()),
        decreases ts@.len() - i,
    {
        push_str(buf, "  [\"");
        push_str(buf, ts[i].domain.as_str());
        push_str(buf, "\"] = true,\n");
        proof {
            lemma_joined_step(ts@, i as int, rpz_entry_fn());
            assert(buf@ =~= head + joined(ts@.subrange(0, i + 1), rpz_entry_fn()));
        }
        i = i + 1;
    }
    proof {
        lemma_joined_all(ts@, rpz_entry_fn());
    }
    push_str(buf, "}\n\naddLuaAction(AllRule(), function(dq)\n  local qname = dq.qname:toString()\n  if rpz_domains[qname] then\n    return DNSAction.Drop\n  end\n  return DNSAction.None\nend)\n\n");
    proof {
        assert(final(buf)@ =~= old(buf)@ + rpz_block(ts@));
    }
}

fn push_rules(buf: &mut Vec<char>, rules: &Vec<FilterRule>)
    ensures
        final(buf)@ == old(buf)@ + joined(sorted_rules(rules@), rule_text_fn()),
{
    let order = sort_order(rules);
    let ghost sr = sorted_rules(rules@);
    let ghost head = buf@;
    let mut i: usize = 0;
    proof {
        lemma_joined_all(sr, rule_text_fn());
        assert(buf@ =~= head + joined(sr.subrange(0, 0), rule_text_fn()));
    }
    while i < order.len()
        invariant
            i <= order@.len(),
            order@.len() == rules@.len(),
            forall|k: int| 0 <= k < order@.len() ==> order@[k] < rules@.len(),
            sr == picked(rules@, order@),
            buf@ == head + joined(sr.subrange(0, i as int), rule_text_fn()),
        decreases order@.len() - i,
    {
        let r = &rules[order[i]];
        push_str(buf, "-- Rule: ");
        push_str(buf, r.name.as_str());
        push_str(buf, "\n");
        push_str(buf, r.lua_code.as_str());
        push_str(buf, "\n\n");
        proof {
            assert(sr[i as int] == *r);
            lemma_joined_step(sr, i as int, rule_text_fn());
            assert(buf@ =~= head + joined(sr.subrange(0, i + 1), rule_text_fn()));
        }
        i = i + 1;
    }
    proof {
        lemma_joined_all(sr, rule_text_fn());
    }
}

/// Writes the filter script from the role mappings, blocked domains and rules.
pub fn generate_lua_script(ms: &Vec<RoleMapping>, ts: &Vec<ThreatEntry>, rules: &Vec<FilterRule>) -> (r: String)
    ensures
        r@ == lua_script(ms@, ts@, rules@),
{
    let mut buf: Vec<char> = Vec::new();
    push_str(&mut buf, "-- dnsdist filter rules, written by the agent from the store\n-- Edits here are overwritten\n\n-- Shared role lookup function\nlocal function get_client_role(dq)\n");
    push_role_lookup(&mut buf, ms);
    push_str(&mut buf, "  return role\nend\n\n");
    push_rpz_block(&mut buf, ts);
    push_rules(&mut buf, rules);
    push_str(&mut buf, "-- Anomaly Detection Rule\naddLuaAction(AllRule(), function(dq)\n  local qname = dq.qname:toString()\n  -- Very long names suggest tunneling\n  if string.len(qname) > 250 then\n    return DNSAction.Drop\n  end\n  return DNSAction.None\nend)\n");
    proof {
        assert(buf@ =~= lua_script(ms@, ts@, rules@));
    }
    string_of(&buf)
}

pub open spec fn server_line(r: String) -> Seq<char> {
    "newServer({address=\""@ + r@ + "\", name=\""@ + r@.subrange(0, index_from(r@, ':', 0))
        + "\"})\n"@
}

pub open spec fn server_line_fn() -> spec_fn(String) -> Seq<char> {
    |r: String| server_line(r)
}

pub open spec fn default_servers() -> Seq<char> {
    "newServer({address=\"127.0.0.1:5353\", name=\"local\"})\nnewServer({address=\"8.8.8.8\", name=\"google\"})\n"@
}

/// The filter engine's main configuration: console key, control socket, listen
/// address, the script it loads, and one server line per upstream resolver
/// (two defaults when none is configured).
pub open spec fn filter_config_text(c: DnsdistServiceConfig) -> Seq<char> {
    "-- dnsdist configuration, written by the agent\n-- Edits here are overwritten\n\n"@
        + "setKey(\"nnoe-dnsdist-key\")\n"@ + "controlSocket(\"127.0.0.1:"@ + decimal(
        c.control_port as nat,
    ) + "\")\n"@ + "setLocal(\""@ + c.listen_address@ + ":"@ + decimal(c.listen_port as nat)
        + "\")\n\n"@ + "dofile(\""@ + c.lua_script_path@ + "\")\n"@
        + "\n-- Upstream resolvers\n"@ + (if c.upstream_resolvers@.len() == 0 {
        default_servers()
    } else {
        joined(c.upstream_resolvers@, server_line_fn())
    })
}

/// Writes the filter engine's main configuration.
pub fn generate_config(c: &DnsdistServiceConfig) -> (r: String)
    ensures
        r@ == filter_config_text(*c),
{
    let mut buf: Vec<char> = Vec::new();
    push_str(&mut buf, "-- dnsdist configuration, written by the agent\n-- Edits here are overwritten\n\n");
    push_str(&mut buf, "setKey(\"nnoe-dnsdist-key\")\n");
    push_str(&mut buf, "controlSocket(\"127.0.0.1:");
    push_decimal(&mut buf, c.control_port as u64);
    push_str(&mut buf, "\")\n");
    push_str(&mut buf, "setLocal(\"");
    push_str(&mut buf, c.listen_address.as_str());
    push_str(&mut buf, ":");
    push_decimal(&mut buf, c.listen_port as u64);
    push_str(&mut buf, "\")\n\n");
    push_str(&mut buf, "dofile(\"");
    push_str(&mut buf, c.lua_script_path.as_str());
    push_str(&mut buf, "\")\n");
    push_str(&mut buf, "\n-- Upstream resolvers\n");
    let ghost head = buf@;
    let us = &c.upstream_resolvers;
    if us.len() == 0 {
        push_str(&mut buf, "newServer({address=\"127.0.0.1:5353\", name=\"local\"})\nnewServer({address=\"8.8.8.8\", name=\"google\"})\n");
    } else {
        let mut i: usize = 0;
        proof {
            lemma_joined_all(us@, server_line_fn());
            assert(buf@ =~= head + joined(us@.subrange(0, 0), server_line_fn()));
        }
        while i < us.len()
            invariant
                i <= us@.len(),
                buf@ == head + joined(us@.subrange(0, i as int), server_line_fn()),
            decreases us@.len() - i,
        {
            let rv = chars_of(us[i].as_str());
            let colon = find_char_from(&rv, ':', 0);
            push_str(&mut buf, "newServer({address=\"");
            push_str(&mut buf, us[i].as_str());
            push_str(&mut buf, "\", name=\"");
            push_range(&mut buf, &rv, 0, colon);
            push_str(&mut buf, "\"})\n");
            proof {
                lemma_joined_step(us@, i as int, server_line_fn());
                assert(buf@ =~= head + joined(us@.subrange(0, i + 1), server_line_fn()));
            }
            i = i + 1;
        }
        proof {
            lemma_joined_all(us@, server_line_fn());
        }
    }
    proof {
        assert(buf@ =~= filter_config_text(*c));
    }
    string_of(&buf)
}

/// Where the response-policy zone file lies: `rpz/rpz.db` beside the script,
/// or under `/var/lib/dnsdist/rpz` when the script path has no directory.
pub open spec fn rpz_zone_path_of(script: Seq<char>) -> Seq<char> {
    let d = last_slash(script);
    if d < 0 {
        "/var/lib/dnsdist/rpz/rpz.db"@
    } else {
        script.subrange(0, d) + "/rpz/rpz.db"@
    }
}

/// The position of the last `/` of `s`, or -1.
pub open spec fn last_slash(s: Seq<char>) -> int
    decreases s.len(),
{
    if s.len() == 0 {
        -1
    } else if s.last() == '/' {
        s.len() - 1
    } else {
        last_slash(s.drop_last())
    }
}

proof fn lemma_last_slash(s: Seq<char>, i: int)
    requires
        -1 <= i < s.len(),
        i >= 0 ==> s[i] == '/',
        forall|j: int| i < j < s.len() ==> s[j] != '/',
    ensures
        last_slash(s) == i,
    decreases s.len(),
{
    if s.len() > 0 && s.len() - 1 != i {
        lemma_last_slash(s.drop_last(), i);
    }
}

/// Where the response-policy zone file lies for a script path.
pub fn rpz_zone_path(script: &str) -> (r: String)
    ensures
        r@ == rpz_zone_path_of(script@),
{
    let v = chars_of(script);
    let mut i: usize = v.len();
    while i > 0 && v[i - 1] != '/'
        invariant
            i <= v@.len(),
            forall|j: int| i <= j < v@.len() ==> v@[j] != '/',
        decreases i,
    {
        i = i - 1;
    }
    proof {
        lemma_last_slash(v@, i - 1);
    }
    if i == 0 {
        return crate::text::string_of(&chars_of("/var/lib/dnsdist/rpz/rpz.db"));
    }
    let mut buf: Vec<char> = Vec::new();
    push_range(&mut buf, &v, 0, i - 1);
    push_str(&mut buf, "/rpz/rpz.db");
    string_of(&buf)
}

pub open spec fn rpz_cname(t: ThreatEntry) -> Seq<char> {
    t.domain@ + " CNAME rpz-drop.nnoe.local.\n"@
}

pub open spec fn rpz_cname_fn() -> spec_fn(ThreatEntry) -> Seq<char> {
    |t: ThreatEntry| rpz_cname(t)
}

pub open spec fn rpz_zone_head() -> Seq<char> {
    "$TTL 3600\n$ORIGIN rpz.nnoe.local.\n@ IN SOA ns1.rpz.nnoe.local. admin.rpz.nnoe.local. (\n  1 ; Serial\n  3600 ; Refresh\n  1800 ; Retry\n  604800 ; Expire\n  86400 ; Minimum TTL\n)\n\n; Response policy zone for threat blocking\n\n"@
}

/// The response-policy zone: SOA, then each blocked domain as a CNAME to the sinkhole.
pub open spec fn rpz_zone_text(ts: Seq<ThreatEntry>) -> Seq<char> {
    rpz_zone_head() + joined(ts, rpz_cname_fn())
}

/// Writes the response-policy zone file; nothing when no domain is blocked.
pub fn generate_rpz_zone_file(ts: &Vec<ThreatEntry>) -> (r: Option<String>)
    ensures
        ts@.len() == 0 ==> r is None,
        ts@.len() > 0 ==> r is Some && r->0@ == rpz_zone_text(ts@),
{
    if ts.len() == 0 {
        return None;
    }
    let mut buf: Vec<char> = Vec::new();
    push_str(&mut buf, "$TTL 3600\n$ORIGIN rpz.nnoe.local.\n@ IN SOA ns1.rpz.nnoe.local. admin.rpz.nnoe.local. (\n  1 ; Serial\n  3600 ; Refresh\n  1800 ; Retry\n  604800 ; Expire\n  86400 ; Minimum TTL\n)\n\n; Response policy zone for threat blocking\n\n");
    let ghost head = buf@;
    let mut i: usize = 0;
    proof {
        lemma_joined_all(ts@, rpz_cname_fn());
        assert(buf@ =~= head + joined(ts@.subrange(0, 0), rpz_cname_fn()));
    }
    while i < ts.len()
        invariant
            i <= ts@.len(),
            buf@ == head + joined(ts@.subrange(0, i as int), rpz_cname_fn()),
        decreases ts@.len() - i,
    {
        push_str(&mut buf, ts[i].domain.as_str());
        push_str(&mut buf, " CNAME rpz-drop.nnoe.local.\n");
        proof {
            lemma_joined_step(ts@, i as int, rpz_cname_fn());
            assert(buf@ =~= head + joined(ts@.subrange(0, i + 1), rpz_cname_fn()));
        }
        i = i + 1;
    }
    proof {
        lemma_joined_all(ts@, rpz_cname_fn());
    }
    Some(string_of(&buf))
}

} // verus!
