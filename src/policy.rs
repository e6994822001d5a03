//! Resource policies for DNS queries, compiled into filter-script rules.
use vstd::prelude::*;
use crate::expr::{lua_expr, convert_cerbos_expr_to_lua};
use crate::filter::FilterRule;
use crate::keyed::same_chars;
use vstd::string::StringExecFns;
use crate::text::{push_str, push_decimal, chars_of, string_of, decimal, contains, str_contains,
    trim_of};

verus! {

/// Rules get priorities from this base on, above the block table.
pub const RULE_PRIORITY_BASE: u32 = 1000;

/// One rule of a resource policy.
#[derive(Debug, Clone)]
pub struct PolicyRule {
    pub actions: Vec<String>,
    pub effect: String,
    pub roles: Vec<String>,
    /// The condition's match expression, if any.
    pub expr: Option<String>,
}

/// A resource policy: the resource it governs and its rules.
#[derive(Debug, Clone)]
pub struct PolicyDoc {
    pub resource: String,
    pub rules: Vec<PolicyRule>,
}

pub open spec fn rule_prelude() -> Seq<char> {
    "addLuaAction(AllRule(), function(dq)\n  local qname = dq.qname:toString()\n  local current_time = os.time(os.date(\"*t\"))\n  local current_hour = tonumber(os.date(\"%H\", current_time))\n  local current_minute = tonumber(os.date(\"%M\", current_time))\n  local current_day = tonumber(os.date(\"%w\", current_time)) -- 0=Sunday, 6=Saturday\n  local role = get_client_role(dq)\n"@
}

pub open spec fn role_clause(r: String) -> Seq<char> {
    "role == \""@ + r@ + "\""@
}

/// The role clauses joined by ` or `.
pub open spec fn role_checks(rs: Seq<String>) -> Seq<char>
    decreases rs.len(),
{
    if rs.len() == 0 {
        Seq::empty()
    } else if rs.len() == 1 {
        role_clause(rs[0])
    } else {
        role_checks(rs.drop_last()) + " or "@ + role_clause(rs.last())
    }
}

/// Drops the query unless the client's role is one of the rule's roles.
pub open spec fn role_block(rs: Seq<String>) -> Seq<char> {
    if rs.len() == 0 {
        Seq::empty()
    } else {
        "  -- Role-based access check\n  local has_role = ("@ + role_checks(rs)
            + ")\n  if not has_role then\n    return DNSAction.Drop -- Role check failed\n  end\n"@
    }
}

pub open spec fn cond_block(e: Seq<char>) -> Seq<char> {
    "  local condition_result = "@ + lua_expr(trim_of(e))
        + "\n  if not condition_result then\n    return DNSAction.None\n  end\n"@
}

pub open spec fn drop_if_found(w: Seq<char>) -> Seq<char> {
    "  if string.find(qname, \""@ + w + "\") then\n    return DNSAction.Drop\n  end\n"@
}

/// Literal substring checks for the words the expression tests the domain for.
pub open spec fn word_block(e: Seq<char>) -> Seq<char> {
    if contains(e, "domain.contains"@) {
        (if contains(e, "malicious"@) {
            drop_if_found("malicious"@)
        } else {
            Seq::empty()
        }) + (if contains(e, "blocked"@) {
            drop_if_found("blocked"@)
        } else {
            Seq::empty()
        })
    } else {
        Seq::empty()
    }
}

/// The time-of-day guard: an expression that asks for an hour before 18 drops later queries.
pub open spec fn hour_block(e: Seq<char>) -> Seq<char> {
    if contains(e, "time.hour"@) && contains(e, "< 18"@) {
        "  if current_hour >= 18 then\n    return DNSAction.Drop\n  end\n"@
    } else {
        Seq::empty()
    }
}

/// The script action compiled from one policy rule.
pub open spec fn rule_lua(r: PolicyRule) -> Seq<char> {
    rule_prelude() + role_block(r.roles@) + (match r.expr {
        Some(e) => cond_block(e@) + word_block(e@) + hour_block(e@),
        None => Seq::empty(),
    }) + "  return DNSAction.None\nend)\n"@
}

fn push_role_checks(buf: &mut Vec<char>, rs: &Vec<String>)
    ensures
        final(buf)@ == old(buf)@ + role_checks(rs@),
{
    let ghost head = buf@;
    let mut i: usize = 0;
    proof {
        assert(rs@.subrange(0, 0).len() == 0);
        assert(buf@ =~= head + role_checks(rs@.subrange(0, 0)));
    }
    while i < rs.len()
        invariant
            i <= rs@.len(),
            buf@ == head + role_checks(rs@.subrange(0, i as int)),
        decreases rs@.len() - i,
    {
        if i > 0 {
            push_str(buf, " or ");
        }
        push_str(buf, "role == \"");
        push_str(buf, rs[i].as_str());
        push_str(buf, "\"");
        proof {
            let s = rs@.subrange(0, i + 1);
            assert(s.drop_last() =~= rs@.subrange(0, i as int));
            if i == 0 {
                assert(buf@ =~= head + role_checks(s));
            } else {
                assert(buf@ =~= head + role_checks(s));
            }
        }
        i = i + 1;
    }
    proof {
        assert(rs@.subrange(0, i as int) =~= rs@);
    }
}

fn push_drop_if_found(buf: &mut Vec<char>, w: &str)
    ensures
        final(buf)@ == old(buf)@ + drop_if_found(w@),
{
    push_str(buf, "  if string.find(qname, \"");
    push_str(buf, w);
    push_str(buf, "\") then\n    return DNSAction.Drop\n  end\n");
    proof {
        assert(final(buf)@ =~= old(buf)@ + drop_if_found(w@));
    }
}

/// Compiles one policy rule into a script action.
pub fn cerbos_rule_to_lua(r: &PolicyRule) -> (out: String)
    ensures
        out@ == rule_lua(*r),
{
    let mut buf: Vec<char> = Vec::new();
    push_str(&mut buf, "addLuaAction(AllRule(), function(dq)\n  local qname = dq.qname:toString()\n  local current_time = os.time(os.date(\"*t\"))\n  local current_hour = tonumber(os.date(\"%H\", current_time))\n  local current_minute = tonumber(os.date(\"%M\", current_time))\n  local current_day = tonumber(os.date(\"%w\", current_time)) -- 0=Sunday, 6=Saturday\n  local role = get_client_role(dq)\n");
    let ghost at_roles = buf@;
    if r.roles.len() > 0 {
        push_str(&mut buf, "  -- Role-based access check\n  local has_role = (");
        push_role_checks(&mut buf, &r.roles);
        push_str(&mut buf, ")\n  if not has_role then\n    return DNSAction.Drop -- Role check failed\n  end\n");
    }
    proof {
        assert(buf@ =~= at_roles + role_block(r.roles@));
    }
    let ghost at_cond = buf@;
    match &r.expr {
        Some(e) => {
            let lua = convert_cerbos_expr_to_lua(e.as_str());
            push_str(&mut buf, "  local condition_result = ");
            push_str(&mut buf, lua.as_str());
            push_str(&mut buf, "\n  if not condition_result then\n    return DNSAction.None\n  end\n");
            proof {
                assert(buf@ =~= at_cond + cond_block(e@));
            }
            let ghost at_words = buf@;
            if str_contains(e.as_str(), "domain.contains") {
                if str_contains(e.as_str(), "malicious") {
                    push_drop_if_found(&mut buf, "malicious");
                }
                if str_contains(e.as_str(), "blocked") {
                    push_drop_if_found(&mut buf, "blocked");
                }
            }
            proof {
                assert(buf@ =~= at_words + word_block(e@));
            }
            let ghost at_hour = buf@;
            if str_contains(e.as_str(), "time.hour") && str_contains(e.as_str(), "< 18") {
                push_str(&mut buf, "  if current_hour >= 18 then\n    return DNSAction.Drop\n  end\n");
            }
            proof {
                assert(buf@ =~= at_hour + hour_block(e@));
                assert(buf@ =~= at_cond + (cond_block(e@) + word_block(e@) + hour_block(e@)));
            }
        },
        None => {
            proof {
                assert(buf@ =~= at_cond + Seq::<char>::empty());
            }
        },
    }
    push_str(&mut buf, "  return DNSAction.None\nend)\n");
    proof {
        assert(buf@ =~= rule_lua(*r));
    }
    string_of(&buf)
}

/// Whether a rule is left out: a non-allow effect on a rule whose actions hold `allow`.
pub open spec fn skipped(r: PolicyRule) -> bool {
    r.effect@ != "EFFECT_ALLOW"@ && exists|k: int| 0 <= k < r.actions@.len() && r.actions@[k]@ == "allow"@
}

/// The positions of the rules that are compiled, in order.
pub open spec fn kept(rs: Seq<PolicyRule>) -> Seq<int>
    decreases rs.len(),
{
    if rs.len() == 0 {
        Seq::empty()
    } else if skipped(rs.last()) {
        kept(rs.drop_last())
    } else {
        kept(rs.drop_last()).push(rs.len() - 1)
    }
}

/// The name of the rule compiled from rule `idx` of policy `id`.
pub open spec fn rule_name(id: Seq<char>, idx: nat) -> Seq<char> {
    "cerbos_"@ + id + "_"@ + decimal(idx)
}

/// Whether `f` is what rule `idx` of policy `id` compiles to.
pub open spec fn compiled_from(f: FilterRule, id: Seq<char>, r: PolicyRule, idx: int) -> bool {
    &&& f.policy@ == id
    &&& f.name@ == rule_name(id, idx as nat)
    &&& f.lua_code@ == rule_lua(r)
    &&& f.priority == RULE_PRIORITY_BASE + idx
}

/// Whether policy `doc` governs DNS queries.
pub open spec fn governs_dns(doc: PolicyDoc) -> bool {
    doc.resource@ == "dns_query"@
}

fn any_allow(actions: &Vec<String>) -> (r: bool)
    ensures
        r == exists|k: int| 0 <= k < actions@.len() && actions@[k]@ == "allow"@,
{
    let allow = chars_of("allow");
    let mut i: usize = 0;
    while i < actions.len()
        invariant
            i <= actions@.len(),
            allow@ == "allow"@,
            forall|k: int| 0 <= k < i ==> actions@[k]@ != "allow"@,
        decreases actions@.len() - i,
    {
        let a = chars_of(actions[i].as_str());
        if same_chars(&a, &allow) {
            return true;
        }
        i = i + 1;
    }
    false
}

fn is_skipped(r: &PolicyRule) -> (b: bool)
    ensures
        b == skipped(*r),
{
    let eff = chars_of(r.effect.as_str());
    let allow_eff = chars_of("EFFECT_ALLOW");
    !same_chars(&eff, &allow_eff) && any_allow(&r.actions)
}

/// Compiles the rules of policy `id` into filter rules, rule `idx` with
/// priority `1000 + idx`.
pub fn compile_policy(id: &str, doc: &PolicyDoc) -> (out: Vec<FilterRule>)
    requires
        doc.rules@.len() + RULE_PRIORITY_BASE <= u32::MAX,
    ensures
        out@.len() == kept(doc.rules@).len(),
        forall|k: int|
            0 <= k < out@.len() ==> compiled_from(
                #[trigger] out@[k],
                id@,
                doc.rules@[kept(doc.rules@)[k]],
                kept(doc.rules@)[k],
            ),
{
    let mut out: Vec<FilterRule> = Vec::new();
    let mut i: usize = 0;
    while i < doc.rules.len()
        invariant
            i <= doc.rules@.len(),
            doc.rules@.len() + RULE_PRIORITY_BASE <= u32::MAX,
            out@.len() == kept(doc.rules@.subrange(0, i as int)).len(),
            forall|k: int|
                0 <= k < out@.len() ==> compiled_from(
                    #[trigger] out@[k],
                    id@,
                    doc.rules@[kept(doc.rules@.subrange(0, i as int))[k]],
                    kept(doc.rules@.subrange(0, i as int))[k],
                ),
            forall|k: int|
                0 <= k < kept(doc.rules@.subrange(0, i as int)).len() ==> 0 <= #[trigger] kept(
                    doc.rules@.subrange(0, i as int),
                )[k] < i,
        decreases doc.rules@.len() - i,
    {
        let ghost s = doc.rules@.subrange(0, i + 1);
        proof {
            assert(s.drop_last() =~= doc.rules@.subrange(0, i as int));
        }
        let r = &doc.rules[i];
        if !is_skipped(r) {
            let mut name: Vec<char> = Vec::new();
            push_str(&mut name, "cerbos_");
            push_str(&mut name, id);
            push_str(&mut name, "_");
            push_decimal(&mut name, i as u64);
            proof {
                assert(name@ =~= rule_name(id@, i as nat));
            }
            let f = FilterRule {
                policy: String::from_str(id),
                name: string_of(&name),
                lua_code: cerbos_rule_to_lua(r),
                priority: RULE_PRIORITY_BASE + i as u32,
            };
            out.push(f);
        }
        i = i + 1;
    }
    proof {
        assert(doc.rules@.subrange(0, i as int) =~= doc.rules@);
    }
    out
}

} // verus!
