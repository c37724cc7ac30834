//! Schema validation of a packet-filter configuration.
use vstd::prelude::*;
use vstd::string::*;
use crate::console::text::{str_eq, trim_spec, trim_str};
use crate::pf::config::{PfChain, PfConfig, PfError, PfMap, PfMatch, PfRule, PfSet, PfTable};

verus! {

/// `prefix`, then `v`, then a closing quote.
pub open spec fn quoted(prefix: Seq<char>, v: Seq<char>) -> Seq<char> {
    prefix + v + "'"@
}

/// `prefix`, then `v`, then a closing quote.
pub fn quoted_msg(prefix: &str, v: &str) -> (s: String)
    ensures
        s@ == quoted(prefix@, v@),
{
    let mut s = String::from_str(prefix);
    s.append(v);
    s.append("'");
    s
}

/// A schema error with message `m`.
pub fn schema(m: String) -> (e: PfError)
    ensures
        e == PfError::Schema(m),
{
    PfError::Schema(m)
}

/// The supported table families.
pub open spec fn family_ok(f: Seq<char>) -> bool {
    f == "ip"@ || f == "ip6"@ || f == "inet"@ || f == "arp"@ || f == "bridge"@ || f == "netdev"@
}

/// The supported set element (and map key) types.
pub open spec fn set_type_ok(t: Seq<char>) -> bool {
    t == "ipv4_addr"@ || t == "ipv6_addr"@ || t == "inet_service"@ || t == "ifname"@ || t == "mark"@
}

/// The supported map value types.
pub open spec fn map_value_type_ok(t: Seq<char>) -> bool {
    t == "verdict"@ || t == "ipv4_addr"@ || t == "ipv6_addr"@ || t == "inet_service"@
}

/// The supported chain types.
pub open spec fn chain_type_ok(t: Seq<char>) -> bool {
    t == "filter"@ || t == "nat"@ || t == "route"@
}

/// The supported hooks.
pub open spec fn hook_ok(h: Seq<char>) -> bool {
    h == "prerouting"@ || h == "input"@ || h == "forward"@ || h == "output"@ || h == "postrouting"@
}

/// The nftables table families.
pub open spec fn nft_families() -> Seq<Seq<char>> {
    seq!["ip"@, "ip6"@, "inet"@, "arp"@, "bridge"@, "netdev"@]
}

/// The nftables element types a set (or map key) may hold.
pub open spec fn nft_set_types() -> Seq<Seq<char>> {
    seq!["ipv4_addr"@, "ipv6_addr"@, "inet_service"@, "ifname"@, "mark"@]
}

/// The nftables types a map may map to.
pub open spec fn nft_map_value_types() -> Seq<Seq<char>> {
    seq!["verdict"@, "ipv4_addr"@, "ipv6_addr"@, "inet_service"@]
}

/// The nftables base chain types.
pub open spec fn nft_chain_types() -> Seq<Seq<char>> {
    seq!["filter"@, "nat"@, "route"@]
}

/// The base chain policies nftables takes.
pub open spec fn nft_policies() -> Seq<Seq<char>> {
    seq!["accept"@, "drop"@]
}

/// The rule actions the renderer knows.
pub open spec fn nft_actions() -> Seq<Seq<char>> {
    seq!["accept"@, "drop"@, "reject"@, "log"@, "snat"@, "dnat"@, "masquerade"@, "redirect"@, "limit"@]
}

/// The conntrack states nftables matches.
pub open spec fn nft_ct_states() -> Seq<Seq<char>> {
    seq!["new"@, "established"@, "related"@, "invalid"@]
}

/// Each supported-name check accepts exactly the names of its nftables
/// list: dropping or adding a name changes what validation accepts.
pub proof fn lemma_supported_names(x: Seq<char>)
    ensures
        family_ok(x) <==> nft_families().contains(x),
        set_type_ok(x) <==> nft_set_types().contains(x),
        map_value_type_ok(x) <==> nft_map_value_types().contains(x),
        chain_type_ok(x) <==> nft_chain_types().contains(x),
        policy_ok(x) <==> nft_policies().contains(x),
        action_ok(x) <==> nft_actions().contains(x),
        ct_state_ok(x) <==> nft_ct_states().contains(x),
{
    let l = nft_families();
    if family_ok(x) {
        if x == "ip"@ {
            assert(l[0] == x);
        } else if x == "ip6"@ {
            assert(l[1] == x);
        } else if x == "inet"@ {
            assert(l[2] == x);
        } else if x == "arp"@ {
            assert(l[3] == x);
        } else if x == "bridge"@ {
            assert(l[4] == x);
        } else if x == "netdev"@ {
            assert(l[5] == x);
        }
    }
    if l.contains(x) {
        let i = choose|i: int| 0 <= i < l.len() && l[i] == x;
        assert(i == 0 || i == 1 || i == 2 || i == 3 || i == 4 || i == 5);
    }
    let l = nft_set_types();
    if set_type_ok(x) {
        if x == "ipv4_addr"@ {
            assert(l[0] == x);
        } else if x == "ipv6_addr"@ {
            assert(l[1] == x);
        } else if x == "inet_service"@ {
            assert(l[2] == x);
        } else if x == "ifname"@ {
            assert(l[3] == x);
        } else if x == "mark"@ {
            assert(l[4] == x);
        }
    }
    if l.contains(x) {
        let i = choose|i: int| 0 <= i < l.len() && l[i] == x;
        assert(i == 0 || i == 1 || i == 2 || i == 3 || i == 4);
    }
    let l = nft_map_value_types();
    if map_value_type_ok(x) {
        if x == "verdict"@ {
            assert(l[0] == x);
        } else if x == "ipv4_addr"@ {
            assert(l[1] == x);
        } else if x == "ipv6_addr"@ {
            assert(l[2] == x);
        } else if x == "inet_service"@ {
            assert(l[3] == x);
        }
    }
    if l.contains(x) {
        let i = choose|i: int| 0 <= i < l.len() && l[i] == x;
        assert(i == 0 || i == 1 || i == 2 || i == 3);
    }
    let l = nft_chain_types();
    if chain_type_ok(x) {
        if x == "filter"@ {
            assert(l[0] == x);
        } else if x == "nat"@ {
            assert(l[1] == x);
        } else if x == "route"@ {
            assert(l[2] == x);
        }
    }
    if l.contains(x) {
        let i = choose|i: int| 0 <= i < l.len() && l[i] == x;
        assert(i == 0 || i == 1 || i == 2);
    }
    let l = nft_policies();
    if policy_ok(x) {
        if x == "accept"@ {
            assert(l[0] == x);
        } else if x == "drop"@ {
            assert(l[1] == x);
        }
    }
    if l.contains(x) {
        let i = choose|i: int| 0 <= i < l.len() && l[i] == x;
        assert(i == 0 || i == 1);
    }
    let l = nft_actions();
    if action_ok(x) {
        if x == "accept"@ {
            assert(l[0] == x);
        } else if x == "drop"@ {
            assert(l[1] == x);
        } else if x == "reject"@ {
            assert(l[2] == x);
        } else if x == "log"@ {
            assert(l[3] == x);
        } else if x == "snat"@ {
            assert(l[4] == x);
        } else if x == "dnat"@ {
            assert(l[5] == x);
        } else if x == "masquerade"@ {
            assert(l[6] == x);
        } else if x == "redirect"@ {
            assert(l[7] == x);
        } else if x == "limit"@ {
            assert(l[8] == x);
        }
    }
    if l.contains(x) {
        let i = choose|i: int| 0 <= i < l.len() && l[i] == x;
        assert(i == 0 || i == 1 || i == 2 || i == 3 || i == 4 || i == 5 || i == 6 || i == 7 || i == 8);
    }
    let l = nft_ct_states();
    if ct_state_ok(x) {
        if x == "new"@ {
            assert(l[0] == x);
        } else if x == "established"@ {
            assert(l[1] == x);
        } else if x == "related"@ {
            assert(l[2] == x);
        } else if x == "invalid"@ {
            assert(l[3] == x);
        }
    }
    if l.contains(x) {
        let i = choose|i: int| 0 <= i < l.len() && l[i] == x;
        assert(i == 0 || i == 1 || i == 2 || i == 3);
    }
}

/// The five netfilter hooks a base chain can attach to.
pub open spec fn netfilter_hooks() -> Seq<Seq<char>> {
    seq!["prerouting"@, "input"@, "forward"@, "output"@, "postrouting"@]
}

/// Every netfilter hook, and nothing else, is a supported hook.
pub proof fn lemma_hooks_are_the_netfilter_hooks(h: Seq<char>)
    ensures
        hook_ok(h) <==> netfilter_hooks().contains(h),
{
    let n = netfilter_hooks();
    if hook_ok(h) {
        if h == "prerouting"@ { assert(n[0] == h); }
        else if h == "input"@ { assert(n[1] == h); }
        else if h == "forward"@ { assert(n[2] == h); }
        else if h == "output"@ { assert(n[3] == h); }
        else { assert(n[4] == h); }
    }
}

/// Which netfilter hook a chain attaches to does not change whether, or
/// why, the chain is refused: chains that differ only in their hook, both
/// netfilter hooks, have the same problem.
pub proof fn lemma_chain_hook_irrelevant(c1: PfChain, c2: PfChain, t: PfTable)
    requires
        c1.name@ == c2.name@,
        c1.chain_type@ == c2.chain_type@,
        c1.policy@ == c2.policy@,
        c1.rules@ == c2.rules@,
        netfilter_hooks().contains(c1.hook@),
        netfilter_hooks().contains(c2.hook@),
    ensures
        chain_problem(c1, t) == chain_problem(c2, t),
{
    lemma_hooks_are_the_netfilter_hooks(c1.hook@);
    lemma_hooks_are_the_netfilter_hooks(c2.hook@);
}

/// The supported chain policies.
pub open spec fn policy_ok(p: Seq<char>) -> bool {
    p == "accept"@ || p == "drop"@
}

/// The supported rule actions.
pub open spec fn action_ok(a: Seq<char>) -> bool {
    a == "accept"@ || a == "drop"@ || a == "reject"@ || a == "log"@ || a == "snat"@ || a == "dnat"@
        || a == "masquerade"@ || a == "redirect"@ || a == "limit"@
}

/// The actions that need a `to` target.
pub open spec fn needs_target(a: Seq<char>) -> bool {
    a == "snat"@ || a == "dnat"@ || a == "redirect"@
}

/// The supported connection-tracking states.
pub open spec fn ct_state_ok(s: Seq<char>) -> bool {
    s == "new"@ || s == "established"@ || s == "related"@ || s == "invalid"@
}

/// Whether `sets` has a set named `name`.
pub open spec fn has_set(sets: Seq<PfSet>, name: Seq<char>) -> bool {
    exists|i: int| 0 <= i < sets.len() && (#[trigger] sets[i]).name@ == name
}

/// The first problem among the set types.
pub open spec fn sets_problem(sets: Seq<PfSet>) -> Option<Seq<char>>
    decreases sets.len(),
{
    if sets.len() == 0 {
        None
    } else {
        match sets_problem(sets.drop_last()) {
            Some(m) => Some(m),
            None => if set_type_ok(sets.last().elem_type@) {
                None
            } else {
                Some(quoted("unsupported set type '"@, sets.last().elem_type@))
            },
        }
    }
}

/// The problem of one map: its key type, then its value type.
pub open spec fn map_problem(m: PfMap) -> Option<Seq<char>> {
    if !set_type_ok(m.key_type@) {
        Some(quoted("unsupported set type '"@, m.key_type@))
    } else if !map_value_type_ok(m.value_type@) {
        Some(quoted("unsupported map value type '"@, m.value_type@))
    } else {
        None
    }
}

/// The first problem among the maps.
pub open spec fn maps_problem(maps: Seq<PfMap>) -> Option<Seq<char>>
    decreases maps.len(),
{
    if maps.len() == 0 {
        None
    } else {
        match maps_problem(maps.drop_last()) {
            Some(m) => Some(m),
            None => map_problem(maps.last()),
        }
    }
}

/// The first unsupported connection-tracking state.
pub open spec fn states_problem(states: Seq<String>) -> Option<Seq<char>>
    decreases states.len(),
{
    if states.len() == 0 {
        None
    } else {
        match states_problem(states.drop_last()) {
            Some(m) => Some(m),
            None => if ct_state_ok(states.last()@) {
                None
            } else {
                Some(quoted("unsupported conntrack state '"@, states.last()@))
            },
        }
    }
}

/// The problem of a rule's match, if it has one.
pub open spec fn match_problem(m: PfMatch, t: PfTable) -> Option<Seq<char>> {
    let ct = match m.ct {
        Some(ct) => states_problem(ct.state@),
        None => None,
    };
    match ct {
        Some(msg) => Some(msg),
        None => match m.set {
            Some(r) => if has_set(t.sets@, r.name@) {
                None
            } else {
                Some(quoted("rule references unknown set '"@, r.name@))
            },
            None => None,
        },
    }
}

/// The problem of a rule in table `t`: its action, then its target or
/// rate, then its match.
pub open spec fn rule_problem(r: PfRule, t: PfTable) -> Option<Seq<char>> {
    if !action_ok(r.action@) {
        Some(quoted("unsupported action '"@, r.action@))
    } else if needs_target(r.action@) && r.to is None {
        Some("action '"@ + r.action@ + "' requires 'to' field"@)
    } else if r.action@ == "limit"@ && r.rate is None {
        Some("limit action requires rate"@)
    } else {
        match r.match_expr {
            Some(m) => match_problem(m, t),
            None => None,
        }
    }
}

/// The first problem among the rules.
pub open spec fn rules_problem(rules: Seq<PfRule>, t: PfTable) -> Option<Seq<char>>
    decreases rules.len(),
{
    if rules.len() == 0 {
        None
    } else {
        match rules_problem(rules.drop_last(), t) {
            Some(m) => Some(m),
            None => rule_problem(rules.last(), t),
        }
    }
}

/// The problem of a chain in table `t`.
pub open spec fn chain_problem(c: PfChain, t: PfTable) -> Option<Seq<char>> {
    if trim_spec(c.name@).len() == 0 {
        Some("chain name cannot be empty"@)
    } else if !chain_type_ok(c.chain_type@) {
        Some(quoted("unsupported chain type '"@, c.chain_type@))
    } else if !hook_ok(c.hook@) {
        Some(quoted("unsupported hook '"@, c.hook@))
    } else if !policy_ok(c.policy@) {
        Some(quoted("unsupported policy '"@, c.policy@))
    } else {
        rules_problem(c.rules@, t)
    }
}

/// The first problem among the chains of table `t`.
pub open spec fn chains_problem(chains: Seq<PfChain>, t: PfTable) -> Option<Seq<char>>
    decreases chains.len(),
{
    if chains.len() == 0 {
        None
    } else {
        match chains_problem(chains.drop_last(), t) {
            Some(m) => Some(m),
            None => chain_problem(chains.last(), t),
        }
    }
}

/// The problem of a table.
pub open spec fn table_problem(t: PfTable) -> Option<Seq<char>> {
    if trim_spec(t.name@).len() == 0 {
        Some("table name cannot be empty"@)
    } else if !family_ok(t.family@) {
        Some(quoted("unsupported family '"@, t.family@))
    } else if sets_problem(t.sets@) is Some {
        sets_problem(t.sets@)
    } else if maps_problem(t.maps@) is Some {
        maps_problem(t.maps@)
    } else if t.chains@.len() == 0 {
        Some("table '"@ + t.name@ + "' must include at least one chain"@)
    } else {
        chains_problem(t.chains@, t)
    }
}

/// The first problem among the tables.
pub open spec fn tables_problem(tables: Seq<PfTable>) -> Option<Seq<char>>
    decreases tables.len(),
{
    if tables.len() == 0 {
        None
    } else {
        match tables_problem(tables.drop_last()) {
            Some(m) => Some(m),
            None => table_problem(tables.last()),
        }
    }
}

/// The first schema problem of a configuration; `None` when it is valid.
pub open spec fn config_problem(cfg: PfConfig) -> Option<Seq<char>> {
    if cfg.sos_pf.tables@.len() == 0 {
        Some("at least one table is required"@)
    } else {
        tables_problem(cfg.sos_pf.tables@)
    }
}

/// The result of a check that found `p`.
pub open spec fn outcome_of(r: Result<(), PfError>, p: Option<Seq<char>>) -> bool {
    match p {
        None => r is Ok,
        Some(m) => r matches Err(PfError::Schema(s)) && s@ == m,
    }
}

fn validate_set_type(t: &str) -> (r: Result<(), PfError>)
    ensures
        outcome_of(r, if set_type_ok(t@) { None } else { Some(quoted("unsupported set type '"@, t@)) }),
{
    if str_eq(t, "ipv4_addr") || str_eq(t, "ipv6_addr") || str_eq(t, "inet_service") || str_eq(t, "ifname")
        || str_eq(t, "mark") {
        Ok(())
    } else {
        Err(schema(quoted_msg("unsupported set type '", t)))
    }
}

fn validate_map_value_type(t: &str) -> (r: Result<(), PfError>)
    ensures
        outcome_of(r, if map_value_type_ok(t@) { None } else { Some(quoted("unsupported map value type '"@, t@)) }),
{
    if str_eq(t, "verdict") || str_eq(t, "ipv4_addr") || str_eq(t, "ipv6_addr") || str_eq(t, "inet_service") {
        Ok(())
    } else {
        Err(schema(quoted_msg("unsupported map value type '", t)))
    }
}

fn validate_family(f: &str) -> (r: Result<(), PfError>)
    ensures
        outcome_of(r, if family_ok(f@) { None } else { Some(quoted("unsupported family '"@, f@)) }),
{
    if str_eq(f, "ip") || str_eq(f, "ip6") || str_eq(f, "inet") || str_eq(f, "arp") || str_eq(f, "bridge")
        || str_eq(f, "netdev") {
        Ok(())
    } else {
        Err(schema(quoted_msg("unsupported family '", f)))
    }
}

fn validate_chain_type(t: &str) -> (r: Result<(), PfError>)
    ensures
        outcome_of(r, if chain_type_ok(t@) { None } else { Some(quoted("unsupported chain type '"@, t@)) }),
{
    if str_eq(t, "filter") || str_eq(t, "nat") || str_eq(t, "route") {
        Ok(())
    } else {
        Err(schema(quoted_msg("unsupported chain type '", t)))
    }
}

fn validate_hook(h: &str) -> (r: Result<(), PfError>)
    ensures
        outcome_of(r, if hook_ok(h@) { None } else { Some(quoted("unsupported hook '"@, h@)) }),
{
    if str_eq(h, "prerouting") || str_eq(h, "input") || str_eq(h, "forward") || str_eq(h, "output")
        || str_eq(h, "postrouting") {
        Ok(())
    } else {
        Err(schema(quoted_msg("unsupported hook '", h)))
    }
}

fn validate_policy(p: &str) -> (r: Result<(), PfError>)
    ensures
        outcome_of(r, if policy_ok(p@) { None } else { Some(quoted("unsupported policy '"@, p@)) }),
{
    if str_eq(p, "accept") || str_eq(p, "drop") {
        Ok(())
    } else {
        Err(schema(quoted_msg("unsupported policy '", p)))
    }
}

fn validate_action(a: &str) -> (r: Result<(), PfError>)
    ensures
        outcome_of(r, if action_ok(a@) { None } else { Some(quoted("unsupported action '"@, a@)) }),
{
    if str_eq(a, "accept") || str_eq(a, "drop") || str_eq(a, "reject") || str_eq(a, "log") || str_eq(a, "snat")
        || str_eq(a, "dnat") || str_eq(a, "masquerade") || str_eq(a, "redirect") || str_eq(a, "limit") {
        Ok(())
    } else {
        Err(schema(quoted_msg("unsupported action '", a)))
    }
}

/// Whether `sets` has a set named `name`.
pub fn table_has_set(sets: &Vec<PfSet>, name: &str) -> (r: bool)
    ensures
        r == has_set(sets@, name@),
{
    let mut i: usize = 0;
    while i < sets.len()
        invariant
            i <= sets@.len(),
            forall|k: int| 0 <= k < i ==> (#[trigger] sets@[k]).name@ != name@,
        decreases sets@.len() - i,
    {
        if str_eq(sets[i].name.as_str(), name) {
            return true;
        }
        i = i + 1;
    }
    false
}

fn validate_states(states: &Vec<String>) -> (r: Result<(), PfError>)
    ensures
        outcome_of(r, states_problem(states@)),
{
    let mut i: usize = 0;
    while i < states.len()
        invariant
            i <= states@.len(),
            states_problem(states@.take(i as int)) is None,
        decreases states@.len() - i,
    {
        let s = states[i].as_str();
        assert(states@.take(i + 1).drop_last() =~= states@.take(i as int));
        if !(str_eq(s, "new") || str_eq(s, "established") || str_eq(s, "related") || str_eq(s, "invalid")) {
            proof {
                assert(states@.take(i + 1).last() == states@[i as int]);
                lemma_states_prefix(states@, i as int + 1);
            }
            return Err(schema(quoted_msg("unsupported conntrack state '", s)));
        }
        i = i + 1;
    }
    assert(states@.take(states@.len() as int) =~= states@);
    Ok(())
}

proof fn lemma_states_prefix(s: Seq<String>, n: int)
    requires
        0 <= n <= s.len(),
        states_problem(s.take(n)) is Some,
    ensures
        states_problem(s) == states_problem(s.take(n)),
    decreases s.len() - n,
{
    if n < s.len() {
        assert(s.take(n + 1).drop_last() =~= s.take(n));
        lemma_states_prefix(s, n + 1);
    } else {
        assert(s.take(n) =~= s);
    }
}

/// Checks a rule of table `t`: its action, its target or rate, its
/// connection-tracking states and its set reference.
pub fn validate_rule(rule: &PfRule, table: &PfTable) -> (r: Result<(), PfError>)
    ensures
        outcome_of(r, rule_problem(*rule, *table)),
{
    match validate_action(rule.action.as_str()) {
        Ok(()) => {},
        Err(e) => return Err(e),
    }
    let a = rule.action.as_str();
    if (str_eq(a, "snat") || str_eq(a, "dnat") || str_eq(a, "redirect")) && rule.to.is_none() {
        let mut m = String::from_str("action '");
        m.append(a);
        m.append("' requires 'to' field");
        return Err(schema(m));
    }
    if str_eq(a, "limit") && rule.rate.is_none() {
        return Err(schema(String::from_str("limit action requires rate")));
    }
    match &rule.match_expr {
        Some(m) => {
            match &m.ct {
                Some(ct) => match validate_states(&ct.state) {
                    Ok(()) => {},
                    Err(e) => return Err(e),
                },
                None => {},
            }
            match &m.set {
                Some(set_ref) => {
                    if !table_has_set(&table.sets, set_ref.name.as_str()) {
                        return Err(schema(quoted_msg("rule references unknown set '", set_ref.name.as_str())));
                    }
                },
                None => {},
            }
            Ok(())
        },
        None => Ok(()),
    }
}

proof fn lemma_rules_prefix(s: Seq<PfRule>, t: PfTable, n: int)
    requires
        0 <= n <= s.len(),
        rules_problem(s.take(n), t) is Some,
    ensures
        rules_problem(s, t) == rules_problem(s.take(n), t),
    decreases s.len() - n,
{
    if n < s.len() {
        assert(s.take(n + 1).drop_last() =~= s.take(n));
        lemma_rules_prefix(s, t, n + 1);
    } else {
        assert(s.take(n) =~= s);
    }
}

fn validate_chain(chain: &PfChain, table: &PfTable) -> (r: Result<(), PfError>)
    ensures
        outcome_of(r, chain_problem(*chain, *table)),
{
    if trim_str(chain.name.as_str()).is_empty() {
        return Err(schema(String::from_str("chain name cannot be empty")));
    }
    match validate_chain_type(chain.chain_type.as_str()) {
        Ok(()) => {},
        Err(e) => return Err(e),
    }
    match validate_hook(chain.hook.as_str()) {
        Ok(()) => {},
        Err(e) => return Err(e),
    }
    match validate_policy(chain.policy.as_str()) {
        Ok(()) => {},
        Err(e) => return Err(e),
    }
    let mut i: usize = 0;
    while i < chain.rules.len()
        invariant
            i <= chain.rules@.len(),
            chain_problem(*chain, *table) == rules_problem(chain.rules@, *table),
            rules_problem(chain.rules@.take(i as int), *table) is None,
        decreases chain.rules@.len() - i,
    {
        assert(chain.rules@.take(i + 1).drop_last() =~= chain.rules@.take(i as int));
        match validate_rule(&chain.rules[i], table) {
            Ok(()) => {},
            Err(e) => {
                proof {
                    assert(chain.rules@.take(i + 1).last() == chain.rules@[i as int]);
                    assert(rules_problem(chain.rules@.take(i + 1), *table) == rule_problem(chain.rules@[i as int], *table));
                    lemma_rules_prefix(chain.rules@, *table, i as int + 1);
                }
                return Err(e);
            },
        }
        i = i + 1;
    }
    assert(chain.rules@.take(chain.rules@.len() as int) =~= chain.rules@);
    Ok(())
}

proof fn lemma_sets_prefix(s: Seq<PfSet>, n: int)
    requires
        0 <= n <= s.len(),
        sets_problem(s.take(n)) is Some,
    ensures
        sets_problem(s) == sets_problem(s.take(n)),
    decreases s.len() - n,
{
    if n < s.len() {
        assert(s.take(n + 1).drop_last() =~= s.take(n));
        lemma_sets_prefix(s, n + 1);
    } else {
        assert(s.take(n) =~= s);
    }
}

proof fn lemma_maps_prefix(s: Seq<PfMap>, n: int)
    requires
        0 <= n <= s.len(),
        maps_problem(s.take(n)) is Some,
    ensures
        maps_problem(s) == maps_problem(s.take(n)),
    decreases s.len() - n,
{
    if n < s.len() {
        assert(s.take(n + 1).drop_last() =~= s.take(n));
        lemma_maps_prefix(s, n + 1);
    } else {
        assert(s.take(n) =~= s);
    }
}

proof fn lemma_chains_prefix(s: Seq<PfChain>, t: PfTable, n: int)
    requires
        0 <= n <= s.len(),
        chains_problem(s.take(n), t) is Some,
    ensures
        chains_problem(s, t) == chains_problem(s.take(n), t),
    decreases s.len() - n,
{
    if n < s.len() {
        assert(s.take(n + 1).drop_last() =~= s.take(n));
        lemma_chains_prefix(s, t, n + 1);
    } else {
        assert(s.take(n) =~= s);
    }
}

fn validate_table(table: &PfTable) -> (r: Result<(), PfError>)
    ensures
        outcome_of(r, table_problem(*table)),
{
    if trim_str(table.name.as_str()).is_empty() {
        return Err(schema(String::from_str("table name cannot be empty")));
    }
    match validate_family(table.family.as_str()) {
        Ok(()) => {},
        Err(e) => return Err(e),
    }
    let mut i: usize = 0;
    while i < table.sets.len()
        invariant
            i <= table.sets@.len(),
            trim_spec(table.name@).len() > 0 && family_ok(table.family@),
            sets_problem(table.sets@.take(i as int)) is None,
        decreases table.sets@.len() - i,
    {
        assert(table.sets@.take(i + 1).drop_last() =~= table.sets@.take(i as int));
        match validate_set_type(table.sets[i].elem_type.as_str()) {
            Ok(()) => {},
            Err(e) => {
                proof {
                    assert(table.sets@.take(i + 1).last() == table.sets@[i as int]);
                    lemma_sets_prefix(table.sets@, i as int + 1);
                }
                return Err(e);
            },
        }
        i = i + 1;
    }
    assert(table.sets@.take(table.sets@.len() as int) =~= table.sets@);
    let mut j: usize = 0;
    while j < table.maps.len()
        invariant
            j <= table.maps@.len(),
            trim_spec(table.name@).len() > 0 && family_ok(table.family@),
            sets_problem(table.sets@) is None,
            maps_problem(table.maps@.take(j as int)) is None,
        decreases table.maps@.len() - j,
    {
        assert(table.maps@.take(j + 1).drop_last() =~= table.maps@.take(j as int));
        let m = &table.maps[j];
        match validate_set_type(m.key_type.as_str()) {
            Ok(()) => {},
            Err(e) => {
                proof {
                    assert(table.maps@.take(j + 1).last() == table.maps@[j as int]);
                    assert(maps_problem(table.maps@.take(j + 1)) == map_problem(table.maps@[j as int]));
                    lemma_maps_prefix(table.maps@, j as int + 1);
                }
                return Err(e);
            },
        }
        match validate_map_value_type(m.value_type.as_str()) {
            Ok(()) => {},
            Err(e) => {
                proof {
                    assert(table.maps@.take(j + 1).last() == table.maps@[j as int]);
                    assert(maps_problem(table.maps@.take(j + 1)) == map_problem(table.maps@[j as int]));
                    lemma_maps_prefix(table.maps@, j as int + 1);
                }
                return Err(e);
            },
        }
        j = j + 1;
    }
    assert(table.maps@.take(table.maps@.len() as int) =~= table.maps@);
    if table.chains.len() == 0 {
        let mut m = String::from_str("table '");
        m.append(table.name.as_str());
        m.append("' must include at least one chain");
        return Err(schema(m));
    }
    let mut k: usize = 0;
    while k < table.chains.len()
        invariant
            k <= table.chains@.len(),
            table_problem(*table) == chains_problem(table.chains@, *table),
            chains_problem(table.chains@.take(k as int), *table) is None,
        decreases table.chains@.len() - k,
    {
        assert(table.chains@.take(k + 1).drop_last() =~= table.chains@.take(k as int));
        match validate_chain(&table.chains[k], table) {
            Ok(()) => {},
            Err(e) => {
                proof {
                    assert(table.chains@.take(k + 1).last() == table.chains@[k as int]);
                    assert(chains_problem(table.chains@.take(k + 1), *table) == chain_problem(table.chains@[k as int], *table));
                    lemma_chains_prefix(table.chains@, *table, k as int + 1);
                }
                return Err(e);
            },
        }
        k = k + 1;
    }
    assert(table.chains@.take(table.chains@.len() as int) =~= table.chains@);
    Ok(())
}

proof fn lemma_tables_prefix(s: Seq<PfTable>, n: int)
    requires
        0 <= n <= s.len(),
        tables_problem(s.take(n)) is Some,
    ensures
        tables_problem(s) == tables_problem(s.take(n)),
    decreases s.len() - n,
{
    if n < s.len() {
        assert(s.take(n + 1).drop_last() =~= s.take(n));
        lemma_tables_prefix(s, n + 1);
    } else {
        assert(s.take(n) =~= s);
    }
}

/// Checks a configuration against the schema: at least one table; each
/// table named, of a supported family, with supported set and map types and
/// at least one chain; each chain named, of a supported type, hook and
/// policy; each rule valid. Fails with the first problem found.
pub fn validate_config(cfg: &PfConfig) -> (r: Result<(), PfError>)
    ensures
        outcome_of(r, config_problem(*cfg)),
{
    let tables = &cfg.sos_pf.tables;
    if tables.len() == 0 {
        return Err(schema(String::from_str("at least one table is required")));
    }
    let mut i: usize = 0;
    while i < tables.len()
        invariant
            i <= tables@.len(),
            config_problem(*cfg) == tables_problem(tables@),
            tables_problem(tables@.take(i as int)) is None,
        decreases tables@.len() - i,
    {
        assert(tables@.take(i + 1).drop_last() =~= tables@.take(i as int));
        match validate_table(&tables[i]) {
            Ok(()) => {},
            Err(e) => {
                proof {
                    assert(tables@.take(i + 1).last() == tables@[i as int]);
                    assert(tables_problem(tables@.take(i + 1)) == table_problem(tables@[i as int]));
                    lemma_tables_prefix(tables@, i as int + 1);
                }
                return Err(e);
            },
        }
        i = i + 1;
    }
    assert(tables@.take(tables@.len() as int) =~= tables@);
    Ok(())
}

} // verus!
