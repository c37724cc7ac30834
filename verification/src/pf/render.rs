//! Rendering rules as nft expressions and configurations as nft scripts.
use vstd::prelude::*;
use vstd::string::*;
use crate::console::command::texts;
use crate::console::text::{decimal, decimal_string, str_eq};
use crate::pf::config::{
    ApplyPlan, PfChain, PfConfig, PfError, PfIpMatch, PfMap, PfMatch, PfRule, PfSet, PfTable, PfTcpUdpMatch,
};
use crate::pf::validate::{config_problem, has_set, quoted, quoted_msg, schema, table_has_set, validate_config};

verus! {

/// `parts` separated by `sep`.
pub open spec fn join(parts: Seq<Seq<char>>, sep: Seq<char>) -> Seq<char>
    decreases parts.len(),
{
    if parts.len() == 0 {
        Seq::empty()
    } else if parts.len() == 1 {
        parts[0]
    } else {
        join(parts.drop_last(), sep) + sep + parts.last()
    }
}

/// The strings of `parts` separated by `sep`.
pub fn join_strings(parts: &Vec<String>, sep: &str) -> (s: String)
    ensures
        s@ == join(texts(parts@), sep@),
{
    if parts.len() == 0 {
        let s = String::new();
        assert(texts(parts@) =~= Seq::<Seq<char>>::empty());
        return s;
    }
    let mut s = String::from_str(parts[0].as_str());
    assert(texts(parts@.take(1)) =~= seq![parts@[0]@]);
    let mut i: usize = 1;
    while i < parts.len()
        invariant
            1 <= i <= parts@.len(),
            s@ == join(texts(parts@.take(i as int)), sep@),
        decreases parts@.len() - i,
    {
        s.append(sep);
        s.append(parts[i].as_str());
        assert(texts(parts@.take(i + 1)).drop_last() =~= texts(parts@.take(i as int)));
        i = i + 1;
    }
    assert(parts@.take(parts@.len() as int) =~= parts@);
    s
}

/// `s` with each double quote escaped by a backslash.
pub open spec fn escape(s: Seq<char>) -> Seq<char>
    decreases s.len(),
{
    if s.len() == 0 {
        Seq::empty()
    } else {
        escape(s.drop_last()) + if s.last() == '"' { "\\\""@ } else { seq![s.last()] }
    }
}

/// `comment` with each double quote escaped by a backslash.
pub fn escape_comment(comment: &str) -> (s: String)
    ensures
        s@ == escape(comment@),
{
    let n = comment.unicode_len();
    let mut s = String::new();
    let mut i: usize = 0;
    while i < n
        invariant
            i <= n,
            n == comment@.len(),
            s@ == escape(comment@.take(i as int)),
        decreases n - i,
    {
        assert(comment@.take(i + 1).drop_last() =~= comment@.take(i as int));
        if comment.get_char(i) == '"' {
            s.append("\\\"");
        } else {
            let one = comment.substring_char(i, i + 1);
            assert(one@ =~= seq![comment@[i as int]]);
            s.append(one);
        }
        i = i + 1;
    }
    assert(comment@.take(n as int) =~= comment@);
    s
}

/// The decimal rendering of a signed number.
pub open spec fn signed_decimal(v: int) -> Seq<char> {
    if v < 0 { "-"@ + decimal((-v) as nat) } else { decimal(v as nat) }
}

fn signed_decimal_string(v: i32) -> (s: String)
    ensures
        s@ == signed_decimal(v as int),
{
    if v < 0 {
        let mag: u64 = if v == i32::MIN { 2147483648u64 } else { (-v) as u64 };
        let mut s = String::from_str("-");
        let d = decimal_string(mag);
        s.append(d.as_str());
        s
    } else {
        decimal_string(v as u64)
    }
}

/// One part `prefix` + value when the value is present.
pub open spec fn text_part(o: Option<String>, prefix: Seq<char>) -> Seq<Seq<char>> {
    match o {
        Some(x) => seq![prefix + x@],
        None => Seq::empty(),
    }
}

/// One part `prefix` + port when the port is present.
pub open spec fn port_part(o: Option<u16>, prefix: Seq<char>) -> Seq<Seq<char>> {
    match o {
        Some(p) => seq![prefix + decimal(p as nat)],
        None => Seq::empty(),
    }
}

/// The parts of an IP match: source, destination, protocol.
pub open spec fn ip_parts(m: PfIpMatch, fam: Seq<char>, proto: Seq<char>) -> Seq<Seq<char>> {
    text_part(m.saddr, fam + " saddr "@) + text_part(m.daddr, fam + " daddr "@) + text_part(m.protocol, fam + proto)
}

/// The parts of a port match: source, destination.
pub open spec fn ports_parts(m: PfTcpUdpMatch, proto: Seq<char>) -> Seq<Seq<char>> {
    port_part(m.sport, proto + " sport "@) + port_part(m.dport, proto + " dport "@)
}

/// The nft field a set lookup names.
pub open spec fn set_field(f: Seq<char>) -> Option<Seq<char>> {
    if f == "ip.saddr"@ {
        Some("ip saddr"@)
    } else if f == "ip.daddr"@ {
        Some("ip daddr"@)
    } else if f == "ip6.saddr"@ {
        Some("ip6 saddr"@)
    } else if f == "ip6.daddr"@ {
        Some("ip6 daddr"@)
    } else if f == "tcp.dport"@ {
        Some("tcp dport"@)
    } else if f == "udp.dport"@ {
        Some("udp dport"@)
    } else {
        None
    }
}

/// `f` with every dot turned into a space: how a dotted field name is
/// written as an nft selector.
pub open spec fn dots_to_spaces(f: Seq<char>) -> Seq<char> {
    f.map_values(|c: char| if c == '.' { ' ' } else { c })
}

/// A set lookup renders the very field it names: the nft selector is the
/// configured field with its dot turned into a space, so protocol and
/// direction are kept. Each of the address and port fields is supported.
pub proof fn lemma_set_field_keeps_the_field(f: Seq<char>)
    ensures
        set_field(f) matches Some(x) ==> x == dots_to_spaces(f),
        f == "ip.saddr"@ || f == "ip.daddr"@ || f == "ip6.saddr"@ || f == "ip6.daddr"@
            || f == "tcp.dport"@ || f == "udp.dport"@ ==> set_field(f) is Some,
{
    reveal_strlit("ip.saddr");
    reveal_strlit("ip.daddr");
    reveal_strlit("ip6.saddr");
    reveal_strlit("ip6.daddr");
    reveal_strlit("tcp.dport");
    reveal_strlit("udp.dport");
    reveal_strlit("ip saddr");
    reveal_strlit("ip daddr");
    reveal_strlit("ip6 saddr");
    reveal_strlit("ip6 daddr");
    reveal_strlit("tcp dport");
    reveal_strlit("udp dport");
    if let Some(x) = set_field(f) {
        assert(x =~= dots_to_spaces(f));
    }
}

/// The conntrack part of a match.
pub open spec fn ct_part(m: PfMatch) -> Seq<Seq<char>> {
    match m.ct {
        Some(ct) => seq!["ct state { "@ + join(texts(ct.state@), ", "@) + " }"@],
        None => Seq::empty(),
    }
}

/// The IPv4 parts of a match.
pub open spec fn ip4_part(m: PfMatch) -> Seq<Seq<char>> {
    match m.ip {
        Some(ip) => ip_parts(ip, "ip"@, " protocol "@),
        None => Seq::empty(),
    }
}

/// The IPv6 parts of a match.
pub open spec fn ip6_part(m: PfMatch) -> Seq<Seq<char>> {
    match m.ip6 {
        Some(ip) => ip_parts(ip, "ip6"@, " nexthdr "@),
        None => Seq::empty(),
    }
}

/// The parts of a port match of protocol `proto`, when present.
pub open spec fn ports_part(o: Option<PfTcpUdpMatch>, proto: Seq<char>) -> Seq<Seq<char>> {
    match o {
        Some(p) => ports_parts(p, proto),
        None => Seq::empty(),
    }
}

/// The ICMP part of a match.
pub open spec fn icmp_part(m: PfMatch) -> Seq<Seq<char>> {
    match m.icmp {
        Some(i) => text_part(i.icmp_type, "icmp type "@),
        None => Seq::empty(),
    }
}

/// The parts of a match before its set lookup, in order: conntrack,
/// IPv4, IPv6, TCP, UDP, SCTP, ICMP.
pub open spec fn fixed_parts(m: PfMatch) -> Seq<Seq<char>> {
    ct_part(m) + ip4_part(m) + ip6_part(m) + ports_part(m.tcp, "tcp"@) + ports_part(m.udp, "udp"@)
        + ports_part(m.sctp, "sctp"@) + icmp_part(m)
}

/// The parts a match renders to: the fixed parts, then the set lookup; or
/// the message of why it cannot render.
pub open spec fn match_parts(t: PfTable, m: PfMatch) -> Result<Seq<Seq<char>>, Seq<char>> {
    let fixed = fixed_parts(m);
    match m.set {
        None => Ok(fixed),
        Some(r) => match set_field(r.field@) {
            None => Err(quoted("unsupported set match field '"@, r.field@)),
            Some(f) => if has_set(t.sets@, r.name@) {
                Ok(fixed.push(f + " @"@ + r.name@))
            } else {
                Err(quoted("rule references unknown set '"@, r.name@))
            },
        },
    }
}

/// The expression a rule's action renders to.
pub open spec fn action_expr(r: PfRule) -> Result<Seq<char>, Seq<char>> {
    let a = r.action@;
    if a == "accept"@ || a == "drop"@ || a == "reject"@ || a == "log"@ || a == "masquerade"@ {
        Ok(a)
    } else if a == "snat"@ || a == "dnat"@ || a == "redirect"@ {
        match r.to {
            Some(to) => Ok(a + " to "@ + to@),
            None => Err("missing to"@),
        }
    } else if a == "limit"@ {
        match r.rate {
            Some(rate) => match r.burst {
                Some(b) => Ok("limit rate "@ + rate@ + " burst "@ + decimal(b as nat) + " packets accept"@),
                None => Ok("limit rate "@ + rate@ + " accept"@),
            },
            None => Err("missing rate"@),
        }
    } else {
        Err(quoted("unsupported action '"@, a))
    }
}

/// The parts of a rule: its match, its action, then its comment.
pub open spec fn rule_parts(t: PfTable, r: PfRule) -> Result<Seq<Seq<char>>, Seq<char>> {
    let m = match r.match_expr {
        Some(m) => match_parts(t, m),
        None => Ok(Seq::empty()),
    };
    match m {
        Err(e) => Err(e),
        Ok(ps) => match action_expr(r) {
            Err(e) => Err(e),
            Ok(a) => Ok(ps.push(a) + match r.comment {
                Some(c) => seq!["comment \""@ + escape(c@) + "\""@],
                None => Seq::empty(),
            }),
        },
    }
}

/// The nft expression of a rule of table `t`: its parts joined by spaces.
pub open spec fn rule_expr(t: PfTable, r: PfRule) -> Result<Seq<char>, Seq<char>> {
    match rule_parts(t, r) {
        Ok(ps) => Ok(join(ps, " "@)),
        Err(e) => Err(e),
    }
}

/// The result of a fallible rendering: the text or the schema message.
pub open spec fn rendered(r: Result<String, PfError>, s: Result<Seq<char>, Seq<char>>) -> bool {
    match s {
        Ok(x) => r matches Ok(v) && v@ == x,
        Err(m) => r matches Err(PfError::Schema(e)) && e@ == m,
    }
}

fn push_text(parts: &mut Vec<String>, prefix: &str, value: &str)
    ensures
        texts(final(parts)@) == texts(old(parts)@).push(prefix@ + value@),
{
    let mut s = String::from_str(prefix);
    s.append(value);
    parts.push(s);
    assert(texts(parts@) =~= texts(old(parts)@).push(prefix@ + value@));
}

fn push_opt_text(parts: &mut Vec<String>, o: &Option<String>, prefix: &str)
    ensures
        texts(final(parts)@) == texts(old(parts)@) + text_part(*o, prefix@),
{
    match o {
        Some(x) => push_text(parts, prefix, x.as_str()),
        None => {
            assert(texts(parts@) =~= texts(old(parts)@) + text_part(*o, prefix@));
        },
    }
}

fn push_port(parts: &mut Vec<String>, o: Option<u16>, prefix: &str)
    ensures
        texts(final(parts)@) == texts(old(parts)@) + port_part(o, prefix@),
{
    match o {
        Some(p) => {
            let d = decimal_string(p as u64);
            push_text(parts, prefix, d.as_str());
        },
        None => {
            assert(texts(parts@) =~= texts(old(parts)@) + port_part(o, prefix@));
        },
    }
}

fn render_set_field(f: &str) -> (r: Option<&'static str>)
    ensures
        match set_field(f@) {
            Some(x) => r matches Some(s) && s@ == x,
            None => r is None,
        },
{
    if str_eq(f, "ip.saddr") {
        Some("ip saddr")
    } else if str_eq(f, "ip.daddr") {
        Some("ip daddr")
    } else if str_eq(f, "ip6.saddr") {
        Some("ip6 saddr")
    } else if str_eq(f, "ip6.daddr") {
        Some("ip6 daddr")
    } else if str_eq(f, "tcp.dport") {
        Some("tcp dport")
    } else if str_eq(f, "udp.dport") {
        Some("udp dport")
    } else {
        None
    }
}

fn push_ct(m: &PfMatch, parts: &mut Vec<String>)
    ensures
        texts(final(parts)@) == texts(old(parts)@) + ct_part(*m),
{
    match &m.ct {
        Some(ct) => {
            let mut s = String::from_str("ct state { ");
            let states = join_strings(&ct.state, ", ");
            s.append(states.as_str());
            s.append(" }");
            parts.push(s);
        },
        None => {},
    }
    assert(texts(parts@) =~= texts(old(parts)@) + ct_part(*m));
}

fn push_ip4(m: &PfMatch, parts: &mut Vec<String>)
    ensures
        texts(final(parts)@) == texts(old(parts)@) + ip4_part(*m),
{
    proof {
        reveal_strlit("ip saddr ");
        reveal_strlit("ip daddr ");
        reveal_strlit("ip protocol ");
        reveal_strlit("ip");
        reveal_strlit(" saddr ");
        reveal_strlit(" daddr ");
        reveal_strlit(" protocol ");
        assert("ip saddr "@ =~= "ip"@ + " saddr "@);
        assert("ip daddr "@ =~= "ip"@ + " daddr "@);
        assert("ip protocol "@ =~= "ip"@ + " protocol "@);
    }
    match &m.ip {
        Some(ip) => {
            push_opt_text(parts, &ip.saddr, "ip saddr ");
            push_opt_text(parts, &ip.daddr, "ip daddr ");
            push_opt_text(parts, &ip.protocol, "ip protocol ");
        },
        None => {},
    }
    assert(texts(parts@) =~= texts(old(parts)@) + ip4_part(*m));
}

fn push_ip6(m: &PfMatch, parts: &mut Vec<String>)
    ensures
        texts(final(parts)@) == texts(old(parts)@) + ip6_part(*m),
{
    proof {
        reveal_strlit("ip6 saddr ");
        reveal_strlit("ip6 daddr ");
        reveal_strlit("ip6 nexthdr ");
        reveal_strlit("ip6");
        reveal_strlit(" saddr ");
        reveal_strlit(" daddr ");
        reveal_strlit(" nexthdr ");
        assert("ip6 saddr "@ =~= "ip6"@ + " saddr "@);
        assert("ip6 daddr "@ =~= "ip6"@ + " daddr "@);
        assert("ip6 nexthdr "@ =~= "ip6"@ + " nexthdr "@);
    }
    match &m.ip6 {
        Some(ip) => {
            push_opt_text(parts, &ip.saddr, "ip6 saddr ");
            push_opt_text(parts, &ip.daddr, "ip6 daddr ");
            push_opt_text(parts, &ip.protocol, "ip6 nexthdr ");
        },
        None => {},
    }
    assert(texts(parts@) =~= texts(old(parts)@) + ip6_part(*m));
}

fn push_ports(o: Option<PfTcpUdpMatch>, parts: &mut Vec<String>, sport: &str, dport: &str, Ghost(proto): Ghost<Seq<char>>)
    requires
        sport@ == proto + " sport "@,
        dport@ == proto + " dport "@,
    ensures
        texts(final(parts)@) == texts(old(parts)@) + ports_part(o, proto),
{
    match o {
        Some(p) => {
            push_port(parts, p.sport, sport);
            push_port(parts, p.dport, dport);
        },
        None => {},
    }
    assert(texts(parts@) =~= texts(old(parts)@) + ports_part(o, proto));
}

fn push_tcp(m: &PfMatch, parts: &mut Vec<String>)
    ensures
        texts(final(parts)@) == texts(old(parts)@) + ports_part(m.tcp, "tcp"@),
{
    proof {
        reveal_strlit("tcp");
        reveal_strlit(" sport ");
        reveal_strlit(" dport ");
        reveal_strlit("tcp sport ");
        reveal_strlit("tcp dport ");
        assert("tcp sport "@ =~= "tcp"@ + " sport "@);
        assert("tcp dport "@ =~= "tcp"@ + " dport "@);
    }
    push_ports(m.tcp, parts, "tcp sport ", "tcp dport ", Ghost("tcp"@));
}

fn push_udp(m: &PfMatch, parts: &mut Vec<String>)
    ensures
        texts(final(parts)@) == texts(old(parts)@) + ports_part(m.udp, "udp"@),
{
    proof {
        reveal_strlit("udp");
        reveal_strlit(" sport ");
        reveal_strlit(" dport ");
        reveal_strlit("udp sport ");
        reveal_strlit("udp dport ");
        assert("udp sport "@ =~= "udp"@ + " sport "@);
        assert("udp dport "@ =~= "udp"@ + " dport "@);
    }
    push_ports(m.udp, parts, "udp sport ", "udp dport ", Ghost("udp"@));
}

fn push_sctp(m: &PfMatch, parts: &mut Vec<String>)
    ensures
        texts(final(parts)@) == texts(old(parts)@) + ports_part(m.sctp, "sctp"@),
{
    proof {
        reveal_strlit("sctp");
        reveal_strlit(" sport ");
        reveal_strlit(" dport ");
        reveal_strlit("sctp sport ");
        reveal_strlit("sctp dport ");
        assert("sctp sport "@ =~= "sctp"@ + " sport "@);
        assert("sctp dport "@ =~= "sctp"@ + " dport "@);
    }
    push_ports(m.sctp, parts, "sctp sport ", "sctp dport ", Ghost("sctp"@));
}

fn push_icmp(m: &PfMatch, parts: &mut Vec<String>)
    ensures
        texts(final(parts)@) == texts(old(parts)@) + icmp_part(*m),
{
    match &m.icmp {
        Some(i) => push_opt_text(parts, &i.icmp_type, "icmp type "),
        None => {},
    }
    assert(texts(parts@) =~= texts(old(parts)@) + icmp_part(*m));
}

fn render_fixed(m: &PfMatch, parts: &mut Vec<String>)
    ensures
        texts(final(parts)@) == texts(old(parts)@) + fixed_parts(*m),
{
    let ghost p0 = texts(parts@);
    push_ct(m, parts);
    push_ip4(m, parts);
    push_ip6(m, parts);
    push_tcp(m, parts);
    push_udp(m, parts);
    push_sctp(m, parts);
    push_icmp(m, parts);
    assert(texts(parts@) =~= p0 + fixed_parts(*m));
}

fn render_match(table: &PfTable, m: &PfMatch, parts: &mut Vec<String>) -> (r: Result<(), PfError>)
    ensures
        match match_parts(*table, *m) {
            Ok(ps) => r is Ok && texts(final(parts)@) == texts(old(parts)@) + ps,
            Err(e) => r matches Err(PfError::Schema(x)) && x@ == e,
        },
{
    let ghost start = texts(parts@);
    render_fixed(m, parts);
    let ghost fixed = fixed_parts(*m);
    match &m.set {
        Some(set_ref) => {
            let field = match render_set_field(set_ref.field.as_str()) {
                Some(f) => f,
                None => return Err(schema(quoted_msg("unsupported set match field '", set_ref.field.as_str()))),
            };
            if !table_has_set(&table.sets, set_ref.name.as_str()) {
                return Err(schema(quoted_msg("rule references unknown set '", set_ref.name.as_str())));
            }
            let mut s = String::from_str(field);
            s.append(" @");
            s.append(set_ref.name.as_str());
            parts.push(s);
            assert(texts(parts@) =~= (start + fixed).push(field@ + " @"@ + set_ref.name@));
            assert(start + fixed.push(field@ + " @"@ + set_ref.name@) =~= (start + fixed).push(field@ + " @"@ + set_ref.name@));
            Ok(())
        },
        None => Ok(()),
    }
}

fn render_action(rule: &PfRule) -> (r: Result<String, PfError>)
    ensures
        rendered(r, action_expr(*rule)),
{
    let a = rule.action.as_str();
    if str_eq(a, "accept") || str_eq(a, "drop") || str_eq(a, "reject") || str_eq(a, "log") || str_eq(a, "masquerade") {
        Ok(String::from_str(a))
    } else if str_eq(a, "snat") || str_eq(a, "dnat") || str_eq(a, "redirect") {
        match &rule.to {
            Some(to) => {
                let mut s = String::from_str(a);
                s.append(" to ");
                s.append(to.as_str());
                Ok(s)
            },
            None => Err(schema(String::from_str("missing to"))),
        }
    } else if str_eq(a, "limit") {
        match &rule.rate {
            Some(rate) => {
                let mut s = String::from_str("limit rate ");
                s.append(rate.as_str());
                match rule.burst {
                    Some(b) => {
                        s.append(" burst ");
                        let d = decimal_string(b as u64);
                        s.append(d.as_str());
                        s.append(" packets accept");
                    },
                    None => {
                        s.append(" accept");
                    },
                }
                Ok(s)
            },
            None => Err(schema(String::from_str("missing rate"))),
        }
    } else {
        Err(schema(quoted_msg("unsupported action '", a)))
    }
}

/// Renders a rule of `table` as an nft expression: its match, its action
/// and its comment, separated by spaces.
pub fn render_rule_expr(table: &PfTable, rule: &PfRule) -> (r: Result<String, PfError>)
    ensures
        rendered(r, rule_expr(*table, *rule)),
{
    let mut parts: Vec<String> = Vec::new();
    match &rule.match_expr {
        Some(m) => match render_match(table, m, &mut parts) {
            Ok(()) => {},
            Err(e) => return Err(e),
        },
        None => {},
    }
    let ghost before = texts(parts@);
    assert(rule.match_expr is None ==> before =~= Seq::<Seq<char>>::empty());
    let action = match render_action(rule) {
        Ok(a) => a,
        Err(e) => return Err(e),
    };
    parts.push(action);
    match &rule.comment {
        Some(c) => {
            let mut s = String::from_str("comment \"");
            let esc = escape_comment(c.as_str());
            s.append(esc.as_str());
            s.append("\"");
            parts.push(s);
        },
        None => {},
    }
    let ghost ps = match rule_parts(*table, *rule) {
        Ok(ps) => ps,
        Err(_) => Seq::empty(),
    };
    assert(texts(parts@) =~= ps);
    Ok(join_strings(&parts, " "))
}

/// The script lines of a set: its declaration, then one line per element.
pub open spec fn set_script(t: PfTable, s: PfSet) -> Seq<char> {
    "add set "@ + t.family@ + " "@ + t.name@ + " "@ + s.name@ + " { type "@ + s.elem_type@ + "; }\n"@
        + elements_script(t, s.name@, s.elements@)
}

/// One "add element" line per element of set `name`.
pub open spec fn elements_script(t: PfTable, name: Seq<char>, es: Seq<String>) -> Seq<char>
    decreases es.len(),
{
    if es.len() == 0 {
        Seq::empty()
    } else {
        elements_script(t, name, es.drop_last()) + "add element "@ + t.family@ + " "@ + t.name@ + " "@ + name
            + " { "@ + es.last()@ + " }\n"@
    }
}

/// The script lines of the sets, in order.
pub open spec fn sets_script(t: PfTable, sets: Seq<PfSet>) -> Seq<char>
    decreases sets.len(),
{
    if sets.len() == 0 {
        Seq::empty()
    } else {
        sets_script(t, sets.drop_last()) + set_script(t, sets.last())
    }
}

/// One "add element" line per entry of map `m`.
pub open spec fn map_elements_script(t: PfTable, m: PfMap, n: int) -> Seq<char>
    decreases n,
{
    if n <= 0 {
        Seq::empty()
    } else {
        map_elements_script(t, m, n - 1) + "add element "@ + t.family@ + " "@ + t.name@ + " "@ + m.name@ + " { "@
            + m.elements@[n - 1].key@ + " : "@ + m.elements@[n - 1].value@ + " }\n"@
    }
}

/// The script lines of a map: its declaration, then one line per entry.
pub open spec fn map_script(t: PfTable, m: PfMap) -> Seq<char> {
    "add map "@ + t.family@ + " "@ + t.name@ + " "@ + m.name@ + " { type "@ + m.key_type@ + " : "@ + m.value_type@
        + "; }\n"@ + map_elements_script(t, m, m.elements@.len() as int)
}

/// The script lines of the maps, in order.
pub open spec fn maps_script(t: PfTable, maps: Seq<PfMap>) -> Seq<char>
    decreases maps.len(),
{
    if maps.len() == 0 {
        Seq::empty()
    } else {
        maps_script(t, maps.drop_last()) + map_script(t, maps.last())
    }
}

/// One "add rule" line per rule of chain `c`, or the first rendering
/// failure.
pub open spec fn rules_script(t: PfTable, c: PfChain, n: int) -> Result<Seq<char>, Seq<char>>
    decreases n,
{
    if n <= 0 {
        Ok(Seq::empty())
    } else {
        match rules_script(t, c, n - 1) {
            Err(e) => Err(e),
            Ok(prev) => match rule_expr(t, c.rules@[n - 1]) {
                Err(e) => Err(e),
                Ok(x) => Ok(prev + "add rule "@ + t.family@ + " "@ + t.name@ + " "@ + c.name@ + " "@ + x + "\n"@),
            },
        }
    }
}

/// The script lines of a chain: its declaration, then its rules.
pub open spec fn chain_script(t: PfTable, c: PfChain) -> Result<Seq<char>, Seq<char>> {
    let head = "add chain "@ + t.family@ + " "@ + t.name@ + " "@ + c.name@ + " { type "@ + c.chain_type@ + " hook "@
        + c.hook@ + " priority "@ + signed_decimal(c.priority as int) + "; policy "@ + c.policy@ + "; }\n"@;
    match rules_script(t, c, c.rules@.len() as int) {
        Ok(x) => Ok(head + x),
        Err(e) => Err(e),
    }
}

/// The script lines of the chains of `t`, in order.
pub open spec fn chains_script(t: PfTable, n: int) -> Result<Seq<char>, Seq<char>>
    decreases n,
{
    if n <= 0 {
        Ok(Seq::empty())
    } else {
        match chains_script(t, n - 1) {
            Err(e) => Err(e),
            Ok(prev) => match chain_script(t, t.chains@[n - 1]) {
                Err(e) => Err(e),
                Ok(x) => Ok(prev + x),
            },
        }
    }
}

/// The script lines of a table: its declaration, sets, maps and chains.
pub open spec fn table_script(t: PfTable) -> Result<Seq<char>, Seq<char>> {
    let head = "add table "@ + t.family@ + " "@ + t.name@ + "\n"@ + sets_script(t, t.sets@) + maps_script(t, t.maps@);
    match chains_script(t, t.chains@.len() as int) {
        Ok(x) => Ok(head + x),
        Err(e) => Err(e),
    }
}

/// The script lines of the tables, in order.
pub open spec fn tables_script(ts: Seq<PfTable>) -> Result<Seq<char>, Seq<char>>
    decreases ts.len(),
{
    if ts.len() == 0 {
        Ok(Seq::empty())
    } else {
        match tables_script(ts.drop_last()) {
            Err(e) => Err(e),
            Ok(prev) => match table_script(ts.last()) {
                Err(e) => Err(e),
                Ok(x) => Ok(prev + x),
            },
        }
    }
}

/// The script that applies a configuration: a flush, then every table; or
/// the schema message that stops it.
pub open spec fn plan_script(cfg: PfConfig) -> Result<Seq<char>, Seq<char>> {
    match config_problem(cfg) {
        Some(m) => Err(m),
        None => match tables_script(cfg.sos_pf.tables@) {
            Ok(x) => Ok("flush ruleset\n"@ + x),
            Err(e) => Err(e),
        },
    }
}

fn append_words(s: &mut String, a: &str, b: &str, c: &str)
    ensures
        final(s)@ == old(s)@ + a@ + " "@ + b@ + " "@ + c@,
{
    s.append(a);
    s.append(" ");
    s.append(b);
    s.append(" ");
    s.append(c);
}

fn write_set(s: &mut String, t: &PfTable, set: &PfSet)
    ensures
        final(s)@ == old(s)@ + set_script(*t, *set),
{
    s.append("add set ");
    append_words(s, t.family.as_str(), t.name.as_str(), set.name.as_str());
    s.append(" { type ");
    s.append(set.elem_type.as_str());
    s.append("; }\n");
    let ghost head = s@;
    let mut i: usize = 0;
    while i < set.elements.len()
        invariant
            i <= set.elements@.len(),
            s@ == head + elements_script(*t, set.name@, set.elements@.take(i as int)),
        decreases set.elements@.len() - i,
    {
        assert(set.elements@.take(i + 1).drop_last() =~= set.elements@.take(i as int));
        s.append("add element ");
        append_words(s, t.family.as_str(), t.name.as_str(), set.name.as_str());
        s.append(" { ");
        s.append(set.elements[i].as_str());
        s.append(" }\n");
        i = i + 1;
    }
    assert(set.elements@.take(set.elements@.len() as int) =~= set.elements@);
}

fn write_map(s: &mut String, t: &PfTable, map: &PfMap)
    ensures
        final(s)@ == old(s)@ + map_script(*t, *map),
{
    s.append("add map ");
    append_words(s, t.family.as_str(), t.name.as_str(), map.name.as_str());
    s.append(" { type ");
    s.append(map.key_type.as_str());
    s.append(" : ");
    s.append(map.value_type.as_str());
    s.append("; }\n");
    let ghost head = s@;
    let mut i: usize = 0;
    while i < map.elements.len()
        invariant
            i <= map.elements@.len(),
            s@ == head + map_elements_script(*t, *map, i as int),
        decreases map.elements@.len() - i,
    {
        s.append("add element ");
        append_words(s, t.family.as_str(), t.name.as_str(), map.name.as_str());
        s.append(" { ");
        s.append(map.elements[i].key.as_str());
        s.append(" : ");
        s.append(map.elements[i].value.as_str());
        s.append(" }\n");
        i = i + 1;
    }
}

fn write_chain(s: &mut String, t: &PfTable, c: &PfChain) -> (r: Result<(), PfError>)
    ensures
        match chain_script(*t, *c) {
            Ok(x) => r is Ok && final(s)@ == old(s)@ + x,
            Err(m) => r matches Err(PfError::Schema(e)) && e@ == m,
        },
{
    s.append("add chain ");
    append_words(s, t.family.as_str(), t.name.as_str(), c.name.as_str());
    s.append(" { type ");
    s.append(c.chain_type.as_str());
    s.append(" hook ");
    s.append(c.hook.as_str());
    s.append(" priority ");
    let p = signed_decimal_string(c.priority);
    s.append(p.as_str());
    s.append("; policy ");
    s.append(c.policy.as_str());
    s.append("; }\n");
    let ghost head = s@;
    let mut i: usize = 0;
    while i < c.rules.len()
        invariant
            i <= c.rules@.len(),
            rules_script(*t, *c, i as int) matches Ok(x) && s@ == head + x,
        decreases c.rules@.len() - i,
    {
        let expr = match render_rule_expr(t, &c.rules[i]) {
            Ok(e) => e,
            Err(e) => {
                proof {
                    lemma_rules_script_err(*t, *c, i as int + 1, c.rules@.len() as int);
                }
                return Err(e);
            },
        };
        s.append("add rule ");
        append_words(s, t.family.as_str(), t.name.as_str(), c.name.as_str());
        s.append(" ");
        s.append(expr.as_str());
        s.append("\n");
        i = i + 1;
    }
    Ok(())
}

proof fn lemma_rules_script_err(t: PfTable, c: PfChain, n: int, m: int)
    requires
        1 <= n <= m,
        rules_script(t, c, n) is Err,
    ensures
        rules_script(t, c, m) == rules_script(t, c, n),
    decreases m - n,
{
    if n < m {
        lemma_rules_script_err(t, c, n, m - 1);
    }
}

proof fn lemma_chains_script_err(t: PfTable, n: int, m: int)
    requires
        1 <= n <= m,
        chains_script(t, n) is Err,
    ensures
        chains_script(t, m) == chains_script(t, n),
    decreases m - n,
{
    if n < m {
        lemma_chains_script_err(t, n, m - 1);
    }
}

#[verifier::spinoff_prover]
#[verifier::rlimit(40)]
fn write_table(s: &mut String, t: &PfTable) -> (r: Result<(), PfError>)
    ensures
        match table_script(*t) {
            Ok(x) => r is Ok && final(s)@ == old(s)@ + x,
            Err(m) => r matches Err(PfError::Schema(e)) && e@ == m,
        },
{
    s.append("add table ");
    s.append(t.family.as_str());
    s.append(" ");
    s.append(t.name.as_str());
    s.append("\n");
    let ghost h0 = s@;
    let mut i: usize = 0;
    while i < t.sets.len()
        invariant
            i <= t.sets@.len(),
            s@ == h0 + sets_script(*t, t.sets@.take(i as int)),
        decreases t.sets@.len() - i,
    {
        assert(t.sets@.take(i + 1).drop_last() =~= t.sets@.take(i as int));
        write_set(s, t, &t.sets[i]);
        i = i + 1;
    }
    assert(t.sets@.take(t.sets@.len() as int) =~= t.sets@);
    let ghost h1 = s@;
    let mut j: usize = 0;
    while j < t.maps.len()
        invariant
            j <= t.maps@.len(),
            s@ == h1 + maps_script(*t, t.maps@.take(j as int)),
        decreases t.maps@.len() - j,
    {
        assert(t.maps@.take(j + 1).drop_last() =~= t.maps@.take(j as int));
        write_map(s, t, &t.maps[j]);
        j = j + 1;
    }
    assert(t.maps@.take(t.maps@.len() as int) =~= t.maps@);
    let ghost h2 = s@;
    let mut k: usize = 0;
    while k < t.chains.len()
        invariant
            k <= t.chains@.len(),
            chains_script(*t, k as int) matches Ok(x) && s@ == h2 + x,
        decreases t.chains@.len() - k,
    {
        match write_chain(s, t, &t.chains[k]) {
            Ok(()) => {},
            Err(e) => {
                proof {
                    lemma_chains_script_err(*t, k as int + 1, t.chains@.len() as int);
                }
                return Err(e);
            },
        }
        k = k + 1;
    }
    Ok(())
}

proof fn lemma_tables_script_err(ts: Seq<PfTable>, n: int)
    requires
        1 <= n <= ts.len(),
        tables_script(ts.take(n)) is Err,
    ensures
        tables_script(ts) == tables_script(ts.take(n)),
    decreases ts.len() - n,
{
    if n < ts.len() {
        assert(ts.take(n + 1).drop_last() =~= ts.take(n));
        lemma_tables_script_err(ts, n + 1);
    } else {
        assert(ts.take(n) =~= ts);
    }
}

proof fn lemma_tables_step(ts: Seq<PfTable>, i: int)
    requires
        0 <= i < ts.len(),
        tables_script(ts.take(i)) is Ok,
    ensures
        table_script(ts[i]) is Err ==> tables_script(ts) == table_script(ts[i]),
        table_script(ts[i]) matches Ok(y) ==> tables_script(ts.take(i + 1))
            == Ok::<Seq<char>, Seq<char>>(tables_script(ts.take(i))->Ok_0 + y),
{
    assert(ts.take(i + 1).drop_last() =~= ts.take(i));
    assert(ts.take(i + 1).last() == ts[i]);
    if table_script(ts[i]) is Err {
        lemma_tables_script_err(ts, i + 1);
    }
}

proof fn lemma_plan_err(cfg: PfConfig, i: int)
    requires
        config_problem(cfg) is None,
        0 <= i < cfg.sos_pf.tables@.len(),
        tables_script(cfg.sos_pf.tables@.take(i)) is Ok,
        table_script(cfg.sos_pf.tables@[i]) is Err,
    ensures
        plan_script(cfg) == table_script(cfg.sos_pf.tables@[i]),
{
    lemma_tables_step(cfg.sos_pf.tables@, i);
}

/// The nft script that applies `config` atomically: it validates the
/// configuration, then writes a flush followed by each table with its sets
/// and their elements, maps and their entries, chains and their rules.
pub fn build_apply_plan(config: &PfConfig) -> (r: Result<ApplyPlan, PfError>)
    ensures
        match plan_script(*config) {
            Ok(x) => r matches Ok(p) && p.script@ == x,
            Err(m) => r matches Err(PfError::Schema(e)) && e@ == m,
        },
{
    match validate_config(config) {
        Ok(()) => {},
        Err(e) => return Err(e),
    }
    let mut script = String::from_str("flush ruleset\n");
    let tables = &config.sos_pf.tables;
    let mut i: usize = 0;
    while i < tables.len()
        invariant
            i <= tables@.len(),
            tables@ == config.sos_pf.tables@,
            config_problem(*config) is None,
            tables_script(tables@.take(i as int)) matches Ok(x) && script@ == "flush ruleset\n"@ + x,
        decreases tables@.len() - i,
    {
        proof {
            lemma_tables_step(tables@, i as int);
        }
        match write_table(&mut script, &tables[i]) {
            Ok(()) => {},
            Err(e) => {
                proof {
                    lemma_plan_err(*config, i as int);
                }
                return Err(e);
            },
        }
        i = i + 1;
    }
    assert(tables@.take(tables@.len() as int) =~= tables@);
    Ok(ApplyPlan { script })
}

} // verus!
