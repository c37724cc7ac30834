//! The packet-filter configuration model and its errors.
use vstd::prelude::*;

verus! {

/// Why a packet-filter operation failed, with a message.
#[derive(Clone, Debug, PartialEq, Eq)]
pub enum PfError {
    Io(String),
    Yaml(String),
    Json(String),
    Schema(String),
    Command(String),
}

/// A whole configuration: the `sos-pf` root.
#[derive(Clone, Debug, PartialEq, Eq)]
pub struct PfConfig {
    pub sos_pf: PfRoot,
}

/// The tables of a configuration.
#[derive(Clone, Debug, PartialEq, Eq)]
pub struct PfRoot {
    pub tables: Vec<PfTable>,
}

/// One nftables table with its sets, maps and chains.
#[derive(Clone, Debug, PartialEq, Eq)]
pub struct PfTable {
    pub name: String,
    pub family: String,
    pub sets: Vec<PfSet>,
    pub maps: Vec<PfMap>,
    pub chains: Vec<PfChain>,
}

/// A named set of elements of one type.
#[derive(Clone, Debug, PartialEq, Eq)]
pub struct PfSet {
    pub name: String,
    pub elem_type: String,
    pub elements: Vec<String>,
}

/// A named map from keys of one type to values of another.
#[derive(Clone, Debug, PartialEq, Eq)]
pub struct PfMap {
    pub name: String,
    pub key_type: String,
    pub value_type: String,
    pub elements: Vec<PfMapElement>,
}

/// One entry of a map.
#[derive(Clone, Debug, PartialEq, Eq)]
pub struct PfMapElement {
    pub key: String,
    pub value: String,
}

/// A base chain: its type, hook, priority, policy and rules.
#[derive(Clone, Debug, PartialEq, Eq)]
pub struct PfChain {
    pub name: String,
    pub chain_type: String,
    pub hook: String,
    pub priority: i32,
    pub policy: String,
    pub rules: Vec<PfRule>,
}

/// A rule: an optional match, an action and its parameters.
#[derive(Clone, Debug, PartialEq, Eq)]
pub struct PfRule {
    pub match_expr: Option<PfMatch>,
    pub action: String,
    pub to: Option<String>,
    pub rate: Option<String>,
    pub burst: Option<u32>,
    pub comment: Option<String>,
}

/// What a rule matches on.
#[derive(Clone, Debug, PartialEq, Eq)]
pub struct PfMatch {
    pub ct: Option<PfConntrackMatch>,
    pub ip: Option<PfIpMatch>,
    pub ip6: Option<PfIpMatch>,
    pub tcp: Option<PfTcpUdpMatch>,
    pub udp: Option<PfTcpUdpMatch>,
    pub icmp: Option<PfIcmpMatch>,
    pub sctp: Option<PfTcpUdpMatch>,
    pub set: Option<PfSetRefMatch>,
}

/// Connection-tracking states to match.
#[derive(Clone, Debug, PartialEq, Eq)]
pub struct PfConntrackMatch {
    pub state: Vec<String>,
}

/// IPv4 or IPv6 header fields to match.
#[derive(Clone, Debug, PartialEq, Eq)]
pub struct PfIpMatch {
    pub saddr: Option<String>,
    pub daddr: Option<String>,
    pub protocol: Option<String>,
}

/// Transport ports to match.
#[derive(Clone, Copy, Debug, PartialEq, Eq)]
pub struct PfTcpUdpMatch {
    pub sport: Option<u16>,
    pub dport: Option<u16>,
}

/// The ICMP type to match.
#[derive(Clone, Debug, PartialEq, Eq)]
pub struct PfIcmpMatch {
    pub icmp_type: Option<String>,
}

/// A lookup of a packet field in a named set.
#[derive(Clone, Debug, PartialEq, Eq)]
pub struct PfSetRefMatch {
    pub name: String,
    pub field: String,
}

/// The nft script that applies a configuration atomically.
#[derive(Clone, Debug, PartialEq, Eq)]
pub struct ApplyPlan {
    pub script: String,
}

/// The outcome of a dry run.
#[derive(Clone, Debug, PartialEq, Eq)]
pub struct PfCheckReport {
    pub kernel_support_ok: bool,
    pub nft_parse_ok: bool,
}

impl Default for PfMatch {
    fn default() -> (m: Self)
        ensures
            m.ct is None && m.ip is None && m.ip6 is None && m.tcp is None && m.udp is None
                && m.icmp is None && m.sctp is None && m.set is None,
    {
        PfMatch { ct: None, ip: None, ip6: None, tcp: None, udp: None, icmp: None, sctp: None, set: None }
    }
}

impl Default for PfIpMatch {
    fn default() -> (m: Self)
        ensures
            m.saddr is None && m.daddr is None && m.protocol is None,
    {
        PfIpMatch { saddr: None, daddr: None, protocol: None }
    }
}

impl Default for PfTcpUdpMatch {
    fn default() -> (m: Self)
        ensures
            m.sport is None && m.dport is None,
    {
        PfTcpUdpMatch { sport: None, dport: None }
    }
}

impl Default for PfIcmpMatch {
    fn default() -> (m: Self)
        ensures
            m.icmp_type is None,
    {
        PfIcmpMatch { icmp_type: None }
    }
}

} // verus!
