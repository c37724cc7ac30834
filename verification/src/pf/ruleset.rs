//! Turning a listed nftables ruleset back into a configuration.
use vstd::prelude::*;
use vstd::string::*;
use crate::console::text::str_eq;
use crate::pf::config::{PfChain, PfConfig, PfError, PfRoot, PfTable};

verus! {

/// The `table` object of a listed ruleset item: each field is present when
/// it is a string.
#[derive(Clone, Debug, PartialEq, Eq)]
pub struct NftTableItem {
    pub family: Option<String>,
    pub name: Option<String>,
}

/// The `chain` object of a listed ruleset item: each field is present when
/// it has the expected JSON type.
#[derive(Clone, Debug, PartialEq, Eq)]
pub struct NftChainItem {
    pub family: Option<String>,
    pub table: Option<String>,
    pub name: Option<String>,
    pub chain_type: Option<String>,
    pub hook: Option<String>,
    pub prio: Option<i64>,
    pub policy: Option<String>,
}

/// One item of a listed ruleset, with the objects the conversion reads.
#[derive(Clone, Debug, PartialEq, Eq)]
pub struct NftItem {
    pub table: Option<NftTableItem>,
    pub chain: Option<NftChainItem>,
}

/// The message for a missing or ill-typed field.
pub open spec fn field_error(key: Seq<char>) -> Seq<char> {
    "missing or invalid field '"@ + key + "'"@
}

/// The problem of a table object: its family, then its name.
pub open spec fn table_item_problem(t: NftTableItem) -> Option<Seq<char>> {
    if t.family is None {
        Some(field_error("family"@))
    } else if t.name is None {
        Some(field_error("name"@))
    } else {
        None
    }
}

/// The problem of a chain object: its family, table and name.
pub open spec fn chain_item_problem(c: NftChainItem) -> Option<Seq<char>> {
    if c.family is None {
        Some(field_error("family"@))
    } else if c.table is None {
        Some(field_error("table"@))
    } else if c.name is None {
        Some(field_error("name"@))
    } else {
        None
    }
}

/// The first problem of the table objects among `items`.
pub open spec fn tables_pass_problem(items: Seq<NftItem>) -> Option<Seq<char>>
    decreases items.len(),
{
    if items.len() == 0 {
        None
    } else {
        match tables_pass_problem(items.drop_last()) {
            Some(m) => Some(m),
            None => match items.last().table {
                Some(t) => table_item_problem(t),
                None => None,
            },
        }
    }
}

/// The first problem of the chain objects among `items`.
pub open spec fn chains_pass_problem(items: Seq<NftItem>) -> Option<Seq<char>>
    decreases items.len(),
{
    if items.len() == 0 {
        None
    } else {
        match chains_pass_problem(items.drop_last()) {
            Some(m) => Some(m),
            None => match items.last().chain {
                Some(c) => chain_item_problem(c),
                None => None,
            },
        }
    }
}

/// Why the items cannot be converted: a table object first, then a chain
/// object.
pub open spec fn items_problem(items: Seq<NftItem>) -> Option<Seq<char>> {
    match tables_pass_problem(items) {
        Some(m) => Some(m),
        None => chains_pass_problem(items),
    }
}

/// The (family, name) of a well-formed table object.
pub open spec fn table_key(t: NftTableItem) -> (Seq<char>, Seq<char>) {
    (t.family->0@, t.name->0@)
}

/// The distinct (family, name) keys of the table objects, in order of
/// first appearance.
pub open spec fn table_keys(items: Seq<NftItem>) -> Seq<(Seq<char>, Seq<char>)>
    decreases items.len(),
{
    if items.len() == 0 {
        Seq::empty()
    } else {
        let ks = table_keys(items.drop_last());
        match items.last().table {
            Some(t) => if table_item_problem(t) is None && !ks.contains(table_key(t)) {
                ks.push(table_key(t))
            } else {
                ks
            },
            None => ks,
        }
    }
}

/// A chain as the conversion builds it.
pub struct ChainModel {
    pub name: Seq<char>,
    pub chain_type: Seq<char>,
    pub hook: Seq<char>,
    pub priority: i32,
    pub policy: Seq<char>,
}

/// The text of a present string, or `default`.
pub open spec fn text_or(o: Option<String>, default: Seq<char>) -> Seq<char> {
    match o {
        Some(s) => s@,
        None => default,
    }
}

/// The chain a well-formed chain object becomes: type "filter", hook
/// "input", priority 0 (truncated to 32 bits) and policy "accept" unless
/// given.
pub open spec fn chain_model(c: NftChainItem) -> ChainModel {
    ChainModel {
        name: c.name->0@,
        chain_type: text_or(c.chain_type, "filter"@),
        hook: text_or(c.hook, "input"@),
        priority: match c.prio {
            Some(p) => p as i32,
            None => 0,
        },
        policy: text_or(c.policy, "accept"@),
    }
}

/// The chains of the table `key`, in order.
pub open spec fn chains_of(items: Seq<NftItem>, key: (Seq<char>, Seq<char>)) -> Seq<ChainModel>
    decreases items.len(),
{
    if items.len() == 0 {
        Seq::empty()
    } else {
        let prev = chains_of(items.drop_last(), key);
        match items.last().chain {
            Some(c) => if chain_item_problem(c) is None && (c.family->0@, c.table->0@) == key {
                prev.push(chain_model(c))
            } else {
                prev
            },
            None => prev,
        }
    }
}

/// What a built chain holds.
pub open spec fn chain_view(c: PfChain) -> ChainModel {
    ChainModel { name: c.name@, chain_type: c.chain_type@, hook: c.hook@, priority: c.priority, policy: c.policy@ }
}

/// Whether `cfg` holds exactly the tables of `items` with their chains.
pub open spec fn converted(cfg: PfConfig, items: Seq<NftItem>) -> bool {
    let keys = table_keys(items);
    &&& cfg.sos_pf.tables@.len() == keys.len()
    &&& forall|i: int| #![trigger cfg.sos_pf.tables@[i]] 0 <= i < keys.len() ==> {
        let t = cfg.sos_pf.tables@[i];
        &&& (t.family@, t.name@) == keys[i]
        &&& t.sets@.len() == 0 && t.maps@.len() == 0
        &&& t.chains@.map_values(|c: PfChain| chain_view(c)) == chains_of(items, keys[i])
        &&& forall|j: int| 0 <= j < t.chains@.len() ==> (#[trigger] t.chains@[j]).rules@.len() == 0
    }
}

fn json_error(key: &str) -> (e: PfError)
    ensures
        e matches PfError::Json(m) && m@ == field_error(key@),
{
    let mut m = String::from_str("missing or invalid field '");
    m.append(key);
    m.append("'");
    PfError::Json(m)
}

fn check_items(items: &Vec<NftItem>) -> (r: Result<(), PfError>)
    ensures
        match items_problem(items@) {
            None => r is Ok,
            Some(m) => r matches Err(PfError::Json(e)) && e@ == m,
        },
{
    let mut i: usize = 0;
    while i < items.len()
        invariant
            i <= items@.len(),
            tables_pass_problem(items@.take(i as int)) is None,
        decreases items@.len() - i,
    {
        assert(items@.take(i + 1).drop_last() =~= items@.take(i as int));
        assert(items@.take(i + 1).last() == items@[i as int]);
        match &items[i].table {
            Some(t) => {
                if t.family.is_none() {
                    proof {
                        lemma_tables_pass_prefix(items@, i as int + 1);
                    }
                    return Err(json_error("family"));
                }
                if t.name.is_none() {
                    proof {
                        lemma_tables_pass_prefix(items@, i as int + 1);
                    }
                    return Err(json_error("name"));
                }
            },
            None => {},
        }
        i = i + 1;
    }
    assert(items@.take(items@.len() as int) =~= items@);
    let mut k: usize = 0;
    while k < items.len()
        invariant
            k <= items@.len(),
            tables_pass_problem(items@) is None,
            chains_pass_problem(items@.take(k as int)) is None,
        decreases items@.len() - k,
    {
        assert(items@.take(k + 1).drop_last() =~= items@.take(k as int));
        assert(items@.take(k + 1).last() == items@[k as int]);
        match &items[k].chain {
            Some(c) => {
                let missing = if c.family.is_none() {
                    Some("family")
                } else if c.table.is_none() {
                    Some("table")
                } else if c.name.is_none() {
                    Some("name")
                } else {
                    None
                };
                match missing {
                    Some(key) => {
                        proof {
                            lemma_chains_pass_prefix(items@, k as int + 1);
                        }
                        return Err(json_error(key));
                    },
                    None => {},
                }
            },
            None => {},
        }
        k = k + 1;
    }
    assert(items@.take(items@.len() as int) =~= items@);
    Ok(())
}

proof fn lemma_tables_pass_prefix(s: Seq<NftItem>, n: int)
    requires
        0 <= n <= s.len(),
        tables_pass_problem(s.take(n)) is Some,
    ensures
        tables_pass_problem(s) == tables_pass_problem(s.take(n)),
    decreases s.len() - n,
{
    if n < s.len() {
        assert(s.take(n + 1).drop_last() =~= s.take(n));
        lemma_tables_pass_prefix(s, n + 1);
    } else {
        assert(s.take(n) =~= s);
    }
}

proof fn lemma_chains_pass_prefix(s: Seq<NftItem>, n: int)
    requires
        0 <= n <= s.len(),
        chains_pass_problem(s.take(n)) is Some,
    ensures
        chains_pass_problem(s) == chains_pass_problem(s.take(n)),
    decreases s.len() - n,
{
    if n < s.len() {
        assert(s.take(n + 1).drop_last() =~= s.take(n));
        lemma_chains_pass_prefix(s, n + 1);
    } else {
        assert(s.take(n) =~= s);
    }
}

/// The keys of `tables`, in order.
pub open spec fn keys_of(tables: Seq<PfTable>) -> Seq<(Seq<char>, Seq<char>)> {
    tables.map_values(|t: PfTable| (t.family@, t.name@))
}

fn has_table(tables: &Vec<PfTable>, family: &str, name: &str) -> (r: bool)
    ensures
        r == keys_of(tables@).contains((family@, name@)),
{
    let mut i: usize = 0;
    while i < tables.len()
        invariant
            i <= tables@.len(),
            forall|k: int| 0 <= k < i ==> keys_of(tables@)[k] != (family@, name@),
        decreases tables@.len() - i,
    {
        if str_eq(tables[i].family.as_str(), family) && str_eq(tables[i].name.as_str(), name) {
            assert(keys_of(tables@)[i as int] == (family@, name@));
            return true;
        }
        i = i + 1;
    }
    false
}

fn chains_for(items: &Vec<NftItem>, family: &str, table: &str) -> (v: Vec<PfChain>)
    ensures
        v@.map_values(|c: PfChain| chain_view(c)) == chains_of(items@, (family@, table@)),
        forall|j: int| 0 <= j < v@.len() ==> (#[trigger] v@[j]).rules@.len() == 0,
{
    let mut v: Vec<PfChain> = Vec::new();
    let mut i: usize = 0;
    while i < items.len()
        invariant
            i <= items@.len(),
            v@.map_values(|c: PfChain| chain_view(c)) == chains_of(items@.take(i as int), (family@, table@)),
            forall|j: int| 0 <= j < v@.len() ==> (#[trigger] v@[j]).rules@.len() == 0,
        decreases items@.len() - i,
    {
        assert(items@.take(i + 1).drop_last() =~= items@.take(i as int));
        assert(items@.take(i + 1).last() == items@[i as int]);
        match &items[i].chain {
            Some(c) => match (&c.family, &c.table, &c.name) {
                (Some(f), Some(t), Some(n)) => {
                    if str_eq(f.as_str(), family) && str_eq(t.as_str(), table) {
                        let chain_type = match &c.chain_type {
                            Some(s) => s.clone(),
                            None => String::from_str("filter"),
                        };
                        let hook = match &c.hook {
                            Some(s) => s.clone(),
                            None => String::from_str("input"),
                        };
                        let priority: i32 = match c.prio {
                            Some(p) => p as i32,
                            None => 0,
                        };
                        let policy = match &c.policy {
                            Some(s) => s.clone(),
                            None => String::from_str("accept"),
                        };
                        let ghost prev = v@;
                        v.push(PfChain { name: n.clone(), chain_type, hook, priority, policy, rules: Vec::new() });
                        assert(v@.map_values(|c: PfChain| chain_view(c)) =~= prev.map_values(|c: PfChain| chain_view(c))
                            .push(chain_model(*c)));
                    }
                },
                _ => {},
            },
            None => {},
        }
        i = i + 1;
    }
    assert(items@.take(items@.len() as int) =~= items@);
    v
}

/// Builds a configuration from the items of a listed ruleset: one table per
/// distinct (family, name), in order of first appearance, holding the
/// chains listed for it in order. Fails on the first table object, then
/// the first chain object, that lacks a required field.
pub fn ruleset_items_to_config(items: &Vec<NftItem>) -> (r: Result<PfConfig, PfError>)
    ensures
        match items_problem(items@) {
            Some(m) => r matches Err(PfError::Json(e)) && e@ == m,
            None => r matches Ok(cfg) && converted(cfg, items@),
        },
{
    match check_items(items) {
        Ok(()) => {},
        Err(e) => return Err(e),
    }
    let mut tables: Vec<PfTable> = Vec::new();
    let mut i: usize = 0;
    while i < items.len()
        invariant
            i <= items@.len(),
            items_problem(items@) is None,
            keys_of(tables@) == table_keys(items@.take(i as int)),
            forall|k: int| #![trigger tables@[k]] 0 <= k < tables@.len() ==> tables@[k].sets@.len() == 0
                && tables@[k].maps@.len() == 0 && tables@[k].chains@.len() == 0,
        decreases items@.len() - i,
    {
        assert(items@.take(i + 1).drop_last() =~= items@.take(i as int));
        assert(items@.take(i + 1).last() == items@[i as int]);
        match &items[i].table {
            Some(t) => match (&t.family, &t.name) {
                (Some(f), Some(n)) => {
                    if !has_table(&tables, f.as_str(), n.as_str()) {
                        let ghost prev = tables@;
                        tables.push(PfTable {
                            name: n.clone(),
                            family: f.clone(),
                            sets: Vec::new(),
                            maps: Vec::new(),
                            chains: Vec::new(),
                        });
                        assert(keys_of(tables@) =~= keys_of(prev).push((f@, n@)));
                    }
                },
                _ => {},
            },
            None => {},
        }
        i = i + 1;
    }
    assert(items@.take(items@.len() as int) =~= items@);
    let ghost keys = table_keys(items@);
    let mut out: Vec<PfTable> = Vec::new();
    let mut j: usize = 0;
    while j < tables.len()
        invariant
            j <= tables@.len(),
            keys_of(tables@) == keys,
            out@.len() == j,
            forall|k: int| #![trigger out@[k]] 0 <= k < j ==> {
                let t = out@[k];
                &&& (t.family@, t.name@) == keys[k]
                &&& t.sets@.len() == 0 && t.maps@.len() == 0
                &&& t.chains@.map_values(|c: PfChain| chain_view(c)) == chains_of(items@, keys[k])
                &&& forall|m: int| 0 <= m < t.chains@.len() ==> (#[trigger] t.chains@[m]).rules@.len() == 0
            },
        decreases tables@.len() - j,
    {
        let family = tables[j].family.clone();
        let name = tables[j].name.clone();
        assert(keys[j as int] == (family@, name@));
        let chains = chains_for(items, family.as_str(), name.as_str());
        out.push(PfTable { name, family, sets: Vec::new(), maps: Vec::new(), chains });
        j = j + 1;
    }
    Ok(PfConfig { sos_pf: PfRoot { tables: out } })
}

} // verus!
