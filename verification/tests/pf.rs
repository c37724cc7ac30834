use std::cell::RefCell;

use sos::pf::{
    apply_with_runner, build_apply_plan, dry_run_check_with_runner, render_rule_expr,
    ruleset_items_to_config, validate_config, NftChainItem, NftItem, NftRunner, NftTableItem,
    PfChain, PfConfig, PfConntrackMatch, PfError, PfIpMatch, PfMap, PfMapElement, PfMatch, PfRoot,
    PfRule, PfSet, PfSetRefMatch, PfTable, PfTcpUdpMatch,
};

fn s(x: &str) -> String {
    x.to_string()
}

fn rule(action: &str) -> PfRule {
    PfRule {
        match_expr: None,
        action: s(action),
        to: None,
        rate: None,
        burst: None,
        comment: None,
    }
}

/// The configuration of the `VALID_YAML` document.
fn valid_config() -> PfConfig {
    let ct_rule = PfRule {
        match_expr: Some(PfMatch {
            ct: Some(PfConntrackMatch {
                state: vec![s("established"), s("related")],
            }),
            ..PfMatch::default()
        }),
        ..rule("accept")
    };
    let ssh_rule = PfRule {
        match_expr: Some(PfMatch {
            tcp: Some(PfTcpUdpMatch {
                sport: None,
                dport: Some(22),
            }),
            ..PfMatch::default()
        }),
        comment: Some(s("Allow SSH")),
        ..rule("accept")
    };
    let set_rule = PfRule {
        match_expr: Some(PfMatch {
            set: Some(PfSetRefMatch {
                name: s("blacklist"),
                field: s("ip.saddr"),
            }),
            ..PfMatch::default()
        }),
        ..rule("drop")
    };
    let limit_rule = PfRule {
        rate: Some(s("25/second")),
        burst: Some(100),
        ..rule("limit")
    };
    PfConfig {
        sos_pf: PfRoot {
            tables: vec![PfTable {
                name: s("filter_table"),
                family: s("inet"),
                sets: vec![PfSet {
                    name: s("blacklist"),
                    elem_type: s("ipv4_addr"),
                    elements: vec![s("10.0.0.10"), s("10.0.0.11")],
                }],
                maps: vec![PfMap {
                    name: s("svc_map"),
                    key_type: s("inet_service"),
                    value_type: s("verdict"),
                    elements: vec![PfMapElement {
                        key: s("22"),
                        value: s("accept"),
                    }],
                }],
                chains: vec![PfChain {
                    name: s("input_filter"),
                    chain_type: s("filter"),
                    hook: s("input"),
                    priority: 0,
                    policy: s("drop"),
                    rules: vec![ct_rule, ssh_rule, set_rule, limit_rule],
                }],
            }],
        },
    }
}

/// The configuration of the `NAT_YAML` document.
fn nat_config() -> PfConfig {
    let dnat = PfRule {
        match_expr: Some(PfMatch {
            tcp: Some(PfTcpUdpMatch {
                sport: None,
                dport: Some(443),
            }),
            ..PfMatch::default()
        }),
        to: Some(s("10.0.0.20:8443")),
        ..rule("dnat")
    };
    PfConfig {
        sos_pf: PfRoot {
            tables: vec![PfTable {
                name: s("nat_table"),
                family: s("inet"),
                sets: vec![],
                maps: vec![],
                chains: vec![PfChain {
                    name: s("preroute_nat"),
                    chain_type: s("nat"),
                    hook: s("prerouting"),
                    priority: 0,
                    policy: s("accept"),
                    rules: vec![dnat],
                }],
            }],
        },
    }
}

type RunnerExpectation = (Vec<String>, Option<String>, Result<String, PfError>);

struct FakeRunner {
    expected: Vec<RunnerExpectation>,
    calls: RefCell<Vec<(Vec<String>, Option<String>)>>,
}

impl FakeRunner {
    fn new(expected: Vec<RunnerExpectation>) -> Self {
        Self {
            expected,
            calls: RefCell::new(Vec::new()),
        }
    }
}

impl NftRunner for FakeRunner {
    fn run_nft(&self, args: &[&str], stdin_script: Option<&str>) -> Result<String, PfError> {
        let args_vec: Vec<String> = args.iter().map(|x| (*x).to_string()).collect();
        let stdin_vec = stdin_script.map(ToOwned::to_owned);
        self.calls
            .borrow_mut()
            .push((args_vec.clone(), stdin_vec.clone()));
        for (e_args, e_stdin, result) in &self.expected {
            if *e_args == args_vec && *e_stdin == stdin_vec {
                return result.clone();
            }
        }
        Err(PfError::Command("unexpected call".to_string()))
    }
}

fn schema_message(r: Result<(), PfError>) -> String {
    match r {
        Err(PfError::Schema(msg)) => msg,
        other => panic!("unexpected result: {other:?}"),
    }
}

#[test]
fn parse_valid_yaml_config() {
    let cfg = valid_config();
    assert_eq!(validate_config(&cfg), Ok(()));
    assert_eq!(cfg.sos_pf.tables.len(), 1);
    assert_eq!(cfg.sos_pf.tables[0].family, "inet");
    assert_eq!(cfg.sos_pf.tables[0].chains.len(), 1);
    assert_eq!(cfg.sos_pf.tables[0].chains[0].rules.len(), 4);
    assert_eq!(cfg.sos_pf.tables[0].sets.len(), 1);
    assert_eq!(cfg.sos_pf.tables[0].maps.len(), 1);
}

#[test]
fn reject_unknown_table_family() {
    let mut invalid = valid_config();
    invalid.sos_pf.tables[0].family = s("banana");
    let msg = schema_message(validate_config(&invalid));
    assert!(msg.contains("family"));
    assert_eq!(msg, "unsupported family 'banana'");
}

#[test]
fn reject_unknown_set_reference() {
    let mut invalid = valid_config();
    invalid.sos_pf.tables[0].chains[0].rules[2] = PfRule {
        match_expr: Some(PfMatch {
            set: Some(PfSetRefMatch {
                name: s("no-such-set"),
                field: s("ip.saddr"),
            }),
            ..PfMatch::default()
        }),
        ..rule("drop")
    };
    let msg = schema_message(validate_config(&invalid));
    assert!(msg.contains("unknown set"));
}

#[test]
fn reject_nat_without_to() {
    let mut invalid = nat_config();
    invalid.sos_pf.tables[0].chains[0].rules[0].to = None;
    let msg = schema_message(validate_config(&invalid));
    assert!(msg.contains("requires 'to'"));
    assert_eq!(msg, "action 'dnat' requires 'to' field");
}

#[test]
fn validate_reports_first_schema_problem() {
    let empty = PfConfig {
        sos_pf: PfRoot { tables: vec![] },
    };
    assert_eq!(schema_message(validate_config(&empty)), "at least one table is required");
    let mut no_chain = nat_config();
    no_chain.sos_pf.tables[0].chains.clear();
    assert_eq!(
        schema_message(validate_config(&no_chain)),
        "table 'nat_table' must include at least one chain"
    );
    let mut blank = nat_config();
    blank.sos_pf.tables[0].name = s("  ");
    assert_eq!(schema_message(validate_config(&blank)), "table name cannot be empty");
    let mut bad_hook = nat_config();
    bad_hook.sos_pf.tables[0].chains[0].hook = s("sideways");
    assert_eq!(schema_message(validate_config(&bad_hook)), "unsupported hook 'sideways'");
    let mut bad_policy = nat_config();
    bad_policy.sos_pf.tables[0].chains[0].policy = s("maybe");
    assert_eq!(schema_message(validate_config(&bad_policy)), "unsupported policy 'maybe'");
    let mut bad_state = valid_config();
    bad_state.sos_pf.tables[0].chains[0].rules[0] = PfRule {
        match_expr: Some(PfMatch {
            ct: Some(PfConntrackMatch {
                state: vec![s("new"), s("weird")],
            }),
            ..PfMatch::default()
        }),
        ..rule("accept")
    };
    assert_eq!(
        schema_message(validate_config(&bad_state)),
        "unsupported conntrack state 'weird'"
    );
    let mut bad_map = valid_config();
    bad_map.sos_pf.tables[0].maps[0].value_type = s("blob");
    assert_eq!(schema_message(validate_config(&bad_map)), "unsupported map value type 'blob'");
    let mut limit = nat_config();
    limit.sos_pf.tables[0].chains[0].rules = vec![rule("limit")];
    assert_eq!(schema_message(validate_config(&limit)), "limit action requires rate");
    let mut bogus = nat_config();
    bogus.sos_pf.tables[0].chains[0].rules = vec![rule("explode")];
    assert_eq!(schema_message(validate_config(&bogus)), "unsupported action 'explode'");
}

#[test]
fn build_apply_plan_contains_expected_nft_statements() {
    let cfg = valid_config();
    let plan = build_apply_plan(&cfg).expect("plan");

    assert!(plan.script.contains("flush ruleset"));
    assert!(plan.script.contains("add table inet filter_table"));
    assert!(plan.script.contains(
        "add chain inet filter_table input_filter { type filter hook input priority 0; policy drop; }"
    ));
    assert!(plan
        .script
        .contains("ct state { established, related } accept"));
    assert!(plan
        .script
        .contains("tcp dport 22 accept comment \"Allow SSH\""));
    assert!(plan.script.contains("ip saddr @blacklist drop"));
    assert!(plan
        .script
        .contains("limit rate 25/second burst 100 packets accept"));
}

#[test]
fn build_apply_plan_renders_nat_action() {
    let cfg = nat_config();
    let plan = build_apply_plan(&cfg).expect("plan nat");
    assert!(plan.script.contains("tcp dport 443 dnat to 10.0.0.20:8443"));
}

#[test]
fn build_apply_plan_writes_the_whole_script() {
    let plan = build_apply_plan(&valid_config()).expect("plan");
    let expected = "flush ruleset\n\
add table inet filter_table\n\
add set inet filter_table blacklist { type ipv4_addr; }\n\
add element inet filter_table blacklist { 10.0.0.10 }\n\
add element inet filter_table blacklist { 10.0.0.11 }\n\
add map inet filter_table svc_map { type inet_service : verdict; }\n\
add element inet filter_table svc_map { 22 : accept }\n\
add chain inet filter_table input_filter { type filter hook input priority 0; policy drop; }\n\
add rule inet filter_table input_filter ct state { established, related } accept\n\
add rule inet filter_table input_filter tcp dport 22 accept comment \"Allow SSH\"\n\
add rule inet filter_table input_filter ip saddr @blacklist drop\n\
add rule inet filter_table input_filter limit rate 25/second burst 100 packets accept\n";
    assert_eq!(plan.script, expected);
    let mut negative = nat_config();
    negative.sos_pf.tables[0].chains[0].priority = -150;
    let plan = build_apply_plan(&negative).expect("plan");
    assert!(plan.script.contains("priority -150; policy accept;"));
}

#[test]
fn render_rule_expr_orders_parts_and_escapes_comments() {
    let table = valid_config().sos_pf.tables[0].clone();
    let r = PfRule {
        match_expr: Some(PfMatch {
            ip: Some(PfIpMatch {
                saddr: Some(s("10.0.0.0/8")),
                daddr: None,
                protocol: Some(s("tcp")),
            }),
            ip6: Some(PfIpMatch {
                saddr: None,
                daddr: Some(s("::1")),
                protocol: Some(s("udp")),
            }),
            udp: Some(PfTcpUdpMatch {
                sport: Some(53),
                dport: None,
            }),
            ..PfMatch::default()
        }),
        comment: Some(s("say \"hi\"")),
        ..rule("log")
    };
    assert_eq!(
        render_rule_expr(&table, &r).expect("render"),
        "ip saddr 10.0.0.0/8 ip protocol tcp ip6 daddr ::1 ip6 nexthdr udp udp sport 53 log comment \"say \\\"hi\\\"\""
    );
    let bad_field = PfRule {
        match_expr: Some(PfMatch {
            set: Some(PfSetRefMatch {
                name: s("blacklist"),
                field: s("eth.src"),
            }),
            ..PfMatch::default()
        }),
        ..rule("drop")
    };
    assert_eq!(
        render_rule_expr(&table, &bad_field),
        Err(PfError::Schema(s("unsupported set match field 'eth.src'")))
    );
    let limit = PfRule {
        rate: Some(s("5/minute")),
        ..rule("limit")
    };
    assert_eq!(render_rule_expr(&table, &limit).expect("limit"), "limit rate 5/minute accept");
}

#[test]
fn dry_run_uses_version_and_check_mode() {
    let cfg = valid_config();
    let plan = build_apply_plan(&cfg).expect("plan");
    let expected_script = plan.script.clone();

    let runner = FakeRunner::new(vec![
        (
            vec!["--version".to_string()],
            None,
            Ok("nftables v1".to_string()),
        ),
        (
            vec!["-c".to_string(), "-f".to_string(), "-".to_string()],
            Some(expected_script),
            Ok(String::new()),
        ),
    ]);

    let report = dry_run_check_with_runner(&cfg, &runner).expect("dry run ok");
    assert!(report.kernel_support_ok);
    assert!(report.nft_parse_ok);
    assert_eq!(runner.calls.borrow().len(), 2);
}

#[test]
fn apply_uses_atomic_script() {
    let cfg = valid_config();
    let plan = build_apply_plan(&cfg).expect("plan");
    let expected_script = plan.script.clone();

    let runner = FakeRunner::new(vec![(
        vec!["-f".to_string(), "-".to_string()],
        Some(expected_script),
        Ok(String::new()),
    )]);

    apply_with_runner(&cfg, &runner).expect("apply ok");
}

#[test]
fn runner_is_not_called_for_invalid_config_and_errors_pass_through() {
    let mut invalid = valid_config();
    invalid.sos_pf.tables[0].family = s("banana");
    let runner = FakeRunner::new(vec![]);
    assert!(matches!(apply_with_runner(&invalid, &runner), Err(PfError::Schema(_))));
    assert!(matches!(dry_run_check_with_runner(&invalid, &runner), Err(PfError::Schema(_))));
    assert!(runner.calls.borrow().is_empty());
    let failing = FakeRunner::new(vec![(
        vec!["--version".to_string()],
        None,
        Err(PfError::Command(s("no nft"))),
    )]);
    assert_eq!(
        dry_run_check_with_runner(&valid_config(), &failing),
        Err(PfError::Command(s("no nft")))
    );
}

fn table_item(family: Option<&str>, name: Option<&str>) -> NftItem {
    NftItem {
        table: Some(NftTableItem {
            family: family.map(s),
            name: name.map(s),
        }),
        chain: None,
    }
}

fn chain_item(family: &str, table: &str, name: &str) -> NftChainItem {
    NftChainItem {
        family: Some(s(family)),
        table: Some(s(table)),
        name: Some(s(name)),
        chain_type: None,
        hook: None,
        prio: None,
        policy: None,
    }
}

#[test]
fn export_ruleset_json_to_yaml_minimal() {
    let items = vec![
        NftItem {
            table: None,
            chain: None,
        },
        table_item(Some("inet"), Some("filter_table")),
        NftItem {
            table: None,
            chain: Some(NftChainItem {
                chain_type: Some(s("filter")),
                hook: Some(s("input")),
                prio: Some(0),
                policy: Some(s("drop")),
                ..chain_item("inet", "filter_table", "input_filter")
            }),
        },
    ];
    let cfg = ruleset_items_to_config(&items).expect("items->config");
    assert_eq!(cfg.sos_pf.tables.len(), 1);
    assert_eq!(cfg.sos_pf.tables[0].name, "filter_table");
    assert_eq!(cfg.sos_pf.tables[0].chains.len(), 1);
    assert_eq!(cfg.sos_pf.tables[0].chains[0].name, "input_filter");
    assert_eq!(cfg.sos_pf.tables[0].chains[0].policy, "drop");
}

#[test]
fn ruleset_items_dedupe_tables_and_default_chain_fields() {
    let items = vec![
        table_item(Some("inet"), Some("t")),
        table_item(Some("ip"), Some("t")),
        table_item(Some("inet"), Some("t")),
        NftItem {
            table: None,
            chain: Some(chain_item("ip", "t", "c1")),
        },
        NftItem {
            table: None,
            chain: Some(NftChainItem {
                prio: Some(-100),
                ..chain_item("inet", "t", "c2")
            }),
        },
        NftItem {
            table: None,
            chain: Some(chain_item("inet", "missing", "c3")),
        },
    ];
    let cfg = ruleset_items_to_config(&items).expect("convert");
    let t = &cfg.sos_pf.tables;
    assert_eq!(t.len(), 2);
    assert_eq!((t[0].family.as_str(), t[0].name.as_str()), ("inet", "t"));
    assert_eq!((t[1].family.as_str(), t[1].name.as_str()), ("ip", "t"));
    assert_eq!(t[0].chains.len(), 1);
    assert_eq!(t[0].chains[0].name, "c2");
    assert_eq!(t[0].chains[0].priority, -100);
    assert_eq!(t[0].chains[0].chain_type, "filter");
    assert_eq!(t[0].chains[0].hook, "input");
    assert_eq!(t[0].chains[0].policy, "accept");
    assert_eq!(t[1].chains[0].name, "c1");
    let bad = vec![
        NftItem {
            table: None,
            chain: Some(NftChainItem {
                table: None,
                ..chain_item("inet", "t", "c")
            }),
        },
        table_item(Some("inet"), None),
    ];
    assert_eq!(
        ruleset_items_to_config(&bad),
        Err(PfError::Json(s("missing or invalid field 'name'")))
    );
    assert_eq!(
        ruleset_items_to_config(&bad[..1].to_vec()),
        Err(PfError::Json(s("missing or invalid field 'table'")))
    );
}
