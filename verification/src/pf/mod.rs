//! The packet filter: its configuration model, schema validation, and the
//! nft script that applies a configuration.

pub mod config;
pub mod render;
pub mod ruleset;
pub mod runner;
pub mod validate;

pub use config::{
    ApplyPlan, PfChain, PfCheckReport, PfConfig, PfConntrackMatch, PfError, PfIcmpMatch, PfIpMatch, PfMap, PfMapElement, PfMatch, PfRoot, PfRule, PfSet, PfSetRefMatch, PfTable, PfTcpUdpMatch,
};
pub use render::{build_apply_plan, render_rule_expr};
pub use ruleset::{ruleset_items_to_config, NftChainItem, NftItem, NftTableItem};
pub use runner::{apply_with_runner, dry_run_check_with_runner, list_running_ruleset_json, NftRunner};
pub use validate::validate_config;
