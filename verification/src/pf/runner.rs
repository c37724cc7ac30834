//! Driving nft: dry runs and atomic applies of a configuration.
use vstd::prelude::*;
use crate::console::text::{opt_str_view, strs_view};
use crate::pf::config::{PfCheckReport, PfConfig, PfError};
use crate::pf::render::{build_apply_plan, plan_script};

verus! {

/// Runs the nft tool with `args`, feeding `stdin_script` when given, and
/// returns what it printed.
pub trait NftRunner {
    /// What a run with `args` and `stdin` returns, where the runner
    /// describes it (`None`: the runner does not say).
    open spec fn nft_outcome(&self, args: Seq<Seq<char>>, stdin: Option<Seq<char>>) -> Option<Result<String, PfError>> {
        None
    }

    fn run_nft(&self, args: &[&str], stdin_script: Option<&str>) -> (r: Result<String, PfError>)
        ensures
            self.nft_outcome(strs_view(args@), opt_str_view(stdin_script)) matches Some(o) ==> r == o,
    ;
}

/// The result of a dry run whose nft calls gave `version` and then `check`.
pub open spec fn dry_run_result(version: Result<String, PfError>, check: Option<Result<String, PfError>>) -> Result<PfCheckReport, PfError> {
    match version {
        Err(e) => Err(e),
        Ok(_) => match check {
            Some(Err(e)) => Err(e),
            _ => Ok(PfCheckReport { kernel_support_ok: true, nft_parse_ok: true }),
        },
    }
}

/// A dry run reports the script as parsed only when nft accepted it: if
/// nft answered the version query but refused the check run with `e`, the
/// dry run fails with `e`; if the version query failed with `e`, it fails
/// with that; and an `Ok` report means both runs returned `Ok`.
pub proof fn lemma_dry_run_fails_when_nft_refuses(version: Result<String, PfError>, check: Option<Result<String, PfError>>)
    ensures
        match (version, check) {
            (Ok(_), Some(Err(e))) => dry_run_result(version, check) == Err::<PfCheckReport, PfError>(e),
            (Err(e), _) => dry_run_result(version, check) == Err::<PfCheckReport, PfError>(e),
            _ => dry_run_result(version, check) is Ok,
        },
        dry_run_result(version, check) is Ok ==> version is Ok && !(check is Some && check->0 is Err),
{
}

/// Builds the apply plan, asks nft for its version, then has nft check the
/// plan's script without applying it. A schema problem stops it before nft
/// runs; a runner failure is passed on.
pub fn dry_run_check_with_runner<R: NftRunner>(cfg: &PfConfig, runner: &R) -> (r: Result<PfCheckReport, PfError>)
    ensures
        plan_script(*cfg) matches Err(m) ==> r matches Err(PfError::Schema(e)) && e@ == m,
        r is Ok ==> plan_script(*cfg) is Ok
            && r == Ok::<PfCheckReport, PfError>(PfCheckReport { kernel_support_ok: true, nft_parse_ok: true }),
        plan_script(*cfg) matches Ok(x) ==> match runner.nft_outcome(seq!["--version"@], None) {
            Some(Err(e)) => r == Err::<PfCheckReport, PfError>(e),
            Some(Ok(v)) => runner.nft_outcome(seq!["-c"@, "-f"@, "-"@], Some(x)) matches Some(c)
                ==> r == dry_run_result(Ok(v), Some(c)),
            None => true,
        },
        match plan_script(*cfg) {
            Ok(x) => match (runner.nft_outcome(seq!["--version"@], None), runner.nft_outcome(seq!["-c"@, "-f"@, "-"@], Some(x))) {
                (Some(Ok(_)), Some(Err(e))) => r == Err::<PfCheckReport, PfError>(e),
                _ => true,
            },
            Err(_) => true,
        },
{
    let plan = match build_apply_plan(cfg) {
        Ok(p) => p,
        Err(e) => return Err(e),
    };
    let version_args: [&str; 1] = ["--version"];
    proof {
        assert(strs_view(version_args@) =~= seq!["--version"@]);
    }
    match runner.run_nft(version_args.as_slice(), None) {
        Ok(_) => {},
        Err(e) => return Err(e),
    }
    let check_args: [&str; 3] = ["-c", "-f", "-"];
    proof {
        assert(strs_view(check_args@) =~= seq!["-c"@, "-f"@, "-"@]);
    }
    match runner.run_nft(check_args.as_slice(), Some(plan.script.as_str())) {
        Ok(_) => {},
        Err(e) => return Err(e),
    }
    Ok(PfCheckReport { kernel_support_ok: true, nft_parse_ok: true })
}

/// Builds the apply plan and has nft apply its script in one transaction.
/// A schema problem stops it before nft runs; a runner failure is passed on.
pub fn apply_with_runner<R: NftRunner>(cfg: &PfConfig, runner: &R) -> (r: Result<(), PfError>)
    ensures
        plan_script(*cfg) matches Err(m) ==> r matches Err(PfError::Schema(e)) && e@ == m,
        r is Ok ==> plan_script(*cfg) is Ok,
        plan_script(*cfg) matches Ok(x) ==> match runner.nft_outcome(seq!["-f"@, "-"@], Some(x)) {
            Some(Ok(_)) => r is Ok,
            Some(Err(e)) => r == Err::<(), PfError>(e),
            None => true,
        },
{
    let plan = match build_apply_plan(cfg) {
        Ok(p) => p,
        Err(e) => return Err(e),
    };
    let args: [&str; 2] = ["-f", "-"];
    proof {
        assert(strs_view(args@) =~= seq!["-f"@, "-"@]);
    }
    match runner.run_nft(args.as_slice(), Some(plan.script.as_str())) {
        Ok(_) => Ok(()),
        Err(e) => Err(e),
    }
}

/// Has nft list the running ruleset as JSON and returns what it printed,
/// or its error unchanged.
pub fn list_running_ruleset_json<R: NftRunner>(runner: &R) -> (r: Result<String, PfError>)
    ensures
        runner.nft_outcome(seq!["-j"@, "list"@, "ruleset"@], None) matches Some(o) ==> r == o,
{
    let args: [&str; 3] = ["-j", "list", "ruleset"];
    proof {
        assert(strs_view(args@) =~= seq!["-j"@, "list"@, "ruleset"@]);
    }
    runner.run_nft(args.as_slice(), None)
}

} // verus!
