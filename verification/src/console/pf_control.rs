//! The packet-filter control surface, its message service, and the `sos-pf`
//! console program.
use vstd::prelude::*;
use vstd::string::*;
use crate::console::command::{one_line, push_line, texts, write_lines, wrote, ConsoleWriter};
use crate::console::registry::{DescriptorView, Program, ProgramAbi, ProgramDescriptor};
use crate::console::text::{contains_spec, contains_str, decimal, decimal_string, str_eq};

verus! {

/// Why a packet-filter operation failed.
#[derive(Clone, Copy, Debug, PartialEq, Eq, Structural)]
pub enum PfControlError {
    Unsupported,
    InvalidPolicy,
    Timeout,
}

/// The text of an error.
pub open spec fn error_text(e: PfControlError) -> Seq<char> {
    match e {
        PfControlError::Unsupported => "unsupported"@,
        PfControlError::InvalidPolicy => "invalid_policy"@,
        PfControlError::Timeout => "timeout"@,
    }
}

impl PfControlError {
    /// The error's text: "unsupported", "invalid_policy" or "timeout".
    pub fn to_string(&self) -> (s: String)
        ensures
            s@ == error_text(*self),
    {
        match self {
            PfControlError::Unsupported => String::from_str("unsupported"),
            PfControlError::InvalidPolicy => String::from_str("invalid_policy"),
            PfControlError::Timeout => String::from_str("timeout"),
        }
    }
}

/// Whether `r` is the outcome `o`.
pub open spec fn agrees(r: Result<(), PfControlError>, o: Result<(), PfControlError>) -> bool {
    match (r, o) {
        (Ok(_), Ok(_)) => true,
        (Err(a), Err(b)) => a == b,
        _ => false,
    }
}

/// Control of a packet filter: validate, apply, report, export. Each
/// operation may describe its outcome through the matching `*_outcome`
/// function (`None`: the implementation does not say).
pub trait PacketFilterControl: Sized {
    /// The control after `apply`, where the implementation says.
    open spec fn after_apply(&self) -> Option<Self> {
        None
    }

    /// What `check` returns.
    open spec fn check_outcome(&self) -> Option<Result<(), PfControlError>> {
        None
    }

    /// What `apply` returns.
    open spec fn apply_outcome(&self) -> Option<Result<(), PfControlError>> {
        None
    }

    /// What `status` returns and the lines it writes.
    open spec fn status_outcome(&self) -> Option<(Result<(), PfControlError>, Seq<Seq<char>>)> {
        None
    }

    /// What `export` returns and the lines it writes.
    open spec fn export_outcome(&self) -> Option<(Result<(), PfControlError>, Seq<Seq<char>>)> {
        None
    }

    fn check(&self) -> (r: Result<(), PfControlError>)
        ensures
            self.check_outcome() matches Some(o) ==> agrees(r, o),
    ;

    fn apply(&mut self) -> (r: Result<(), PfControlError>)
        ensures
            old(self).apply_outcome() matches Some(o) ==> agrees(r, o),
            old(self).after_apply() matches Some(c) ==> *final(self) == c,
    ;

    fn status<W: ConsoleWriter>(&self, out: &mut W) -> (r: Result<(), PfControlError>)
        ensures
            old(out).records() ==> final(out).records(),
            self.status_outcome() matches Some((o, ls)) ==> agrees(r, o) && wrote(*old(out), *final(out), ls),
    ;

    fn export<W: ConsoleWriter>(&self, out: &mut W) -> (r: Result<(), PfControlError>)
        ensures
            old(out).records() ==> final(out).records(),
            self.export_outcome() matches Some((o, ls)) ==> agrees(r, o) && wrote(*old(out), *final(out), ls),
    ;
}

/// The policy the kernel boots with, one YAML line each.
pub open spec fn bootstrap_policy() -> Seq<Seq<char>> {
    seq![
        "sos-pf:"@,
        "  tables:"@,
        "    - name: runtime_filter"@,
        "      family: inet"@,
        "      chains:"@,
        "        - name: input_filter"@,
        "          type: filter"@,
        "          hook: input"@,
        "          priority: 0"@,
        "          policy: drop"@,
        "          rules:"@,
        "            - action: accept"@,
        "              comment: runtime bootstrap policy"@,
    ]
}

fn bootstrap_policy_lines() -> (v: Vec<&'static str>)
    ensures
        v@.len() == bootstrap_policy().len(),
        forall|i: int| 0 <= i < v@.len() ==> (#[trigger] v@[i])@ == bootstrap_policy()[i],
{
    let mut v: Vec<&'static str> = Vec::new();
    v.push("sos-pf:");
    v.push("  tables:");
    v.push("    - name: runtime_filter");
    v.push("      family: inet");
    v.push("      chains:");
    v.push("        - name: input_filter");
    v.push("          type: filter");
    v.push("          hook: input");
    v.push("          priority: 0");
    v.push("          policy: drop");
    v.push("          rules:");
    v.push("            - action: accept");
    v.push("              comment: runtime bootstrap policy");
    v
}

/// Whether a policy has the root key, the runtime table, the input chain
/// and a drop policy.
pub open spec fn policy_valid(lines: Seq<Seq<char>>) -> bool {
    &&& exists|i: int| 0 <= i < lines.len() && lines[i] == "sos-pf:"@
    &&& exists|i: int| 0 <= i < lines.len() && contains_spec(lines[i], "name: runtime_filter"@)
    &&& exists|i: int| 0 <= i < lines.len() && contains_spec(lines[i], "name: input_filter"@)
    &&& exists|i: int| 0 <= i < lines.len() && contains_spec(lines[i], "policy: drop"@)
}

/// The outcome of validating the bootstrap policy.
pub open spec fn policy_result() -> Result<(), PfControlError> {
    if policy_valid(bootstrap_policy()) {
        Ok(())
    } else {
        Err(PfControlError::InvalidPolicy)
    }
}

/// The bootstrap policy passes validation.
pub proof fn lemma_bootstrap_policy_valid()
    ensures
        policy_valid(bootstrap_policy()),
        policy_result() == Ok::<(), PfControlError>(()),
{
    let p = bootstrap_policy();
    reveal_strlit("    - name: runtime_filter");
    reveal_strlit("name: runtime_filter");
    reveal_strlit("        - name: input_filter");
    reveal_strlit("name: input_filter");
    reveal_strlit("          policy: drop");
    reveal_strlit("policy: drop");
    assert(p[0] == "sos-pf:"@);
    assert(p[2].subrange(6int, 6int + "name: runtime_filter"@.len()) =~= "name: runtime_filter"@);
    assert(contains_spec(p[2], "name: runtime_filter"@));
    assert(p[5].subrange(10int, 10int + "name: input_filter"@.len()) =~= "name: input_filter"@);
    assert(contains_spec(p[5], "name: input_filter"@));
    assert(p[9].subrange(10int, 10int + "policy: drop"@.len()) =~= "policy: drop"@);
    assert(contains_spec(p[9], "policy: drop"@));
}

/// The most decimal digits of the generation the status line shows.
pub const GENERATION_DIGITS: usize = 18;

/// The first `n` items of `s` (all of them when there are fewer).
pub open spec fn clip<T>(s: Seq<T>, n: nat) -> Seq<T> {
    if s.len() <= n { s } else { s.subrange(0, n as int) }
}

/// The lines of a runtime status report.
pub open spec fn status_lines(applied: bool, generation: u64) -> Seq<Seq<char>> {
    seq![
        "sos-pf-runtime:"@,
        if applied { "  state: applied"@ } else { "  state: staged"@ },
        "  generation: "@ + clip(decimal(generation as nat), GENERATION_DIGITS as nat),
    ]
}

/// The state `(applied, generation)` after one apply.
pub open spec fn apply_step(v: (bool, u64)) -> (bool, u64) {
    (true, if v.1 == u64::MAX { u64::MAX } else { (v.1 + 1) as u64 })
}

/// The state after `k` applies from `v`.
pub open spec fn apply_times(v: (bool, u64), k: nat) -> (bool, u64)
    decreases k,
{
    if k == 0 { v } else { apply_step(apply_times(v, (k - 1) as nat)) }
}

/// After `k` applies to a new control (state `(false, 0)`), the policy is
/// applied exactly when `k > 0` and the generation is `k` (saturating at
/// `u64::MAX`); `export_outcome` reports that state followed by the
/// bootstrap policy.
pub proof fn lemma_export_after_applies(k: nat)
    ensures
        apply_times((false, 0u64), k) == (k > 0, if k >= u64::MAX { u64::MAX } else { k as u64 }),
    decreases k,
{
    if k > 0 {
        lemma_export_after_applies((k - 1) as nat);
    }
}

/// The in-kernel packet filter: the bootstrap policy, whether it has been
/// applied, and how many times.
pub struct KernelPacketFilterControl {
    applied: bool,
    generation: u64,
}

impl View for KernelPacketFilterControl {
    /// (applied, generation)
    type V = (bool, u64);

    closed spec fn view(&self) -> (bool, u64) {
        (self.applied, self.generation)
    }
}

impl KernelPacketFilterControl {
    /// Staged, generation 0.
    pub fn new() -> (c: Self)
        ensures
            c@ == (false, 0u64),
    {
        KernelPacketFilterControl { applied: false, generation: 0 }
    }

    fn validate_bootstrap_policy(&self) -> (r: Result<(), PfControlError>)
        ensures
            r == policy_result(),
            r == Ok::<(), PfControlError>(()),
    {
        proof {
            lemma_bootstrap_policy_valid();
        }
        let lines = bootstrap_policy_lines();
        let mut has_root = false;
        let mut has_table = false;
        let mut has_chain = false;
        let mut has_policy = false;
        let mut i: usize = 0;
        while i < lines.len()
            invariant
                i <= lines@.len(),
                lines@.len() == bootstrap_policy().len(),
                forall|k: int| 0 <= k < lines@.len() ==> (#[trigger] lines@[k])@ == bootstrap_policy()[k],
                has_root == exists|k: int| 0 <= k < i && bootstrap_policy()[k] == "sos-pf:"@,
                has_table == exists|k: int| 0 <= k < i && contains_spec(bootstrap_policy()[k], "name: runtime_filter"@),
                has_chain == exists|k: int| 0 <= k < i && contains_spec(bootstrap_policy()[k], "name: input_filter"@),
                has_policy == exists|k: int| 0 <= k < i && contains_spec(bootstrap_policy()[k], "policy: drop"@),
            decreases lines@.len() - i,
        {
            let line = lines[i];
            if str_eq(line, "sos-pf:") {
                has_root = true;
            }
            if contains_str(line, "name: runtime_filter") {
                has_table = true;
            }
            if contains_str(line, "name: input_filter") {
                has_chain = true;
            }
            if contains_str(line, "policy: drop") {
                has_policy = true;
            }
            i = i + 1;
        }
        if has_root && has_table && has_chain && has_policy {
            Ok(())
        } else {
            Err(PfControlError::InvalidPolicy)
        }
    }

    /// The runtime state and generation, one line each after the header.
    pub fn status_report(&self) -> (v: Vec<String>)
        ensures
            texts(v@) == status_lines(self@.0, self@.1),
    {
        let mut v = one_line("sos-pf-runtime:");
        if self.applied {
            push_line(&mut v, "  state: applied");
        } else {
            push_line(&mut v, "  state: staged");
        }
        let digits = decimal_string(self.generation);
        let d = digits.as_str();
        let mut line = String::from_str("  generation: ");
        if d.unicode_len() <= GENERATION_DIGITS {
            line.append(d);
        } else {
            line.append(d.substring_char(0, GENERATION_DIGITS));
        }
        push_line(&mut v, line.as_str());
        assert(texts(v@) =~= status_lines(self@.0, self@.1));
        v
    }

    /// The status report followed by the bootstrap policy.
    pub fn export_report(&self) -> (v: Vec<String>)
        ensures
            texts(v@) == status_lines(self@.0, self@.1) + bootstrap_policy(),
    {
        let mut v = self.status_report();
        let lines = bootstrap_policy_lines();
        let ghost start = texts(v@);
        let mut i: usize = 0;
        while i < lines.len()
            invariant
                i <= lines@.len(),
                lines@.len() == bootstrap_policy().len(),
                forall|k: int| 0 <= k < lines@.len() ==> (#[trigger] lines@[k])@ == bootstrap_policy()[k],
                texts(v@) == start + bootstrap_policy().subrange(0, i as int),
            decreases lines@.len() - i,
        {
            push_line(&mut v, lines[i]);
            assert(bootstrap_policy().subrange(0, i + 1) =~= bootstrap_policy().subrange(0, i as int).push(lines@[i as int]@));
            i = i + 1;
        }
        assert(bootstrap_policy().subrange(0, lines@.len() as int) =~= bootstrap_policy());
        v
    }
}

impl KernelPacketFilterControl {
    /// What `after_apply` gives: the state one `apply_step` on.
    pub proof fn lemma_after_apply(&self)
        ensures
            self.after_apply() matches Some(c) && c@ == apply_step(self@),
    {
    }
}

impl Default for KernelPacketFilterControl {
    fn default() -> (c: Self)
        ensures
            c@ == (false, 0u64),
    {
        Self::new()
    }
}

impl PacketFilterControl for KernelPacketFilterControl {
    open spec fn check_outcome(&self) -> Option<Result<(), PfControlError>> {
        Some(Ok(()))
    }

    open spec fn apply_outcome(&self) -> Option<Result<(), PfControlError>> {
        Some(Ok(()))
    }

    closed spec fn after_apply(&self) -> Option<Self> {
        Some(KernelPacketFilterControl { applied: true, generation: apply_step(self@).1 })
    }

    open spec fn status_outcome(&self) -> Option<(Result<(), PfControlError>, Seq<Seq<char>>)> {
        Some((Ok(()), status_lines(self@.0, self@.1)))
    }

    open spec fn export_outcome(&self) -> Option<(Result<(), PfControlError>, Seq<Seq<char>>)> {
        Some((Ok(()), status_lines(self@.0, self@.1) + bootstrap_policy()))
    }

    /// Validates the bootstrap policy.
    fn check(&self) -> (r: Result<(), PfControlError>)
        ensures
            r == Ok::<(), PfControlError>(()),
    {
        self.validate_bootstrap_policy()
    }

    /// Validates the policy, then marks it applied and counts one more
    /// generation (saturating).
    fn apply(&mut self) -> (r: Result<(), PfControlError>)
        ensures
            r == Ok::<(), PfControlError>(()),
            final(self)@ == apply_step(old(self)@),
    {
        match self.validate_bootstrap_policy() {
            Ok(()) => {},
            Err(e) => return Err(e),
        }
        self.applied = true;
        self.generation = self.generation.saturating_add(1);
        Ok(())
    }

    /// Writes the lines of `status_report`.
    fn status<W: ConsoleWriter>(&self, out: &mut W) -> (r: Result<(), PfControlError>)
        ensures
            r == Ok::<(), PfControlError>(()),
            wrote(*old(out), *final(out), status_lines(self@.0, self@.1)),
    {
        match self.validate_bootstrap_policy() {
            Ok(()) => {},
            Err(e) => return Err(e),
        }
        let lines = self.status_report();
        write_lines(out, &lines);
        Ok(())
    }

    /// Writes the lines of `export_report`.
    fn export<W: ConsoleWriter>(&self, out: &mut W) -> (r: Result<(), PfControlError>)
        ensures
            r == Ok::<(), PfControlError>(()),
            wrote(*old(out), *final(out), status_lines(self@.0, self@.1) + bootstrap_policy()),
    {
        match self.validate_bootstrap_policy() {
            Ok(()) => {},
            Err(e) => return Err(e),
        }
        let lines = self.export_report();
        write_lines(out, &lines);
        Ok(())
    }
}

/// A request to the packet-filter service.
#[derive(Clone, Copy, Debug, PartialEq, Eq, Structural)]
pub enum PfMessage {
    Check,
    Apply,
    Status,
    Export,
}

/// The machine-readable outcome of a console operation.
#[derive(Clone, Copy, Debug, PartialEq, Eq, Structural)]
pub enum MachineErrorCode {
    Success,
    InvalidCommand,
    UnknownProgram,
    PfInvalidPolicy,
    PfTimeout,
    PfUnsupported,
}

/// An exit code with its machine-readable outcome.
#[derive(Clone, Copy, Debug, PartialEq, Eq, Structural)]
pub struct PfResult {
    pub code: i32,
    pub machine: MachineErrorCode,
}

/// A service that runs packet-filter requests.
pub trait PfService {
    /// What `handle` returns for `msg` and the lines it writes, where the
    /// service says (`None`: it does not).
    open spec fn handle_outcome(&self, msg: PfMessage) -> Option<(PfResult, Seq<Seq<char>>)> {
        None
    }

    fn handle<W: ConsoleWriter>(&mut self, msg: PfMessage, out: &mut W) -> (r: PfResult)
        ensures
            old(out).records() ==> final(out).records(),
            old(self).handle_outcome(msg) matches Some((res, ls)) ==> r == res && wrote(*old(out), *final(out), ls),
    ;
}

/// Success.
pub open spec fn pf_ok() -> PfResult {
    PfResult { code: 0, machine: MachineErrorCode::Success }
}

/// The machine code of a failed operation.
pub open spec fn machine_for(e: PfControlError) -> MachineErrorCode {
    match e {
        PfControlError::InvalidPolicy => MachineErrorCode::PfInvalidPolicy,
        PfControlError::Timeout => MachineErrorCode::PfTimeout,
        PfControlError::Unsupported => MachineErrorCode::PfUnsupported,
    }
}

/// The result of a failed operation.
pub open spec fn pf_failure(e: PfControlError) -> PfResult {
    PfResult { code: 2, machine: machine_for(e) }
}

/// The code line written for a failed operation.
pub open spec fn failure_code_line(e: PfControlError) -> Seq<char> {
    match e {
        PfControlError::InvalidPolicy => "sos-code: PF_INVALID_POLICY"@,
        PfControlError::Timeout => "sos-code: PF_TIMEOUT"@,
        PfControlError::Unsupported => "sos-code: PF_UNSUPPORTED"@,
    }
}

/// The lines written for a failed operation `op`.
pub open spec fn failure_lines(e: PfControlError, op: Seq<char>) -> Seq<Seq<char>> {
    seq!["sos-pf: operation failed"@, op, error_text(e), failure_code_line(e)]
}

/// The lines reporting the failure of `op`.
pub fn failure_report(err: PfControlError, op: &str) -> (v: Vec<String>)
    ensures
        texts(v@) == failure_lines(err, op@),
{
    let mut v = one_line("sos-pf: operation failed");
    push_line(&mut v, op);
    let msg = err.to_string();
    push_line(&mut v, msg.as_str());
    match err {
        PfControlError::InvalidPolicy => push_line(&mut v, "sos-code: PF_INVALID_POLICY"),
        PfControlError::Timeout => push_line(&mut v, "sos-code: PF_TIMEOUT"),
        PfControlError::Unsupported => push_line(&mut v, "sos-code: PF_UNSUPPORTED"),
    }
    assert(texts(v@) =~= failure_lines(err, op@));
    v
}

/// Writes the lines of `failure_report` and returns code 2 with the
/// error's machine code.
pub fn pf_err<W: ConsoleWriter>(err: PfControlError, op: &str, out: &mut W) -> (r: PfResult)
    ensures
        r == pf_failure(err),
        wrote(*old(out), *final(out), failure_lines(err, op@)),
{
    let lines = failure_report(err, op);
    write_lines(out, &lines);
    let machine = match err {
        PfControlError::InvalidPolicy => MachineErrorCode::PfInvalidPolicy,
        PfControlError::Timeout => MachineErrorCode::PfTimeout,
        PfControlError::Unsupported => MachineErrorCode::PfUnsupported,
    };
    PfResult { code: 2, machine }
}

/// Whether the lines `after` holds end with `tail`.
pub open spec fn ends_with_lines<W: ConsoleWriter>(after: W, tail: Seq<Seq<char>>) -> bool {
    &&& after.records()
    &&& after.lines().len() >= tail.len()
    &&& after.lines().subrange(after.lines().len() - tail.len(), after.lines().len() as int) == tail
}

/// The packet-filter service over a control `C`.
pub struct PfServiceImpl<C: PacketFilterControl> {
    control: C,
}

impl<C: PacketFilterControl> PfServiceImpl<C> {
    /// The control the service drives.
    pub closed spec fn control(&self) -> C {
        self.control
    }

    /// A service over `control`.
    pub fn new(control: C) -> (s: Self)
        ensures
            s.control() == control,
    {
        PfServiceImpl { control }
    }
}

/// The service's result and lines for a check or apply whose control
/// outcome is `o`.
pub open spec fn op_outcome(o: Option<Result<(), PfControlError>>, ok_lines: Seq<Seq<char>>, op: Seq<char>) -> Option<(PfResult, Seq<Seq<char>>)> {
    match o {
        Some(Ok(_)) => Some((pf_ok(), ok_lines)),
        Some(Err(e)) => Some((pf_failure(e), failure_lines(e, op))),
        None => None,
    }
}

/// The service's result and lines for a status or export whose control
/// outcome is `o`.
pub open spec fn report_outcome(o: Option<(Result<(), PfControlError>, Seq<Seq<char>>)>, op: Seq<char>) -> Option<(PfResult, Seq<Seq<char>>)> {
    match o {
        Some((Ok(_), ls)) => Some((pf_ok(), ls.push("sos-code: OK"@))),
        Some((Err(e), ls)) => Some((pf_failure(e), ls + failure_lines(e, op))),
        None => None,
    }
}

impl<C: PacketFilterControl> PfService for PfServiceImpl<C> {
    open spec fn handle_outcome(&self, msg: PfMessage) -> Option<(PfResult, Seq<Seq<char>>)> {
        match msg {
            PfMessage::Check => op_outcome(self.control().check_outcome(), seq!["sos-pf: check ok"@, "sos-code: OK"@], "check"@),
            PfMessage::Apply => op_outcome(self.control().apply_outcome(), seq!["sos-pf: apply ok"@, "sos-code: OK"@], "apply"@),
            PfMessage::Status => report_outcome(self.control().status_outcome(), "status"@),
            PfMessage::Export => report_outcome(self.control().export_outcome(), "export"@),
        }
    }

    /// Runs `msg` on the control. A successful check or apply writes
    /// "sos-pf: <op> ok" and "sos-code: OK"; a successful status or export
    /// writes the control's report and "sos-code: OK"; a failure is
    /// reported by `pf_err`.
    fn handle<W: ConsoleWriter>(&mut self, msg: PfMessage, out: &mut W) -> (r: PfResult)
        ensures
            r == pf_ok() || exists|e: PfControlError| r == pf_failure(e),
            msg is Check && r == pf_ok() ==> wrote(*old(out), *final(out), seq!["sos-pf: check ok"@, "sos-code: OK"@]),
            msg is Apply && r == pf_ok() ==> wrote(*old(out), *final(out), seq!["sos-pf: apply ok"@, "sos-code: OK"@]),
            msg is Check ==> forall|e: PfControlError| r == #[trigger] pf_failure(e)
                ==> wrote(*old(out), *final(out), failure_lines(e, "check"@)),
            msg is Apply ==> forall|e: PfControlError| r == #[trigger] pf_failure(e)
                ==> wrote(*old(out), *final(out), failure_lines(e, "apply"@)),
            (msg is Status || msg is Export) && r == pf_ok() && old(out).records() ==> final(out).records()
                && final(out).lines().len() > 0
                && final(out).lines().last() == "sos-code: OK"@,
            msg is Status && old(out).records() ==> forall|e: PfControlError| r == #[trigger] pf_failure(e)
                ==> ends_with_lines(*final(out), failure_lines(e, "status"@)),
            msg is Export && old(out).records() ==> forall|e: PfControlError| r == #[trigger] pf_failure(e)
                ==> ends_with_lines(*final(out), failure_lines(e, "export"@)),
            !(msg is Apply) ==> final(self).control() == old(self).control(),
            msg is Apply ==> (old(self).control().after_apply() matches Some(c) ==> final(self).control() == c),
    {
        match msg {
            PfMessage::Check => match self.control.check() {
                Ok(()) => {
                    out.write_str("sos-pf: check ok");
                    out.write_str("sos-code: OK");
                    proof {
                        if old(out).records() {
                            assert(out.lines() =~= old(out).lines() + seq!["sos-pf: check ok"@, "sos-code: OK"@]);
                        }
                    }
                    PfResult { code: 0, machine: MachineErrorCode::Success }
                },
                Err(e) => pf_err(e, "check", out),
            },
            PfMessage::Apply => match self.control.apply() {
                Ok(()) => {
                    out.write_str("sos-pf: apply ok");
                    out.write_str("sos-code: OK");
                    proof {
                        if old(out).records() {
                            assert(out.lines() =~= old(out).lines() + seq!["sos-pf: apply ok"@, "sos-code: OK"@]);
                        }
                    }
                    PfResult { code: 0, machine: MachineErrorCode::Success }
                },
                Err(e) => pf_err(e, "apply", out),
            },
            PfMessage::Status => match self.control.status(out) {
                Ok(()) => {
                    out.write_str("sos-code: OK");
                    proof {
                        if let Some((_, ls)) = self.control.status_outcome() {
                            if old(out).records() {
                                assert(out.lines() =~= old(out).lines() + ls.push("sos-code: OK"@));
                            }
                        }
                    }
                    PfResult { code: 0, machine: MachineErrorCode::Success }
                },
                Err(e) => {
                    let r = pf_err(e, "status", out);
                    proof {
                        if let Some((_, ls)) = self.control.status_outcome() {
                            if old(out).records() {
                                assert(out.lines() =~= old(out).lines() + (ls + failure_lines(e, "status"@)));
                            }
                        }
                        if old(out).records() {
                            let fl = failure_lines(e, "status"@);
                            assert(out.lines().subrange(out.lines().len() - fl.len(), out.lines().len() as int) =~= fl);
                            assert forall|e2: PfControlError| r == #[trigger] pf_failure(e2) implies e2 == e by {
                                assert(machine_for(e2) == machine_for(e));
                            }
                        }
                    }
                    r
                },
            },
            PfMessage::Export => match self.control.export(out) {
                Ok(()) => {
                    out.write_str("sos-code: OK");
                    proof {
                        if let Some((_, ls)) = self.control.export_outcome() {
                            if old(out).records() {
                                assert(out.lines() =~= old(out).lines() + ls.push("sos-code: OK"@));
                            }
                        }
                    }
                    PfResult { code: 0, machine: MachineErrorCode::Success }
                },
                Err(e) => {
                    let r = pf_err(e, "export", out);
                    proof {
                        if let Some((_, ls)) = self.control.export_outcome() {
                            if old(out).records() {
                                assert(out.lines() =~= old(out).lines() + (ls + failure_lines(e, "export"@)));
                            }
                        }
                        if old(out).records() {
                            let fl = failure_lines(e, "export"@);
                            assert(out.lines().subrange(out.lines().len() - fl.len(), out.lines().len() as int) =~= fl);
                            assert forall|e2: PfControlError| r == #[trigger] pf_failure(e2) implies e2 == e by {
                                assert(machine_for(e2) == machine_for(e));
                            }
                        }
                    }
                    r
                },
            },
        }
    }
}

/// The subcommand an argument names.
pub open spec fn sos_pf_message(arg: Seq<char>) -> Option<PfMessage> {
    if arg == "check"@ {
        Some(PfMessage::Check)
    } else if arg == "apply"@ {
        Some(PfMessage::Apply)
    } else if arg == "status"@ {
        Some(PfMessage::Status)
    } else if arg == "export"@ || arg == "export-running"@ {
        Some(PfMessage::Export)
    } else {
        None
    }
}

/// The subcommands the usage line lists, in its order.
pub open spec fn usage_subcommands() -> Seq<Seq<char>> {
    seq!["check"@, "apply"@, "status"@, "export"@, "export-running"@]
}

/// Every subcommand the usage line lists is dispatched to the service, each
/// to the request it names, and "export-running" is the same request as
/// "export"; the usage line is exactly those subcommands.
pub proof fn lemma_usage_subcommands_dispatch(w: Seq<char>)
    ensures
        usage_subcommands().contains(w) ==> sos_pf_message(w) is Some,
        sos_pf_message("export"@) == sos_pf_message("export-running"@),
        sos_pf_message("check"@) == Some(PfMessage::Check),
        sos_pf_message("apply"@) == Some(PfMessage::Apply),
        sos_pf_message("status"@) == Some(PfMessage::Status),
        sos_pf_message("export"@) == Some(PfMessage::Export),
        "usage: sos-pf <check|apply|status|export|export-running>"@
            == "usage: sos-pf <"@ + usage_subcommands()[0] + "|"@ + usage_subcommands()[1] + "|"@
                + usage_subcommands()[2] + "|"@ + usage_subcommands()[3] + "|"@ + usage_subcommands()[4] + ">"@,
{
    reveal_strlit("check");
    reveal_strlit("apply");
    reveal_strlit("status");
    reveal_strlit("export");
    reveal_strlit("export-running");
    reveal_strlit("usage: sos-pf <check|apply|status|export|export-running>");
    reveal_strlit("usage: sos-pf <");
    reveal_strlit("|");
    reveal_strlit(">");
    assert("apply"@[0] != "check"@[0]);
    assert("status"@[0] != "check"@[0] && "status"@[0] != "apply"@[0]);
    assert("export"@[0] != "check"@[0] && "export"@[0] != "apply"@[0] && "export"@[0] != "status"@[0]);
    assert("export-running"@[0] != "check"@[0] && "export-running"@[0] != "apply"@[0]
        && "export-running"@[0] != "status"@[0] && "export-running"@.len() != "export"@.len());
    let u = usage_subcommands();
    if u.contains(w) {
        let i = choose|i: int| 0 <= i < u.len() && u[i] == w;
        assert(i == 0 || i == 1 || i == 2 || i == 3 || i == 4);
    }
    assert("usage: sos-pf <check|apply|status|export|export-running>"@
        =~= "usage: sos-pf <"@ + u[0] + "|"@ + u[1] + "|"@ + u[2] + "|"@ + u[3] + "|"@ + u[4] + ">"@);
}

/// The `sos-pf` console program over a packet-filter service.
pub struct SosPfProgram<S: PfService> {
    pf_service: S,
}

impl<S: PfService> SosPfProgram<S> {
    /// The service the program drives.
    pub closed spec fn service(&self) -> S {
        self.pf_service
    }

    /// The program over `pf_service`.
    pub fn new(pf_service: S) -> (p: Self)
        ensures
            p.service() == pf_service,
    {
        SosPfProgram { pf_service }
    }
}

impl<S: PfService> Program for SosPfProgram<S> {
    open spec fn describe(&self) -> DescriptorView {
        DescriptorView {
            name: "sos-pf"@,
            version: "0.1.0"@,
            abi: ProgramAbi { major: 1, minor: 0 },
            summary: "packet filter control and observability"@,
        }
    }

    open spec fn execute_outcome(&self, args: Seq<Seq<char>>) -> Option<(i32, Seq<Seq<char>>)> {
        if args.len() == 0 || args[0] == "help"@ {
            Some((0, seq!["usage: sos-pf <check|apply|status|export|export-running>"@, "sos-code: OK"@]))
        } else {
            match sos_pf_message(args[0]) {
                None => Some((2, seq!["sos-pf: unknown subcommand"@, "sos-code: INVALID_COMMAND"@])),
                Some(m) => match self.service().handle_outcome(m) {
                    Some((res, ls)) => Some((res.code, ls)),
                    None => None,
                },
            }
        }
    }

    fn descriptor(&self) -> (d: ProgramDescriptor<'_>) {
        ProgramDescriptor {
            name: "sos-pf",
            version: "0.1.0",
            abi: ProgramAbi { major: 1, minor: 0 },
            summary: "packet filter control and observability",
        }
    }

    /// With no argument or "help", writes the usage; with an unknown
    /// subcommand, says so and returns 2; otherwise hands the request to
    /// the service and returns its code.
    fn execute<W: ConsoleWriter>(&mut self, args: &[&str], out: &mut W) -> (r: i32)
        ensures
            old(out).records() ==> final(out).records(),
            (args@.len() == 0 || args@[0]@ == "help"@) ==> r == 0
                && wrote(*old(out), *final(out), seq!["usage: sos-pf <check|apply|status|export|export-running>"@, "sos-code: OK"@]),
            (args@.len() > 0 && args@[0]@ != "help"@ && sos_pf_message(args@[0]@) is None) ==> r == 2
                && wrote(*old(out), *final(out), seq!["sos-pf: unknown subcommand"@, "sos-code: INVALID_COMMAND"@]),
    {
        if args.len() == 0 || str_eq(args[0], "help") {
            out.write_str("usage: sos-pf <check|apply|status|export|export-running>");
            out.write_str("sos-code: OK");
            proof {
                if old(out).records() {
                    assert(out.lines() =~= old(out).lines()
                        + seq!["usage: sos-pf <check|apply|status|export|export-running>"@, "sos-code: OK"@]);
                }
            }
            return 0;
        }
        let a = args[0];
        let msg = if str_eq(a, "check") {
            PfMessage::Check
        } else if str_eq(a, "apply") {
            PfMessage::Apply
        } else if str_eq(a, "status") {
            PfMessage::Status
        } else if str_eq(a, "export") || str_eq(a, "export-running") {
            PfMessage::Export
        } else {
            out.write_str("sos-pf: unknown subcommand");
            out.write_str("sos-code: INVALID_COMMAND");
            proof {
                if old(out).records() {
                    assert(out.lines() =~= old(out).lines() + seq!["sos-pf: unknown subcommand"@, "sos-code: INVALID_COMMAND"@]);
                }
            }
            return 2;
        };
        self.pf_service.handle(msg, out).code
    }
}

} // verus!
