use sos::console::{
    parse_command_line, BootSelfCheckReport, ConsoleError, ConsoleHistory, ConsoleReader,
    ConsoleService, ConsoleWriter, KernelPacketFilterControl, MachineErrorCode, MonotonicClock,
    PacketFilterControl, PfControlError, PfMessage, PfResult, PfService, PfServiceImpl, Program,
    ProgramHandle, ProgramRegistry, ProgramRequest, ProgramService, ProgramServiceImpl,
    SosPfProgram, BOOT_PROMPT_BUDGET_MS,
};
use sos::console::shell::boot_prompt_budget_exceeded;
use sos::console::LineBuffer;

struct BufOut {
    lines: std::vec::Vec<String>,
}

impl BufOut {
    fn new() -> Self {
        Self {
            lines: std::vec::Vec::new(),
        }
    }
}

impl ConsoleWriter for BufOut {
    fn write_str(&mut self, s: &str) {
        self.lines.push(s.to_string());
    }
}

struct SeqReader {
    lines: std::vec::Vec<&'static str>,
    idx: usize,
}

impl SeqReader {
    fn new(lines: std::vec::Vec<&'static str>) -> Self {
        Self { lines, idx: 0 }
    }
}

impl ConsoleReader for SeqReader {
    fn read_line(&mut self, buf: &mut [u8]) -> Option<usize> {
        if self.idx >= self.lines.len() {
            return None;
        }
        let line = self.lines[self.idx];
        self.idx += 1;
        let bytes = line.as_bytes();
        let n = core::cmp::min(bytes.len(), buf.len());
        buf[..n].copy_from_slice(&bytes[..n]);
        Some(n)
    }
}

struct FixedClock(u64);

impl MonotonicClock for FixedClock {
    fn now_millis(&self) -> u64 {
        self.0
    }
}

struct FailingControl;

impl PacketFilterControl for FailingControl {
    fn check(&self) -> Result<(), PfControlError> {
        Err(PfControlError::Timeout)
    }
    fn apply(&mut self) -> Result<(), PfControlError> {
        Err(PfControlError::Unsupported)
    }
    fn status<W: ConsoleWriter>(&self, _out: &mut W) -> Result<(), PfControlError> {
        Err(PfControlError::InvalidPolicy)
    }
    fn export<W: ConsoleWriter>(&self, _out: &mut W) -> Result<(), PfControlError> {
        Err(PfControlError::InvalidPolicy)
    }
}

fn sos_pf() -> SosPfProgram<PfServiceImpl<KernelPacketFilterControl>> {
    SosPfProgram::new(PfServiceImpl::new(KernelPacketFilterControl::new()))
}

#[test]
fn parse_command_line_splits_program_and_args() {
    let parsed = parse_command_line("sos-pf check").expect("parse");
    assert_eq!(parsed.program, "sos-pf");
    assert_eq!(parsed.args(), ["check"]);
}

#[test]
fn parse_command_line_rejects_empty() {
    let err = parse_command_line("    ").expect_err("must fail");
    assert_eq!(err, ConsoleError::Empty);
}

#[test]
fn parse_command_line_rejects_too_many_args() {
    let err = parse_command_line("sos-pf a b c d e f g h i").expect_err("must fail");
    assert_eq!(err, ConsoleError::TooManyArgs);
}

#[test]
fn parse_command_line_accepts_eight_args_and_mixed_whitespace() {
    let parsed = parse_command_line("\tprog  a b\nc d e f g h \r").expect("parse");
    assert_eq!(parsed.program, "prog");
    assert_eq!(parsed.args(), ["a", "b", "c", "d", "e", "f", "g", "h"]);
    let single = parse_command_line("solo").expect("parse");
    assert_eq!(single.program, "solo");
    assert!(single.args().is_empty());
    assert_eq!(parse_command_line("").unwrap_err(), ConsoleError::Empty);
}

#[test]
fn registry_dispatches_sos_pf_program() {
    let prog = sos_pf();
    let mut registry: ProgramRegistry<_, 1> = ProgramRegistry::new([prog]);
    let mut out = BufOut::new();
    let code = registry
        .execute_line("sos-pf check", &mut out)
        .expect("dispatch");
    assert_eq!(code, 0);
    assert!(out.lines.iter().any(|line| line == "sos-pf: check ok"));
    assert!(out.lines.iter().any(|line| line == "sos-code: OK"));
}

#[test]
fn registry_run_writes_exactly_the_program_lines() {
    let prog = sos_pf();
    let mut registry: ProgramRegistry<_, 1> = ProgramRegistry::new([prog]);
    let mut out = BufOut::new();
    assert_eq!(registry.execute_line("sos-pf check", &mut out), Ok(0));
    assert_eq!(out.lines, vec!["sos-pf: check ok".to_string(), "sos-code: OK".to_string()]);
    let mut out2 = BufOut::new();
    assert_eq!(registry.execute_line("unknown cmd", &mut out2), Err(ConsoleError::UnknownProgram));
    assert!(out2.lines.is_empty());
}

#[test]
fn registry_rejects_unknown_program() {
    let prog = sos_pf();
    let mut registry: ProgramRegistry<_, 1> = ProgramRegistry::new([prog]);
    let mut out = BufOut::new();
    let err = registry
        .execute_line("unknown cmd", &mut out)
        .expect_err("unknown program");
    assert_eq!(err, ConsoleError::UnknownProgram);
    assert!(out.lines.is_empty());
}

#[test]
fn registry_lists_and_describes_programs() {
    let registry: ProgramRegistry<_, 1> = ProgramRegistry::new([sos_pf()]);
    let mut out = BufOut::new();
    registry.write_programs(&mut out);
    assert_eq!(out.lines, ["programs:", "sos-pf"]);
    out.lines.clear();
    assert_eq!(registry.write_program_help("sos-pf", &mut out), Ok(()));
    assert_eq!(
        out.lines,
        [
            "program:",
            "sos-pf",
            "version:",
            "0.1.0",
            "abi:",
            "1.0",
            "summary:",
            "packet filter control and observability"
        ]
    );
    assert!(registry.find_program("sos-pf").is_some());
    assert!(registry.find_program("other").is_none());
    assert_eq!(
        registry.write_program_help("other", &mut out),
        Err(ConsoleError::UnknownProgram)
    );
}

#[test]
fn program_service_handles_execute_spawn_wait_terminate() {
    let prog = sos_pf();
    let registry: ProgramRegistry<_, 1> = ProgramRegistry::new([prog]);
    let mut ps = ProgramServiceImpl::new(registry);
    let mut out = BufOut::new();

    let exec_req = ProgramRequest::Execute {
        program: "sos-pf",
        args: ["check", "", "", "", "", "", "", ""],
        argc: 1,
    };
    let exec = ps.handle(exec_req, &mut out).expect("execute");
    assert_eq!(exec.exit_code, 0);
    let handle = exec.handle.expect("handle");

    let wait = ps
        .handle(ProgramRequest::Wait { handle }, &mut out)
        .expect("wait");
    assert_eq!(wait.exit_code, 0);

    let spawned = ps
        .handle(
            ProgramRequest::Spawn {
                program: "sos-pf",
                args: ["status", "", "", "", "", "", "", ""],
                argc: 1,
            },
            &mut out,
        )
        .expect("spawn");
    let spawn_handle = spawned.handle.expect("spawn handle");
    let _ = ps
        .handle(
            ProgramRequest::Terminate {
                handle: spawn_handle,
            },
            &mut out,
        )
        .expect("terminate");
}

#[test]
fn program_service_reports_unknown_runs_and_full_task_table() {
    let registry: ProgramRegistry<_, 1> = ProgramRegistry::new([sos_pf()]);
    let mut ps = ProgramServiceImpl::new(registry);
    let mut out = BufOut::new();
    let unknown = ProgramHandle { pid: 77 };
    assert_eq!(
        ps.handle(ProgramRequest::Wait { handle: unknown }, &mut out),
        Err(ConsoleError::WaitFailed)
    );
    assert_eq!(
        ps.handle(ProgramRequest::Terminate { handle: unknown }, &mut out),
        Err(ConsoleError::WaitFailed)
    );
    let exec = ProgramRequest::Execute {
        program: "nope",
        args: [""; 8],
        argc: 0,
    };
    assert_eq!(ps.handle(exec, &mut out), Err(ConsoleError::UnknownProgram));
    let spawn = ProgramRequest::Spawn {
        program: "sos-pf",
        args: [""; 8],
        argc: 0,
    };
    // A run of an unknown program does not keep its task slot.
    let mut last = None;
    for _ in 0..8 {
        last = ps.handle(spawn, &mut out).expect("spawn").handle;
    }
    assert_eq!(last, Some(ProgramHandle { pid: 9 }));
    assert_eq!(ps.handle(spawn, &mut out), Err(ConsoleError::SpawnFailed));
    let waited = ps
        .handle(ProgramRequest::Wait { handle: ProgramHandle { pid: 9 } }, &mut out)
        .expect("wait on spawned");
    assert_eq!(waited.exit_code, 0);
    assert_eq!(waited.machine, MachineErrorCode::Success);
}

#[test]
fn console_service_runs_one_command() {
    let prog = sos_pf();
    let registry: ProgramRegistry<_, 1> = ProgramRegistry::new([prog]);
    let ps = ProgramServiceImpl::new(registry);
    let mut cs = ConsoleService::new(ps);
    let mut out = BufOut::new();

    let code = cs.run_once("sos-pf export-running", &mut out);
    assert_eq!(code, 0);
    assert!(out.lines.iter().any(|l| l == "sos-pf:"));
}

#[test]
fn console_help_programs_program_help_and_history() {
    let prog = sos_pf();
    let registry: ProgramRegistry<_, 1> = ProgramRegistry::new([prog]);
    let ps = ProgramServiceImpl::new(registry);
    let mut cs = ConsoleService::new(ps);
    let mut out = BufOut::new();

    assert_eq!(cs.run_once("help", &mut out), 0);
    assert!(out.lines.iter().any(|l| l == "console commands:"));

    out.lines.clear();
    assert_eq!(cs.run_once("programs", &mut out), 0);
    assert!(out.lines.iter().any(|l| l == "programs:"));
    assert!(out.lines.iter().any(|l| l == "sos-pf"));

    out.lines.clear();
    assert_eq!(cs.run_once("help sos-pf", &mut out), 0);
    assert!(out.lines.iter().any(|l| l == "program:"));
    assert!(out
        .lines
        .iter()
        .any(|l| l == "packet filter control and observability"));

    out.lines.clear();
    let _ = cs.run_once("sos-pf status", &mut out);
    let _ = cs.run_once("history", &mut out);
    assert!(out.lines.iter().any(|l| l == "history:"));
    assert!(out.lines.iter().any(|l| l == "sos-pf status"));
}

#[test]
fn console_reports_errors_with_codes() {
    let registry: ProgramRegistry<_, 1> = ProgramRegistry::new([sos_pf()]);
    let mut cs = ConsoleService::new(ProgramServiceImpl::new(registry));
    let mut out = BufOut::new();
    assert_eq!(cs.run_once("help nothing", &mut out), 2);
    assert_eq!(out.lines, ["console: unknown program"]);
    out.lines.clear();
    assert_eq!(cs.run_once("sos-pf a b c d e f g h i", &mut out), 2);
    assert_eq!(out.lines, ["console: too many args", "sos-code: INVALID_COMMAND"]);
    out.lines.clear();
    assert_eq!(cs.run_once("ghost", &mut out), 2);
    assert_eq!(out.lines, ["console: unknown program", "sos-code: UNKNOWN_PROGRAM"]);
    out.lines.clear();
    assert_eq!(cs.run_once("   ", &mut out), 0);
    assert!(out.lines.is_empty());
    assert_eq!(cs.run_once("sos-pf bogus", &mut out), 2);
    assert_eq!(out.lines, ["sos-pf: unknown subcommand", "sos-code: INVALID_COMMAND"]);
    out.lines.clear();
    assert_eq!(cs.run_input(None, &mut out), None);
    assert_eq!(out.lines, ["console: reader unavailable"]);
    out.lines.clear();
    assert_eq!(cs.run_input(Some("ghost"), &mut out), Some(2));
    assert_eq!(out.lines.last().map(|s| s.as_str()), Some("console: command failed"));
}

#[test]
fn history_keeps_last_sixteen_lines() {
    let mut h = ConsoleHistory::new();
    h.push("");
    for i in 0..20 {
        h.push(&format!("cmd {}", i));
    }
    let mut out = BufOut::new();
    h.dump(&mut out);
    assert_eq!(out.lines.len(), 17);
    assert_eq!(out.lines[0], "history:");
    assert_eq!(out.lines[1], "cmd 4");
    assert_eq!(out.lines[16], "cmd 19");
    let mut long = ConsoleHistory::new();
    long.push(&"x".repeat(200));
    long.push(&format!("{}é", "y".repeat(127)));
    let mut out2 = BufOut::new();
    long.dump(&mut out2);
    assert_eq!(out2.lines, ["history:".to_string(), "x".repeat(128)]);
}

#[test]
fn console_reader_sequence_works() {
    let mut reader = SeqReader::new(std::vec!["sos-pf check", "sos-pf apply"]);
    let mut buf = [0u8; 64];
    let first = reader.read_line(&mut buf).expect("first");
    assert_eq!(
        core::str::from_utf8(&buf[..first]).expect("utf8"),
        "sos-pf check"
    );
    let second = reader.read_line(&mut buf).expect("second");
    assert_eq!(
        core::str::from_utf8(&buf[..second]).expect("utf8"),
        "sos-pf apply"
    );
    assert!(reader.read_line(&mut buf).is_none());
}

#[test]
fn kernel_pf_apply_increments_generation_and_export_state() {
    let mut control = KernelPacketFilterControl::new();
    let mut out = BufOut::new();

    assert!(control.check().is_ok());
    assert!(control.apply().is_ok());
    assert!(control.export(&mut out).is_ok());

    assert!(out.lines.iter().any(|l| l == "sos-pf-runtime:"));
    assert!(out.lines.iter().any(|l| l == "  state: applied"));
    assert!(out.lines.iter().any(|l| l == "  generation: 1"));
}

#[test]
fn kernel_pf_status_before_apply_is_staged() {
    let control = KernelPacketFilterControl::new();
    let mut out = BufOut::new();
    assert_eq!(control.status(&mut out), Ok(()));
    assert_eq!(
        out.lines,
        ["sos-pf-runtime:", "  state: staged", "  generation: 0"]
    );
    out.lines.clear();
    assert_eq!(control.export(&mut out), Ok(()));
    assert_eq!(out.lines.len(), 3 + 13);
    assert_eq!(out.lines[3], "sos-pf:");
    assert_eq!(out.lines[15], "              comment: runtime bootstrap policy");
}

#[test]
fn sos_pf_status_shows_exact_generation() {
    let mut control = KernelPacketFilterControl::new();
    assert!(control.apply().is_ok());
    assert!(control.apply().is_ok());

    let svc = PfServiceImpl::new(control);
    let prog = SosPfProgram::new(svc);
    let registry: ProgramRegistry<_, 1> = ProgramRegistry::new([prog]);
    let ps = ProgramServiceImpl::new(registry);
    let mut cs = ConsoleService::new(ps);
    let mut out = BufOut::new();

    let code = cs.run_once("sos-pf status", &mut out);
    assert_eq!(code, 0);
    assert!(out.lines.iter().any(|l| l == "  generation: 2"));
}

#[test]
fn pf_service_reports_failures_with_machine_codes() {
    let mut svc = PfServiceImpl::new(FailingControl);
    let mut out = BufOut::new();
    let r = svc.handle(PfMessage::Check, &mut out);
    assert_eq!(r, PfResult { code: 2, machine: MachineErrorCode::PfTimeout });
    assert_eq!(
        out.lines,
        ["sos-pf: operation failed", "check", "timeout", "sos-code: PF_TIMEOUT"]
    );
    out.lines.clear();
    let r = svc.handle(PfMessage::Apply, &mut out);
    assert_eq!(r, PfResult { code: 2, machine: MachineErrorCode::PfUnsupported });
    assert_eq!(out.lines[3], "sos-code: PF_UNSUPPORTED");
    out.lines.clear();
    let r = svc.handle(PfMessage::Export, &mut out);
    assert_eq!(r, PfResult { code: 2, machine: MachineErrorCode::PfInvalidPolicy });
    assert_eq!(out.lines[1], "export");
    assert_eq!(out.lines[2], "invalid_policy");
    assert_eq!(PfControlError::Timeout.to_string(), "timeout");
}

#[test]
fn sos_pf_program_usage_and_subcommands() {
    let mut prog = sos_pf();
    let mut out = BufOut::new();
    assert_eq!(prog.execute(&[], &mut out), 0);
    assert_eq!(
        out.lines,
        ["usage: sos-pf <check|apply|status|export|export-running>", "sos-code: OK"]
    );
    out.lines.clear();
    assert_eq!(prog.execute(&["apply"], &mut out), 0);
    assert_eq!(out.lines, ["sos-pf: apply ok", "sos-code: OK"]);
    out.lines.clear();
    assert_eq!(prog.execute(&["status"], &mut out), 0);
    assert_eq!(
        out.lines,
        ["sos-pf-runtime:", "  state: applied", "  generation: 1", "sos-code: OK"]
    );
    assert_eq!(prog.descriptor().name, "sos-pf");
}

#[test]
fn boot_self_check_transcript_is_emitted() {
    let report = BootSelfCheckReport::all_ok();
    let mut out = BufOut::new();
    report.write_transcript(&mut out);
    assert!(out.lines.iter().any(|l| l == "boot-self-check:"));
    assert!(out.lines.iter().any(|l| l == "  readiness: ok"));
    assert!(out.lines.iter().any(|l| l == "  fsck: ok"));
    assert!(out.lines.iter().any(|l| l == "  packet-filter: ok"));
}

#[test]
fn boot_self_check_reports_failures() {
    let report = BootSelfCheckReport { readiness_ok: false, fsck_ok: true, pf_ok: false };
    let mut out = BufOut::new();
    report.write_transcript(&mut out);
    assert_eq!(
        out.lines,
        ["boot-self-check:", "  readiness: fail", "  fsck: ok", "  packet-filter: fail"]
    );
}

#[test]
fn prompt_budget_constant_is_enforced_by_contract() {
    let clock = FixedClock(BOOT_PROMPT_BUDGET_MS + 1);
    assert!(clock.now_millis() > BOOT_PROMPT_BUDGET_MS);
    assert!(boot_prompt_budget_exceeded(clock.now_millis()));
    assert!(!boot_prompt_budget_exceeded(BOOT_PROMPT_BUDGET_MS));
}

#[test]
fn line_buffer_records_exact_console_output() {
    let registry: ProgramRegistry<_, 1> = ProgramRegistry::new([sos_pf()]);
    let mut cs = ConsoleService::new(ProgramServiceImpl::new(registry));
    let mut out = LineBuffer::new();
    assert_eq!(cs.run_once("  help  ", &mut out), 0);
    assert_eq!(
        out.contents(),
        &vec![
            "console commands:".to_string(),
            "help".to_string(),
            "help <program>".to_string(),
            "programs".to_string(),
            "history".to_string(),
            "<program> <args...>".to_string(),
        ]
    );
    let mut out = LineBuffer::new();
    assert_eq!(cs.run_once("help nope", &mut out), 2);
    assert_eq!(out.contents(), &vec!["console: unknown program".to_string()]);
    let mut out = LineBuffer::new();
    assert_eq!(cs.run_once("sos-pf check", &mut out), 0);
    assert_eq!(out.contents(), &vec!["sos-pf: check ok".to_string(), "sos-code: OK".to_string()]);
    let mut out = LineBuffer::new();
    assert_eq!(cs.run_once("history", &mut out), 0);
    assert_eq!(
        out.contents(),
        &vec![
            "history:".to_string(),
            "help".to_string(),
            "help nope".to_string(),
            "sos-pf check".to_string(),
            "history".to_string(),
        ]
    );
    let mut out = LineBuffer::new();
    assert_eq!(cs.run_input(None, &mut out), None);
    assert_eq!(out.contents(), &vec!["console: reader unavailable".to_string()]);
    let mut out = LineBuffer::new();
    assert_eq!(cs.run_input(Some("sos-pf bogus"), &mut out), Some(2));
    assert_eq!(
        out.contents(),
        &vec![
            "sos-pf: unknown subcommand".to_string(),
            "sos-code: INVALID_COMMAND".to_string(),
            "console: command failed".to_string(),
        ]
    );
}

#[test]
fn console_keeps_running_programs_past_the_task_table_size() {
    let prog = sos_pf();
    let registry: ProgramRegistry<_, 1> = ProgramRegistry::new([prog]);
    let ps = ProgramServiceImpl::new(registry);
    let mut cs = ConsoleService::new(ps);
    for _ in 0..20 {
        let mut out = BufOut::new();
        assert_eq!(cs.run_once("sos-pf check", &mut out), 0);
        assert!(out.lines.iter().any(|l| l == "sos-pf: check ok"));
    }
    for _ in 0..10 {
        let mut out = BufOut::new();
        assert_eq!(cs.run_once("nope", &mut out), 2);
    }
    let mut out = BufOut::new();
    assert_eq!(cs.run_once("sos-pf check", &mut out), 0);
}
