//! The console service: built-in commands, history, and dispatch of
//! program command lines; the boot self-check transcript.
use vstd::prelude::*;
use vstd::string::*;
use crate::console::command::{
    history_entry, keep_last, one_line, parse_command_line, printable, push_line, texts, write_lines, wrote, ConsoleError,
    ConsoleHistory, ConsoleWriter, BOOT_PROMPT_BUDGET_MS, HISTORY_CAPACITY, MAX_ARGS,
};
use crate::console::service::{ProgramRequest, ProgramService};
use crate::console::text::{str_eq, strip_prefix_spec, strip_prefix_str, strs_view, trim_spec, trim_str, words};

verus! {

/// The result of the checks run at boot.
#[derive(Clone, Copy, Debug, PartialEq, Eq, Structural)]
pub struct BootSelfCheckReport {
    pub readiness_ok: bool,
    pub fsck_ok: bool,
    pub pf_ok: bool,
}

/// The transcript of a boot self-check.
pub open spec fn transcript_lines(r: BootSelfCheckReport) -> Seq<Seq<char>> {
    seq![
        "boot-self-check:"@,
        if r.readiness_ok { "  readiness: ok"@ } else { "  readiness: fail"@ },
        if r.fsck_ok { "  fsck: ok"@ } else { "  fsck: fail"@ },
        if r.pf_ok { "  packet-filter: ok"@ } else { "  packet-filter: fail"@ },
    ]
}

impl BootSelfCheckReport {
    /// Every check passed.
    pub fn all_ok() -> (r: Self)
        ensures
            r == (BootSelfCheckReport { readiness_ok: true, fsck_ok: true, pf_ok: true }),
    {
        BootSelfCheckReport { readiness_ok: true, fsck_ok: true, pf_ok: true }
    }

    /// One line per check, each "ok" or "fail", after a header.
    pub fn transcript(&self) -> (v: Vec<String>)
        ensures
            texts(v@) == transcript_lines(*self),
    {
        let mut v = one_line("boot-self-check:");
        if self.readiness_ok {
            push_line(&mut v, "  readiness: ok");
        } else {
            push_line(&mut v, "  readiness: fail");
        }
        if self.fsck_ok {
            push_line(&mut v, "  fsck: ok");
        } else {
            push_line(&mut v, "  fsck: fail");
        }
        if self.pf_ok {
            push_line(&mut v, "  packet-filter: ok");
        } else {
            push_line(&mut v, "  packet-filter: fail");
        }
        assert(texts(v@) =~= transcript_lines(*self));
        v
    }

    /// Writes the lines of `transcript`.
    pub fn write_transcript<W: ConsoleWriter>(&self, out: &mut W)
        ensures
            wrote(*old(out), *final(out), transcript_lines(*self)),
    {
        let lines = self.transcript();
        write_lines(out, &lines);
    }
}

/// The lines the console writes when the program service fails with `e`.
pub open spec fn error_lines(e: ConsoleError) -> Seq<Seq<char>> {
    match e {
        ConsoleError::UnknownProgram => seq!["console: unknown program"@, "sos-code: UNKNOWN_PROGRAM"@],
        ConsoleError::TooManyArgs => seq!["console: too many args"@, "sos-code: INVALID_COMMAND"@],
        ConsoleError::Empty => Seq::empty(),
        ConsoleError::SpawnFailed => seq!["console: spawn failed"@, "sos-code: INVALID_COMMAND"@],
        ConsoleError::WaitFailed => seq!["console: wait failed"@, "sos-code: INVALID_COMMAND"@],
    }
}

/// The exit code the console gives when the program service fails with `e`.
pub open spec fn error_code(e: ConsoleError) -> i32 {
    match e {
        ConsoleError::Empty => 0,
        _ => 2,
    }
}

/// A clock counting milliseconds since boot.
pub trait MonotonicClock {
    fn now_millis(&self) -> u64;
}

/// Whether the prompt came later than the boot budget allows.
pub fn boot_prompt_budget_exceeded(start_millis: u64) -> (r: bool)
    ensures
        r == (start_millis > BOOT_PROMPT_BUDGET_MS),
{
    start_millis > BOOT_PROMPT_BUDGET_MS
}

/// The history after running `line`: its trimmed text is recorded unless
/// it is empty.
pub open spec fn history_after(h: Seq<Option<Seq<char>>>, line: Seq<char>) -> Seq<Option<Seq<char>>> {
    let t = trim_spec(line);
    if t.len() > 0 { keep_last(h.push(history_entry(t)), HISTORY_CAPACITY as nat) } else { h }
}

/// Whether a trimmed line is one of the console's own commands.
pub open spec fn is_builtin(t: Seq<char>) -> bool {
    t == "help"@ || strip_prefix_spec(t, "help "@) is Some || t == "programs"@ || t == "history"@
}

/// The console's own help text.
pub open spec fn console_help_lines() -> Seq<Seq<char>> {
    seq!["console commands:"@, "help"@, "help <program>"@, "programs"@, "history"@, "<program> <args...>"@]
}

/// The console: its history and the program service it dispatches to.
pub struct ConsoleService<P: ProgramService> {
    program_service: P,
    history: ConsoleHistory,
}

impl<P: ProgramService> ConsoleService<P> {
    /// The program service.
    pub closed spec fn service(&self) -> P {
        self.program_service
    }

    /// The recorded command lines.
    pub closed spec fn history(&self) -> Seq<Option<Seq<char>>> {
        self.history@
    }

    /// A console over `program_service` with an empty history.
    pub fn new(program_service: P) -> (c: Self)
        ensures
            c.service() == program_service,
            c.history() == Seq::<Option<Seq<char>>>::empty(),
    {
        ConsoleService { program_service, history: ConsoleHistory::new() }
    }

    /// Runs one line and returns its exit code. "help", "help <program>",
    /// "programs" and "history" are the console's own; any other line is
    /// parsed and executed as a program, failures reported with a
    /// machine-readable code line.
    pub fn run_once<W: ConsoleWriter>(&mut self, line: &str, out: &mut W) -> (r: i32)
        ensures
            final(self).history() == history_after(old(self).history(), line@),
            old(out).records() ==> final(out).records(),
            trim_spec(line@) == "help"@ ==> r == 0 && wrote(*old(out), *final(out), console_help_lines()),
            trim_spec(line@) != "help"@ ==> match strip_prefix_spec(trim_spec(line@), "help "@) {
                Some(rest) => match old(self).service().program_help(trim_spec(rest)) {
                    None => r == 2 && wrote(*old(out), *final(out), seq!["console: unknown program"@]),
                    Some(ls) => r == 0 && wrote(*old(out), *final(out), ls),
                },
                None => true,
            },
            trim_spec(line@) == "programs"@ ==> r == 0 && wrote(*old(out), *final(out), old(self).service().program_listing()),
            trim_spec(line@) == "history"@ ==> r == 0
                && wrote(*old(out), *final(out), seq!["history:"@] + printable(final(self).history())),
            is_builtin(trim_spec(line@)) ==> final(self).service() == old(self).service(),
            !is_builtin(trim_spec(line@)) && words(line@).len() == 0 ==> r == 0
                && final(self).service() == old(self).service() && *final(out) == *old(out),
            !is_builtin(trim_spec(line@)) && words(line@).len() > MAX_ARGS + 1 ==> r == 2
                && final(self).service() == old(self).service()
                && wrote(*old(out), *final(out), seq!["console: too many args"@, "sos-code: INVALID_COMMAND"@]),
            !is_builtin(trim_spec(line@)) && 1 <= words(line@).len() <= MAX_ARGS + 1 ==> (
                old(self).service().execute_outcome(words(line@)[0], words(line@).subrange(1, words(line@).len() as int))
                    matches Some((o, ls)) ==> match o {
                    Ok(c) => r == c && wrote(*old(out), *final(out), ls),
                    Err(e) => r == error_code(e) && wrote(*old(out), *final(out), error_lines(e)),
                }),
    {
        proof {
            reveal_strlit("help");
            reveal_strlit("help ");
            reveal_strlit("programs");
            reveal_strlit("history");
            assert("programs"@.subrange(0, 5)[0] != "help "@[0]);
            assert("history"@.subrange(0, 5)[1] != "help "@[1]);
            assert(strip_prefix_spec("programs"@, "help "@) is None);
            assert(strip_prefix_spec("history"@, "help "@) is None);
        }
        let trimmed = trim_str(line);
        if !trimmed.is_empty() {
            self.history.push(trimmed);
        }
        if str_eq(trimmed, "help") {
            out.write_str("console commands:");
            out.write_str("help");
            out.write_str("help <program>");
            out.write_str("programs");
            out.write_str("history");
            out.write_str("<program> <args...>");
            proof {
                if old(out).records() {
                    assert(out.lines() =~= old(out).lines() + console_help_lines());
                }
            }
            return 0;
        }
        match strip_prefix_str(trimmed, "help ") {
            Some(name) => {
                return match self.program_service.describe_program(trim_str(name), out) {
                    Ok(()) => 0,
                    Err(ConsoleError::UnknownProgram) => {
                        out.write_str("console: unknown program");
                        proof {
                            if old(out).records() {
                                assert(out.lines() =~= old(out).lines() + seq!["console: unknown program"@]);
                            }
                        }
                        2
                    },
                    Err(_) => 2,
                };
            },
            None => {},
        }
        if str_eq(trimmed, "programs") {
            self.program_service.list_programs(out);
            return 0;
        }
        if str_eq(trimmed, "history") {
            self.history.dump(out);
            return 0;
        }
        let parsed = match parse_command_line(line) {
            Ok(v) => v,
            Err(ConsoleError::Empty) => return 0,
            Err(ConsoleError::TooManyArgs) => {
                out.write_str("console: too many args");
                out.write_str("sos-code: INVALID_COMMAND");
                proof {
                    if old(out).records() {
                        assert(out.lines() =~= old(out).lines() + seq!["console: too many args"@, "sos-code: INVALID_COMMAND"@]);
                    }
                }
                return 2;
            },
            Err(ConsoleError::UnknownProgram) => {
                out.write_str("console: unknown program");
                out.write_str("sos-code: UNKNOWN_PROGRAM");
                return 2;
            },
            Err(_) => return 2,
        };
        let args = parsed.args();
        let mut argv: [&str; 8] = [""; 8];
        let mut i: usize = 0;
        while i < args.len()
            invariant
                i <= args@.len(),
                args@.len() <= MAX_ARGS,
                forall|k: int| 0 <= k < i ==> argv@[k] == args@[k],
            decreases args@.len() - i,
        {
            argv[i] = args[i];
            i = i + 1;
        }
        let program = parsed.program_name();
        proof {
            assert(strs_view(argv@.take(args@.len() as int)) =~= words(line@).subrange(1, words(line@).len() as int));
        }
        let req = ProgramRequest::Execute { program, args: argv, argc: args.len() };
        let res = self.program_service.handle(req, out);
        let ghost mid = *out;
        let code = match res {
            Ok(resp) => {
                // The run has ended: collect it so that it does not keep a
                // task slot.
                match resp.handle {
                    Some(h) => {
                        let _ = self.program_service.handle(ProgramRequest::Wait { handle: h }, out);
                    },
                    None => {},
                }
                resp.exit_code
            },
            Err(ConsoleError::UnknownProgram) => {
                out.write_str("console: unknown program");
                out.write_str("sos-code: UNKNOWN_PROGRAM");
                2
            },
            Err(ConsoleError::TooManyArgs) => {
                out.write_str("console: too many args");
                out.write_str("sos-code: INVALID_COMMAND");
                2
            },
            Err(ConsoleError::Empty) => 0,
            Err(ConsoleError::SpawnFailed) => {
                out.write_str("console: spawn failed");
                out.write_str("sos-code: INVALID_COMMAND");
                2
            },
            Err(ConsoleError::WaitFailed) => {
                out.write_str("console: wait failed");
                out.write_str("sos-code: INVALID_COMMAND");
                2
            },
        };
        proof {
            if let Err(e) = res {
                assert(code == error_code(e));
                if mid.records() {
                    assert(out.lines() =~= mid.lines() + error_lines(e));
                }
            }
        }
        code
    }

    /// One turn of the console loop after its prompt: runs the line read,
    /// adding "console: command failed" when it exits non-zero, or reports
    /// that the reader had no line.
    pub fn run_input<W: ConsoleWriter>(&mut self, line: Option<&str>, out: &mut W) -> (r: Option<i32>)
        ensures
            line is None ==> r is None && final(self).history() == old(self).history()
                && final(self).service() == old(self).service()
                && wrote(*old(out), *final(out), seq!["console: reader unavailable"@]),
            line matches Some(l) ==> r is Some && final(self).history() == history_after(old(self).history(), l@),
            r matches Some(code) && code != 0 && old(out).records() ==> final(out).records()
                && final(out).lines().last() == "console: command failed"@,
    {
        match line {
            Some(l) => {
                let code = self.run_once(l, out);
                if code != 0 {
                    out.write_str("console: command failed");
                }
                Some(code)
            },
            None => {
                out.write_str("console: reader unavailable");
                proof {
                    if old(out).records() {
                        assert(out.lines() =~= old(out).lines() + seq!["console: reader unavailable"@]);
                    }
                }
                None
            },
        }
    }
}

} // verus!
