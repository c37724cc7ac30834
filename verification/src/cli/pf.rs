//! The `sos-pf` tool: its arguments.
use vstd::prelude::*;
use vstd::string::*;
use crate::cli::args::arg_texts;
use crate::console::text::str_eq;

verus! {

/// The config path the options from `i` on give, or `None` when they are
/// refused (a missing value, help, or anything but `--config`).
pub open spec fn pf_scan(args: Seq<Seq<char>>, i: int, config: Option<Seq<char>>) -> Option<Option<Seq<char>>>
    decreases args.len() - i,
{
    if i < 0 || i >= args.len() {
        Some(config)
    } else if args[i] == "--config"@ {
        if i + 1 >= args.len() {
            None
        } else {
            pf_scan(args, i + 2, Some(args[i + 1]))
        }
    } else {
        None
    }
}

/// The command and config path a command line asks for: "check", "apply"
/// and "export" need `--config <path>`, "export-running" takes none.
pub open spec fn pf_args(args: Seq<Seq<char>>) -> Option<(Seq<char>, Option<Seq<char>>)> {
    if args.len() < 2 {
        None
    } else {
        let cmd = args[1];
        match pf_scan(args, 2, None) {
            None => None,
            Some(config) => if cmd == "check"@ || cmd == "apply"@ || cmd == "export"@ {
                if config is Some { Some((cmd, config)) } else { None }
            } else if cmd == "export-running"@ {
                if config is None { Some((cmd, config)) } else { None }
            } else {
                None
            },
        }
    }
}

/// Parses the command line of `sos-pf`.
pub fn parse_args(args: &[String]) -> (r: Result<(String, Option<String>), ()>)
    ensures
        match pf_args(arg_texts(args@)) {
            Some((cmd, config)) => r matches Ok((c, p)) && c@ == cmd && match p {
                Some(x) => config == Some(x@),
                None => config is None,
            },
            None => r is Err,
        },
{
    let ghost a = arg_texts(args@);
    if args.len() < 2 {
        return Err(());
    }
    let cmd = args[1].clone();
    let mut config: Option<String> = None;
    let mut i: usize = 2;
    while i < args.len()
        invariant
            2 <= i,
            a == arg_texts(args@),
            pf_scan(a, 2, None) == pf_scan(a, i as int, match config {
                Some(s) => Some(s@),
                None => None::<Seq<char>>,
            }),
        decreases args@.len() - i,
    {
        if str_eq(args[i].as_str(), "--config") {
            if i + 1 >= args.len() {
                return Err(());
            }
            config = Some(args[i + 1].clone());
            i = i + 2;
        } else {
            return Err(());
        }
    }
    let c = cmd.as_str();
    if str_eq(c, "check") || str_eq(c, "apply") || str_eq(c, "export") {
        if config.is_none() {
            return Err(());
        }
    } else if str_eq(c, "export-running") {
        if config.is_some() {
            return Err(());
        }
    } else {
        return Err(());
    }
    Ok((cmd, config))
}

} // verus!
