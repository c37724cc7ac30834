//! The `sos-readiness` tool: its arguments and exit code.
use vstd::prelude::*;
use vstd::string::*;
use crate::cli::args::{arg_error_is, arg_texts, ArgError, ArgProblem};
use crate::console::text::str_eq;

verus! {

/// Whether `--strict` was given, or why the options from `i` on are
/// refused.
pub open spec fn readiness_scan(args: Seq<Seq<char>>, i: int, strict: bool) -> Result<bool, ArgProblem>
    decreases args.len() - i,
{
    if i < 0 || i >= args.len() {
        Ok(strict)
    } else if args[i] == "--strict"@ {
        readiness_scan(args, i + 1, true)
    } else if args[i] == "-h"@ || args[i] == "--help"@ {
        Err(ArgProblem::Help)
    } else {
        Err(ArgProblem::UnknownOption(args[i]))
    }
}

/// Parses the command line of `sos-readiness` (the program name first).
pub fn parse_args(args: &[String]) -> (r: Result<bool, ArgError>)
    requires
        args@.len() >= 1,
    ensures
        match readiness_scan(arg_texts(args@), 1, false) {
            Ok(strict) => r == Ok::<bool, ArgError>(strict),
            Err(e) => r matches Err(x) && arg_error_is(x, e),
        },
{
    let ghost a = arg_texts(args@);
    let mut strict = false;
    let mut i: usize = 1;
    while i < args.len()
        invariant
            1 <= i,
            a == arg_texts(args@),
            readiness_scan(a, 1, false) == readiness_scan(a, i as int, strict),
        decreases args@.len() - i,
    {
        let arg = args[i].as_str();
        if str_eq(arg, "--strict") {
            strict = true;
        } else if str_eq(arg, "-h") || str_eq(arg, "--help") {
            return Err(ArgError::Help);
        } else {
            return Err(ArgError::UnknownOption(args[i].clone()));
        }
        i = i + 1;
    }
    Ok(strict)
}

/// The tool's exit status: 0 when ready, else 2.
pub fn exit_code(ready: bool) -> (code: i32)
    ensures
        code == if ready { 0i32 } else { 2i32 },
{
    if ready {
        0
    } else {
        2
    }
}

} // verus!
