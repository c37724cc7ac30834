//! The `fsck-sosfs` tool: its arguments and exit codes.
use vstd::prelude::*;
use vstd::string::*;
use crate::cli::args::{arg_error_is, arg_texts, ArgError, ArgProblem};
use crate::console::text::str_eq;
use crate::fs::sosfs::SosfsFsckStatus;

verus! {

/// What the options from `i` on leave: the image path and strictness seen
/// so far, or why the command line is refused.
pub open spec fn fsck_scan(args: Seq<Seq<char>>, i: int, image: Option<Seq<char>>, strict: bool)
    -> Result<(Option<Seq<char>>, bool), ArgProblem>
    decreases args.len() - i,
{
    if i < 0 || i >= args.len() {
        Ok((image, strict))
    } else if args[i] == "--image"@ {
        if i + 1 >= args.len() {
            Err(ArgProblem::Usage)
        } else {
            fsck_scan(args, i + 2, Some(args[i + 1]), strict)
        }
    } else if args[i] == "--strict"@ {
        fsck_scan(args, i + 1, image, true)
    } else if args[i] == "-h"@ || args[i] == "--help"@ {
        Err(ArgProblem::Help)
    } else {
        Err(ArgProblem::UnknownOption(args[i]))
    }
}

/// The image path and strictness a command line asks for: `--image <path>`
/// is required, `--strict` optional; the program name comes first.
pub open spec fn fsck_args(args: Seq<Seq<char>>) -> Result<(Seq<char>, bool), ArgProblem> {
    match fsck_scan(args, 1, None, false) {
        Ok((Some(p), strict)) => Ok((p, strict)),
        Ok((None, _)) => Err(ArgProblem::Usage),
        Err(e) => Err(e),
    }
}

/// Parses the command line of `fsck-sosfs`.
pub fn parse_args(args: &[String]) -> (r: Result<(String, bool), ArgError>)
    ensures
        match fsck_args(arg_texts(args@)) {
            Ok((p, strict)) => r matches Ok((q, s)) && q@ == p && s == strict,
            Err(e) => r matches Err(x) && arg_error_is(x, e),
        },
{
    let ghost a = arg_texts(args@);
    let mut image: Option<String> = None;
    let mut strict = false;
    let mut i: usize = 1;
    while i < args.len()
        invariant
            1 <= i,
            a == arg_texts(args@),
            fsck_args(a) == match fsck_scan(a, i as int, match image { Some(s) => Some(s@), None => None }, strict) {
                Ok((Some(p), st)) => Ok((p, st)),
                Ok((None, _)) => Err(ArgProblem::Usage),
                Err(e) => Err(e),
            },
        decreases args@.len() - i,
    {
        let arg = args[i].as_str();
        if str_eq(arg, "--image") {
            if i + 1 >= args.len() {
                return Err(ArgError::Usage);
            }
            image = Some(args[i + 1].clone());
            i = i + 2;
        } else if str_eq(arg, "--strict") {
            strict = true;
            i = i + 1;
        } else if str_eq(arg, "-h") || str_eq(arg, "--help") {
            return Err(ArgError::Help);
        } else {
            return Err(ArgError::UnknownOption(args[i].clone()));
        }
    }
    match image {
        Some(p) => Ok((p, strict)),
        None => Err(ArgError::Usage),
    }
}

/// The exit code for a check result: 0 clean, 1 warning (2 when strict),
/// 2 corrupt.
pub fn exit_code_for_status(status: SosfsFsckStatus, strict: bool) -> (code: i32)
    ensures
        code == match status {
            SosfsFsckStatus::Clean => 0i32,
            SosfsFsckStatus::Warn => if strict { 2i32 } else { 1i32 },
            SosfsFsckStatus::Corrupt => 2i32,
        },
{
    match status {
        SosfsFsckStatus::Clean => 0,
        SosfsFsckStatus::Warn => {
            if strict {
                2
            } else {
                1
            }
        },
        SosfsFsckStatus::Corrupt => 2,
    }
}

} // verus!
