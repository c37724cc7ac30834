//! Shared pieces of argument parsing: errors and decimal numbers.
use vstd::prelude::*;
use vstd::string::*;

verus! {

/// Why a command line was refused.
#[derive(Clone, Debug, PartialEq, Eq)]
pub enum ArgError {
    /// The arguments do not fit the usage.
    Usage,
    /// Help was asked for.
    Help,
    /// An option the tool does not know.
    UnknownOption(String),
}

/// What an `ArgError` says.
pub enum ArgProblem {
    Usage,
    Help,
    UnknownOption(Seq<char>),
}

/// Whether `e` says `p`.
pub open spec fn arg_error_is(e: ArgError, p: ArgProblem) -> bool {
    match p {
        ArgProblem::Usage => e == ArgError::Usage,
        ArgProblem::Help => e == ArgError::Help,
        ArgProblem::UnknownOption(o) => e matches ArgError::UnknownOption(s) && s@ == o,
    }
}

/// The text of each argument.
pub open spec fn arg_texts(args: Seq<String>) -> Seq<Seq<char>> {
    args.map_values(|s: String| s@)
}

/// Whether `c` is a decimal digit.
pub open spec fn is_digit(c: char) -> bool {
    '0' <= c && c <= '9'
}

/// Whether every character of `s` is a decimal digit.
pub open spec fn all_digits(s: Seq<char>) -> bool {
    forall|i: int| 0 <= i < s.len() ==> is_digit(#[trigger] s[i])
}

/// The value of a decimal digit.
pub open spec fn digit_value(c: char) -> nat {
    ((c as u32) - ('0' as u32)) as nat
}

/// The value of a string of decimal digits.
pub open spec fn digits_value(s: Seq<char>) -> nat
    decreases s.len(),
{
    if s.len() == 0 {
        0
    } else {
        digits_value(s.drop_last()) * 10 + digit_value(s.last())
    }
}

/// The number an unsigned decimal text denotes: an optional `+`, then one
/// or more digits, with a value that fits in 64 bits.
pub open spec fn parse_u64_spec(s: Seq<char>) -> Option<u64> {
    let ds = if s.len() > 0 && s[0] == '+' { s.drop_first() } else { s };
    if ds.len() > 0 && all_digits(ds) && digits_value(ds) <= u64::MAX {
        Some(digits_value(ds) as u64)
    } else {
        None
    }
}

/// The message for a value that is not a number.
pub open spec fn invalid_value_message(name: Seq<char>, value: Seq<char>) -> Seq<char> {
    "invalid value for "@ + name + ": "@ + value
}

proof fn lemma_digits_prefix_grows(s: Seq<char>, k: int)
    requires
        0 <= k <= s.len(),
    ensures
        digits_value(s.take(k)) <= digits_value(s),
    decreases s.len() - k,
{
    if k < s.len() {
        lemma_digits_prefix_grows(s, k + 1);
        assert(s.take(k + 1).drop_last() =~= s.take(k));
    } else {
        assert(s.take(k) =~= s);
    }
}

fn invalid_value(name: &str, value: &str) -> (m: String)
    ensures
        m@ == invalid_value_message(name@, value@),
{
    let mut m = String::from_str("invalid value for ");
    m.append(name);
    m.append(": ");
    m.append(value);
    m
}

/// Parses `value` as an unsigned 64-bit decimal for the option `name`.
pub fn parse_u64(name: &str, value: &str) -> (r: Result<u64, String>)
    ensures
        match parse_u64_spec(value@) {
            Some(v) => r == Ok::<u64, String>(v),
            None => r matches Err(m) && m@ == invalid_value_message(name@, value@),
        },
{
    let n = value.unicode_len();
    let start: usize = if n > 0 && value.get_char(0) == '+' { 1 } else { 0 };
    let ghost ds = if value@.len() > 0 && value@[0] == '+' { value@.drop_first() } else { value@ };
    assert(ds =~= value@.subrange(start as int, n as int));
    if start >= n {
        return Err(invalid_value(name, value));
    }
    let mut acc: u64 = 0;
    let mut i: usize = start;
    while i < n
        invariant
            start <= i <= n,
            start < n,
            n == value@.len(),
            ds == value@.subrange(start as int, n as int),
            ds == (if value@.len() > 0 && value@[0] == '+' { value@.drop_first() } else { value@ }),
            acc == digits_value(ds.take(i - start)),
            forall|k: int| 0 <= k < i - start ==> is_digit(#[trigger] ds[k]),
        decreases n - i,
    {
        let c = value.get_char(i);
        assert(ds.take(i - start + 1).drop_last() =~= ds.take(i - start));
        assert(ds[i - start] == c);
        if !('0' <= c && c <= '9') {
            assert(!is_digit(ds[i - start]));
            assert(!all_digits(ds));
            return Err(invalid_value(name, value));
        }
        assert(ds.take(i - start + 1).last() == c);
        assert(digits_value(ds.take(i - start + 1)) == acc * 10 + digit_value(c));
        let d = (c as u32 - '0' as u32) as u64;
        let t = match acc.checked_mul(10) {
            Some(t) => t,
            None => {
                proof {
                    lemma_digits_prefix_grows(ds, i - start + 1);
                }
                return Err(invalid_value(name, value));
            },
        };
        acc = match t.checked_add(d) {
            Some(v) => v,
            None => {
                proof {
                    lemma_digits_prefix_grows(ds, i - start + 1);
                }
                return Err(invalid_value(name, value));
            },
        };
        i = i + 1;
    }
    assert(ds.take(n - start) =~= ds);
    assert(all_digits(ds));
    Ok(acc)
}

} // verus!
