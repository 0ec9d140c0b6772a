//! Validation of the command-line arguments.
//!
//! The surrounding program collects the raw argument strings and, since
//! only it may touch the network address types, tells this module
//! whether the would-be address words are valid IP literals. Everything
//! else — argument counts, flag detection, reading the worker count —
//! is decided and verified here.

use vstd::prelude::*;
use crate::decimal::{dec_value, is_u16_numeral, numeral_body, parse_u16};

verus! {

/// A validated scan request: the target address, kept as the literal
/// the caller has already validated, and the worker count.
pub struct Arguments {
    pub ipaddr: String,
    pub threads: u16,
}

/// The ways argument validation fails.
#[derive(Clone, Copy, Debug, PartialEq, Eq, Structural)]
pub enum ArgError {
    NotEnoughArguments,
    TooManyArguments,
    InvalidIpAddr,
    BadThreadCount,
    InvalidSyntax,
}

/// The diagnostic text of each validation failure.
pub open spec fn error_text(e: ArgError) -> Seq<char> {
    match e {
        ArgError::NotEnoughArguments => "not enought arguments"@,
        ArgError::TooManyArguments => "too many arguments"@,
        ArgError::InvalidIpAddr => "not valid IPADDR; must be iPv4 or iPv6"@,
        ArgError::BadThreadCount => "failed to parse thread number"@,
        ArgError::InvalidSyntax => "invalid syntax"@,
    }
}

impl ArgError {
    /// The diagnostic text to report on standard error.
    pub fn message(&self) -> (r: String)
        ensures
            r@ == error_text(*self),
    {
        match self {
            ArgError::NotEnoughArguments => String::from_str("not enought arguments"),
            ArgError::TooManyArguments => String::from_str("too many arguments"),
            ArgError::InvalidIpAddr => String::from_str("not valid IPADDR; must be iPv4 or iPv6"),
            ArgError::BadThreadCount => String::from_str("failed to parse thread number"),
            ArgError::InvalidSyntax => String::from_str("invalid syntax"),
        }
    }
}

/// What validation decides: scan, print the usage text, or fail.
pub enum Outcome {
    Run(Arguments),
    Help,
    Fail(ArgError),
}

/// The ghost image of an `Outcome`, for stating what validation must
/// decide on given inputs.
pub enum SpecOutcome {
    Run { ip: Seq<char>, threads: int },
    Help,
    Fail(ArgError),
}

/// The word is exactly the short or the long help flag.
pub open spec fn is_help_flag(s: Seq<char>) -> bool {
    s == "-h"@ || s == "--help"@
}

/// The word is exactly the flag that selects an explicit worker count.
pub open spec fn is_thread_flag(s: Seq<char>) -> bool {
    s == "-j"@
}

/// What validation must decide for the given argument words. The two
/// boolean inputs say whether the first word, and the fourth word when
/// present, are valid IP literals; only the caller can decide that.
/// Exactly two shapes run a scan: a lone address, with the default
/// four workers, and `-j <count> <address>`; anything beyond them —
/// extra words after a lone address, a flag buried inside a longer
/// word — is an error. A worker count of zero is rejected like any
/// other malformed count: the partitioner is only defined for a
/// positive pool.
pub open spec fn expected_outcome(args: Seq<Seq<char>>, arg1_is_ip: bool, arg3_is_ip: bool)
    -> SpecOutcome {
    if args.len() < 2 {
        SpecOutcome::Fail(ArgError::NotEnoughArguments)
    } else if args.len() > 4 {
        SpecOutcome::Fail(ArgError::TooManyArguments)
    } else if arg1_is_ip {
        if args.len() > 2 {
            SpecOutcome::Fail(ArgError::TooManyArguments)
        } else {
            SpecOutcome::Run { ip: args[1], threads: 4 }
        }
    } else if is_help_flag(args[1]) {
        if args.len() > 2 {
            SpecOutcome::Fail(ArgError::TooManyArguments)
        } else {
            SpecOutcome::Help
        }
    } else if is_thread_flag(args[1]) {
        if args.len() < 4 {
            SpecOutcome::Fail(ArgError::NotEnoughArguments)
        } else if !arg3_is_ip {
            SpecOutcome::Fail(ArgError::InvalidIpAddr)
        } else if is_u16_numeral(args[2]) && dec_value(numeral_body(args[2])) >= 1 {
            SpecOutcome::Run { ip: args[3], threads: dec_value(numeral_body(args[2])) }
        } else {
            SpecOutcome::Fail(ArgError::BadThreadCount)
        }
    } else {
        SpecOutcome::Fail(ArgError::InvalidSyntax)
    }
}

/// Whether two words are the same string, character for character.
pub fn str_eq(s: &str, pat: &str) -> (r: bool)
    ensures
        r == (s@ == pat@),
{
    let n = s.unicode_len();
    let m = pat.unicode_len();
    if n != m {
        return false;
    }
    let mut j: usize = 0;
    while j < n
        invariant
            j <= n,
            n == s@.len(),
            n == pat@.len(),
            forall|k: int| 0 <= k < j ==> s@[k] == pat@[k],
        decreases n - j,
    {
        if s.get_char(j) != pat.get_char(j) {
            return false;
        }
        j = j + 1;
    }
    assert(s@ =~= pat@);
    true
}

/// Validates the raw argument words.
///
/// The caller supplies `arg1_is_ip` and `arg3_is_ip`: whether the
/// second word, and the fourth word when there are at least four, are
/// valid IP literals. The result is exactly what `expected_outcome`
/// decides for these inputs.
pub fn parse_arguments(args: &Vec<String>, arg1_is_ip: bool, arg3_is_ip: bool) -> (r: Outcome)
    ensures
        match r {
            Outcome::Run(a) => expected_outcome(args.deep_view(), arg1_is_ip, arg3_is_ip)
                == (SpecOutcome::Run { ip: a.ipaddr@, threads: a.threads as int }),
            Outcome::Help => expected_outcome(args.deep_view(), arg1_is_ip, arg3_is_ip)
                == SpecOutcome::Help,
            Outcome::Fail(e) => expected_outcome(args.deep_view(), arg1_is_ip, arg3_is_ip)
                == SpecOutcome::Fail(e),
        },
{
    let ghost view = args.deep_view();
    assert(forall|k: int| 0 <= k < args@.len() ==> view[k] == args@[k]@);
    if args.len() < 2 {
        return Outcome::Fail(ArgError::NotEnoughArguments);
    }
    if args.len() > 4 {
        return Outcome::Fail(ArgError::TooManyArguments);
    }
    if arg1_is_ip {
        if args.len() > 2 {
            return Outcome::Fail(ArgError::TooManyArguments);
        }
        return Outcome::Run(Arguments { ipaddr: args[1].clone(), threads: 4 });
    }
    let flag = &args[1];
    if str_eq(flag.as_str(), "-h") || str_eq(flag.as_str(), "--help") {
        if args.len() > 2 {
            return Outcome::Fail(ArgError::TooManyArguments);
        }
        return Outcome::Help;
    }
    if str_eq(flag.as_str(), "-j") {
        if args.len() < 4 {
            return Outcome::Fail(ArgError::NotEnoughArguments);
        }
        if !arg3_is_ip {
            return Outcome::Fail(ArgError::InvalidIpAddr);
        }
        match parse_u16(args[2].as_str()) {
            Some(threads) => {
                if threads >= 1 {
                    Outcome::Run(Arguments { ipaddr: args[3].clone(), threads })
                } else {
                    Outcome::Fail(ArgError::BadThreadCount)
                }
            },
            None => Outcome::Fail(ArgError::BadThreadCount),
        }
    } else {
        Outcome::Fail(ArgError::InvalidSyntax)
    }
}

} // verus!
