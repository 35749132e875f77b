//! The configuration resolver: turn a raw argument list and one environment
//! setting into a validated run configuration.
//!
//! The first argument (the program invocation path) is discarded.  The
//! `-q`/`--query` and `-f`/`--file_path` flags each consume the following
//! argument as their value and fail without one; `-i`/`--ignore_case` takes
//! an optional following value, which must be `"0"` or `"1"`, and silently
//! keeps the current value when no argument follows.  The environment value
//! (also `"0"` or `"1"`, when present) is applied first, so a command-line
//! `-i` overrides it.  Any other token is rejected.

use vstd::prelude::*;

verus! {

use crate::text::str_eq;

/// The resolved run parameters: what to search for, where, and whether to
/// ignore case.  Fields left unset by the arguments stay at their defaults
/// (empty strings, `false`).
#[derive(Debug)]
pub struct Config {
    pub query: String,
    pub file_path: String,
    pub ignore_case: bool,
}

/// A configuration failure.  Each distinct failure carries its own variant;
/// [`ConfigError::message`] gives the human-readable description.
#[derive(Clone, Copy, Debug, PartialEq, Eq, Structural)]
pub enum ConfigError {
    /// The environment sets ignore-case to something other than `"0"` or `"1"`.
    UnsupportedEnvValue,
    /// A query flag with no following argument.
    MissingQueryValue,
    /// A file-path flag with no following argument.
    MissingFilePathValue,
    /// An ignore-case flag followed by something other than `"0"` or `"1"`.
    UnsupportedIgnoreCaseValue,
    /// An argument that is none of the recognized flag spellings.
    IllegalArgument,
}

/// The human-readable description of each configuration failure.
pub open spec fn spec_message(e: ConfigError) -> Seq<char> {
    match e {
        ConfigError::UnsupportedEnvValue => {
            "Not support environment parse, -i or --ignore_case only support '0' or '1'!"@
        },
        ConfigError::MissingQueryValue => "Didn't get a query string!"@,
        ConfigError::MissingFilePathValue => "Didn't get a file path!"@,
        ConfigError::UnsupportedIgnoreCaseValue => {
            "Not support command parse, -i or --ignore_case only support '0' or '1'!"@
        },
        ConfigError::IllegalArgument => "Illegal arguments!"@,
    }
}

impl ConfigError {
    /// The human-readable description of this failure.
    pub fn message(&self) -> (m: &'static str)
        ensures
            m@ == spec_message(*self),
    {
        match *self {
            ConfigError::UnsupportedEnvValue => {
                "Not support environment parse, -i or --ignore_case only support '0' or '1'!"
            },
            ConfigError::MissingQueryValue => "Didn't get a query string!",
            ConfigError::MissingFilePathValue => "Didn't get a file path!",
            ConfigError::UnsupportedIgnoreCaseValue => {
                "Not support command parse, -i or --ignore_case only support '0' or '1'!"
            },
            ConfigError::IllegalArgument => "Illegal arguments!",
        }
    }
}

/// The ignore-case default taken from the environment: unset means `false`,
/// `"0"` means `false`, `"1"` means `true`, and anything else is rejected.
pub open spec fn spec_env_ignore_case(env: Option<Seq<char>>) -> Result<bool, ConfigError> {
    match env {
        None => Ok(false),
        Some(v) => if v == "0"@ {
            Ok(false)
        } else if v == "1"@ {
            Ok(true)
        } else {
            Err(ConfigError::UnsupportedEnvValue)
        },
    }
}

/// One left-to-right scan over the remaining arguments, carrying the values
/// resolved so far.  Each recognized flag consumes the following argument as
/// its value; an ignore-case flag with no following argument silently ends
/// the scan with the values it has.
pub open spec fn spec_parse_args(
    args: Seq<Seq<char>>,
    query: Seq<char>,
    file_path: Seq<char>,
    ignore_case: bool,
) -> Result<(Seq<char>, Seq<char>, bool), ConfigError>
    decreases args.len(),
{
    if args.len() == 0 {
        Ok((query, file_path, ignore_case))
    } else if args[0] == "-q"@ || args[0] == "--query"@ {
        if args.len() < 2 {
            Err(ConfigError::MissingQueryValue)
        } else {
            spec_parse_args(args.subrange(2, args.len() as int), args[1], file_path, ignore_case)
        }
    } else if args[0] == "-f"@ || args[0] == "--file_path"@ {
        if args.len() < 2 {
            Err(ConfigError::MissingFilePathValue)
        } else {
            spec_parse_args(args.subrange(2, args.len() as int), query, args[1], ignore_case)
        }
    } else if args[0] == "-i"@ || args[0] == "--ignore_case"@ {
        if args.len() < 2 {
            Ok((query, file_path, ignore_case))
        } else if args[1] == "0"@ {
            spec_parse_args(args.subrange(2, args.len() as int), query, file_path, false)
        } else if args[1] == "1"@ {
            spec_parse_args(args.subrange(2, args.len() as int), query, file_path, true)
        } else {
            Err(ConfigError::UnsupportedIgnoreCaseValue)
        }
    } else {
        Err(ConfigError::IllegalArgument)
    }
}

/// The whole resolution: apply the environment value first, then scan the
/// arguments after the discarded program path.
pub open spec fn spec_build(args: Seq<Seq<char>>, env: Option<Seq<char>>) -> Result<
    (Seq<char>, Seq<char>, bool),
    ConfigError,
> {
    match spec_env_ignore_case(env) {
        Err(e) => Err(e),
        Ok(ic) => {
            let rest = if args.len() == 0 {
                args
            } else {
                args.drop_first()
            };
            spec_parse_args(rest, Seq::empty(), Seq::empty(), ic)
        },
    }
}

/// Scan `args` from position `start` on, starting from the given
/// ignore-case default.
fn parse_arguments(args: &Vec<String>, start: usize, env_ignore_case: bool) -> (r: Result<
    (String, String, bool),
    ConfigError,
>)
    requires
        start <= args@.len(),
    ensures
        match r {
            Ok(resolved) => spec_parse_args(
                args.deep_view().subrange(start as int, args.deep_view().len() as int),
                Seq::empty(),
                Seq::empty(),
                env_ignore_case,
            ) == Ok::<_, ConfigError>((resolved.0@, resolved.1@, resolved.2)),
            Err(e) => spec_parse_args(
                args.deep_view().subrange(start as int, args.deep_view().len() as int),
                Seq::empty(),
                Seq::empty(),
                env_ignore_case,
            ) == Err::<(Seq<char>, Seq<char>, bool), _>(e),
        },
{
    let ghost all = args.deep_view();
    let ghost n = all.len();
    let ghost goal = spec_parse_args(
        all.subrange(start as int, n as int),
        Seq::empty(),
        Seq::empty(),
        env_ignore_case,
    );
    let mut query = String::new();
    let mut file_path = String::new();
    let mut ignore_case = env_ignore_case;
    let mut i: usize = start;
    proof {
        assert(query@ =~= Seq::<char>::empty());
        assert(file_path@ =~= Seq::<char>::empty());
    }
    while i < args.len()
        invariant
            all == args.deep_view(),
            n == all.len(),
            n == args@.len(),
            start <= i <= n,
            goal == spec_parse_args(
                all.subrange(start as int, n as int),
                Seq::empty(),
                Seq::empty(),
                env_ignore_case,
            ),
            spec_parse_args(all.subrange(i as int, n as int), query@, file_path@, ignore_case)
                == goal,
        decreases n - i,
    {
        let ghost remaining = all.subrange(i as int, n as int);
        proof {
            assert(remaining[0] == all[i as int]);
            assert(all[i as int] == args@[i as int]@);
            if remaining.len() >= 2 {
                assert(remaining[1] == all[i + 1]);
                assert(all[i + 1] == args@[i + 1]@);
                assert(remaining.subrange(2, remaining.len() as int) =~= all.subrange(
                    i + 2,
                    n as int,
                ));
            }
        }
        let arg = &args[i];
        if str_eq(arg.as_str(), "-q") || str_eq(arg.as_str(), "--query") {
            if i + 1 < args.len() {
                query = args[i + 1].clone();
                i += 2;
            } else {
                return Err(ConfigError::MissingQueryValue);
            }
        } else if str_eq(arg.as_str(), "-f") || str_eq(arg.as_str(), "--file_path") {
            if i + 1 < args.len() {
                file_path = args[i + 1].clone();
                i += 2;
            } else {
                return Err(ConfigError::MissingFilePathValue);
            }
        } else if str_eq(arg.as_str(), "-i") || str_eq(arg.as_str(), "--ignore_case") {
            if i + 1 < args.len() {
                let value = &args[i + 1];
                if str_eq(value.as_str(), "0") {
                    ignore_case = false;
                    i += 2;
                } else if str_eq(value.as_str(), "1") {
                    ignore_case = true;
                    i += 2;
                } else {
                    return Err(ConfigError::UnsupportedIgnoreCaseValue);
                }
            } else {
                i += 1;
            }
        } else {
            return Err(ConfigError::IllegalArgument);
        }
    }
    proof {
        assert(all.subrange(n as int, n as int) =~= Seq::<Seq<char>>::empty());
    }
    Ok((query, file_path, ignore_case))
}

impl Config {
    /// Resolve a configuration from the raw argument list (whose first
    /// element, the program invocation path, is discarded) and the value of
    /// the ignore-case environment variable, if any.  The environment value
    /// is validated first; the command-line ignore-case flag overrides it.
    pub fn build(args: Vec<String>, env_ignore_case: Option<String>) -> (r: Result<
        Config,
        ConfigError,
    >)
        ensures
            match r {
                Ok(c) => spec_build(args.deep_view(), env_ignore_case.deep_view()) == Ok::<
                    _,
                    ConfigError,
                >((c.query@, c.file_path@, c.ignore_case)),
                Err(e) => spec_build(args.deep_view(), env_ignore_case.deep_view()) == Err::<
                    (Seq<char>, Seq<char>, bool),
                    _,
                >(e),
            },
    {
        let initial_ignore_case: bool = match &env_ignore_case {
            None => false,
            Some(v) => {
                if str_eq(v.as_str(), "0") {
                    false
                } else if str_eq(v.as_str(), "1") {
                    true
                } else {
                    return Err(ConfigError::UnsupportedEnvValue);
                }
            },
        };
        let start: usize = if args.len() == 0 {
            0
        } else {
            1
        };
        proof {
            let all = args.deep_view();
            if args@.len() == 0 {
                assert(all.subrange(0, all.len() as int) =~= all);
            } else {
                assert(all.subrange(1, all.len() as int) =~= all.drop_first());
            }
        }
        match parse_arguments(&args, start, initial_ignore_case) {
            Ok((query, file_path, ignore_case)) => Ok(
                Config { query, file_path, ignore_case },
            ),
            Err(e) => Err(e),
        }
    }
}

} // verus!
