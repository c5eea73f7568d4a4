//! The command dispatcher's parsing: which pipeline stage a command line
//! selects, and the lenient port argument of the static-serving mode.

use crate::dates::digit_val;
use crate::dates::is_digit;
use crate::model::clone_string;
use crate::strings::str_eq;
use vstd::prelude::*;
use vstd::string::*;

verus! {

broadcast use vstd::string::group_string_axioms;

/// A parsed command line.
#[derive(Debug)]
pub enum Command {
    /// Run the ingestion pipeline; with a date range, commits are fetched
    /// for the fixed repositories too.
    Fetch { org: String, range: Option<(String, String)> },
    /// Run the aggregation engine and write the JSON artifacts.
    Results { org: String, since: String, until: String },
    /// Write the changelog and digest artifacts.
    Changelog { org: String, since: String, until: String },
    /// Print summary statistics and the narrative drafts.
    Summary { org: String, since: String, until: String },
    /// Serve the artifact directory.
    Serve { port: u16 },
}

/// Why a command line was rejected.
#[derive(Clone, Copy, PartialEq, Eq, Structural, Debug)]
pub enum CliError {
    MissingCommand,
    MissingArgument,
    UnknownCommand,
}

pub open spec fn port_digits(s: Seq<char>) -> Seq<char> {
    if s.len() > 0 && s[0] == '+' {
        s.skip(1)
    } else {
        s
    }
}

pub open spec fn all_digits(s: Seq<char>) -> bool {
    s.len() > 0 && forall|i: int| 0 <= i < s.len() ==> is_digit(#[trigger] s[i])
}

pub open spec fn digits_val(s: Seq<char>) -> int
    decreases s.len(),
{
    if s.len() == 0 {
        0
    } else {
        digits_val(s.drop_last()) * 10 + digit_val(s.last())
    }
}

/// The port a `serve` argument denotes, read as `u16` parsing does: an
/// optional leading plus sign, then decimal digits only, value at most
/// 65535; anything else denotes no port.
pub open spec fn parsed_port(s: Seq<char>) -> Option<u16> {
    let d = port_digits(s);
    if all_digits(d) && digits_val(d) <= 65535 {
        Option::Some(digits_val(d) as u16)
    } else {
        Option::None
    }
}

pub fn parse_port(s: &str) -> (r: Option<u16>)
    ensures
        r == parsed_port(s@),
{
    let len = s.unicode_len();
    let start: usize = if len > 0 && s.get_char(0) == '+' {
        1
    } else {
        0
    };
    let ghost d = port_digits(s@);
    proof {
        assert(d =~= s@.skip(start as int));
    }
    if start == len {
        proof {
            assert(d.len() == 0);
            assert(!all_digits(d));
        }
        return None;
    }
    let mut val: u64 = 0;
    let mut too_big = false;
    let mut i: usize = start;
    while i < len
        invariant
            start <= i <= len,
            len == s@.len(),
            d == port_digits(s@),
            d == s@.skip(start as int),
            d.len() == len - start,
            forall|k: int| 0 <= k < i - start ==> is_digit(#[trigger] d[k]),
            !too_big ==> val as int == digits_val(d.take(i - start)) && val <= 65535,
            too_big ==> digits_val(d.take(i - start)) > 65535,
        decreases len - i,
    {
        let c = s.get_char(i);
        let cv = c as u32;
        if cv < 48 || cv > 57 {
            proof {
                assert(d[i - start] == s@[i as int]);
                assert(!is_digit(d[i - start]));
                assert(!all_digits(d));
                assert(parsed_port(s@) is None);
            }
            return None;
        }
        let dv = (cv - 48) as u64;
        proof {
            assert(d.take(i - start + 1).drop_last() =~= d.take(i - start));
            assert(d.take(i - start + 1).last() == d[i - start]);
            assert(d[i - start] == s@[i as int]);
            assert(digit_val(d[i - start]) == dv as int);
        }
        if !too_big {
            let nv = val * 10 + dv;
            if nv > 65535 {
                too_big = true;
                proof {
                    assert(digits_val(d.take(i - start + 1)) == val * 10 + dv);
                }
            } else {
                val = nv;
            }
        } else {
            proof {
                let prev = digits_val(d.take(i - start));
                assert(digits_val(d.take(i - start + 1)) == prev * 10 + digit_val(
                    d[i - start],
                ));
                assert(prev * 10 > 65535);
            }
        }
        i = i + 1;
    }
    proof {
        assert(d.take((len - start) as int) =~= d);
        assert(all_digits(d));
    }
    if too_big {
        return None;
    }
    Some(val as u16)
}

/// The port a `serve` command line selects: the parsed second argument, or
/// 8080 when it is absent or not a port.
pub open spec fn serve_port(args: Seq<String>) -> u16 {
    if args.len() >= 3 {
        match parsed_port(args[2]@) {
            Option::Some(p) => p,
            Option::None => 8080,
        }
    } else {
        8080
    }
}

/// Parse a command line. The first argument selects the stage; `results`,
/// `changelog` and `summary` need an organization and both dates, `fetch`
/// needs the organization and takes the two dates together or not at all,
/// and `serve` takes an optional port.
#[verifier::rlimit(100)]
pub fn parse_command(args: &Vec<String>) -> (r: Result<Command, CliError>)
    ensures
        args@.len() < 2 ==> r == Result::<Command, CliError>::Err(CliError::MissingCommand),
        args@.len() >= 2 && args@[1]@ == "fetch"@ ==> r == (if args@.len() >= 5 {
            Result::<Command, CliError>::Ok(
                (Command::Fetch {
                    org: args@[2],
                    range: Option::Some((args@[3], args@[4])),
                }),
            )
        } else if args@.len() == 3 {
            Result::<Command, CliError>::Ok((Command::Fetch { org: args@[2], range: Option::None }))
        } else {
            Result::<Command, CliError>::Err(CliError::MissingArgument)
        }),
        args@.len() >= 2 && args@[1]@ == "results"@ ==> r == (if args@.len() >= 5 {
            Result::<Command, CliError>::Ok(
                (Command::Results { org: args@[2], since: args@[3], until: args@[4] }),
            )
        } else {
            Result::<Command, CliError>::Err(CliError::MissingArgument)
        }),
        args@.len() >= 2 && args@[1]@ == "changelog"@ ==> r == (if args@.len() >= 5 {
            Result::<Command, CliError>::Ok(
                (Command::Changelog { org: args@[2], since: args@[3], until: args@[4] }),
            )
        } else {
            Result::<Command, CliError>::Err(CliError::MissingArgument)
        }),
        args@.len() >= 2 && args@[1]@ == "summary"@ ==> r == (if args@.len() >= 5 {
            Result::<Command, CliError>::Ok(
                (Command::Summary { org: args@[2], since: args@[3], until: args@[4] }),
            )
        } else {
            Result::<Command, CliError>::Err(CliError::MissingArgument)
        }),
        args@.len() >= 2 && args@[1]@ == "serve"@ ==> r == Result::<Command, CliError>::Ok(
            (Command::Serve { port: serve_port(args@) }),
        ),
        args@.len() >= 2 && args@[1]@ != "fetch"@ && args@[1]@ != "results"@ && args@[1]@
            != "changelog"@ && args@[1]@ != "summary"@ && args@[1]@ != "serve"@ ==> r == Result::<
            Command,
            CliError,
        >::Err(CliError::UnknownCommand),
{
    proof {
        reveal_strlit("fetch");
        reveal_strlit("results");
        reveal_strlit("changelog");
        reveal_strlit("summary");
        reveal_strlit("serve");
        assert("fetch"@.len() == 5);
        assert("results"@.len() == 7);
        assert("changelog"@.len() == 9);
        assert("summary"@.len() == 7);
        assert("serve"@.len() == 5);
        assert("fetch"@[0] == 'f');
        assert("serve"@[0] == 's');
        assert("results"@[0] == 'r');
        assert("summary"@[0] == 's');
    }
    if args.len() < 2 {
        return Err(CliError::MissingCommand);
    }
    let cmd = args[1].as_str();
    if str_eq(cmd, "fetch") {
        if args.len() >= 5 {
            Ok(
                Command::Fetch {
                    org: clone_string(&args[2]),
                    range: Some((clone_string(&args[3]), clone_string(&args[4]))),
                },
            )
        } else if args.len() == 3 {
            Ok(Command::Fetch { org: clone_string(&args[2]), range: None })
        } else {
            Err(CliError::MissingArgument)
        }
    } else if str_eq(cmd, "results") {
        if args.len() >= 5 {
            Ok(
                Command::Results {
                    org: clone_string(&args[2]),
                    since: clone_string(&args[3]),
                    until: clone_string(&args[4]),
                },
            )
        } else {
            Err(CliError::MissingArgument)
        }
    } else if str_eq(cmd, "changelog") {
        if args.len() >= 5 {
            Ok(
                Command::Changelog {
                    org: clone_string(&args[2]),
                    since: clone_string(&args[3]),
                    until: clone_string(&args[4]),
                },
            )
        } else {
            Err(CliError::MissingArgument)
        }
    } else if str_eq(cmd, "summary") {
        if args.len() >= 5 {
            Ok(
                Command::Summary {
                    org: clone_string(&args[2]),
                    since: clone_string(&args[3]),
                    until: clone_string(&args[4]),
                },
            )
        } else {
            Err(CliError::MissingArgument)
        }
    } else if str_eq(cmd, "serve") {
        if args.len() >= 3 {
            let port = match parse_port(args[2].as_str()) {
                Some(p) => p,
                None => 8080,
            };
            Ok(Command::Serve { port })
        } else {
            Ok(Command::Serve { port: 8080 })
        }
    } else {
        Err(CliError::UnknownCommand)
    }
}

} // verus!
