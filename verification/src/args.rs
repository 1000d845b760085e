use crate::strutil::str_eq;
use vstd::prelude::*;

verus! {

/// The command line: the help and version switches, and the path of the
/// executable to drive.
#[derive(Debug)]
pub struct Args {
    help: bool,
    version: bool,
    exec_path: Option<String>,
}

/// Mathematical model of the command line.
pub ghost struct ArgsV {
    pub help: bool,
    pub version: bool,
    pub exec_path: Option<Seq<char>>,
}

impl View for Args {
    type V = ArgsV;

    closed spec fn view(&self) -> ArgsV {
        ArgsV {
            help: self.help,
            version: self.version,
            exec_path: match self.exec_path {
                Some(ref p) => Some(p@),
                None => None,
            },
        }
    }
}

/// Why the command line was refused: a flag the program does not know,
/// carried for the report, or `-x`/`--exec` without the path after it.
#[derive(Debug)]
pub enum ArgsError {
    UnknownArgument(String),
    MissingExecValue,
}

/// Mathematical model of a command-line error.
pub ghost enum ArgsErrV {
    Unknown(Seq<char>),
    Missing,
}

/// The command line before any argument is read.
pub open spec fn args_init() -> ArgsV {
    ArgsV { help: false, version: false, exec_path: None }
}

/// Read the arguments from position `k` onward over the state `acc`:
/// `-h`/`--help` and `-v`/`--version` set their switches, `-x`/`--exec`
/// takes the following argument as the path and fails without one, and
/// any other argument is refused.
pub open spec fn spec_parse_args(args: Seq<Seq<char>>, k: int, acc: ArgsV) -> Result<
    ArgsV,
    ArgsErrV,
>
    decreases args.len() - k,
{
    if k < 0 || k >= args.len() {
        Ok(acc)
    } else {
        let a = args[k];
        if a == "-h"@ || a == "--help"@ {
            spec_parse_args(args, k + 1, ArgsV { help: true, ..acc })
        } else if a == "-v"@ || a == "--version"@ {
            spec_parse_args(args, k + 1, ArgsV { version: true, ..acc })
        } else if a == "-x"@ || a == "--exec"@ {
            if k + 1 < args.len() {
                spec_parse_args(args, k + 2, ArgsV { exec_path: Some(args[k + 1]), ..acc })
            } else {
                Err(ArgsErrV::Missing)
            }
        } else {
            Err(ArgsErrV::Unknown(a))
        }
    }
}

/// The models of the argument strings, in order.
pub open spec fn arg_views(args: Seq<String>) -> Seq<Seq<char>> {
    args.map_values(|s: String| s@)
}

impl Args {
    /// Whether `-h` or `--help` was given.
    pub fn help(&self) -> (r: bool)
        ensures
            r == self@.help,
    {
        self.help
    }

    /// Whether `-v` or `--version` was given.
    pub fn version(&self) -> (r: bool)
        ensures
            r == self@.version,
    {
        self.version
    }

    /// The path given with `-x`/`--exec`, if any.
    pub fn exec_path(&self) -> (r: Option<&String>)
        ensures
            r matches Some(p) ==> self@.exec_path == Some(p@),
            r is None ==> self@.exec_path is None,
    {
        match &self.exec_path {
            Some(p) => Some(p),
            None => None,
        }
    }
}

/// Read the command line (without the program's own name) as
/// `spec_parse_args` describes it.
pub fn parse_args(args: &Vec<String>) -> (r: Result<Args, ArgsError>)
    ensures
        match (r, spec_parse_args(arg_views(args@), 0, args_init())) {
            (Ok(a), Ok(av)) => a@ == av,
            (Err(ArgsError::UnknownArgument(u)), Err(ArgsErrV::Unknown(uv))) => u@ == uv,
            (Err(ArgsError::MissingExecValue), Err(ArgsErrV::Missing)) => true,
            _ => false,
        },
{
    let n = args.len();
    let mut help = false;
    let mut version = false;
    let mut exec_path: Option<String> = None;
    let mut k: usize = 0;
    while k < n
        invariant
            n == args@.len(),
            k <= n,
            spec_parse_args(arg_views(args@), 0, args_init()) == spec_parse_args(
                arg_views(args@),
                k as int,
                ArgsV {
                    help: help,
                    version: version,
                    exec_path: match exec_path {
                        Some(ref p) => Some(p@),
                        None => None,
                    },
                },
            ),
        decreases n - k,
    {
        proof {
            assert(arg_views(args@)[k as int] == args@[k as int]@);
        }
        let a = args[k].as_str();
        if str_eq(a, "-h") || str_eq(a, "--help") {
            help = true;
            k += 1;
        } else if str_eq(a, "-v") || str_eq(a, "--version") {
            version = true;
            k += 1;
        } else if str_eq(a, "-x") || str_eq(a, "--exec") {
            if k + 1 < n {
                proof {
                    assert(arg_views(args@)[k + 1] == args@[k + 1]@);
                }
                exec_path = Some(args[k + 1].clone());
                k += 2;
            } else {
                return Err(ArgsError::MissingExecValue);
            }
        } else {
            return Err(ArgsError::UnknownArgument(args[k].clone()));
        }
    }
    Ok(Args { help, version, exec_path })
}

} // verus!
