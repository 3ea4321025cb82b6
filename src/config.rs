//! The run configuration, decoded from the command line.
use vstd::prelude::*;
use crate::text::same_text;

verus! {

/// What the command line asks for.
#[derive(Debug)]
pub struct Config {
    /// Print the usage text and do nothing else.
    pub help: bool,
    /// Rewrite the file in place rather than to standard output.
    pub inplace: bool,
    /// Leave the CPU temperature references alone.
    pub no_coretemp: bool,
    /// Leave the disk references alone.
    pub no_nvme: bool,
    /// The configuration file named on the command line, if any.
    pub rc_file: Option<String>,
}

/// The command line named more than one configuration file.
#[derive(Clone, Copy, Debug, PartialEq, Eq, Structural)]
pub enum CliError {
    MultipleRcFiles,
}

/// An argument that is one of the recognised options.
pub open spec fn is_option(a: Seq<char>) -> bool {
    a == "-h"@ || a == "--help"@ || a == "-i"@ || a == "--inplace"@ || a == "--no-coretemp"@
        || a == "--no-nvme"@
}

/// One of `args[1..n]` is `a`.
pub open spec fn given_upto(args: Seq<String>, a: Seq<char>, n: int) -> bool {
    exists|k: int| 1 <= k < n && #[trigger] args[k]@ == a
}

/// One of the arguments after the program name is `a`.
pub open spec fn given(args: Seq<String>, a: Seq<char>) -> bool {
    given_upto(args, a, args.len() as int)
}

/// The arguments among `args[1..n]` that are not options, in order.
pub open spec fn positionals_upto(args: Seq<String>, n: int) -> Seq<Seq<char>>
    decreases n,
{
    if n <= 1 {
        Seq::empty()
    } else if is_option(args[n - 1]@) {
        positionals_upto(args, n - 1)
    } else {
        positionals_upto(args, n - 1).push(args[n - 1]@)
    }
}

/// The arguments after the program name that are not options, in order.
pub open spec fn positionals(args: Seq<String>) -> Seq<Seq<char>> {
    positionals_upto(args, args.len() as int)
}

/// Taking in one more argument.
proof fn lemma_given_step(args: Seq<String>, a: Seq<char>, n: int)
    requires
        1 <= n < args.len(),
    ensures
        given_upto(args, a, n + 1) == (given_upto(args, a, n) || args[n]@ == a),
{
    if args[n]@ == a {
        assert(given_upto(args, a, n + 1));
    }
}

/// Looking at more arguments never finds fewer positional ones.
proof fn lemma_positionals_grow(args: Seq<String>, m: int, n: int)
    requires
        m <= n,
    ensures
        positionals_upto(args, m).len() <= positionals_upto(args, n).len(),
    decreases n - m,
{
    if m < n {
        lemma_positionals_grow(args, m, n - 1);
    }
}

impl Config {
    /// Decodes the command line; `args[0]` is the program name. Options may
    /// stand anywhere; any other argument names the configuration file, and
    /// naming more than one is an error.
    pub fn from_cli(args: &[String]) -> (r: Result<Config, CliError>)
        ensures
            r is Err <==> positionals(args@).len() >= 2,
            r matches Ok(c) ==> {
                &&& c.help == (given(args@, "-h"@) || given(args@, "--help"@))
                &&& c.inplace == (given(args@, "-i"@) || given(args@, "--inplace"@))
                &&& c.no_coretemp == given(args@, "--no-coretemp"@)
                &&& c.no_nvme == given(args@, "--no-nvme"@)
                &&& match c.rc_file {
                    None => positionals(args@).len() == 0,
                    Some(f) => positionals(args@).len() == 1 && f@ == positionals(args@)[0],
                }
            },
    {
        let mut i: usize = 1;
        let mut help = false;
        let mut inplace = false;
        let mut no_coretemp = false;
        let mut no_nvme = false;
        let mut rc_file: Option<String> = None;
        if args.len() == 0 {
            return Ok(Config { help, inplace, no_coretemp, no_nvme, rc_file });
        }
        while i < args.len()
            invariant
                1 <= i <= args@.len(),
                help == (given_upto(args@, "-h"@, i as int) || given_upto(args@, "--help"@, i as int)),
                inplace == (given_upto(args@, "-i"@, i as int) || given_upto(
                    args@,
                    "--inplace"@,
                    i as int,
                )),
                no_coretemp == given_upto(args@, "--no-coretemp"@, i as int),
                no_nvme == given_upto(args@, "--no-nvme"@, i as int),
                match rc_file {
                    None => positionals_upto(args@, i as int).len() == 0,
                    Some(f) => positionals_upto(args@, i as int).len() == 1 && f@
                        == positionals_upto(args@, i as int)[0],
                },
            decreases args@.len() - i,
        {
            let arg = args[i].as_str();
            let is_help = same_text(arg, "-h") || same_text(arg, "--help");
            let is_inplace = same_text(arg, "-i") || same_text(arg, "--inplace");
            let is_no_coretemp = same_text(arg, "--no-coretemp");
            let is_no_nvme = same_text(arg, "--no-nvme");
            proof {
                lemma_given_step(args@, "-h"@, i as int);
                lemma_given_step(args@, "--help"@, i as int);
                lemma_given_step(args@, "-i"@, i as int);
                lemma_given_step(args@, "--inplace"@, i as int);
                lemma_given_step(args@, "--no-coretemp"@, i as int);
                lemma_given_step(args@, "--no-nvme"@, i as int);
            }
            help = help || is_help;
            inplace = inplace || is_inplace;
            no_coretemp = no_coretemp || is_no_coretemp;
            no_nvme = no_nvme || is_no_nvme;
            if !(is_help || is_inplace || is_no_coretemp || is_no_nvme) {
                match rc_file {
                    None => {
                        rc_file = Some(args[i].clone());
                    },
                    Some(_) => {
                        proof {
                            lemma_positionals_grow(args@, i + 1, args@.len() as int);
                        }
                        return Err(CliError::MultipleRcFiles);
                    },
                }
            }
            i += 1;
        }
        Ok(Config { help, inplace, no_coretemp, no_nvme, rc_file })
    }
}

} // verus!
