//! The command-line grammar: an optional markdown output path, a verbosity
//! switch, and a help switch; anything else is rejected.

use vstd::prelude::*;

verus! {

/// The configuration the command line asks for.
pub struct CliConfig {
    /// Where to write the markdown report, when asked for.
    pub markdown_output: Option<String>,
    /// Whether verbose logging was asked for.
    pub verbose: bool,
    /// Whether the help text was asked for.
    pub help: bool,
}

/// What parsing the arguments from position `i` yields, carrying what was
/// seen so far: the settled fields, or nothing when an argument is unknown
/// or an option misses its value.
pub open spec fn spec_parse_cli_from(
    args: Seq<Seq<char>>,
    i: int,
    md: Option<Seq<char>>,
    verbose: bool,
    help: bool,
) -> Option<(Option<Seq<char>>, bool, bool)>
    decreases args.len() - i,
{
    if i < 0 || i >= args.len() {
        Some((md, verbose, help))
    } else if args[i] == "-h"@ || args[i] == "--help"@ {
        spec_parse_cli_from(args, i + 1, md, verbose, true)
    } else if args[i] == "-v"@ || args[i] == "--verbose"@ {
        spec_parse_cli_from(args, i + 1, md, true, help)
    } else if args[i] == "-m"@ || args[i] == "--markdown"@ {
        if i + 1 < args.len() {
            spec_parse_cli_from(args, i + 2, Some(args[i + 1]), verbose, help)
        } else {
            None
        }
    } else if crate::strutil::match_at(args[i], "--markdown="@, 0) {
        spec_parse_cli_from(args, i + 1, Some(args[i].skip(11)), verbose, help)
    } else if crate::strutil::match_at(args[i], "-m="@, 0) {
        spec_parse_cli_from(args, i + 1, Some(args[i].skip(3)), verbose, help)
    } else {
        None
    }
}

/// What parsing a whole argument list yields.
pub open spec fn spec_parse_cli(args: Seq<Seq<char>>) -> Option<(Option<Seq<char>>, bool, bool)> {
    spec_parse_cli_from(args, 0, None, false, false)
}

/// Parse the command-line arguments, the program name excluded. The
/// markdown path follows its switch as the next argument or after an equals
/// sign. An unknown argument, or a markdown option without a following path,
/// is an error carrying the offending argument.
#[verifier::loop_isolation(false)]
pub fn parse_args(args: &Vec<String>) -> (r: Result<CliConfig, String>)
    ensures
        match r {
            Ok(c) => (match spec_parse_cli(args@.map_values(|a: String| a@)) {
                Some(t) => {
                    &&& (match c.markdown_output {
                        Some(p) => t.0 == Some(p@),
                        None => t.0 is None,
                    })
                    &&& c.verbose == t.1
                    &&& c.help == t.2
                },
                None => false,
            }),
            Err(_) => spec_parse_cli(args@.map_values(|a: String| a@)) is None,
        },
{
    let ghost views = args@.map_values(|a: String| a@);
    let mut md: Option<String> = None;
    let mut verbose: bool = false;
    let mut help: bool = false;
    let mut i: usize = 0;
    while i < args.len()
        invariant
            0 <= i <= args@.len(),
            views == args@.map_values(|a: String| a@),
            views.len() == args@.len(),
            forall|t: int| 0 <= t < args@.len() ==> views[t] == args@[t]@,
            (match md {
                Some(p) => spec_parse_cli(views) == spec_parse_cli_from(
                    views,
                    i as int,
                    Some(p@),
                    verbose,
                    help,
                ),
                None => spec_parse_cli(views) == spec_parse_cli_from(
                    views,
                    i as int,
                    None,
                    verbose,
                    help,
                ),
            }),
        decreases args@.len() - i,
    {
        let a = &args[i];
        if crate::strutil::str_eq(a.as_str(), "-h") || crate::strutil::str_eq(a.as_str(), "--help")
         {
            help = true;
        } else if crate::strutil::str_eq(a.as_str(), "-v") || crate::strutil::str_eq(
            a.as_str(),
            "--verbose",
        ) {
            verbose = true;
        } else if crate::strutil::str_eq(a.as_str(), "-m") || crate::strutil::str_eq(
            a.as_str(),
            "--markdown",
        ) {
            if i + 1 < args.len() {
                md = Some(args[i + 1].clone());
                i += 2;
                continue ;
            } else {
                return Result::Err(a.clone());
            }
        } else if crate::strutil::match_at_exec(a.as_str(), "--markdown=", 0) {
            let n = a.as_str().unicode_len();
            proof {
                reveal_strlit("--markdown=");
                assert("--markdown="@.len() == 11);
            }
            let path = a.as_str().substring_char(11, n);
            proof {
                assert(path@ =~= a@.skip(11));
            }
            md = Some(path.to_owned());
        } else if crate::strutil::match_at_exec(a.as_str(), "-m=", 0) {
            let n = a.as_str().unicode_len();
            proof {
                reveal_strlit("-m=");
                assert("-m="@.len() == 3);
            }
            let path = a.as_str().substring_char(3, n);
            proof {
                assert(path@ =~= a@.skip(3));
            }
            md = Some(path.to_owned());
        } else {
            return Result::Err(a.clone());
        }
        i += 1;
    }
    Result::Ok(CliConfig { markdown_output: md, verbose, help })
}

} // verus!
