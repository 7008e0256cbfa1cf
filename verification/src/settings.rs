//! The command line, and when settings are saved.

use vstd::prelude::*;

use crate::parameter::same_text;

verus! {

/// The shortest time between two saves.
pub const SAVE_DEBOUNCE_MILLIS: u64 = 2000;

/// Tells whether changed settings are to be saved, by the time since they last
/// were.
pub fn save_is_due(dirty: bool, elapsed_millis: u64) -> (r: bool)
    ensures
        r == (dirty && elapsed_millis >= SAVE_DEBOUNCE_MILLIS),
{
    dirty && elapsed_millis >= SAVE_DEBOUNCE_MILLIS
}

/// What the command line asks for.
pub struct CliArgs {
    pub path: Option<String>,
    pub verbose: bool,
}

pub enum CliOutcome {
    /// The help is to be shown.
    Help,
    Run(CliArgs),
}

pub open spec fn asks_help(arg: Seq<char>) -> bool {
    arg == "-h"@ || arg == "--help"@
}

pub open spec fn asks_verbose(arg: Seq<char>) -> bool {
    arg == "-v"@ || arg == "--verbose"@
}

/// The place of the first argument that is no option, or the number of
/// arguments.
pub open spec fn first_path(args: Seq<String>) -> int
    decreases args.len(),
{
    if args.len() == 0 || !(asks_help(args[0]@) || asks_verbose(args[0]@)) {
        0
    } else {
        1 + first_path(args.drop_first())
    }
}

proof fn lemma_first_path(args: Seq<String>, at: int)
    requires
        0 <= at <= args.len(),
        forall|i: int|
            0 <= i < at ==> asks_help((#[trigger] args[i])@) || asks_verbose(args[i]@),
        at < args.len() ==> !(asks_help(args[at]@) || asks_verbose(args[at]@)),
    ensures
        first_path(args) == at,
    decreases args.len(),
{
    if at > 0 {
        let rest = args.drop_first();
        assert forall|i: int| 0 <= i < at - 1 implies asks_help((#[trigger] rest[i])@)
            || asks_verbose(rest[i]@) by {
            assert(rest[i] == args[i + 1]);
        }
        lemma_first_path(rest, at - 1);
    }
}

/// Reads the arguments behind the name of the program. The help wins over all
/// else, and of several paths the first counts.
pub fn parse_cli_args(args: &[String]) -> (r: CliOutcome)
    ensures
        match r {
            CliOutcome::Help => exists|i: int|
                0 <= i < args@.len() && asks_help((#[trigger] args@[i])@),
            CliOutcome::Run(cli) => {
                &&& forall|i: int| 0 <= i < args@.len() ==> !asks_help((#[trigger] args@[i])@)
                &&& cli.verbose == exists|i: int|
                    0 <= i < args@.len() && asks_verbose((#[trigger] args@[i])@)
                &&& match cli.path {
                    Some(path) => first_path(args@) < args@.len() && path@ == args@[first_path(
                        args@,
                    )]@,
                    None => first_path(args@) == args@.len(),
                }
            },
        },
{
    let mut path: Option<String> = None;
    let mut verbose = false;
    let mut i: usize = 0;
    let ghost mut at: int = 0;
    while i < args.len()
        invariant
            i <= args.len(),
            forall|k: int| 0 <= k < i ==> !asks_help((#[trigger] args@[k])@),
            verbose == exists|k: int| 0 <= k < i && asks_verbose((#[trigger] args@[k])@),
            0 <= at <= i,
            forall|k: int|
                0 <= k < at ==> asks_help((#[trigger] args@[k])@) || asks_verbose(args@[k]@),
            match path {
                Some(p) => at < i && p@ == args@[at]@ && !(asks_help(args@[at]@) || asks_verbose(
                    args@[at]@,
                )),
                None => at == i,
            },
        decreases args.len() - i,
    {
        let arg = args[i].as_str();
        proof {
            reveal_strlit("-v");
            reveal_strlit("--verbose");
            reveal_strlit("-h");
            reveal_strlit("--help");
            assert("-v"@.len() == 2 && "-h"@.len() == 2);
            assert("--verbose"@.len() == 9 && "--help"@.len() == 6);
            assert("-v"@[1] == 'v' && "-h"@[1] == 'h');
            assert(!(asks_help(args@[i as int]@) && asks_verbose(args@[i as int]@)));
        }
        if same_text(arg, "-v") || same_text(arg, "--verbose") {
            assert(asks_verbose(args@[i as int]@));
            verbose = true;
            proof {
                if path is None {
                    at = at + 1;
                }
            }
        } else if same_text(arg, "-h") || same_text(arg, "--help") {
            assert(asks_help(args@[i as int]@));
            return CliOutcome::Help;
        } else if path.is_none() {
            path = Some(args[i].clone());
        }
        proof {
            let reached = i + 1;
            assert(verbose == exists|k: int|
                0 <= k < reached && asks_verbose((#[trigger] args@[k])@));
        }
        i += 1;
    }
    proof {
        lemma_first_path(args@, at);
    }
    CliOutcome::Run(CliArgs { path, verbose })
}

} // verus!
