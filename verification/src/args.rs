use vstd::prelude::*;

use crate::text::{chars_eq, chars_of};

verus! {

/// The command line after parsing: an optional file given by position, the files given with
/// `-f`/`--files`, and whether the hidden detailed-help flag was given.
pub struct Args {
    pub file: Option<String>,
    pub files: Vec<String>,
    pub detailed_help: bool,
}

/// What the command line asks for.
pub enum ParseResult {
    /// Print the short usage text.
    ShowUsage,
    /// Print the detailed help text.
    ShowDetailedHelp,
    /// Load these point files, in order.
    LoadFiles(Vec<String>),
}

/// Whether an argument asks for help (`-h` or `--help`).
pub open spec fn is_help_flag(arg: Seq<char>) -> bool {
    arg == "-h"@ || arg == "--help"@
}

/// The decision that the raw arguments (program name first) settle before any flag parsing:
/// usage when there are no arguments, detailed help when the only argument is `-h` or
/// `--help`, and nothing otherwise.
pub open spec fn early_decision(raw: Seq<Seq<char>>) -> Option<ParseResult> {
    if raw.len() == 1 {
        Some(ParseResult::ShowUsage)
    } else if raw.len() == 2 && is_help_flag(raw[1]) {
        Some(ParseResult::ShowDetailedHelp)
    } else {
        None
    }
}

/// Decides what the raw command line (program name first) asks for when that needs no flag
/// parsing; `None` when the arguments must be parsed (see [`files_to_load`]).
pub fn early_parse_result(raw: &Vec<String>) -> (r: Option<ParseResult>)
    ensures
        r == early_decision(raw@.map_values(|a: String| a@)),
{
    let ghost rv = raw@.map_values(|a: String| a@);
    if raw.len() == 1 {
        return Some(ParseResult::ShowUsage);
    }
    if raw.len() == 2 {
        let arg = chars_of(raw[1].as_str());
        assert(rv[1] == raw@[1]@);
        if chars_eq(&arg, "-h") || chars_eq(&arg, "--help") {
            return Some(ParseResult::ShowDetailedHelp);
        }
    }
    None
}

/// The files that parsed arguments name: the positional file first, then those given with
/// `-f`, in order.
pub open spec fn requested_files(args: Args) -> Seq<String> {
    match args.file {
        Some(f) => seq![f] + args.files@,
        None => args.files@,
    }
}

/// The files to load are the positional file, if there is one, followed by every file given
/// with `-f`, each once and in the order given.
pub proof fn lemma_requested_files_keep_every_file(args: Args)
    ensures
        requested_files(args).len() == args.files@.len() + (if args.file is Some { 1int } else { 0int }),
        forall|i: int| 0 <= i < args.files@.len() ==> #[trigger] args.files@[i] == requested_files(args)[requested_files(
            args,
        ).len() - args.files@.len() + i],
        args.file matches Some(f) ==> requested_files(args)[0] == f,
{
}

/// What parsed arguments ask for: the detailed help text when the hidden detailed-help flag
/// was given; otherwise loading the files they name, or the usage text when they name none.
pub fn files_to_load(args: Args) -> (r: ParseResult)
    ensures
        args.detailed_help ==> r == ParseResult::ShowDetailedHelp,
        !args.detailed_help && requested_files(args).len() == 0 ==> r == ParseResult::ShowUsage,
        !args.detailed_help && requested_files(args).len() > 0 ==> (r matches ParseResult::LoadFiles(v)
            && v@ == requested_files(args)),
        !args.detailed_help && (args.file is Some || args.files@.len() > 0) ==> (r matches ParseResult::LoadFiles(v)
            && v@.len() == args.files@.len() + (if args.file is Some { 1int } else { 0int })
            && (forall|i: int| 0 <= i < args.files@.len() ==> #[trigger] args.files@[i] == v@[v@.len() - args.files@.len() + i])
            && (args.file matches Some(f) ==> v@[0] == f)),
{
    let ghost req = requested_files(args);
    let mut all_files: Vec<String> = Vec::new();
    let Args { file, mut files, detailed_help } = args;
    if detailed_help {
        return ParseResult::ShowDetailedHelp;
    }
    match file {
        Some(f) => {
            all_files.push(f);
        },
        None => {},
    }
    all_files.append(&mut files);
    assert(all_files@ =~= req);
    if all_files.len() == 0 {
        ParseResult::ShowUsage
    } else {
        ParseResult::LoadFiles(all_files)
    }
}

} // verus!
