//! Command-line arguments: exactly one positional WAV path, `-h`/`--help`
//! for the usage text, and no other flags.
use vstd::prelude::*;
use crate::text::str_equals;

verus! {

/// What to open.
pub struct Config {
    pub path: String,
}

/// Either run on a file, or print a message and exit.
pub enum ParseOutcome {
    Run(Config),
    Exit(String),
}

/// The content of a [`ParseOutcome`].
pub enum OutcomeView {
    Run(Seq<char>),
    Exit(Seq<char>),
}

pub open spec fn outcome_view(o: ParseOutcome) -> OutcomeView {
    match o {
        ParseOutcome::Run(config) => OutcomeView::Run(config.path@),
        ParseOutcome::Exit(message) => OutcomeView::Exit(message@),
    }
}

pub open spec fn result_view(r: Result<ParseOutcome, String>) -> Result<OutcomeView, Seq<char>> {
    match r {
        Ok(o) => Ok(outcome_view(o)),
        Err(e) => Err(e@),
    }
}

/// The usage text.
pub open spec fn help_text_spec() -> Seq<char> {
    "waveform\n\nCross-platform WAV player with an iced GUI and GPU-backed waveform rendering.\n\nUSAGE:\n  waveform <file.wav>\n\nNOTES:\n  - Playback starts automatically when a default audio device is available.\n  - Left-drag seeks, right-drag pans, and the mouse wheel zooms the timeline.\n  - Space toggles playback, arrow keys skip/zoom, [ ] pans, 0 fits, F toggles follow, and L toggles looping."@
}

/// The usage text printed for `--help` or when no file is given.
pub fn help_text() -> (r: String)
    ensures
        r@ == help_text_spec(),
{
    String::from_str(
        "waveform\n\nCross-platform WAV player with an iced GUI and GPU-backed waveform rendering.\n\nUSAGE:\n  waveform <file.wav>\n\nNOTES:\n  - Playback starts automatically when a default audio device is available.\n  - Left-drag seeks, right-drag pans, and the mouse wheel zooms the timeline.\n  - Space toggles playback, arrow keys skip/zoom, [ ] pans, 0 fits, F toggles follow, and L toggles looping.",
    )
}

pub open spec fn is_help_flag(a: Seq<char>) -> bool {
    a == "-h"@ || a == "--help"@
}

pub open spec fn is_flag(a: Seq<char>) -> bool {
    a.len() > 0 && a[0] == '-'
}

/// Parsing the arguments from index `i` on, with `path` the file found so
/// far: the first help flag ends parsing with the usage text, any other
/// flag is an error, and a second file is an error.
pub open spec fn spec_parse_from(args: Seq<Seq<char>>, i: int, path: Option<Seq<char>>) -> Result<
    OutcomeView,
    Seq<char>,
>
    decreases args.len() - i,
{
    if i >= args.len() {
        match path {
            None => Ok(OutcomeView::Exit(help_text_spec())),
            Some(p) => Ok(OutcomeView::Run(p)),
        }
    } else if is_help_flag(args[i]) {
        Ok(OutcomeView::Exit(help_text_spec()))
    } else if is_flag(args[i]) {
        Err("unknown flag: "@ + args[i])
    } else if path is Some {
        Err("only one input file can be opened at a time"@)
    } else {
        spec_parse_from(args, i + 1, Some(args[i]))
    }
}

pub open spec fn args_view(args: Seq<String>) -> Seq<Seq<char>> {
    args.map_values(|a: String| a@)
}

/// Parses the arguments that follow the program name.
pub fn parse_args(args: &Vec<String>) -> (r: Result<ParseOutcome, String>)
    ensures
        result_view(r) == spec_parse_from(args_view(args@), 0, None),
{
    let ghost all = args_view(args@);
    let mut path: Option<String> = None;
    let mut i: usize = 0;
    while i < args.len()
        invariant
            i <= args@.len(),
            all == args_view(args@),
            spec_parse_from(all, 0, None) == spec_parse_from(
                all,
                i as int,
                match path {
                    Some(p) => Some(p@),
                    None => None,
                },
            ),
        decreases args.len() - i,
    {
        let argument = args[i].as_str();
        assert(argument@ == all[i as int]);
        if str_equals(argument, "-h") || str_equals(argument, "--help") {
            return Ok(ParseOutcome::Exit(help_text()));
        }
        if argument.unicode_len() > 0 && argument.get_char(0) == '-' {
            let mut message = String::from_str("unknown flag: ");
            message.append(argument);
            return Err(message);
        }
        if path.is_some() {
            return Err(String::from_str("only one input file can be opened at a time"));
        }
        path = Some(argument.to_owned());
        i = i + 1;
    }
    match path {
        Some(p) => Ok(ParseOutcome::Run(Config { path: p })),
        None => Ok(ParseOutcome::Exit(help_text())),
    }
}

/// Without help flags, parsing from `i` succeeds exactly when no flag
/// remains and at most one file is named in all; success with a file runs
/// on that file.
pub proof fn lemma_parse_from_without_help(args: Seq<Seq<char>>, i: int, path: Option<Seq<char>>)
    requires
        0 <= i <= args.len(),
        forall|k: int| i <= k < args.len() ==> !is_help_flag(#[trigger] args[k]),
    ensures
        spec_parse_from(args, i, path) is Ok <==> (forall|k: int|
            i <= k < args.len() ==> !is_flag(#[trigger] args[k])) && (args.len() - i) + (if path is Some {
            1int
        } else {
            0
        }) <= 1,
        spec_parse_from(args, i, path) matches Ok(OutcomeView::Run(p)) ==> (path == Some(p) && i
            == args.len()) || (path is None && i == args.len() - 1 && p == args[i]),
    decreases args.len() - i,
{
    if i < args.len() {
        if !is_flag(args[i]) && path is None {
            lemma_parse_from_without_help(args, i + 1, Some(args[i]));
        }
    }
}

/// The command line names exactly one file: no arguments (or a help flag
/// first) gives the usage text, one plain argument runs on that file, and
/// an unknown flag or a second file is an error.
pub proof fn lemma_one_positional_file(args: Seq<Seq<char>>)
    ensures
        args.len() == 0 ==> spec_parse_from(args, 0, None) == Ok::<OutcomeView, Seq<char>>(
            OutcomeView::Exit(help_text_spec()),
        ),
        args.len() > 0 && is_help_flag(args[0]) ==> spec_parse_from(args, 0, None) == Ok::<
            OutcomeView,
            Seq<char>,
        >(OutcomeView::Exit(help_text_spec())),
        (forall|k: int| 0 <= k < args.len() ==> !is_help_flag(#[trigger] args[k])) ==> {
            &&& (args.len() == 1 && !is_flag(args[0])) ==> spec_parse_from(args, 0, None) == Ok::<
                OutcomeView,
                Seq<char>,
            >(OutcomeView::Run(args[0]))
            &&& (exists|k: int| 0 <= k < args.len() && #[trigger] is_flag(args[k])) ==> spec_parse_from(
                args,
                0,
                None,
            ) is Err
            &&& args.len() >= 2 ==> spec_parse_from(args, 0, None) is Err
        },
{
    if forall|k: int| 0 <= k < args.len() ==> !is_help_flag(#[trigger] args[k]) {
        lemma_parse_from_without_help(args, 0, None);
        if args.len() == 1 && !is_flag(args[0]) {
            assert(spec_parse_from(args, 1, Some(args[0])) == Ok::<OutcomeView, Seq<char>>(
                OutcomeView::Run(args[0]),
            ));
        }
    }
}

/// A help flag (`-h` or `--help`) is honoured wherever it stands, as long
/// as nothing before it was refused: when every argument before it is a
/// plain argument (not starting with `-`) and there is at most one of
/// them, parsing ends with the usage text, whatever follows.
pub proof fn lemma_help_anywhere(args: Seq<Seq<char>>, k: int)
    requires
        0 <= k < args.len(),
        k <= 1,
        args[k] == seq!['-', 'h'] || args[k] == seq!['-', '-', 'h', 'e', 'l', 'p'],
        forall|j: int| 0 <= j < k ==> (#[trigger] args[j]).len() == 0 || args[j][0] != '-',
    ensures
        spec_parse_from(args, 0, None) == Ok::<OutcomeView, Seq<char>>(
            OutcomeView::Exit(help_text_spec()),
        ),
{
    reveal_strlit("-h");
    reveal_strlit("--help");
    assert("-h"@ =~= seq!['-', 'h']);
    assert("--help"@ =~= seq!['-', '-', 'h', 'e', 'l', 'p']);
    assert(is_help_flag(args[k]));
    if k == 1 {
        let a = args[0];
        assert(a.len() == 0 || a[0] != '-');
        if a.len() > 0 {
            assert(a != "-h"@ && a != "--help"@) by {
                assert("-h"@[0] == '-');
                assert("--help"@[0] == '-');
            }
        } else {
            assert(a != "-h"@ && a != "--help"@) by {
                assert("-h"@.len() == 2);
                assert("--help"@.len() == 6);
            }
        }
        assert(!is_help_flag(a));
        assert(!is_flag(a));
        assert(spec_parse_from(args, 0, None) == spec_parse_from(args, 1, Some(a)));
    }
}

} // verus!
