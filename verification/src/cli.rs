use vstd::prelude::*;
use crate::text::{ascii_lower, ascii_lower_chars, chars_equal, chars_of, string_from_chars, string_of};
use crate::workflow::{ExportFormat, spec_format_from_flag};

verus! {

/// Options collected from the command line for a normal run.
#[derive(Debug, Clone, PartialEq, Eq)]
pub struct CliOptions {
    /// Blueprint image to open, if given.
    pub image: Option<String>,
    /// Saved session to resume, if given.
    pub session: Option<String>,
    /// Preselected output path of the exported model, if given.
    pub output: Option<String>,
    /// Export format (OBJ unless `--format` says otherwise).
    pub format: ExportFormat,
}

/// What the command line asks for.
#[derive(Debug, Clone, PartialEq, Eq)]
pub enum CliCommand {
    /// `-h` / `--help`: print the usage text and exit.
    Help,
    /// `-V` / `--version`: print the version and exit.
    Version,
    /// Open the application with these options.
    Run(CliOptions),
}

/// A command line that cannot be accepted; the program exits with status 1.
#[derive(Debug, Clone, PartialEq, Eq)]
pub enum CliError {
    /// `--session` is the last argument.
    MissingSessionPath,
    /// `-o` / `--output` is the last argument.
    MissingOutputPath,
    /// `--format` is the last argument.
    MissingFormat,
    /// `--format` names neither `obj` nor `stl`; `value` is the value lower-cased.
    UnsupportedFormat { value: String },
    /// More than one image argument.
    MultipleImages,
    /// An argument starting with `-` that is no known option.
    UnknownArgument { arg: String },
    /// Both an image and `--session` were given.
    ImageWithSession,
}

/// The outcome of reading a command line, without its data.
#[derive(Debug, Clone, Copy, PartialEq, Eq, Structural)]
pub enum CliVerdict {
    Help,
    Version,
    Run,
    MissingSessionPath,
    MissingOutputPath,
    MissingFormat,
    UnsupportedFormat,
    MultipleImages,
    UnknownArgument,
    ImageWithSession,
}

/// Outcome of scanning a command line: the verdict, the image, session and output
/// paths and the format collected, and the offending text of an unsupported format
/// (lower-cased) or an unknown argument.
pub type CliScan = (CliVerdict, Option<Seq<char>>, Option<Seq<char>>, Option<Seq<char>>, ExportFormat, Seq<char>);

/// Scans the arguments from index `i` on, left to right, having collected `image`,
/// `session`, `output` and `format` so far: help and version stop the scan at once,
/// the first malformed argument stops it with its error, and at the end an image
/// together with a session is refused.
pub open spec fn scan_args(
    args: Seq<Seq<char>>,
    i: int,
    image: Option<Seq<char>>,
    session: Option<Seq<char>>,
    output: Option<Seq<char>>,
    format: ExportFormat,
) -> CliScan
    decreases args.len() - i,
{
    if i < 0 || i >= args.len() {
        if image is Some && session is Some {
            (CliVerdict::ImageWithSession, image, session, output, format, Seq::empty())
        } else {
            (CliVerdict::Run, image, session, output, format, Seq::empty())
        }
    } else {
        let a = args[i];
        if a == "-h"@ || a == "--help"@ {
            (CliVerdict::Help, image, session, output, format, Seq::empty())
        } else if a == "-V"@ || a == "--version"@ {
            (CliVerdict::Version, image, session, output, format, Seq::empty())
        } else if a == "--session"@ {
            if i + 1 >= args.len() {
                (CliVerdict::MissingSessionPath, image, session, output, format, Seq::empty())
            } else {
                scan_args(args, i + 2, image, Some(args[i + 1]), output, format)
            }
        } else if a == "-o"@ || a == "--output"@ {
            if i + 1 >= args.len() {
                (CliVerdict::MissingOutputPath, image, session, output, format, Seq::empty())
            } else {
                scan_args(args, i + 2, image, session, Some(args[i + 1]), format)
            }
        } else if a == "--format"@ {
            if i + 1 >= args.len() {
                (CliVerdict::MissingFormat, image, session, output, format, Seq::empty())
            } else {
                match spec_format_from_flag(args[i + 1]) {
                    Some(f) => scan_args(args, i + 2, image, session, output, f),
                    None => (CliVerdict::UnsupportedFormat, image, session, output, format, ascii_lower(args[i + 1])),
                }
            }
        } else if a.len() == 0 || a[0] != '-' {
            if image is Some {
                (CliVerdict::MultipleImages, image, session, output, format, Seq::empty())
            } else {
                scan_args(args, i + 1, Some(a), session, output, format)
            }
        } else {
            (CliVerdict::UnknownArgument, image, session, output, format, a)
        }
    }
}

/// Scan of a whole command line; its first entry is the program name.
pub open spec fn spec_parse_args(args: Seq<Seq<char>>) -> CliScan {
    scan_args(args, 1, None, None, None, ExportFormat::Obj)
}

/// The text of an optional string.
pub open spec fn opt_text(s: Option<String>) -> Option<Seq<char>> {
    match s {
        Some(t) => Some(t@),
        None => None,
    }
}

/// The arguments as character sequences.
pub open spec fn args_text(args: Seq<String>) -> Seq<Seq<char>> {
    args.map_values(|s: String| s@)
}

/// The verdict a parse result stands for.
pub open spec fn verdict_of(r: Result<CliCommand, CliError>) -> CliVerdict {
    match r {
        Ok(CliCommand::Help) => CliVerdict::Help,
        Ok(CliCommand::Version) => CliVerdict::Version,
        Ok(CliCommand::Run(_)) => CliVerdict::Run,
        Err(CliError::MissingSessionPath) => CliVerdict::MissingSessionPath,
        Err(CliError::MissingOutputPath) => CliVerdict::MissingOutputPath,
        Err(CliError::MissingFormat) => CliVerdict::MissingFormat,
        Err(CliError::UnsupportedFormat { .. }) => CliVerdict::UnsupportedFormat,
        Err(CliError::MultipleImages) => CliVerdict::MultipleImages,
        Err(CliError::UnknownArgument { .. }) => CliVerdict::UnknownArgument,
        Err(CliError::ImageWithSession) => CliVerdict::ImageWithSession,
    }
}

fn is_arg(a: &Vec<char>, lit: &str) -> (r: bool)
    ensures
        r == (a@ == lit@),
{
    chars_equal(a, &chars_of(lit))
}

fn clone_text(s: &String) -> (r: String)
    ensures
        r@ == s@,
{
    string_of(s.as_str())
}

/// Reads the command line (`args[0]` is the program name): `-h`/`--help`,
/// `-V`/`--version`, `--session <PATH>`, `-o`/`--output <PATH>`, `--format <obj|stl>`
/// (any letter case) and at most one image path; an image and a session exclude each
/// other.
pub fn parse_args(args: &Vec<String>) -> (r: Result<CliCommand, CliError>)
    ensures
        verdict_of(r) == spec_parse_args(args_text(args@)).0,
        match r {
            Ok(CliCommand::Run(o)) => {
                let s = spec_parse_args(args_text(args@));
                &&& opt_text(o.image) == s.1
                &&& opt_text(o.session) == s.2
                &&& opt_text(o.output) == s.3
                &&& o.format == s.4
            },
            Err(CliError::UnsupportedFormat { value }) => value@ == spec_parse_args(args_text(args@)).5,
            Err(CliError::UnknownArgument { arg }) => arg@ == spec_parse_args(args_text(args@)).5,
            _ => true,
        },
{
    let ghost view = args_text(args@);
    let mut image: Option<String> = None;
    let mut session: Option<String> = None;
    let mut output: Option<String> = None;
    let mut format = ExportFormat::Obj;
    let mut i: usize = 1;
    while i < args.len()
        invariant
            view == args_text(args@),
            view.len() == args@.len(),
            i >= 1,
            scan_args(view, i as int, opt_text(image), opt_text(session), opt_text(output), format)
                == spec_parse_args(view),
        decreases args.len() - i,
    {
        let a = chars_of(args[i].as_str());
        assert(a@ == view[i as int]);
        if is_arg(&a, "-h") || is_arg(&a, "--help") {
            return Ok(CliCommand::Help);
        } else if is_arg(&a, "-V") || is_arg(&a, "--version") {
            return Ok(CliCommand::Version);
        } else if is_arg(&a, "--session") {
            if i + 1 >= args.len() {
                return Err(CliError::MissingSessionPath);
            }
            assert(view[i + 1] == args@[i + 1]@);
            session = Some(clone_text(&args[i + 1]));
            i = i + 2;
        } else if is_arg(&a, "-o") || is_arg(&a, "--output") {
            if i + 1 >= args.len() {
                return Err(CliError::MissingOutputPath);
            }
            assert(view[i + 1] == args@[i + 1]@);
            output = Some(clone_text(&args[i + 1]));
            i = i + 2;
        } else if is_arg(&a, "--format") {
            if i + 1 >= args.len() {
                return Err(CliError::MissingFormat);
            }
            assert(view[i + 1] == args@[i + 1]@);
            match ExportFormat::from_flag(args[i + 1].as_str()) {
                Some(f) => {
                    format = f;
                    i = i + 2;
                },
                None => {
                    let lower = ascii_lower_chars(&chars_of(args[i + 1].as_str()));
                    return Err(CliError::UnsupportedFormat { value: string_from_chars(&lower) });
                },
            }
        } else if a.len() == 0 || a[0] != '-' {
            if image.is_some() {
                return Err(CliError::MultipleImages);
            }
            image = Some(clone_text(&args[i]));
            i = i + 1;
        } else {
            return Err(CliError::UnknownArgument { arg: clone_text(&args[i]) });
        }
    }
    if image.is_some() && session.is_some() {
        return Err(CliError::ImageWithSession);
    }
    Ok(CliCommand::Run(CliOptions { image, session, output, format }))
}

impl CliError {
    /// Message printed after `Error: ` before the program exits.
    pub fn message(&self) -> (r: String)
        ensures
            match self {
                CliError::MissingSessionPath => r@ == "--session requires a path argument"@,
                CliError::MissingOutputPath => r@ == "--output requires a path argument"@,
                CliError::MissingFormat => r@ == "--format requires a value (obj or stl)"@,
                CliError::UnsupportedFormat { value } => r@ == "unsupported format '"@ + value@
                    + "'. Use 'obj' or 'stl'."@,
                CliError::MultipleImages => r@ == "only one IMAGE argument is allowed"@,
                CliError::UnknownArgument { arg } => r@ == "unknown argument '"@ + arg@ + "'"@,
                CliError::ImageWithSession => r@ == "IMAGE and --session are mutually exclusive"@,
            },
    {
        match self {
            CliError::MissingSessionPath => string_of("--session requires a path argument"),
            CliError::MissingOutputPath => string_of("--output requires a path argument"),
            CliError::MissingFormat => string_of("--format requires a value (obj or stl)"),
            CliError::UnsupportedFormat { value } => {
                let mut m = string_of("unsupported format '");
                m.append(value.as_str());
                m.append("'. Use 'obj' or 'stl'.");
                m
            },
            CliError::MultipleImages => string_of("only one IMAGE argument is allowed"),
            CliError::UnknownArgument { arg } => {
                let mut m = string_of("unknown argument '");
                m.append(arg.as_str());
                m.append("'");
                m
            },
            CliError::ImageWithSession => string_of("IMAGE and --session are mutually exclusive"),
        }
    }
}

proof fn lemma_scan_run_excludes(
    args: Seq<Seq<char>>,
    i: int,
    image: Option<Seq<char>>,
    session: Option<Seq<char>>,
    output: Option<Seq<char>>,
    format: ExportFormat,
)
    ensures
        scan_args(args, i, image, session, output, format).0 == CliVerdict::Run ==> !(scan_args(
            args,
            i,
            image,
            session,
            output,
            format,
        ).1 is Some && scan_args(args, i, image, session, output, format).2 is Some),
    decreases args.len() - i,
{
    if 0 <= i < args.len() {
        lemma_scan_run_excludes(args, i + 1, Some(args[i]), session, output, format);
        if i + 1 < args.len() {
            lemma_scan_run_excludes(args, i + 2, image, Some(args[i + 1]), output, format);
            lemma_scan_run_excludes(args, i + 2, image, session, Some(args[i + 1]), format);
            match spec_format_from_flag(args[i + 1]) {
                Some(f) => lemma_scan_run_excludes(args, i + 2, image, session, output, f),
                None => {},
            }
        }
    }
}

/// An image and a session never both reach a run: a command line naming both is refused.
pub proof fn lemma_image_and_session_exclusive(args: Seq<Seq<char>>)
    ensures
        spec_parse_args(args).0 == CliVerdict::Run ==> !(spec_parse_args(args).1 is Some
            && spec_parse_args(args).2 is Some),
{
    lemma_scan_run_excludes(args, 1, None, None, None, ExportFormat::Obj);
}

/// `a` is an option that takes the next argument as its value.
pub open spec fn takes_value(a: Seq<char>) -> bool {
    a == "--session"@ || a == "-o"@ || a == "--output"@ || a == "--format"@
}

/// `x` and `y` are the short and long spellings of one option, in either order.
pub open spec fn same_option(x: Seq<char>, y: Seq<char>) -> bool {
    ||| (x == "-h"@ && y == "--help"@) || (x == "--help"@ && y == "-h"@)
    ||| (x == "-V"@ && y == "--version"@) || (x == "--version"@ && y == "-V"@)
    ||| (x == "-o"@ && y == "--output"@) || (x == "--output"@ && y == "-o"@)
}

proof fn lemma_option_literals_distinct()
    ensures
        "-h"@ != "-V"@ && "-h"@ != "-o"@ && "-V"@ != "-o"@,
        "--help"@ != "--version"@ && "--help"@ != "--session"@ && "--help"@ != "--output"@ && "--help"@
            != "--format"@,
        "--version"@ != "--session"@ && "--version"@ != "--output"@ && "--version"@ != "--format"@,
        "--session"@ != "--output"@ && "--session"@ != "--format"@ && "--output"@ != "--format"@,
        "-h"@.len() == 2 && "-V"@.len() == 2 && "-o"@.len() == 2,
        "--help"@.len() == 6 && "--version"@.len() == 9 && "--session"@.len() == 9,
        "--output"@.len() == 8 && "--format"@.len() == 8,
        "-h"@[0] == '-' && "-V"@[0] == '-' && "-o"@[0] == '-',
{
    reveal_strlit("-h");
    reveal_strlit("-V");
    reveal_strlit("-o");
    reveal_strlit("--help");
    reveal_strlit("--version");
    reveal_strlit("--session");
    reveal_strlit("--output");
    reveal_strlit("--format");
    assert("-h"@[1] != "-V"@[1]);
    assert("-h"@[1] != "-o"@[1]);
    assert("-V"@[1] != "-o"@[1]);
    assert("--version"@[2] != "--session"@[2]);
    assert("--output"@[2] != "--format"@[2]);
}

proof fn lemma_scan_spelling(
    args: Seq<Seq<char>>,
    i: int,
    y: Seq<char>,
    j: int,
    image: Option<Seq<char>>,
    session: Option<Seq<char>>,
    output: Option<Seq<char>>,
    format: ExportFormat,
)
    requires
        1 <= i < args.len(),
        same_option(args[i], y),
        !takes_value(args[i - 1]),
        j >= 1,
    ensures
        scan_args(args.update(i, y), j, image, session, output, format) == scan_args(
            args,
            j,
            image,
            session,
            output,
            format,
        ),
    decreases args.len() - j,
{
    let u = args.update(i, y);
    lemma_option_literals_distinct();
    if j < args.len() {
        assert(j + 1 < args.len() ==> j + 1 == i ==> !takes_value(args[j]));
        lemma_scan_spelling(args, i, y, j + 1, Some(args[j]), session, output, format);
        lemma_scan_spelling(args, i, y, j + 1, Some(u[j]), session, output, format);
        if j + 1 < args.len() {
            lemma_scan_spelling(args, i, y, j + 2, image, Some(args[j + 1]), output, format);
            lemma_scan_spelling(args, i, y, j + 2, image, session, Some(args[j + 1]), format);
            match spec_format_from_flag(args[j + 1]) {
                Some(f) => lemma_scan_spelling(args, i, y, j + 2, image, session, output, f),
                None => {},
            }
        }
    }
}

/// The short and long spellings of an option are interchangeable: wherever an argument
/// is read as an option (it does not follow an option that takes a value), writing
/// `--help` for `-h`, `--version` for `-V` or `--output` for `-o`, or the other way
/// round, parses to the same result.
pub proof fn lemma_option_spellings_interchangeable(args: Seq<Seq<char>>, i: int, y: Seq<char>)
    requires
        1 <= i < args.len(),
        same_option(args[i], y),
        !takes_value(args[i - 1]),
    ensures
        spec_parse_args(args.update(i, y)) == spec_parse_args(args),
{
    lemma_scan_spelling(args, i, y, 1, None, None, None, ExportFormat::Obj);
}

/// A command line whose first argument is `-h` or `--help` asks for help, and one whose
/// first argument is `-V` or `--version` asks for the version, whatever follows.
pub proof fn lemma_help_and_version_first(prog: Seq<char>, first: Seq<char>, rest: Seq<Seq<char>>)
    ensures
        (first == "-h"@ || first == "--help"@) ==> spec_parse_args(seq![prog, first] + rest).0
            == CliVerdict::Help,
        (first == "-V"@ || first == "--version"@) ==> spec_parse_args(seq![prog, first] + rest).0
            == CliVerdict::Version,
{
    let args = seq![prog, first] + rest;
    assert(args[1] == first);
    lemma_option_literals_distinct();
}

} // verus!
