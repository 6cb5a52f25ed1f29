//! The command line of `pb`: which command the arguments ask for, which
//! text the log sanitizer replaces, and what each error says.
use vstd::prelude::*;

use crate::convert::ChineseVariant;
use crate::text::{is_blank, is_blank_text};

verus! {

/// Options of the `lrc` command.
#[derive(Debug, PartialEq, Eq)]
pub struct LrcOptions {
    /// `-r`: search subdirectories too.
    pub recursive: bool,
    /// `-p PATTERN`; `None` keeps the default `*.lrc`.
    pub pattern: Option<String>,
    /// `tw` or `cn`: convert the selected file.
    pub variant: Option<ChineseVariant>,
    /// `-i`: convert the file itself instead of the clipboard.
    pub in_place: bool,
    /// `-f`: skip the preview.
    pub force: bool,
}

/// What the command line asks `pb` to do.
#[derive(Debug, PartialEq, Eq)]
pub enum Command {
    /// No argument: copy stdin to the clipboard.
    StdinToClipboard,
    /// `--help`, `-h`.
    Help,
    /// `--version`, `-V`.
    Version,
    /// `log [TEXT] [-f]`: sanitize stdin into the clipboard.
    Log { force: bool, replace_text: Option<String> },
    /// `lrc [opts]`: pick a lyric file with fzf.
    Lrc(LrcOptions),
    /// `tw` / `cn [-i] [-f] [file]`: convert a file or the clipboard.
    Convert {
        variant: ChineseVariant,
        in_place: bool,
        force: bool,
        filepath: Option<String>,
    },
    /// `paste`: print the clipboard.
    Paste,
    /// `clean`: empty the clipboard.
    Clean,
    /// Any other first argument: copy that file (`-` is stdin) to the clipboard.
    CopySource(String),
}

/// Everything that `pb` reports as a failure of its own rules.
#[derive(Debug, PartialEq)]
pub enum CliError {
    UnknownLogFlag(String),
    EmptyReplacement,
    NoUsername,
    /// The regex crate refused the replacement pattern, for the reason it gives.
    RegexCompile(regex::Error),
    MissingPattern,
    UnknownLrcFlag(String),
    NoMatchingFiles { recursive: bool, pattern: String },
    UnknownFlag(String),
    FilenameRequired,
}

// ---------------------------------------------------------------------------
// Model of the command line
// ---------------------------------------------------------------------------

/// An argument that starts with `-` is taken for a flag.
pub open spec fn is_flag_like(arg: Seq<char>) -> bool {
    arg.len() > 0 && arg[0] == '-'
}

/// `log` arguments from position `idx` on, `-f` seen so far or not.
pub open spec fn parse_log_args(args: Seq<String>, idx: int, force: bool) -> Result<
    Command,
    CliError,
>
    decreases args.len() - idx,
{
    if idx < 0 || idx >= args.len() {
        Ok(Command::Log { force, replace_text: None })
    } else if args[idx]@ == "-f"@ || args[idx]@ == "--force"@ {
        parse_log_args(args, idx + 1, true)
    } else if !is_flag_like(args[idx]@) {
        Ok(Command::Log { force, replace_text: Some(args[idx]) })
    } else {
        Err(CliError::UnknownLogFlag(args[idx]))
    }
}

/// `lrc` arguments from position `idx` on, with the options seen so far.
pub open spec fn parse_lrc_args(args: Seq<String>, idx: int, opts: LrcOptions) -> Result<
    Command,
    CliError,
>
    decreases args.len() - idx,
{
    if idx < 0 || idx >= args.len() {
        Ok(Command::Lrc(opts))
    } else {
        let a = args[idx]@;
        if a == "-r"@ || a == "--recursive"@ {
            parse_lrc_args(args, idx + 1, LrcOptions { recursive: true, ..opts })
        } else if a == "-p"@ || a == "--pattern"@ {
            if idx + 1 < args.len() {
                parse_lrc_args(args, idx + 2, LrcOptions { pattern: Some(args[idx + 1]), ..opts })
            } else {
                Err(CliError::MissingPattern)
            }
        } else if a == "-i"@ || a == "--in-place"@ {
            parse_lrc_args(args, idx + 1, LrcOptions { in_place: true, ..opts })
        } else if a == "-f"@ || a == "--force"@ {
            parse_lrc_args(args, idx + 1, LrcOptions { force: true, ..opts })
        } else if a == "tw"@ {
            parse_lrc_args(args, idx + 1, LrcOptions { variant: Some(ChineseVariant::ZhTW), ..opts })
        } else if a == "cn"@ {
            parse_lrc_args(args, idx + 1, LrcOptions { variant: Some(ChineseVariant::ZhCN), ..opts })
        } else {
            Err(CliError::UnknownLrcFlag(args[idx]))
        }
    }
}

/// The `lrc` options before any argument is read.
pub open spec fn default_lrc_options() -> LrcOptions {
    LrcOptions { recursive: false, pattern: None, variant: None, in_place: false, force: false }
}

/// A conversion command once its arguments are read: in-place editing needs
/// a file.
pub open spec fn finish_convert(
    variant: ChineseVariant,
    in_place: bool,
    force: bool,
    filepath: Option<String>,
) -> Result<Command, CliError> {
    if in_place && filepath is None {
        Err(CliError::FilenameRequired)
    } else {
        Ok(Command::Convert { variant, in_place, force, filepath })
    }
}

/// `tw` / `cn` arguments from position `idx` on.
pub open spec fn parse_convert_args(
    args: Seq<String>,
    idx: int,
    variant: ChineseVariant,
    in_place: bool,
    force: bool,
) -> Result<Command, CliError>
    decreases args.len() - idx,
{
    if idx < 0 || idx >= args.len() {
        finish_convert(variant, in_place, force, None)
    } else if args[idx]@ == "-i"@ || args[idx]@ == "--in-place"@ {
        parse_convert_args(args, idx + 1, variant, true, force)
    } else if args[idx]@ == "-f"@ || args[idx]@ == "--force"@ {
        parse_convert_args(args, idx + 1, variant, in_place, true)
    } else if !is_flag_like(args[idx]@) {
        finish_convert(variant, in_place, force, Some(args[idx]))
    } else {
        Err(CliError::UnknownFlag(args[idx]))
    }
}

/// The command that the arguments (the program name first) ask for.
pub open spec fn parse_command(args: Seq<String>) -> Result<Command, CliError> {
    if args.len() <= 1 {
        Ok(Command::StdinToClipboard)
    } else {
        let a = args[1]@;
        if a == "--help"@ || a == "-h"@ {
            Ok(Command::Help)
        } else if a == "--version"@ || a == "-V"@ {
            Ok(Command::Version)
        } else if a == "log"@ {
            parse_log_args(args, 2, false)
        } else if a == "lrc"@ {
            parse_lrc_args(args, 2, default_lrc_options())
        } else if a == "tw"@ {
            parse_convert_args(args, 2, ChineseVariant::ZhTW, false, false)
        } else if a == "cn"@ {
            parse_convert_args(args, 2, ChineseVariant::ZhCN, false, false)
        } else if a == "paste"@ {
            Ok(Command::Paste)
        } else if a == "clean"@ {
            Ok(Command::Clean)
        } else {
            Ok(Command::CopySource(args[1]))
        }
    }
}

/// The text that `log` replaces: the explicit argument unless it is blank,
/// else `$USER`, else `$USERNAME`.
pub open spec fn log_target(
    replace_text: Option<String>,
    user: Option<String>,
    username: Option<String>,
) -> Result<String, CliError> {
    match replace_text {
        Some(t) => if is_blank(t@) {
            Err(CliError::EmptyReplacement)
        } else {
            Ok(t)
        },
        None => match user {
            Some(u) => Ok(u),
            None => match username {
                Some(u) => Ok(u),
                None => Err(CliError::NoUsername),
            },
        },
    }
}

proof fn lemma_convert_args_in_place(
    args: Seq<String>,
    idx: int,
    variant: ChineseVariant,
    in_place: bool,
    force: bool,
)
    ensures
        parse_convert_args(args, idx, variant, in_place, force) matches Ok(
            Command::Convert { in_place: true, filepath, .. },
        ) ==> filepath is Some,
        parse_convert_args(args, idx, variant, in_place, force) matches Ok(c) ==> c is Convert,
    decreases args.len() - idx,
{
    if 0 <= idx < args.len() {
        if args[idx]@ == "-i"@ || args[idx]@ == "--in-place"@ {
            lemma_convert_args_in_place(args, idx + 1, variant, true, force);
        } else if args[idx]@ == "-f"@ || args[idx]@ == "--force"@ {
            lemma_convert_args_in_place(args, idx + 1, variant, in_place, true);
        }
    }
}

/// `tw -i` / `cn -i` never goes ahead without a file to convert: a parsed
/// in-place conversion always names its file.
pub proof fn lemma_in_place_has_file(args: Seq<String>)
    ensures
        parse_command(args) matches Ok(Command::Convert { in_place: true, filepath, .. })
            ==> filepath is Some,
{
    if args.len() > 1 {
        lemma_convert_args_in_place(args, 2, ChineseVariant::ZhTW, false, false);
        lemma_convert_args_in_place(args, 2, ChineseVariant::ZhCN, false, false);
        lemma_log_args_is_log(args, 2, false);
        lemma_lrc_args_is_lrc(args, 2, default_lrc_options());
    }
}

proof fn lemma_log_args_is_log(args: Seq<String>, idx: int, force: bool)
    ensures
        parse_log_args(args, idx, force) matches Ok(c) ==> c is Log,
    decreases args.len() - idx,
{
    if 0 <= idx < args.len() {
        lemma_log_args_is_log(args, idx + 1, true);
    }
}

proof fn lemma_lrc_args_is_lrc(args: Seq<String>, idx: int, opts: LrcOptions)
    ensures
        parse_lrc_args(args, idx, opts) matches Ok(c) ==> c is Lrc,
    decreases args.len() - idx,
{
    if 0 <= idx < args.len() {
        lemma_lrc_args_is_lrc(args, idx + 1, LrcOptions { recursive: true, ..opts });
        if idx + 1 < args.len() {
            lemma_lrc_args_is_lrc(args, idx + 2, LrcOptions { pattern: Some(args[idx + 1]), ..opts });
        }
        lemma_lrc_args_is_lrc(args, idx + 1, LrcOptions { in_place: true, ..opts });
        lemma_lrc_args_is_lrc(args, idx + 1, LrcOptions { force: true, ..opts });
        lemma_lrc_args_is_lrc(args, idx + 1, LrcOptions { variant: Some(ChineseVariant::ZhTW), ..opts });
        lemma_lrc_args_is_lrc(args, idx + 1, LrcOptions { variant: Some(ChineseVariant::ZhCN), ..opts });
    }
}

/// An explicit replacement text is only ever used when it is not blank.
pub proof fn lemma_log_target_not_blank(
    replace_text: Option<String>,
    user: Option<String>,
    username: Option<String>,
)
    ensures
        replace_text is Some ==> (log_target(replace_text, user, username) matches Ok(t) ==> !is_blank(t@)),
        replace_text is Some && !is_blank(replace_text->0@) ==> log_target(replace_text, user, username) == Ok::<String, CliError>(replace_text->0),
{
}

/// Without an explicit text the target is `$USER` whenever it is set, whatever
/// `$USERNAME` holds; `$USERNAME` is used only when `$USER` is missing, and an
/// error comes only when both are.
pub proof fn lemma_log_target_env_order(user: Option<String>, username: Option<String>)
    ensures
        forall|u: String, n: Option<String>| #[trigger]
            log_target(None, Some(u), n) == Ok::<String, CliError>(u),
        forall|n: String| #[trigger]
            log_target(None, None, Some(n)) == Ok::<String, CliError>(n),
        log_target(None, None, None) == Err::<String, CliError>(CliError::NoUsername),
        user is Some ==> log_target(None, user, username) == Ok::<String, CliError>(user->0),
        log_target(None, user, username) is Err <==> user is None && username is None,
{
}

/// `-f` / `--force`.
pub open spec fn is_force_flag(arg: Seq<char>) -> bool {
    arg == "-f"@ || arg == "--force"@
}

/// `-i` / `--in-place`.
pub open spec fn is_in_place_flag(arg: Seq<char>) -> bool {
    arg == "-i"@ || arg == "--in-place"@
}

/// `-p` / `--pattern`, whose next argument is a pattern rather than a flag.
pub open spec fn is_pattern_flag(arg: Seq<char>) -> bool {
    arg == "-p"@ || arg == "--pattern"@
}

/// `args[lo..hi]` holds a force flag.
pub open spec fn has_force_flag(args: Seq<String>, lo: int, hi: int) -> bool {
    exists|j: int| lo <= j < hi && #[trigger] is_force_flag(args[j]@)
}

/// `args[lo..hi]` holds an in-place flag.
pub open spec fn has_in_place_flag(args: Seq<String>, lo: int, hi: int) -> bool {
    exists|j: int| lo <= j < hi && #[trigger] is_in_place_flag(args[j]@)
}

/// The flag spellings are distinct texts.
proof fn lemma_flag_texts()
    ensures
        "-f"@ =~= seq!['-', 'f'],
        "--force"@ =~= seq!['-', '-', 'f', 'o', 'r', 'c', 'e'],
        "-i"@ =~= seq!['-', 'i'],
        "--in-place"@ =~= seq!['-', '-', 'i', 'n', '-', 'p', 'l', 'a', 'c', 'e'],
        "-r"@ =~= seq!['-', 'r'],
        "--recursive"@ =~= seq!['-', '-', 'r', 'e', 'c', 'u', 'r', 's', 'i', 'v', 'e'],
        "-p"@ =~= seq!['-', 'p'],
        "--pattern"@ =~= seq!['-', '-', 'p', 'a', 't', 't', 'e', 'r', 'n'],
        "tw"@ =~= seq!['t', 'w'],
        "cn"@ =~= seq!['c', 'n'],
        "-f"@ != "-i"@ && "-f"@ != "-r"@ && "-f"@ != "-p"@ && "-f"@ != "tw"@ && "-f"@ != "cn"@,
        "-i"@ != "-r"@ && "-i"@ != "-p"@ && "-i"@ != "tw"@ && "-i"@ != "cn"@,
        "-r"@ != "-p"@ && "-r"@ != "tw"@ && "-r"@ != "cn"@ && "-p"@ != "tw"@ && "-p"@ != "cn"@,
        "tw"@ != "cn"@,
        "--force"@ != "--in-place"@ && "--force"@ != "--recursive"@ && "--force"@ != "--pattern"@,
        "--in-place"@ != "--recursive"@ && "--in-place"@ != "--pattern"@,
        "--recursive"@ != "--pattern"@,
        "-f"@.len() == 2 && "-i"@.len() == 2 && "-r"@.len() == 2 && "-p"@.len() == 2,
        "tw"@.len() == 2 && "cn"@.len() == 2,
        "--force"@.len() == 7 && "--in-place"@.len() == 10 && "--recursive"@.len() == 11
            && "--pattern"@.len() == 9,
        is_flag_like("-f"@) && is_flag_like("--force"@) && is_flag_like("-i"@) && is_flag_like(
            "--in-place"@,
        ),
{
    reveal_strlit("-f");
    reveal_strlit("--force");
    reveal_strlit("-i");
    reveal_strlit("--in-place");
    reveal_strlit("-r");
    reveal_strlit("--recursive");
    reveal_strlit("-p");
    reveal_strlit("--pattern");
    reveal_strlit("tw");
    reveal_strlit("cn");
    assert("-f"@[1] != "-i"@[1]);
    assert("-f"@[1] != "-r"@[1]);
    assert("-f"@[1] != "-p"@[1]);
    assert("-f"@[0] != "tw"@[0]);
    assert("-f"@[0] != "cn"@[0]);
    assert("-i"@[1] != "-r"@[1]);
    assert("-i"@[1] != "-p"@[1]);
    assert("-i"@[0] != "tw"@[0]);
    assert("-i"@[0] != "cn"@[0]);
    assert("-r"@[1] != "-p"@[1]);
    assert("-r"@[0] != "tw"@[0]);
    assert("-r"@[0] != "cn"@[0]);
    assert("-p"@[0] != "tw"@[0]);
    assert("-p"@[0] != "cn"@[0]);
    assert("tw"@[0] != "cn"@[0]);
    assert("--force"@.len() == 7);
    assert("--in-place"@.len() == 10);
    assert("--recursive"@.len() == 11);
    assert("--pattern"@.len() == 9);
}

proof fn lemma_lrc_sound(args: Seq<String>, idx: int, opts: LrcOptions)
    requires
        0 <= idx,
    ensures
        parse_lrc_args(args, idx, opts) matches Ok(Command::Lrc(o)) ==> {
            &&& o.force ==> opts.force || has_force_flag(args, idx, args.len() as int)
            &&& o.in_place ==> opts.in_place || has_in_place_flag(args, idx, args.len() as int)
            &&& o.recursive ==> opts.recursive || exists|j: int|
                idx <= j < args.len() && (#[trigger] args[j]@ == "-r"@ || args[j]@ == "--recursive"@)
            &&& o.variant == Some(ChineseVariant::ZhTW) ==> opts.variant == Some(
                ChineseVariant::ZhTW,
            ) || exists|j: int| idx <= j < args.len() && #[trigger] args[j]@ == "tw"@
            &&& o.variant == Some(ChineseVariant::ZhCN) ==> opts.variant == Some(
                ChineseVariant::ZhCN,
            ) || exists|j: int| idx <= j < args.len() && #[trigger] args[j]@ == "cn"@
            &&& o.variant is None ==> opts.variant is None
            &&& o.pattern != opts.pattern ==> exists|j: int|
                idx < j < args.len() && o.pattern == Some(args[j]) && #[trigger] is_pattern_flag(
                    args[j - 1]@,
                )
        },
    decreases args.len() - idx,
{
    lemma_flag_texts();
    if idx < args.len() {
        let a = args[idx]@;
        let next = if a == "-r"@ || a == "--recursive"@ {
            LrcOptions { recursive: true, ..opts }
        } else if a == "-i"@ || a == "--in-place"@ {
            LrcOptions { in_place: true, ..opts }
        } else if a == "-f"@ || a == "--force"@ {
            LrcOptions { force: true, ..opts }
        } else if a == "tw"@ {
            LrcOptions { variant: Some(ChineseVariant::ZhTW), ..opts }
        } else {
            LrcOptions { variant: Some(ChineseVariant::ZhCN), ..opts }
        };
        if is_pattern_flag(a) {
            if idx + 1 < args.len() {
                lemma_lrc_sound(args, idx + 2, LrcOptions { pattern: Some(args[idx + 1]), ..opts });
            }
        } else {
            lemma_lrc_sound(args, idx + 1, next);
        }
        assert(is_force_flag(a) ==> is_force_flag(args[idx]@));
        assert(is_in_place_flag(a) ==> is_in_place_flag(args[idx]@));
        assert(args[idx]@ == a);
        if is_pattern_flag(a) && idx + 1 < args.len() {
            assert(is_pattern_flag(args[(idx + 1) - 1]@));
        }
    }
}

proof fn lemma_lrc_force_kept(args: Seq<String>, idx: int, opts: LrcOptions)
    requires
        opts.force,
    ensures
        parse_lrc_args(args, idx, opts) matches Ok(Command::Lrc(o)) ==> o.force,
    decreases args.len() - idx,
{
    lemma_flag_texts();
    if 0 <= idx < args.len() {
        let a = args[idx]@;
        lemma_lrc_force_kept(args, idx + 1, LrcOptions { recursive: true, ..opts });
        if idx + 1 < args.len() {
            lemma_lrc_force_kept(args, idx + 2, LrcOptions { pattern: Some(args[idx + 1]), ..opts });
        }
        lemma_lrc_force_kept(args, idx + 1, LrcOptions { in_place: true, ..opts });
        lemma_lrc_force_kept(args, idx + 1, LrcOptions { force: true, ..opts });
        lemma_lrc_force_kept(args, idx + 1, LrcOptions { variant: Some(ChineseVariant::ZhTW), ..opts });
        lemma_lrc_force_kept(args, idx + 1, LrcOptions { variant: Some(ChineseVariant::ZhCN), ..opts });
    }
}

proof fn lemma_lrc_force_complete(args: Seq<String>, idx: int, opts: LrcOptions, i: int)
    requires
        0 <= idx <= i < args.len(),
        is_force_flag(args[i]@),
        forall|j: int| idx <= j < i ==> !#[trigger] is_pattern_flag(args[j]@),
    ensures
        parse_lrc_args(args, idx, opts) matches Ok(Command::Lrc(o)) ==> o.force,
    decreases i - idx,
{
    lemma_flag_texts();
    let a = args[idx]@;
    if idx == i {
        lemma_lrc_force_kept(args, idx + 1, LrcOptions { force: true, ..opts });
    } else {
        assert(!is_pattern_flag(args[idx]@));
        lemma_lrc_force_complete(args, idx + 1, LrcOptions { recursive: true, ..opts }, i);
        lemma_lrc_force_complete(args, idx + 1, LrcOptions { in_place: true, ..opts }, i);
        lemma_lrc_force_complete(args, idx + 1, LrcOptions { force: true, ..opts }, i);
        lemma_lrc_force_complete(args, idx + 1, LrcOptions { variant: Some(ChineseVariant::ZhTW), ..opts }, i);
        lemma_lrc_force_complete(args, idx + 1, LrcOptions { variant: Some(ChineseVariant::ZhCN), ..opts }, i);
    }
}

proof fn lemma_convert_sound(
    args: Seq<String>,
    idx: int,
    variant: ChineseVariant,
    in_place: bool,
    force: bool,
)
    requires
        0 <= idx,
    ensures
        parse_convert_args(args, idx, variant, in_place, force) matches Ok(
            Command::Convert { variant: v, in_place: ip, force: f, .. },
        ) ==> {
            &&& v == variant
            &&& f ==> force || has_force_flag(args, idx, args.len() as int)
            &&& ip ==> in_place || has_in_place_flag(args, idx, args.len() as int)
        },
        parse_convert_args(args, idx, variant, in_place, force) matches Ok(
            Command::Convert { filepath: Some(f), .. },
        ) ==> exists|j: int|
            idx <= j < args.len() && #[trigger] args[j] == f && !is_flag_like(f@),
    decreases args.len() - idx,
{
    lemma_flag_texts();
    if idx < args.len() {
        let a = args[idx]@;
        if is_in_place_flag(a) {
            lemma_convert_sound(args, idx + 1, variant, true, force);
            assert(is_in_place_flag(args[idx]@));
        } else if is_force_flag(a) {
            lemma_convert_sound(args, idx + 1, variant, in_place, true);
            assert(is_force_flag(args[idx]@));
        }
    }
}

proof fn lemma_convert_complete(
    args: Seq<String>,
    idx: int,
    variant: ChineseVariant,
    in_place: bool,
    force: bool,
    i: int,
)
    requires
        0 <= idx <= i < args.len(),
        is_force_flag(args[i]@) || is_in_place_flag(args[i]@),
        forall|j: int| idx <= j < i ==> is_flag_like(#[trigger] args[j]@),
    ensures
        parse_convert_args(args, idx, variant, in_place, force) matches Ok(
            Command::Convert { in_place: ip, force: f, .. },
        ) ==> (is_force_flag(args[i]@) ==> f) && (is_in_place_flag(args[i]@) ==> ip),
    decreases args.len() - idx,
{
    lemma_flag_texts();
    let a = args[idx]@;
    assert(is_flag_like(args[idx]@)) by {
        if idx < i {
            assert(is_flag_like(args[idx]@));
        } else {
            reveal_strlit("-f");
            reveal_strlit("--force");
            reveal_strlit("-i");
            reveal_strlit("--in-place");
        }
    }
    if idx == i {
        if is_in_place_flag(a) {
            lemma_convert_kept(args, idx + 1, variant, true, force);
        } else {
            lemma_convert_kept(args, idx + 1, variant, in_place, true);
        }
    } else if is_in_place_flag(a) {
        lemma_convert_complete(args, idx + 1, variant, true, force, i);
    } else if is_force_flag(a) {
        lemma_convert_complete(args, idx + 1, variant, in_place, true, i);
    }
}

proof fn lemma_convert_kept(
    args: Seq<String>,
    idx: int,
    variant: ChineseVariant,
    in_place: bool,
    force: bool,
)
    ensures
        parse_convert_args(args, idx, variant, in_place, force) matches Ok(
            Command::Convert { in_place: ip, force: f, .. },
        ) ==> (force ==> f) && (in_place ==> ip),
    decreases args.len() - idx,
{
    lemma_flag_texts();
    if 0 <= idx < args.len() {
        lemma_convert_kept(args, idx + 1, variant, true, force);
        lemma_convert_kept(args, idx + 1, variant, in_place, true);
    }
}

proof fn lemma_log_sound(args: Seq<String>, idx: int, force: bool)
    requires
        0 <= idx,
    ensures
        parse_log_args(args, idx, force) matches Ok(Command::Log { force: f, .. }) ==> (f ==> force
            || has_force_flag(args, idx, args.len() as int)),
        parse_log_args(args, idx, force) matches Ok(Command::Log { replace_text: Some(t), .. })
            ==> exists|j: int| idx <= j < args.len() && #[trigger] args[j] == t && !is_flag_like(t@),
    decreases args.len() - idx,
{
    lemma_flag_texts();
    if idx < args.len() {
        assert(args[idx] == args[idx]);
        lemma_log_sound(args, idx + 1, true);
        if is_force_flag(args[idx]@) {
            assert(is_force_flag(args[idx]@));
        }
    }
}

proof fn lemma_log_complete(args: Seq<String>, idx: int, force: bool, i: int)
    requires
        0 <= idx <= i < args.len(),
        is_force_flag(args[i]@),
        forall|j: int| idx <= j < i ==> is_flag_like(#[trigger] args[j]@),
    ensures
        parse_log_args(args, idx, force) matches Ok(Command::Log { force: f, .. }) ==> f,
    decreases i - idx,
{
    lemma_flag_texts();
    if idx == i {
        lemma_log_kept(args, idx + 1);
    } else {
        assert(is_flag_like(args[idx]@));
        lemma_log_complete(args, idx + 1, true, i);
    }
}

proof fn lemma_log_kept(args: Seq<String>, idx: int)
    ensures
        parse_log_args(args, idx, true) matches Ok(Command::Log { force: f, .. }) ==> f,
    decreases args.len() - idx,
{
    lemma_flag_texts();
    if 0 <= idx < args.len() {
        lemma_log_kept(args, idx + 1);
    }
}

/// `tw` converts to Traditional and `cn` to Simplified Chinese, whatever
/// follows them (a file name or flags).
pub proof fn lemma_convert_variant(args: Seq<String>)
    ensures
        parse_command(args) matches Ok(Command::Convert { variant, .. }) ==> {
            &&& args.len() > 1
            &&& (variant == ChineseVariant::ZhTW <==> args[1]@ == "tw"@)
            &&& (variant == ChineseVariant::ZhCN <==> args[1]@ == "cn"@)
        },
{
    lemma_flag_texts();
    reveal_strlit("tw");
    reveal_strlit("cn");
    if args.len() > 1 {
        lemma_convert_sound(args, 2, ChineseVariant::ZhTW, false, false);
        lemma_convert_sound(args, 2, ChineseVariant::ZhCN, false, false);
        lemma_log_args_is_log(args, 2, false);
        lemma_lrc_args_is_lrc(args, 2, default_lrc_options());
    }
}

/// Every option a parsed command carries comes from the arguments: a variant
/// from `tw`/`cn`, a pattern from the argument after `-p`, recursion from `-r`,
/// in-place editing from `-i`, a file or replacement text from a positional
/// argument, and the file to copy from the first argument.
pub proof fn lemma_parsed_values_from_args(args: Seq<String>)
    ensures
        parse_command(args) matches Ok(Command::Lrc(o)) ==> {
            &&& o.variant == Some(ChineseVariant::ZhTW) ==> exists|j: int|
                2 <= j < args.len() && #[trigger] args[j]@ == "tw"@
            &&& o.variant == Some(ChineseVariant::ZhCN) ==> exists|j: int|
                2 <= j < args.len() && #[trigger] args[j]@ == "cn"@
            &&& o.pattern is Some ==> exists|j: int|
                2 < j < args.len() && o.pattern == Some(args[j]) && #[trigger] is_pattern_flag(
                    args[j - 1]@,
                )
            &&& o.recursive ==> exists|j: int|
                2 <= j < args.len() && (#[trigger] args[j]@ == "-r"@ || args[j]@ == "--recursive"@)
            &&& o.in_place ==> has_in_place_flag(args, 2, args.len() as int)
        },
        parse_command(args) matches Ok(Command::Convert { filepath: Some(f), in_place, .. }) ==> (
        exists|j: int| 2 <= j < args.len() && #[trigger] args[j] == f && !is_flag_like(f@)) && (
        in_place ==> has_in_place_flag(args, 2, args.len() as int)),
        parse_command(args) matches Ok(Command::Log { replace_text: Some(t), .. }) ==> exists|j: int|
            2 <= j < args.len() && #[trigger] args[j] == t && !is_flag_like(t@),
        parse_command(args) matches Ok(Command::CopySource(f)) ==> args.len() > 1 && f == args[1],
{
    lemma_flag_texts();
    if args.len() > 1 {
        lemma_convert_args_in_place(args, 2, ChineseVariant::ZhTW, false, false);
        lemma_convert_args_in_place(args, 2, ChineseVariant::ZhCN, false, false);
        lemma_lrc_sound(args, 2, default_lrc_options());
        lemma_convert_sound(args, 2, ChineseVariant::ZhTW, false, false);
        lemma_convert_sound(args, 2, ChineseVariant::ZhCN, false, false);
        lemma_log_sound(args, 2, false);
        lemma_log_args_is_log(args, 2, false);
        lemma_lrc_args_is_lrc(args, 2, default_lrc_options());
    }
}

/// A command skips the preview (`force`) only when `-f` / `--force` is among
/// its arguments; `-i` never implies it. Conversely a `-f` reached as a flag
/// (before any file name, and not as the argument of `-p`) always sets it.
pub proof fn lemma_force_only_from_flag(args: Seq<String>)
    ensures
        parse_command(args) matches Ok(Command::Lrc(o)) ==> (o.force ==> has_force_flag(
            args,
            2,
            args.len() as int,
        )) && (o.in_place ==> has_in_place_flag(args, 2, args.len() as int)),
        parse_command(args) matches Ok(Command::Convert { force, in_place, .. }) ==> (force
            ==> has_force_flag(args, 2, args.len() as int)) && (in_place ==> has_in_place_flag(
            args,
            2,
            args.len() as int,
        )),
        parse_command(args) matches Ok(Command::Log { force, .. }) ==> (force ==> has_force_flag(
            args,
            2,
            args.len() as int,
        )),
        forall|i: int|
            2 <= i < args.len() && #[trigger] is_force_flag(args[i]@) && (forall|j: int|
                2 <= j < i ==> !#[trigger] is_pattern_flag(args[j]@)) ==> (parse_command(args) matches Ok(
                Command::Lrc(o),
            ) ==> o.force),
        forall|i: int|
            2 <= i < args.len() && #[trigger] is_force_flag(args[i]@) && (forall|j: int|
                2 <= j < i ==> is_flag_like(#[trigger] args[j]@)) ==> (parse_command(args) matches Ok(
                Command::Convert { force, .. },
            ) ==> force) && (parse_command(args) matches Ok(Command::Log { force, .. }) ==> force),
{
    lemma_flag_texts();
    if args.len() > 1 {
        lemma_convert_args_in_place(args, 2, ChineseVariant::ZhTW, false, false);
        lemma_convert_args_in_place(args, 2, ChineseVariant::ZhCN, false, false);
        lemma_lrc_sound(args, 2, default_lrc_options());
        lemma_convert_sound(args, 2, ChineseVariant::ZhTW, false, false);
        lemma_convert_sound(args, 2, ChineseVariant::ZhCN, false, false);
        lemma_log_sound(args, 2, false);
        lemma_log_args_is_log(args, 2, false);
        lemma_lrc_args_is_lrc(args, 2, default_lrc_options());
        assert forall|i: int|
            2 <= i < args.len() && #[trigger] is_force_flag(args[i]@) && (forall|j: int|
                2 <= j < i ==> !#[trigger] is_pattern_flag(args[j]@)) implies (parse_command(args) matches Ok(
                Command::Lrc(o),
            ) ==> o.force) by {
            lemma_lrc_force_complete(args, 2, default_lrc_options(), i);
        }
        assert forall|i: int|
            2 <= i < args.len() && #[trigger] is_force_flag(args[i]@) && (forall|j: int|
                2 <= j < i ==> is_flag_like(#[trigger] args[j]@)) implies (parse_command(args) matches Ok(
                Command::Convert { force, .. },
            ) ==> force) && (parse_command(args) matches Ok(Command::Log { force, .. }) ==> force) by {
            lemma_convert_complete(args, 2, ChineseVariant::ZhTW, false, false, i);
            lemma_convert_complete(args, 2, ChineseVariant::ZhCN, false, false, i);
            lemma_log_complete(args, 2, false, i);
        }
    }
}

// ---------------------------------------------------------------------------
// Executable parsing
// ---------------------------------------------------------------------------

/// Whether `arg` is the text of `lit`.
fn is_text(arg: &String, lit: &str) -> (res: bool)
    ensures
        res == (arg@ == lit@),
{
    let l = String::from_str(lit);
    arg.eq(&l)
}

/// Whether `arg` is one of two spellings of a flag.
fn is_either(arg: &String, short: &str, long: &str) -> (res: bool)
    ensures
        res == (arg@ == short@ || arg@ == long@),
{
    is_text(arg, short) || is_text(arg, long)
}

/// Whether `arg` starts with `-`.
fn starts_with_dash(arg: &String) -> (res: bool)
    ensures
        res == is_flag_like(arg@),
{
    let s = arg.as_str();
    s.unicode_len() > 0 && s.get_char(0) == '-'
}

fn parse_log(args: &Vec<String>) -> (res: Result<Command, CliError>)
    requires
        args@.len() >= 2,
    ensures
        res == parse_log_args(args@, 2, false),
{
    let n = args.len();
    let mut force = false;
    let mut idx: usize = 2;
    while idx < n
        invariant
            n == args@.len(),
            2 <= idx,
            parse_log_args(args@, 2, false) == parse_log_args(args@, idx as int, force),
        decreases n - idx,
    {
        if is_either(&args[idx], "-f", "--force") {
            force = true;
            idx = idx + 1;
        } else if !starts_with_dash(&args[idx]) {
            return Ok(Command::Log { force, replace_text: Some(args[idx].clone()) });
        } else {
            return Err(CliError::UnknownLogFlag(args[idx].clone()));
        }
    }
    Ok(Command::Log { force, replace_text: None })
}

fn parse_lrc(args: &Vec<String>) -> (res: Result<Command, CliError>)
    requires
        args@.len() >= 2,
    ensures
        res == parse_lrc_args(args@, 2, default_lrc_options()),
{
    let n = args.len();
    let mut opts = LrcOptions {
        recursive: false,
        pattern: None,
        variant: None,
        in_place: false,
        force: false,
    };
    let mut idx: usize = 2;
    while idx < n
        invariant
            n == args@.len(),
            2 <= idx,
            parse_lrc_args(args@, 2, default_lrc_options()) == parse_lrc_args(
                args@,
                idx as int,
                opts,
            ),
        decreases n - idx,
    {
        let a = &args[idx];
        if is_either(a, "-r", "--recursive") {
            opts.recursive = true;
            idx = idx + 1;
        } else if is_either(a, "-p", "--pattern") {
            if idx + 1 < n {
                opts.pattern = Some(args[idx + 1].clone());
                idx = idx + 2;
            } else {
                return Err(CliError::MissingPattern);
            }
        } else if is_either(a, "-i", "--in-place") {
            opts.in_place = true;
            idx = idx + 1;
        } else if is_either(a, "-f", "--force") {
            opts.force = true;
            idx = idx + 1;
        } else if is_text(a, "tw") {
            opts.variant = Some(ChineseVariant::ZhTW);
            idx = idx + 1;
        } else if is_text(a, "cn") {
            opts.variant = Some(ChineseVariant::ZhCN);
            idx = idx + 1;
        } else {
            return Err(CliError::UnknownLrcFlag(a.clone()));
        }
    }
    Ok(Command::Lrc(opts))
}

fn finish_convert_command(
    variant: ChineseVariant,
    in_place: bool,
    force: bool,
    filepath: Option<String>,
) -> (res: Result<Command, CliError>)
    ensures
        res == finish_convert(variant, in_place, force, filepath),
{
    if in_place && filepath.is_none() {
        Err(CliError::FilenameRequired)
    } else {
        Ok(Command::Convert { variant, in_place, force, filepath })
    }
}

fn parse_convert(args: &Vec<String>, variant: ChineseVariant) -> (res: Result<Command, CliError>)
    requires
        args@.len() >= 2,
    ensures
        res == parse_convert_args(args@, 2, variant, false, false),
{
    let n = args.len();
    let mut in_place = false;
    let mut force = false;
    let mut idx: usize = 2;
    while idx < n
        invariant
            n == args@.len(),
            2 <= idx,
            parse_convert_args(args@, 2, variant, false, false) == parse_convert_args(
                args@,
                idx as int,
                variant,
                in_place,
                force,
            ),
        decreases n - idx,
    {
        if is_either(&args[idx], "-i", "--in-place") {
            in_place = true;
            idx = idx + 1;
        } else if is_either(&args[idx], "-f", "--force") {
            force = true;
            idx = idx + 1;
        } else if !starts_with_dash(&args[idx]) {
            return finish_convert_command(variant, in_place, force, Some(args[idx].clone()));
        } else {
            return Err(CliError::UnknownFlag(args[idx].clone()));
        }
    }
    finish_convert_command(variant, in_place, force, None)
}

/// Reads the command line (the program name first). Fails exactly where the
/// model `parse_command` fails: an unknown flag, `-p` without a pattern, or
/// `-i` without a file name.
pub fn parse_args(args: &Vec<String>) -> (res: Result<Command, CliError>)
    requires
        args@.len() >= 1,
    ensures
        res == parse_command(args@),
        res matches Ok(Command::Convert { variant, .. }) ==> (variant == ChineseVariant::ZhTW
            <==> args@[1]@ == "tw"@) && (variant == ChineseVariant::ZhCN <==> args@[1]@ == "cn"@),
        res matches Ok(Command::Convert { force, .. }) ==> (force ==> has_force_flag(
            args@,
            2,
            args@.len() as int,
        )),
        res matches Ok(Command::Lrc(o)) ==> (o.force ==> has_force_flag(
            args@,
            2,
            args@.len() as int,
        )),
        res matches Ok(Command::Log { force, .. }) ==> (force ==> has_force_flag(
            args@,
            2,
            args@.len() as int,
        )),
{
    proof {
        lemma_convert_variant(args@);
        lemma_force_only_from_flag(args@);
    }
    if args.len() == 1 {
        return Ok(Command::StdinToClipboard);
    }
    let a = &args[1];
    if is_either(a, "--help", "-h") {
        Ok(Command::Help)
    } else if is_either(a, "--version", "-V") {
        Ok(Command::Version)
    } else if is_text(a, "log") {
        parse_log(args)
    } else if is_text(a, "lrc") {
        parse_lrc(args)
    } else if is_text(a, "tw") {
        parse_convert(args, ChineseVariant::ZhTW)
    } else if is_text(a, "cn") {
        parse_convert(args, ChineseVariant::ZhCN)
    } else if is_text(a, "paste") {
        Ok(Command::Paste)
    } else if is_text(a, "clean") {
        Ok(Command::Clean)
    } else {
        Ok(Command::CopySource(a.clone()))
    }
}

/// Picks the text that `log` replaces with `root`.
pub fn resolve_log_target(
    replace_text: Option<String>,
    user: Option<String>,
    username: Option<String>,
) -> (res: Result<String, CliError>)
    ensures
        res == log_target(replace_text, user, username),
        replace_text is None && user is Some ==> res == Ok::<String, CliError>(user->0),
        replace_text is None && user is None && username is Some ==> res == Ok::<String, CliError>(
            username->0,
        ),
        replace_text is None && user is None && username is None ==> res == Err::<String, CliError>(
            CliError::NoUsername,
        ),
        replace_text is Some && is_blank(replace_text->0@) ==> res == Err::<String, CliError>(
            CliError::EmptyReplacement,
        ),
        replace_text is Some && !is_blank(replace_text->0@) ==> res == Ok::<String, CliError>(
            replace_text->0,
        ),
{
    proof {
        lemma_log_target_env_order(user, username);
        lemma_log_target_not_blank(replace_text, user, username);
    }
    match replace_text {
        Some(t) => {
            if is_blank_text(t.as_str()) {
                Err(CliError::EmptyReplacement)
            } else {
                Ok(t)
            }
        },
        None => match user {
            Some(u) => Ok(u),
            None => match username {
                Some(u) => Ok(u),
                None => Err(CliError::NoUsername),
            },
        },
    }
}

/// `-` names stdin as the source to read.
pub fn is_stdin_source(source: &String) -> (res: bool)
    ensures
        res == (source@ == "-"@),
{
    is_text(source, "-")
}

// ---------------------------------------------------------------------------
// lrc search
// ---------------------------------------------------------------------------

/// The file pattern `lrc` searches with: `-p PATTERN`, else `*.lrc`.
pub open spec fn lrc_pattern_text(opts: LrcOptions) -> Seq<char> {
    match opts.pattern {
        Some(p) => p@,
        None => "*.lrc"@,
    }
}

/// The glob that `lrc` lists: the pattern, under `**/` when recursive.
pub open spec fn lrc_glob_text(opts: LrcOptions) -> Seq<char> {
    if opts.recursive {
        "**/"@ + lrc_pattern_text(opts)
    } else {
        lrc_pattern_text(opts)
    }
}

/// The glob searches subdirectories (a `**/` prefix) exactly when `-r` was
/// given, and ends with the pattern in effect, whether it came from `-p` or is
/// the default: turning `-r` on only adds `**/` in front.
pub proof fn lemma_lrc_glob_shape(opts: LrcOptions)
    ensures
        lrc_glob_text(LrcOptions { recursive: true, ..opts }) == "**/"@ + lrc_glob_text(
            LrcOptions { recursive: false, ..opts },
        ),
        lrc_glob_text(LrcOptions { recursive: false, ..opts }) == lrc_pattern_text(opts),
        opts.recursive ==> lrc_glob_text(opts) == "**/"@ + opts.effective_pattern_text(),
        !opts.recursive ==> lrc_glob_text(opts) == opts.effective_pattern_text(),
        opts.pattern matches Some(p) ==> opts.effective_pattern_text() == p@,
        opts.pattern is None ==> opts.effective_pattern_text() == "*.lrc"@,
{
}

impl LrcOptions {
    /// The text of the pattern in effect: `-p PATTERN`, else `*.lrc`.
    pub open spec fn effective_pattern_text(&self) -> Seq<char> {
        match self.pattern {
            Some(p) => p@,
            None => "*.lrc"@,
        }
    }

    /// The file pattern in effect.
    pub fn effective_pattern(&self) -> (res: String)
        ensures
            res@ == lrc_pattern_text(*self),
    {
        match &self.pattern {
            Some(p) => p.clone(),
            None => String::from_str("*.lrc"),
        }
    }

    /// The glob to list candidate files with.
    pub fn search_glob(&self) -> (res: String)
        ensures
            res@ == lrc_glob_text(*self),
            self.recursive ==> res@ == "**/"@ + self.effective_pattern_text(),
            !self.recursive ==> res@ == self.effective_pattern_text(),
    {
        proof {
            lemma_lrc_glob_shape(*self);
        }
        let pattern = self.effective_pattern();
        if self.recursive {
            let mut g = String::from_str("**/");
            g.append(pattern.as_str());
            g
        } else {
            pattern
        }
    }

    /// The variant an in-place conversion uses: the one asked for, else zh-TW.
    pub fn in_place_variant(&self) -> (res: ChineseVariant)
        ensures
            res == match self.variant {
                Some(v) => v,
                None => ChineseVariant::ZhTW,
            },
    {
        match self.variant {
            Some(v) => v,
            None => ChineseVariant::ZhTW,
        }
    }

    /// The error for a search that found no file.
    pub fn no_matching_files(&self) -> (res: CliError)
        ensures
            res == (CliError::NoMatchingFiles {
                recursive: self.recursive,
                pattern: res->pattern,
            }),
            res->pattern@ == lrc_pattern_text(*self),
    {
        CliError::NoMatchingFiles { recursive: self.recursive, pattern: self.effective_pattern() }
    }
}

// ---------------------------------------------------------------------------
// Messages
// ---------------------------------------------------------------------------

/// The text of each error.
pub open spec fn error_message(e: CliError) -> Seq<char> {
    match e {
        CliError::UnknownLogFlag(f) => "Unknown flag for 'log': "@ + f@
            + "\nTry 'pb --help' for usage"@,
        CliError::EmptyReplacement => "Replacement text cannot be empty"@,
        CliError::NoUsername => "Could not auto-detect username (USER/USERNAME env vars missing).\nTry: pb log yourname"@,
        CliError::RegexCompile(_) => "Failed to compile replacement regex"@,
        CliError::MissingPattern => "Pattern required after -p"@,
        CliError::UnknownLrcFlag(f) => "Unknown flag for 'lrc': "@ + f@
            + "\nTry 'pb --help' for usage"@,
        CliError::NoMatchingFiles { recursive, pattern } => "No matching files found for pattern: "@
            + (if recursive {
            " (recursive)"@
        } else {
            Seq::empty()
        }) + (if pattern@ == "*.lrc"@ {
            "\nTry: pb lrc -p '*.txt'  # search other extensions"@
        } else {
            Seq::empty()
        }),
        CliError::UnknownFlag(f) => "Unknown flag: "@ + f@,
        CliError::FilenameRequired => "Filename required for in-place editing (-i)"@,
    }
}

impl CliError {
    /// The message reported for this error.
    pub fn message(&self) -> (res: String)
        ensures
            res@ == error_message(*self),
    {
        match self {
            CliError::UnknownLogFlag(f) => {
                let mut m = String::from_str("Unknown flag for 'log': ");
                m.append(f.as_str());
                m.append("\nTry 'pb --help' for usage");
                m
            },
            CliError::EmptyReplacement => String::from_str("Replacement text cannot be empty"),
            CliError::NoUsername => String::from_str(
                "Could not auto-detect username (USER/USERNAME env vars missing).\nTry: pb log yourname",
            ),
            CliError::RegexCompile(_) => String::from_str("Failed to compile replacement regex"),
            CliError::MissingPattern => String::from_str("Pattern required after -p"),
            CliError::UnknownLrcFlag(f) => {
                let mut m = String::from_str("Unknown flag for 'lrc': ");
                m.append(f.as_str());
                m.append("\nTry 'pb --help' for usage");
                m
            },
            CliError::NoMatchingFiles { recursive, pattern } => {
                let mut m = String::from_str("No matching files found for pattern: ");
                proof {
                    reveal_strlit("");
                }
                if *recursive {
                    m.append(" (recursive)");
                }
                if is_text(pattern, "*.lrc") {
                    m.append("\nTry: pb lrc -p '*.txt'  # search other extensions");
                }
                m
            },
            CliError::UnknownFlag(f) => {
                let mut m = String::from_str("Unknown flag: ");
                m.append(f.as_str());
                m
            },
            CliError::FilenameRequired => String::from_str(
                "Filename required for in-place editing (-i)",
            ),
        }
    }
}

} // verus!
