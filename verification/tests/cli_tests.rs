use pb_clipboard::cli::{parse_args, resolve_log_target, is_stdin_source, CliError, Command, LrcOptions};
use pb_clipboard::convert::ChineseVariant;

fn args(list: &[&str]) -> Vec<String> {
    let mut v = vec!["pb".to_string()];
    for a in list {
        v.push(a.to_string());
    }
    v
}

#[test]
fn no_arguments_copies_stdin() {
    assert_eq!(parse_args(&args(&[])), Ok(Command::StdinToClipboard));
}

#[test]
fn help_and_version_flags() {
    assert_eq!(parse_args(&args(&["--help"])), Ok(Command::Help));
    assert_eq!(parse_args(&args(&["-h"])), Ok(Command::Help));
    assert_eq!(parse_args(&args(&["--version"])), Ok(Command::Version));
    assert_eq!(parse_args(&args(&["-V"])), Ok(Command::Version));
}

#[test]
fn log_force_and_text() {
    assert_eq!(
        parse_args(&args(&["log", "-f", "alice", "extra"])),
        Ok(Command::Log { force: true, replace_text: Some("alice".to_string()) })
    );
    assert_eq!(
        parse_args(&args(&["log"])),
        Ok(Command::Log { force: false, replace_text: None })
    );
    assert_eq!(
        parse_args(&args(&["log", "--force"])),
        Ok(Command::Log { force: true, replace_text: None })
    );
}

#[test]
fn log_unknown_flag() {
    let err = parse_args(&args(&["log", "-x"])).unwrap_err();
    assert_eq!(err, CliError::UnknownLogFlag("-x".to_string()));
    assert_eq!(err.message(), "Unknown flag for 'log': -x\nTry 'pb --help' for usage");
}

#[test]
fn lrc_all_options() {
    assert_eq!(
        parse_args(&args(&["lrc", "-r", "-p", "*live*", "cn", "-i", "-f"])),
        Ok(Command::Lrc(LrcOptions {
            recursive: true,
            pattern: Some("*live*".to_string()),
            variant: Some(ChineseVariant::ZhCN),
            in_place: true,
            force: true,
        }))
    );
    assert_eq!(
        parse_args(&args(&["lrc", "tw"])),
        Ok(Command::Lrc(LrcOptions {
            recursive: false,
            pattern: None,
            variant: Some(ChineseVariant::ZhTW),
            in_place: false,
            force: false,
        }))
    );
}

#[test]
fn lrc_pattern_missing_and_unknown() {
    let err = parse_args(&args(&["lrc", "-p"])).unwrap_err();
    assert_eq!(err, CliError::MissingPattern);
    assert_eq!(err.message(), "Pattern required after -p");
    let err = parse_args(&args(&["lrc", "song.lrc"])).unwrap_err();
    assert_eq!(err, CliError::UnknownLrcFlag("song.lrc".to_string()));
    assert_eq!(err.message(), "Unknown flag for 'lrc': song.lrc\nTry 'pb --help' for usage");
}

#[test]
fn convert_in_place_requires_file() {
    let err = parse_args(&args(&["tw", "-i"])).unwrap_err();
    assert_eq!(err, CliError::FilenameRequired);
    assert_eq!(err.message(), "Filename required for in-place editing (-i)");
    assert_eq!(
        parse_args(&args(&["cn", "-i", "-f", "doc.txt", "ignored"])),
        Ok(Command::Convert {
            variant: ChineseVariant::ZhCN,
            in_place: true,
            force: true,
            filepath: Some("doc.txt".to_string()),
        })
    );
}

#[test]
fn convert_clipboard_and_file() {
    assert_eq!(
        parse_args(&args(&["tw"])),
        Ok(Command::Convert { variant: ChineseVariant::ZhTW, in_place: false, force: false, filepath: None })
    );
    assert_eq!(
        parse_args(&args(&["cn", "poem.txt"])),
        Ok(Command::Convert {
            variant: ChineseVariant::ZhCN,
            in_place: false,
            force: false,
            filepath: Some("poem.txt".to_string()),
        })
    );
    let err = parse_args(&args(&["tw", "-z"])).unwrap_err();
    assert_eq!(err, CliError::UnknownFlag("-z".to_string()));
    assert_eq!(err.message(), "Unknown flag: -z");
}

#[test]
fn paste_clean_and_file() {
    assert_eq!(parse_args(&args(&["paste"])), Ok(Command::Paste));
    assert_eq!(parse_args(&args(&["clean"])), Ok(Command::Clean));
    assert_eq!(parse_args(&args(&["notes.txt"])), Ok(Command::CopySource("notes.txt".to_string())));
    assert_eq!(parse_args(&args(&["-"])), Ok(Command::CopySource("-".to_string())));
}

#[test]
fn stdin_source_is_dash() {
    assert!(is_stdin_source(&"-".to_string()));
    assert!(!is_stdin_source(&"--".to_string()));
    assert!(!is_stdin_source(&"file.txt".to_string()));
}

#[test]
fn log_target_resolution() {
    assert_eq!(
        resolve_log_target(Some("bob".to_string()), Some("alice".to_string()), None),
        Ok("bob".to_string())
    );
    let err = resolve_log_target(Some(" \t".to_string()), Some("alice".to_string()), None).unwrap_err();
    assert_eq!(err, CliError::EmptyReplacement);
    assert_eq!(err.message(), "Replacement text cannot be empty");
    assert_eq!(
        resolve_log_target(None, Some("alice".to_string()), Some("carol".to_string())),
        Ok("alice".to_string())
    );
    assert_eq!(
        resolve_log_target(None, None, Some("carol".to_string())),
        Ok("carol".to_string())
    );
    let err = resolve_log_target(None, None, None).unwrap_err();
    assert_eq!(err, CliError::NoUsername);
    assert_eq!(
        err.message(),
        "Could not auto-detect username (USER/USERNAME env vars missing).\nTry: pb log yourname"
    );
}

#[test]
fn lrc_search_and_no_match_message() {
    let opts = LrcOptions { recursive: true, pattern: None, variant: None, in_place: true, force: false };
    assert_eq!(opts.effective_pattern(), "*.lrc");
    assert_eq!(opts.search_glob(), "**/*.lrc");
    assert_eq!(opts.in_place_variant(), ChineseVariant::ZhTW);
    assert_eq!(
        opts.no_matching_files().message(),
        "No matching files found for pattern:  (recursive)\nTry: pb lrc -p '*.txt'  # search other extensions"
    );
    let opts = LrcOptions {
        recursive: false,
        pattern: Some("*.txt".to_string()),
        variant: Some(ChineseVariant::ZhCN),
        in_place: false,
        force: false,
    };
    assert_eq!(opts.search_glob(), "*.txt");
    assert_eq!(opts.in_place_variant(), ChineseVariant::ZhCN);
    assert_eq!(opts.no_matching_files().message(), "No matching files found for pattern: ");
}

#[test]
fn regex_error_message() {
    let cause = regex::Regex::new("(").unwrap_err();
    assert_eq!(CliError::RegexCompile(cause).message(), "Failed to compile replacement regex");
}
