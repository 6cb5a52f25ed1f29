use pb_clipboard::preview::{
    conversion_preview, log_preview, occurrence_suffix, paste_output, plain_preview,
};
use pb_clipboard::select::{fzf_input, fzf_selection};
use pb_clipboard::text::{count_matches, first_lines, is_blank_text, join_with, trim, truncate_chars};

#[test]
fn trim_unicode_whitespace() {
    assert_eq!(trim("  song.lrc\n"), "song.lrc");
    assert_eq!(trim("\u{3000}x y\u{a0}\t"), "x y");
    assert_eq!(trim(" \n\t "), "");
    assert_eq!(trim(""), "");
    assert!(is_blank_text(" \u{2003}\r\n"));
    assert!(!is_blank_text(" a "));
    assert!(is_blank_text(""));
}

#[test]
fn truncation() {
    let long: String = "字".repeat(130);
    let (t, cut) = truncate_chars(&long, 120);
    assert!(cut);
    assert_eq!(t.chars().count(), 120);
    let (t, cut) = truncate_chars("short", 120);
    assert!(!cut);
    assert_eq!(t, "short");
    let (again, cut_again) = truncate_chars(&truncate_chars(&long, 120).0, 120);
    assert!(!cut_again);
    assert_eq!(again.chars().count(), 120);
}

#[test]
fn plain_preview_cuts_at_hundred() {
    let long = "a".repeat(101);
    assert_eq!(plain_preview(&long), format!("{}...", "a".repeat(100)));
    let exact = "b".repeat(100);
    assert_eq!(plain_preview(&exact), exact);
}

#[test]
fn conversion_preview_cuts_at_hundred_twenty() {
    let long = "c".repeat(121);
    assert_eq!(conversion_preview(&long), ("c".repeat(120), true));
    assert_eq!(conversion_preview("中文"), ("中文".to_string(), false));
}

#[test]
fn log_preview_twelve_lines() {
    let content: String = (1..=15).map(|i| format!("line {}\n", i)).collect();
    let (text, more) = log_preview(&content);
    let expected: Vec<String> = (1..=12).map(|i| format!("line {}", i)).collect();
    assert_eq!(text, expected.join("\n"));
    assert!(more);
    let (text, more) = log_preview("a\r\nb\n\nc");
    assert_eq!(text, "a\nb\n\nc");
    assert!(!more);
    let twelve: String = (1..=12).map(|i| format!("{}\n", i)).collect();
    let (_, more) = log_preview(&twelve);
    assert!(!more);
}

#[test]
fn first_lines_matches_std_lines() {
    for s in ["", "\n", "a", "a\n", "a\r\nb", "a\rb\n", "\n\nx\r", "x\r\n\r\n"] {
        let expected: Vec<&str> = s.lines().take(2).collect();
        let (text, more) = first_lines(s, 2);
        assert_eq!(text, expected.join("\n"), "input {:?}", s);
        assert_eq!(more, s.lines().count() > 2, "input {:?}", s);
    }
}

#[test]
fn occurrence_plural() {
    assert_eq!(occurrence_suffix(1), "");
    assert_eq!(occurrence_suffix(0), "s");
    assert_eq!(occurrence_suffix(3), "s");
}

#[test]
fn paste_adds_single_newline() {
    assert_eq!(paste_output("abc"), "abc\n");
    assert_eq!(paste_output("abc\n"), "abc\n");
    assert_eq!(paste_output(""), "\n");
    assert_eq!(paste_output(&paste_output("x")), "x\n");
}

#[test]
fn counting_matches() {
    assert_eq!(count_matches("aaaa", "aa"), 2);
    assert_eq!(count_matches("aaa", "aa"), 1);
    assert_eq!(count_matches("abc", ""), 4);
    assert_eq!(count_matches("alice and aliceX", "alice"), 2);
    assert_eq!(count_matches("用户用户", "用户"), 2);
    assert_eq!(count_matches("", "x"), 0);
}

#[test]
fn joining_and_fzf() {
    let files = vec!["a.lrc".to_string(), "dir/b.lrc".to_string()];
    assert_eq!(fzf_input(&files), "a.lrc\ndir/b.lrc");
    assert_eq!(join_with(&vec![], ", "), "");
    assert_eq!(join_with(&vec!["x".to_string()], ", "), "x");
    assert_eq!(fzf_selection(true, "  dir/b.lrc \n"), "dir/b.lrc");
    assert_eq!(fzf_selection(false, "dir/b.lrc\n"), "");
    assert_eq!(fzf_selection(true, ""), "");
}
