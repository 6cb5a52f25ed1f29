use pb_clipboard::convert::{
    append_backup_suffix, convert_for_clipboard, in_place_steps, lrc_clipboard_text, variant_label,
    ChineseVariant, InPlaceStep,
};
use pb_clipboard::sanitize::{sanitize_log, word_boundary_pattern};

#[test]
fn backup_suffix_keeps_full_name() {
    assert_eq!(append_backup_suffix("file.txt"), "file.txt.bak");
    assert_eq!(append_backup_suffix("dir/song.lrc"), "dir/song.lrc.bak");
    assert_ne!(append_backup_suffix("a"), "a");
}

#[test]
fn labels() {
    assert_eq!(variant_label(ChineseVariant::ZhTW), "Traditional Chinese (zh-TW)");
    assert_eq!(variant_label(ChineseVariant::ZhCN), "Simplified Chinese (zh-CN)");
}

#[test]
fn converts_to_traditional_and_back() {
    let c = convert_for_clipboard("简体中文", ChineseVariant::ZhTW);
    assert_eq!(c.converted, zhconv::zhconv("简体中文", zhconv::Variant::ZhTW));
    assert_ne!(c.converted, "简体中文");
    assert_eq!(c.converted, "簡體中文");
    assert_eq!(c.preview, c.converted);
    let back = convert_for_clipboard(&c.converted, ChineseVariant::ZhCN);
    assert_eq!(back.converted, zhconv::zhconv(&c.converted, zhconv::Variant::ZhCN));
    assert_ne!(back.converted, c.converted);
}

#[test]
fn conversion_keeps_ascii() {
    let c = convert_for_clipboard("Hello world", ChineseVariant::ZhTW);
    assert_eq!(c.converted, "Hello world");
}

#[test]
fn in_place_steps_backup_first() {
    let converted = zhconv::zhconv("简体", zhconv::Variant::ZhTW);
    assert_ne!(converted, "简体");
    let steps = in_place_steps("song.lrc", "简体", ChineseVariant::ZhTW, true);
    assert_eq!(
        steps,
        vec![
            InPlaceStep::WriteBackup { path: "song.lrc.bak".to_string(), content: "简体".to_string() },
            InPlaceStep::PreviewAndConfirm { original: "简体".to_string(), converted: converted.clone() },
            InPlaceStep::WriteConverted { path: "song.lrc".to_string(), content: converted.clone() },
        ]
    );
    let steps = in_place_steps("a.txt", "简体", ChineseVariant::ZhTW, false);
    assert_eq!(
        steps,
        vec![
            InPlaceStep::WriteBackup { path: "a.txt.bak".to_string(), content: "简体".to_string() },
            InPlaceStep::WriteConverted { path: "a.txt".to_string(), content: converted },
        ]
    );
}

#[test]
fn lrc_text_converted_only_with_variant() {
    assert_eq!(lrc_clipboard_text("简体".to_string(), None), "简体");
    let t = lrc_clipboard_text("简体".to_string(), Some(ChineseVariant::ZhTW));
    assert_eq!(t, zhconv::zhconv("简体", zhconv::Variant::ZhTW));
}

#[test]
fn word_pattern_escapes_meta_characters() {
    assert_eq!(word_boundary_pattern("alice"), "\\balice\\b");
    assert_eq!(word_boundary_pattern("a.b-c"), "\\ba\\.b\\-c\\b");
}

#[test]
fn sanitize_whole_words() {
    let r = sanitize_log("user alice built /home/alice/x aliceX", "alice").unwrap();
    assert_eq!(r.sanitized, "user root built /home/root/x aliceX");
    assert_eq!(r.replaced_count, 3);
}

#[test]
fn sanitize_literal_target() {
    let r = sanitize_log("a.b axb", "a.b").unwrap();
    assert_eq!(r.sanitized, "root axb");
    assert_eq!(r.replaced_count, 1);
    let r = sanitize_log("nothing here", "alice").unwrap();
    assert_eq!(r.sanitized, "nothing here");
    assert_eq!(r.replaced_count, 0);
}

#[test]
fn sanitize_reports_refused_pattern() {
    let target = "a".repeat(3_000_000);
    let res = sanitize_log("a b c", &target);
    assert!(matches!(res, Err(pb_clipboard::cli::CliError::RegexCompile(_))));
}
