//! Simplified/Traditional Chinese conversion through the `zhconv` crate, and
//! the plans built around it: in-place conversion with a backup, clipboard
//! conversion with a preview.
use vstd::prelude::*;

use crate::preview::{plain_preview, plain_preview_text};

verus! {

/// The script a text is converted to.
#[derive(Clone, Copy, Debug, PartialEq, Eq, Structural)]
pub enum ChineseVariant {
    /// Traditional Chinese as used in Taiwan (`zh-TW`).
    ZhTW,
    /// Simplified Chinese as used in mainland China (`zh-CN`).
    ZhCN,
}

/// The text that `zhconv::zhconv` makes of `text` for `target`, with the
/// crate's built-in conversion tables.
pub uninterp spec fn zhconv_output(text: Seq<char>, target: ChineseVariant) -> Seq<char>;

/// Calls `zhconv::zhconv` (the crate's built-in converter for the target
/// variant, leftmost-longest dictionary replacement). Its result depends on the
/// text and the target alone, so the contract names it `zhconv_output`; what the
/// tables hold is not stated.
#[verifier::external_body]
fn zhconv_text(text: &str, target: ChineseVariant) -> (res: String)
    ensures
        res@ == zhconv_output(text@, target),
{
    let variant = match target {
        ChineseVariant::ZhTW => zhconv::Variant::ZhTW,
        ChineseVariant::ZhCN => zhconv::Variant::ZhCN,
    };
    zhconv::zhconv(text, variant)
}

/// The description of a variant shown to the user.
pub open spec fn variant_label_text(variant: ChineseVariant) -> Seq<char> {
    match variant {
        ChineseVariant::ZhTW => "Traditional Chinese (zh-TW)"@,
        ChineseVariant::ZhCN => "Simplified Chinese (zh-CN)"@,
    }
}

/// Each label names its own variant: it starts with "Traditional" for zh-TW
/// and "Simplified" for zh-CN, and the two labels differ.
pub proof fn lemma_variant_label_names_variant(variant: ChineseVariant)
    ensures
        variant_label_text(variant).take(11) == "Traditional"@ <==> variant == ChineseVariant::ZhTW,
        variant_label_text(variant).take(10) == "Simplified"@ <==> variant == ChineseVariant::ZhCN,
        variant_label_text(ChineseVariant::ZhTW) != variant_label_text(ChineseVariant::ZhCN),
{
    reveal_strlit("Traditional Chinese (zh-TW)");
    reveal_strlit("Simplified Chinese (zh-CN)");
    reveal_strlit("Traditional");
    reveal_strlit("Simplified");
    assert(variant_label_text(ChineseVariant::ZhTW).take(11) =~= "Traditional"@);
    assert(variant_label_text(ChineseVariant::ZhCN).take(10) =~= "Simplified"@);
    assert(variant_label_text(ChineseVariant::ZhCN).take(11)[0] != "Traditional"@[0]);
    assert(variant_label_text(ChineseVariant::ZhTW).take(10)[0] != "Simplified"@[0]);
    assert(variant_label_text(ChineseVariant::ZhTW)[0] != variant_label_text(ChineseVariant::ZhCN)[0]);
}

/// "Traditional Chinese (zh-TW)" or "Simplified Chinese (zh-CN)".
pub fn variant_label(variant: ChineseVariant) -> (res: &'static str)
    ensures
        res@ == variant_label_text(variant),
{
    match variant {
        ChineseVariant::ZhTW => "Traditional Chinese (zh-TW)",
        ChineseVariant::ZhCN => "Simplified Chinese (zh-CN)",
    }
}

/// The suffix that names a backup file.
pub open spec fn backup_suffix() -> Seq<char> {
    seq!['.', 'b', 'a', 'k']
}

/// The backup of `path` is `path` with `.bak` appended to the full file name.
pub open spec fn backup_path_of(path: Seq<char>) -> Seq<char> {
    path + backup_suffix()
}

/// Appends the `.bak` suffix to the whole file name: `file.txt` becomes
/// `file.txt.bak`.
pub fn append_backup_suffix(path: &str) -> (res: String)
    ensures
        res@ == backup_path_of(path@),
{
    proof {
        reveal_strlit(".bak");
    }
    let mut backup = String::from_str(path);
    backup.append(".bak");
    backup
}

/// A backup never lands on the file it saves.
pub proof fn lemma_backup_differs(path: Seq<char>)
    ensures
        backup_path_of(path) != path,
{
    assert(backup_path_of(path).len() == path.len() + 4);
}

/// Distinct files get distinct backups.
pub proof fn lemma_backup_injective(p: Seq<char>, q: Seq<char>)
    requires
        backup_path_of(p) == backup_path_of(q),
    ensures
        p == q,
{
    assert(backup_path_of(p).len() == p.len() + 4);
    assert(backup_path_of(q).len() == q.len() + 4);
    assert(p.len() == q.len());
    assert(p =~= backup_path_of(p).take(p.len() as int));
    assert(q =~= backup_path_of(q).take(q.len() as int));
}

/// One step of an in-place conversion, in the order they are carried out.
#[derive(Debug, PartialEq, Eq)]
pub enum InPlaceStep {
    /// Save the original text under the backup name.
    WriteBackup { path: String, content: String },
    /// Show the original and converted texts and wait for confirmation.
    PreviewAndConfirm { original: String, converted: String },
    /// Replace the file's content with the converted text.
    WriteConverted { path: String, content: String },
}

/// The steps are: the backup is written first, the preview (when asked for)
/// comes next, and the file itself is written last, with the converted text.
pub open spec fn in_place_steps_spec(
    steps: Seq<InPlaceStep>,
    filepath: Seq<char>,
    original: Seq<char>,
    variant: ChineseVariant,
    show_preview: bool,
) -> bool {
    &&& steps.len() == if show_preview { 3int } else { 2int }
    &&& steps[0] matches InPlaceStep::WriteBackup { path, content } && path@ == backup_path_of(
        filepath,
    ) && content@ == original
    &&& show_preview ==> (steps[1] matches InPlaceStep::PreviewAndConfirm { original: o, converted: c }
        && o@ == original && c@ == zhconv_output(original, variant))
    &&& steps.last() matches InPlaceStep::WriteConverted { path, content } && path@ == filepath
        && content@ == zhconv_output(original, variant)
}

/// The writes and the preview of converting `filepath` (whose text is
/// `original`) in place.
pub fn in_place_steps(filepath: &str, original: &str, variant: ChineseVariant, show_preview: bool) -> (res:
    Vec<InPlaceStep>)
    ensures
        in_place_steps_spec(res@, filepath@, original@, variant, show_preview),
        res@.len() == if show_preview { 3int } else { 2int },
        res@[0] matches InPlaceStep::WriteBackup { path, content } && path@ == filepath@
            + seq!['.', 'b', 'a', 'k'] && content@ == original@,
        res@.last() matches InPlaceStep::WriteConverted { path, content } && path@ == filepath@
            && content@ == zhconv_output(original@, variant),
        show_preview ==> (res@[1] matches InPlaceStep::PreviewAndConfirm { original: o, converted: c }
            && o@ == original@ && c@ == zhconv_output(original@, variant)),
{
    let converted = zhconv_text(original, variant);
    let backup_path = append_backup_suffix(filepath);
    let mut steps: Vec<InPlaceStep> = Vec::new();
    steps.push(InPlaceStep::WriteBackup { path: backup_path, content: String::from_str(original) });
    if show_preview {
        steps.push(
            InPlaceStep::PreviewAndConfirm {
                original: String::from_str(original),
                converted: converted.clone(),
            },
        );
    }
    steps.push(InPlaceStep::WriteConverted { path: String::from_str(filepath), content: converted });
    steps
}

/// The file receives the conversion of its text to the variant asked for, and
/// the preview shows exactly the text that is then written; converting to the
/// other variant writes the other conversion.
pub proof fn lemma_in_place_writes_requested_variant(
    steps: Seq<InPlaceStep>,
    filepath: Seq<char>,
    original: Seq<char>,
    variant: ChineseVariant,
    show_preview: bool,
)
    requires
        in_place_steps_spec(steps, filepath, original, variant, show_preview),
    ensures
        steps.last() matches InPlaceStep::WriteConverted { path, content } && path@ == filepath
            && content@ == zhconv_output(original, variant),
        variant == ChineseVariant::ZhCN ==> (steps.last() matches InPlaceStep::WriteConverted {
            content,
            ..
        } && content@ == zhconv_output(original, ChineseVariant::ZhCN)),
        variant == ChineseVariant::ZhTW ==> (steps.last() matches InPlaceStep::WriteConverted {
            content,
            ..
        } && content@ == zhconv_output(original, ChineseVariant::ZhTW)),
        show_preview ==> (steps[1] matches InPlaceStep::PreviewAndConfirm { converted, .. }
            && steps.last() matches InPlaceStep::WriteConverted { content, .. } && converted@
            == content@),
{
}

/// The original is saved before it is overwritten, under a name other than
/// its own, and nothing else writes the file.
pub proof fn lemma_backup_before_overwrite(
    steps: Seq<InPlaceStep>,
    filepath: Seq<char>,
    original: Seq<char>,
    variant: ChineseVariant,
    show_preview: bool,
)
    requires
        in_place_steps_spec(steps, filepath, original, variant, show_preview),
    ensures
        steps[0] matches InPlaceStep::WriteBackup { path, content } && path@ != filepath
            && content@ == original,
        forall|i: int|
            0 <= i < steps.len() - 1 ==> !(#[trigger] steps[i] is WriteConverted),
{
    lemma_backup_differs(filepath);
}

/// A text converted for the clipboard, with the preview shown for it.
pub struct ClipboardConversion {
    pub converted: String,
    pub preview: String,
}

/// The preview shown for a conversion whose result is `converted`.
pub fn clipboard_conversion(converted: String) -> (res: ClipboardConversion)
    ensures
        res.converted@ == converted@,
        res.preview@ == plain_preview_text(converted@),
{
    let preview = plain_preview(converted.as_str());
    ClipboardConversion { converted, preview }
}

/// Converts `content` (a file, stdin or the clipboard) and previews the result.
pub fn convert_for_clipboard(content: &str, variant: ChineseVariant) -> (res: ClipboardConversion)
    ensures
        res.converted@ == zhconv_output(content@, variant),
        res.preview@ == plain_preview_text(zhconv_output(content@, variant)),
{
    clipboard_conversion(zhconv_text(content, variant))
}

/// The text that a selected lyric file puts on the clipboard: converted when a
/// variant was asked for, else unchanged.
pub fn lrc_clipboard_text(content: String, variant: Option<ChineseVariant>) -> (res: String)
    ensures
        res@ == match variant {
            Some(v) => zhconv_output(content@, v),
            None => content@,
        },
{
    match variant {
        Some(v) => zhconv_text(content.as_str(), v),
        None => content,
    }
}

} // verus!
