//! What the previews show and what `paste` writes, as text; colouring and
//! printing are left to the caller.
use vstd::prelude::*;

use crate::text::{
    joined, lines, newline, truncate_chars, truncated, first_lines,
};

verus! {

/// Characters shown by the plain conversion preview.
pub const PLAIN_PREVIEW_CHARS: usize = 100;

/// Characters shown of each side by the before/after conversion preview.
pub const CONVERSION_PREVIEW_CHARS: usize = 120;

/// Lines shown of each side by the log sanitization preview.
pub const LOG_PREVIEW_LINES: usize = 12;

/// The three dots that mark a cut-off preview.
pub open spec fn ellipsis() -> Seq<char> {
    seq!['.', '.', '.']
}

/// The plain preview: the first 100 characters followed by `...` when the
/// text is longer, else the whole text.
pub open spec fn plain_preview_text(content: Seq<char>) -> Seq<char> {
    if content.len() > PLAIN_PREVIEW_CHARS {
        content.take(PLAIN_PREVIEW_CHARS as int) + ellipsis()
    } else {
        content
    }
}

/// The preview printed after a conversion to the clipboard.
pub fn plain_preview(content: &str) -> (res: String)
    ensures
        res@ == plain_preview_text(content@),
{
    proof {
        reveal_strlit("...");
    }
    let (mut text, cut) = truncate_chars(content, PLAIN_PREVIEW_CHARS);
    if cut {
        text.append("...");
    }
    text
}

/// The plain preview keeps short texts whole; a longer text is cut to its
/// first 100 characters and marked with `...`, never more than 103 characters.
pub proof fn lemma_plain_preview_shape(content: Seq<char>)
    ensures
        content.len() <= PLAIN_PREVIEW_CHARS ==> plain_preview_text(content) == content,
        content.len() > PLAIN_PREVIEW_CHARS ==> plain_preview_text(content).len()
            == PLAIN_PREVIEW_CHARS + 3 && plain_preview_text(content).take(
            PLAIN_PREVIEW_CHARS as int,
        ) == content.take(PLAIN_PREVIEW_CHARS as int) && plain_preview_text(content).skip(
            PLAIN_PREVIEW_CHARS as int,
        ) == seq!['.', '.', '.'],
        plain_preview_text(content).len() <= PLAIN_PREVIEW_CHARS + 3,
{
    if content.len() > PLAIN_PREVIEW_CHARS {
        let t = content.take(PLAIN_PREVIEW_CHARS as int) + ellipsis();
        assert(t.take(PLAIN_PREVIEW_CHARS as int) == content.take(PLAIN_PREVIEW_CHARS as int));
        assert(t.skip(PLAIN_PREVIEW_CHARS as int) == seq!['.', '.', '.']);
    }
}

/// One side of the before/after conversion preview: at most 120 characters,
/// and whether the text was cut (the caller marks that with dimmed dots).
pub fn conversion_preview(text: &str) -> (res: (String, bool))
    ensures
        res.0@ == truncated(text@, CONVERSION_PREVIEW_CHARS as nat),
        res.1 == (text@.len() > CONVERSION_PREVIEW_CHARS),
{
    truncate_chars(text, CONVERSION_PREVIEW_CHARS)
}

/// The number of lines a log preview shows of `content`.
pub open spec fn log_preview_count(content: Seq<char>) -> int {
    if lines(content).len() <= LOG_PREVIEW_LINES {
        lines(content).len() as int
    } else {
        LOG_PREVIEW_LINES as int
    }
}

/// One side of the log sanitization preview: its first 12 lines joined with
/// newlines, and whether it has more (the caller then adds a dimmed marker).
pub fn log_preview(content: &str) -> (res: (String, bool))
    ensures
        res.0@ == joined(lines(content@).take(log_preview_count(content@)), seq!['\n']),
        res.1 == (lines(content@).len() > LOG_PREVIEW_LINES),
{
    first_lines(content, LOG_PREVIEW_LINES)
}

/// A log preview never shows more than 12 lines, and they are the first ones.
pub proof fn lemma_log_preview_lines(content: Seq<char>)
    ensures
        0 <= log_preview_count(content) <= LOG_PREVIEW_LINES,
        log_preview_count(content) <= lines(content).len(),
        lines(content).len() <= LOG_PREVIEW_LINES ==> lines(content).take(
            log_preview_count(content),
        ) == lines(content),
{
    if lines(content).len() <= LOG_PREVIEW_LINES {
        assert(lines(content).take(lines(content).len() as int) == lines(content));
    }
}

/// The plural ending of "occurrence" for a count.
pub open spec fn plural_suffix(count: nat) -> Seq<char> {
    if count == 1 {
        Seq::empty()
    } else {
        seq!['s']
    }
}

/// `""` for exactly one occurrence, `"s"` otherwise.
pub fn occurrence_suffix(count: usize) -> (res: &'static str)
    ensures
        res@ == plural_suffix(count as nat),
{
    proof {
        reveal_strlit("");
        reveal_strlit("s");
    }
    if count == 1 {
        ""
    } else {
        "s"
    }
}

/// `content` ends with a line feed.
pub open spec fn ends_with_newline(content: Seq<char>) -> bool {
    content.len() > 0 && content.last() == '\n'
}

/// What `paste` writes: the clipboard text, followed by a line feed unless it
/// already ends with one.
pub open spec fn paste_text(content: Seq<char>) -> Seq<char> {
    if ends_with_newline(content) {
        content
    } else {
        content.push('\n')
    }
}

/// The bytes `paste` writes to stdout for the clipboard text `content`.
pub fn paste_output(content: &str) -> (res: String)
    ensures
        res@ == paste_text(content@),
{
    let n = content.unicode_len();
    let mut out = String::from_str(content);
    if n == 0 || content.get_char(n - 1) != '\n' {
        out.append(newline());
        assert(content@.push('\n') == content@ + seq!['\n']);
    }
    out
}

/// Whatever the clipboard holds, `paste` output ends with a line feed, starts
/// with the clipboard text and adds at most that one character.
pub proof fn lemma_paste_ends_with_newline(content: Seq<char>)
    ensures
        ends_with_newline(paste_text(content)),
        paste_text(content).take(content.len() as int) == content,
        paste_text(content).len() <= content.len() + 1,
        ends_with_newline(content) ==> paste_text(content) == content,
{
    assert(content.push('\n').take(content.len() as int) == content);
    assert(content.take(content.len() as int) == content);
}

/// Pasting what `paste` printed changes nothing more.
pub proof fn lemma_paste_idempotent(content: Seq<char>)
    ensures
        paste_text(paste_text(content)) == paste_text(content),
{
    lemma_paste_ends_with_newline(content);
}

/// Truncating twice to the same width cuts no more than truncating once.
pub proof fn lemma_truncated_idempotent(s: Seq<char>, max: nat)
    ensures
        truncated(truncated(s, max), max) == truncated(s, max),
        truncated(s, max).len() <= max,
        s.len() <= max ==> truncated(s, max) == s,
        truncated(s, max) == s.take(truncated(s, max).len() as int),
{
    assert(s.take(s.len() as int) == s);
}

} // verus!
