//! Log sanitization: every whole-word occurrence of a name is replaced with
//! `root`, through the `regex` crate, and the occurrences are counted.
use vstd::prelude::*;

use crate::cli::CliError;
use crate::text::{contains_text, count_matches, count_occurrences, lemma_count_zero_iff_absent};

verus! {

#[verifier::external_type_specification]
#[verifier::external_body]
pub struct ExRegex(regex::Regex);

#[verifier::external_type_specification]
#[verifier::external_body]
pub struct ExRegexError(regex::Error);

/// The characters that `regex::escape` prefixes with a backslash
/// (`regex_syntax::is_meta_character`).
pub open spec fn is_regex_meta(c: char) -> bool {
    c == '\\' || c == '.' || c == '+' || c == '*' || c == '?' || c == '(' || c == ')' || c == '|'
        || c == '[' || c == ']' || c == '{' || c == '}' || c == '^' || c == '$' || c == '#' || c
        == '&' || c == '-' || c == '~'
}

/// `text` with a backslash before each meta character.
pub open spec fn escaped(text: Seq<char>) -> Seq<char>
    decreases text.len(),
{
    if text.len() == 0 {
        Seq::empty()
    } else {
        let c = text[0];
        (if is_regex_meta(c) {
            seq!['\\', c]
        } else {
            seq![c]
        }) + escaped(text.drop_first())
    }
}

/// Calls `regex::escape`, which walks the characters of `text` and pushes a
/// backslash before each meta character, then the character itself.
#[verifier::external_body]
fn regex_escape(text: &str) -> (res: String)
    ensures
        res@ == escaped(text@),
{
    regex::escape(text)
}

/// Whether `regex::Regex::new` accepts `pattern` (its syntax, and the default
/// size limits of `RegexBuilder`).
pub uninterp spec fn regex_compiles(pattern: Seq<char>) -> bool;

/// What `Regex::replace_all` returns for the regex compiled from `pattern`,
/// the haystack and the replacement text.
pub uninterp spec fn regex_replace_all_output(
    pattern: Seq<char>,
    haystack: Seq<char>,
    replacement: Seq<char>,
) -> Seq<char>;

/// A compiled regex together with the pattern it was compiled from (which
/// `Regex::as_str` also returns). Only `compile_regex` builds one.
pub struct CompiledRegex {
    regex: regex::Regex,
    source: String,
}

impl CompiledRegex {
    /// The pattern this regex was compiled from.
    pub closed spec fn pattern(&self) -> Seq<char> {
        self.source@
    }
}

/// Calls `regex::Regex::new(pattern)`; on success keeps the pattern beside the
/// regex. Whether it succeeds depends on the pattern alone and is named
/// `regex_compiles`; the error value is not described.
#[verifier::external_body]
fn compile_regex(pattern: &str) -> (res: Result<CompiledRegex, regex::Error>)
    ensures
        res is Ok <==> regex_compiles(pattern@),
        res matches Ok(c) ==> c.pattern() == pattern@,
{
    match regex::Regex::new(pattern) {
        Ok(regex) => Ok(CompiledRegex { regex, source: pattern.to_string() }),
        Err(e) => Err(e),
    }
}

/// Calls `Regex::replace_all(haystack, replacement)` and turns the `Cow` into a
/// `String`. The result depends on the pattern, the haystack and the
/// replacement alone and is named `regex_replace_all_output`. One fact is
/// stated besides: `replacen` hands the haystack back unchanged when the regex
/// finds no match, and a word pattern (`\b`, an escaped literal, `\b`)
/// matches only where its literal occurs.
#[verifier::external_body]
fn regex_replace_all(re: &CompiledRegex, haystack: &str, replacement: &str) -> (res: String)
    ensures
        res@ == regex_replace_all_output(re.pattern(), haystack@, replacement@),
        forall|t: Seq<char>|
            #![trigger word_pattern(t), contains_text(haystack@, t)]
            word_pattern(t) == re.pattern() && !contains_text(haystack@, t) ==> res@ == haystack@,
{
    re.regex.replace_all(haystack, replacement).into_owned()
}

/// The text that replaces each occurrence.
pub open spec fn replacement_text() -> Seq<char> {
    seq!['r', 'o', 'o', 't']
}

/// `\b` in regex syntax: a word boundary.
pub open spec fn word_boundary() -> Seq<char> {
    seq!['\\', 'b']
}

/// The regex that matches `target` literally, as a whole word.
pub open spec fn word_pattern(target: Seq<char>) -> Seq<char> {
    word_boundary() + escaped(target) + word_boundary()
}

/// Builds `\b<escaped target>\b`.
pub fn word_boundary_pattern(target: &str) -> (res: String)
    ensures
        res@ == word_pattern(target@),
{
    proof {
        reveal_strlit("\\b");
    }
    let mut pattern = String::from_str("\\b");
    let escaped_target = regex_escape(target);
    pattern.append(escaped_target.as_str());
    pattern.append("\\b");
    pattern
}

/// A sanitized log and the number of occurrences of the target in the input.
pub struct LogReport {
    pub sanitized: String,
    pub replaced_count: usize,
}

/// The report for a log whose sanitized text is `sanitized`: the number shown
/// is that of the non-overlapping occurrences of `target` anywhere in the
/// input, word boundaries or not.
pub fn log_report(buffer: &str, target: &str, sanitized: String) -> (res: LogReport)
    requires
        buffer@.len() < usize::MAX,
    ensures
        res.sanitized@ == sanitized@,
        res.replaced_count == count_occurrences(buffer@, target@),
{
    let replaced_count = count_matches(buffer, target);
    LogReport { sanitized, replaced_count }
}

/// Replaces every whole-word occurrence of `target` in `buffer` with `root`.
/// Fails, with `RegexCompile` and the crate's reason, exactly when the regex
/// crate refuses the word pattern.
pub fn sanitize_log(buffer: &str, target: &str) -> (res: Result<LogReport, CliError>)
    requires
        buffer@.len() < usize::MAX,
    ensures
        res is Ok <==> regex_compiles(word_pattern(target@)),
        res matches Ok(r) ==> r.sanitized@ == regex_replace_all_output(
            word_pattern(target@),
            buffer@,
            replacement_text(),
        ) && r.replaced_count == count_occurrences(buffer@, target@),
        res matches Err(e) ==> e is RegexCompile,
        res matches Ok(r) ==> (!contains_text(buffer@, target@) ==> r.sanitized@ == buffer@),
        res matches Ok(r) ==> (r.replaced_count == 0 <==> !contains_text(buffer@, target@)),
{
    proof {
        lemma_count_zero_iff_absent(buffer@, target@);
    }
    let pattern = word_boundary_pattern(target);
    match compile_regex(pattern.as_str()) {
        Ok(re) => {
            let root = "root";
            proof {
                reveal_strlit("root");
                assert(root@ == replacement_text());
            }
            let sanitized = regex_replace_all(&re, buffer, root);
            assert(word_pattern(target@) == re.pattern());
            assert(contains_text(buffer@, target@) || sanitized@ == buffer@);
            Ok(log_report(buffer, target, sanitized))
        },
        Err(e) => Err(CliError::RegexCompile(e)),
    }
}

/// Escaping keeps every character and only adds backslashes: the escaped
/// text is at least as long and at most twice as long.
pub proof fn lemma_escaped_length(text: Seq<char>)
    ensures
        text.len() <= escaped(text).len() <= 2 * text.len(),
        (forall|i: int| 0 <= i < text.len() ==> !is_regex_meta(#[trigger] text[i])) ==> escaped(
            text,
        ) == text,
    decreases text.len(),
{
    if text.len() > 0 {
        lemma_escaped_length(text.drop_first());
        if forall|i: int| 0 <= i < text.len() ==> !is_regex_meta(#[trigger] text[i]) {
            assert forall|i: int| 0 <= i < text.drop_first().len() implies !is_regex_meta(
                #[trigger] text.drop_first()[i],
            ) by {
                assert(text.drop_first()[i] == text[i + 1]);
            }
            assert(!is_regex_meta(text[0]));
            assert(seq![text[0]] + text.drop_first() == text);
        }
    }
}

} // verus!
