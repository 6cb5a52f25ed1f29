//! Character-level text utilities: whitespace, trimming, truncation,
//! line splitting, joining and substring counting, each proved against a
//! mathematical model over `Seq<char>`.
use vstd::prelude::*;

verus! {

// ---------------------------------------------------------------------------
// Models
// ---------------------------------------------------------------------------

/// Unicode `White_Space`, the property behind `char::is_whitespace`.
pub open spec fn spec_is_whitespace(c: char) -> bool {
    ||| ('\u{9}' <= c && c <= '\u{d}')
    ||| c == ' '
    ||| c == '\u{85}'
    ||| c == '\u{a0}'
    ||| c == '\u{1680}'
    ||| ('\u{2000}' <= c && c <= '\u{200a}')
    ||| c == '\u{2028}'
    ||| c == '\u{2029}'
    ||| c == '\u{202f}'
    ||| c == '\u{205f}'
    ||| c == '\u{3000}'
}

/// Every character of `s` is whitespace (so trimming leaves nothing).
pub open spec fn is_blank(s: Seq<char>) -> bool {
    forall|i: int| 0 <= i < s.len() ==> #[trigger] spec_is_whitespace(s[i])
}

/// Index of the first non-whitespace character at or after `i`, or `s.len()`.
pub open spec fn trim_start_index(s: Seq<char>, i: int) -> int
    decreases s.len() - i,
{
    if i >= s.len() {
        s.len() as int
    } else if spec_is_whitespace(s[i]) {
        trim_start_index(s, i + 1)
    } else {
        i
    }
}

/// One past the last non-whitespace character before `j`, or 0.
pub open spec fn trim_end_index(s: Seq<char>, j: int) -> int
    decreases j,
{
    if j <= 0 {
        0
    } else if spec_is_whitespace(s[j - 1]) {
        trim_end_index(s, j - 1)
    } else {
        j
    }
}

/// `s` without leading and trailing whitespace (`str::trim`).
pub open spec fn trimmed(s: Seq<char>) -> Seq<char> {
    let a = trim_start_index(s, 0);
    if a >= s.len() {
        Seq::empty()
    } else {
        s.subrange(a, trim_end_index(s, s.len() as int))
    }
}

/// The first `max` characters of `s`, or all of `s` when it is shorter.
pub open spec fn truncated(s: Seq<char>, max: nat) -> Seq<char> {
    if s.len() <= max {
        s
    } else {
        s.take(max as int)
    }
}

/// Index of the first `'\n'` at or after `i`, or `s.len()` when there is none.
pub open spec fn next_newline(s: Seq<char>, i: int) -> int
    decreases s.len() - i,
{
    if i >= s.len() {
        s.len() as int
    } else if s[i] == '\n' {
        i
    } else {
        next_newline(s, i + 1)
    }
}

/// A line that was terminated by `'\n'` loses one trailing `'\r'`.
pub open spec fn strip_cr(line: Seq<char>) -> Seq<char> {
    if line.len() > 0 && line.last() == '\r' {
        line.drop_last()
    } else {
        line
    }
}

/// The lines of `s` from position `i` on, as `str::lines` yields them:
/// split at `'\n'`, a `'\r'` before the `'\n'` dropped, and no empty line
/// after a final line ending.
pub open spec fn lines_from(s: Seq<char>, i: int) -> Seq<Seq<char>>
    decreases s.len() - i,
{
    if i < 0 || i >= s.len() {
        Seq::empty()
    } else {
        let e = next_newline(s, i);
        proof {
            lemma_next_newline_bounds(s, i);
        }
        if e >= s.len() {
            seq![s.subrange(i, s.len() as int)]
        } else {
            seq![strip_cr(s.subrange(i, e))] + lines_from(s, e + 1)
        }
    }
}

/// All the lines of `s` (`str::lines`).
pub open spec fn lines(s: Seq<char>) -> Seq<Seq<char>> {
    lines_from(s, 0)
}

/// The parts joined with `sep` between consecutive parts (`[T]::join`).
pub open spec fn joined(parts: Seq<Seq<char>>, sep: Seq<char>) -> Seq<char>
    decreases parts.len(),
{
    if parts.len() == 0 {
        Seq::empty()
    } else if parts.len() == 1 {
        parts[0]
    } else {
        joined(parts.drop_last(), sep) + sep + parts.last()
    }
}

/// `pat` occurs in `s` at position `i`.
pub open spec fn occurs_at(s: Seq<char>, pat: Seq<char>, i: int) -> bool {
    0 <= i && i + pat.len() <= s.len() && s.subrange(i, i + pat.len()) == pat
}

/// `pat` occurs somewhere in `s`.
pub open spec fn contains_text(s: Seq<char>, pat: Seq<char>) -> bool {
    exists|i: int| #[trigger] occurs_at(s, pat, i)
}

/// Non-overlapping occurrences of a non-empty `pat` in `s` from `i` on,
/// found left to right.
pub open spec fn occurrences_from(s: Seq<char>, pat: Seq<char>, i: int) -> nat
    decreases s.len() - i,
{
    if pat.len() == 0 || i < 0 || i + pat.len() > s.len() {
        0
    } else if occurs_at(s, pat, i) {
        1 + occurrences_from(s, pat, i + pat.len())
    } else {
        occurrences_from(s, pat, i + 1)
    }
}

/// What `str::matches(pat).count()` returns: the non-overlapping
/// occurrences found left to right; an empty pattern matches at each of the
/// `s.len() + 1` character boundaries.
pub open spec fn count_occurrences(s: Seq<char>, pat: Seq<char>) -> nat {
    if pat.len() == 0 {
        s.len() + 1
    } else {
        occurrences_from(s, pat, 0)
    }
}

// ---------------------------------------------------------------------------
// Lemmas
// ---------------------------------------------------------------------------

proof fn lemma_trim_start_bounds(s: Seq<char>, i: int)
    requires
        0 <= i <= s.len(),
    ensures
        i <= trim_start_index(s, i) <= s.len(),
        trim_start_index(s, i) < s.len() ==> !spec_is_whitespace(s[trim_start_index(s, i)]),
        forall|k: int| i <= k < trim_start_index(s, i) ==> spec_is_whitespace(#[trigger] s[k]),
    decreases s.len() - i,
{
    if i < s.len() && spec_is_whitespace(s[i]) {
        lemma_trim_start_bounds(s, i + 1);
    }
}

proof fn lemma_trim_end_bounds(s: Seq<char>, j: int)
    requires
        0 <= j <= s.len(),
    ensures
        0 <= trim_end_index(s, j) <= j,
        trim_end_index(s, j) > 0 ==> !spec_is_whitespace(s[trim_end_index(s, j) - 1]),
        forall|k: int| trim_end_index(s, j) <= k < j ==> spec_is_whitespace(#[trigger] s[k]),
    decreases j,
{
    if j > 0 && spec_is_whitespace(s[j - 1]) {
        lemma_trim_end_bounds(s, j - 1);
    }
}

/// The trimmed text is a contiguous part of the input that neither starts
/// nor ends with whitespace, and it is empty exactly for blank input.
pub proof fn lemma_trimmed_shape(s: Seq<char>)
    ensures
        trimmed(s).len() <= s.len(),
        trimmed(s).len() == 0 <==> is_blank(s),
        trimmed(s).len() > 0 ==> !spec_is_whitespace(trimmed(s)[0]) && !spec_is_whitespace(
            trimmed(s).last(),
        ),
        exists|a: int|
            0 <= a <= s.len() - trimmed(s).len() && #[trigger] s.subrange(a, a + trimmed(s).len())
                == trimmed(s) && is_blank(s.take(a)) && is_blank(s.skip(a + trimmed(s).len())),
{
    lemma_trim_start_bounds(s, 0);
    lemma_trim_end_bounds(s, s.len() as int);
    let a = trim_start_index(s, 0);
    let b = trim_end_index(s, s.len() as int);
    if a >= s.len() {
        assert(s.subrange(0, 0int + trimmed(s).len()) == trimmed(s));
        assert(is_blank(s.take(0)));
        assert forall|i: int| 0 <= i < s.skip(0).len() implies #[trigger] spec_is_whitespace(s.skip(0)[i]) by {
            assert(s.skip(0)[i] == s[i]);
        }
    } else {
        if b <= a {
            assert(spec_is_whitespace(s[a]));
        }
        assert(s.subrange(a, a + trimmed(s).len()) == trimmed(s));
        assert forall|i: int| 0 <= i < s.take(a).len() implies #[trigger] spec_is_whitespace(s.take(a)[i]) by {
            assert(s.take(a)[i] == s[i]);
        }
        assert forall|i: int| 0 <= i < s.skip(b).len() implies #[trigger] spec_is_whitespace(s.skip(b)[i]) by {
            assert(s.skip(b)[i] == s[b + i]);
        }
        assert(a + trimmed(s).len() == b);
        if is_blank(s) {
            assert(spec_is_whitespace(s[a]));
        }
    }
}

pub proof fn lemma_next_newline_bounds(s: Seq<char>, i: int)
    requires
        0 <= i <= s.len(),
    ensures
        i <= next_newline(s, i) <= s.len(),
        next_newline(s, i) < s.len() ==> s[next_newline(s, i)] == '\n',
        forall|k: int| i <= k < next_newline(s, i) ==> #[trigger] s[k] != '\n',
    decreases s.len() - i,
{
    if i < s.len() && s[i] != '\n' {
        lemma_next_newline_bounds(s, i + 1);
    }
}

proof fn lemma_joined_push(parts: Seq<Seq<char>>, sep: Seq<char>, p: Seq<char>)
    ensures
        joined(parts.push(p), sep) == if parts.len() == 0 {
            p
        } else {
            joined(parts, sep) + sep + p
        },
{
    assert(parts.push(p).drop_last() == parts);
}

proof fn lemma_occurrences_zero_from(s: Seq<char>, pat: Seq<char>, i: int)
    requires
        pat.len() > 0,
        0 <= i,
    ensures
        occurrences_from(s, pat, i) == 0 <==> forall|j: int| i <= j ==> !#[trigger] occurs_at(s, pat, j),
    decreases s.len() - i,
{
    if i + pat.len() > s.len() {
    } else if occurs_at(s, pat, i) {
    } else {
        lemma_occurrences_zero_from(s, pat, i + 1);
        assert forall|j: int| i <= j && (forall|k: int| i + 1 <= k ==> !#[trigger] occurs_at(s, pat, k)) implies !occurs_at(s, pat, j) by {
            if j > i {
                assert(i + 1 <= j);
            }
        }
    }
}

/// The count is zero exactly when `pat` does not occur in `s` at all (an
/// empty pattern always counts at least once).
pub proof fn lemma_count_zero_iff_absent(s: Seq<char>, pat: Seq<char>)
    ensures
        count_occurrences(s, pat) == 0 <==> !contains_text(s, pat),
{
    if pat.len() == 0 {
        assert(s.subrange(0, 0) == pat);
        assert(occurs_at(s, pat, 0));
    } else {
        lemma_occurrences_zero_from(s, pat, 0);
    }
}

proof fn lemma_joined_prepend(x: Seq<char>, rest: Seq<Seq<char>>, sep: Seq<char>)
    requires
        rest.len() > 0,
    ensures
        joined(seq![x] + rest, sep) == x + sep + joined(rest, sep),
    decreases rest.len(),
{
    let all = seq![x] + rest;
    if rest.len() == 1 {
        assert(all.drop_last() == seq![x]);
        assert(all.last() == rest[0]);
        assert(joined(seq![x], sep) == x);
        assert(joined(rest, sep) == rest[0]);
    } else {
        assert(all.drop_last() == seq![x] + rest.drop_last());
        lemma_joined_prepend(x, rest.drop_last(), sep);
        assert(all.last() == rest.last());
        assert(joined(all, sep) == joined(all.drop_last(), sep) + sep + all.last());
        assert(joined(rest, sep) == joined(rest.drop_last(), sep) + sep + rest.last());
        assert((x + sep + joined(rest.drop_last(), sep)) + sep + rest.last() =~= x + sep + (
        joined(rest.drop_last(), sep) + sep + rest.last()));
    }
}

proof fn lemma_lines_from_rejoin(s: Seq<char>, i: int)
    requires
        0 <= i <= s.len(),
        forall|k: int| 0 <= k < s.len() ==> #[trigger] s[k] != '\r',
    ensures
        joined(lines_from(s, i), seq!['\n']) == if i < s.len() && s.last() == '\n' {
            s.subrange(i, s.len() - 1)
        } else {
            s.subrange(i, s.len() as int)
        },
        forall|l: int, k: int|
            0 <= l < lines_from(s, i).len() && 0 <= k < lines_from(s, i)[l].len()
                ==> #[trigger] lines_from(s, i)[l][k] != '\n',
    decreases s.len() - i,
{
    if i < s.len() {
        let e = next_newline(s, i);
        lemma_next_newline_bounds(s, i);
        if e >= s.len() {
            assert(s.last() != '\n');
        } else {
            let line = s.subrange(i, e);
            if line.len() > 0 {
                assert(line.last() == s[e - 1]);
            }
            assert(strip_cr(line) == line);
            lemma_lines_from_rejoin(s, e + 1);
            let rest = lines_from(s, e + 1);
            assert(lines_from(s, i) == seq![line] + rest);
            if e + 1 < s.len() {
                assert(rest.len() > 0);
                lemma_joined_prepend(line, rest, seq!['\n']);
                if s.last() == '\n' {
                    assert(s.subrange(i, s.len() - 1) == line + seq!['\n'] + s.subrange(e + 1, s.len() - 1));
                } else {
                    assert(s.subrange(i, s.len() as int) == line + seq!['\n'] + s.subrange(e + 1, s.len() as int));
                }
            } else {
                assert(rest.len() == 0);
                assert(seq![line] + rest == seq![line]);
                assert(s.last() == '\n');
            }
            assert forall|l: int, k: int|
                0 <= l < lines_from(s, i).len() && 0 <= k < lines_from(s, i)[l].len()
                    implies #[trigger] lines_from(s, i)[l][k] != '\n' by {
                if l == 0 {
                    assert(lines_from(s, i)[l][k] == s[i + k]);
                } else {
                    assert(lines_from(s, i)[l] == rest[l - 1]);
                }
            }
        }
    }
}

/// `lines` cuts at line feeds only: no line holds one, and for text without
/// carriage returns the lines joined with `'\n'` give back the text, less a
/// final line feed.
pub proof fn lemma_lines_rejoin(s: Seq<char>)
    requires
        forall|k: int| 0 <= k < s.len() ==> #[trigger] s[k] != '\r',
    ensures
        joined(lines(s), seq!['\n']) == if s.len() > 0 && s.last() == '\n' {
            s.drop_last()
        } else {
            s
        },
        forall|l: int, k: int|
            0 <= l < lines(s).len() && 0 <= k < lines(s)[l].len() ==> #[trigger] lines(s)[l][k]
                != '\n',
{
    lemma_lines_from_rejoin(s, 0);
    assert(s.subrange(0, s.len() as int) == s);
    if s.len() > 0 {
        assert(s.subrange(0, s.len() - 1) == s.drop_last());
    }
}

/// Every non-overlapping occurrence takes `pat.len()` characters of `s`.
pub proof fn lemma_occurrences_bound(s: Seq<char>, pat: Seq<char>, i: int)
    requires
        pat.len() > 0,
        0 <= i <= s.len(),
    ensures
        occurrences_from(s, pat, i) * pat.len() <= s.len() - i,
    decreases s.len() - i,
{
    if i + pat.len() > s.len() {
        assert(occurrences_from(s, pat, i) == 0);
        assert(0 * pat.len() == 0) by (nonlinear_arith);
    } else if occurs_at(s, pat, i) {
        lemma_occurrences_bound(s, pat, i + pat.len());
        let k = occurrences_from(s, pat, i + pat.len());
        let m = pat.len();
        assert((1 + k) * m == k * m + m) by (nonlinear_arith);
    } else {
        lemma_occurrences_bound(s, pat, i + 1);
    }
}

// ---------------------------------------------------------------------------
// Executable functions
// ---------------------------------------------------------------------------

/// The characters of `s`, in order, in a vector with constant-time indexing.
pub fn chars_of(s: &str) -> (res: Vec<char>)
    ensures
        res@ == s@,
{
    let mut res: Vec<char> = Vec::new();
    for c in it: s.chars()
        invariant
            res@ == it.seq().take(it.index() as int),
            it.seq() == s@,
    {
        res.push(c);
    }
    res
}

/// `char::is_whitespace`.
pub fn is_whitespace(c: char) -> (res: bool)
    ensures
        res == spec_is_whitespace(c),
{
    ('\u{9}' <= c && c <= '\u{d}') || c == ' ' || c == '\u{85}' || c == '\u{a0}' || c
        == '\u{1680}' || ('\u{2000}' <= c && c <= '\u{200a}') || c == '\u{2028}' || c
        == '\u{2029}' || c == '\u{202f}' || c == '\u{205f}' || c == '\u{3000}'
}

/// Whether `s` holds nothing but whitespace (`s.trim().is_empty()`).
pub fn is_blank_text(s: &str) -> (res: bool)
    ensures
        res == is_blank(s@),
{
    let cs = chars_of(s);
    let n = cs.len();
    let mut i: usize = 0;
    while i < n
        invariant
            cs@ == s@,
            n == cs@.len(),
            i <= n,
            forall|k: int| 0 <= k < i ==> #[trigger] spec_is_whitespace(s@[k]),
        decreases n - i,
    {
        if !is_whitespace(cs[i]) {
            return false;
        }
        i = i + 1;
    }
    true
}

/// `s` with leading and trailing whitespace removed (`str::trim`).
pub fn trim(s: &str) -> (res: String)
    ensures
        res@ == trimmed(s@),
{
    let cs = chars_of(s);
    let n = cs.len();
    let mut a: usize = 0;
    while a < n && is_whitespace(cs[a])
        invariant
            cs@ == s@,
            n == cs@.len(),
            a <= n,
            trim_start_index(s@, 0) == trim_start_index(s@, a as int),
        decreases n - a,
    {
        a = a + 1;
    }
    if a >= n {
        return String::new();
    }
    let mut b: usize = n;
    while b > 0 && is_whitespace(cs[b - 1])
        invariant
            cs@ == s@,
            n == cs@.len(),
            b <= n,
            trim_end_index(s@, n as int) == trim_end_index(s@, b as int),
        decreases b,
    {
        b = b - 1;
    }
    proof {
        lemma_trim_end_bounds(s@, n as int);
        assert(!spec_is_whitespace(s@[a as int]));
        if b <= a {
            lemma_trim_end_bounds(s@, n as int);
            assert(a < b);
        }
    }
    String::from_str(s.substring_char(a, b))
}

/// The first `max_chars` characters of `s`, and whether anything was cut off.
pub fn truncate_chars(s: &str, max_chars: usize) -> (res: (String, bool))
    ensures
        res.0@ == truncated(s@, max_chars as nat),
        res.1 == (s@.len() > max_chars),
{
    let n = s.unicode_len();
    if n <= max_chars {
        (String::from_str(s), false)
    } else {
        (String::from_str(s.substring_char(0, max_chars)), true)
    }
}

/// `parts` joined with `sep` between consecutive parts (`[String]::join`).
pub fn join_with(parts: &Vec<String>, sep: &str) -> (res: String)
    ensures
        res@ == joined(parts@.map_values(|p: String| p@), sep@),
{
    let ghost views = parts@.map_values(|p: String| p@);
    let mut res = String::new();
    let n = parts.len();
    let mut i: usize = 0;
    while i < n
        invariant
            n == parts@.len(),
            views == parts@.map_values(|p: String| p@),
            i <= n,
            res@ == joined(views.take(i as int), sep@),
        decreases n - i,
    {
        proof {
            assert(views.take(i + 1) == views.take(i as int).push(views[i as int]));
            lemma_joined_push(views.take(i as int), sep@, views[i as int]);
        }
        if i > 0 {
            res.append(sep);
        }
        res.append(parts[i].as_str());
        i = i + 1;
    }
    assert(views.take(n as int) == views);
    res
}

/// The first `max_lines` lines of `content` (as `str::lines` splits them)
/// joined with `'\n'`, and whether `content` has more lines than that.
pub fn first_lines(content: &str, max_lines: usize) -> (res: (String, bool))
    ensures
        res.0@ == joined(
            lines(content@).take(
                if lines(content@).len() <= max_lines {
                    lines(content@).len() as int
                } else {
                    max_lines as int
                },
            ),
            seq!['\n'],
        ),
        res.1 == (lines(content@).len() > max_lines),
{
    let nl = newline();
    let cs = chars_of(content);
    let n = cs.len();
    let mut res = String::new();
    let mut pos: usize = 0;
    let mut k: usize = 0;
    let ghost mut taken: Seq<Seq<char>> = Seq::empty();
    while k < max_lines && pos < n
        invariant
            cs@ == content@,
            nl@ == seq!['\n'],
            n == cs@.len(),
            pos <= n,
            k <= max_lines,
            taken.len() == k,
            lines(content@) == taken + lines_from(content@, pos as int),
            res@ == joined(taken, seq!['\n']),
        decreases n - pos,
    {
        let mut e: usize = pos;
        while e < n && cs[e] != '\n'
            invariant
                cs@ == content@,
                n == cs@.len(),
                pos <= e <= n,
                next_newline(content@, pos as int) == next_newline(content@, e as int),
            decreases n - e,
        {
            e = e + 1;
        }
        proof {
            lemma_next_newline_bounds(content@, e as int);
        }
        let mut stop: usize = e;
        if e < n && e > pos && cs[e - 1] == '\r' {
            stop = e - 1;
        }
        let piece = content.substring_char(pos, stop);
        let ghost line = piece@;
        proof {
            if e < n {
                assert(strip_cr(content@.subrange(pos as int, e as int)) == line);
            } else {
                assert(content@.subrange(pos as int, n as int) == line);
            }
            lemma_joined_push(taken, seq!['\n'], line);
        }
        if k > 0 {
            res.append(nl);
        }
        res.append(piece);
        proof {
            let rest = if e < n { lines_from(content@, e + 1) } else { Seq::empty() };
            assert(lines_from(content@, pos as int) == seq![line] + rest);
            assert(taken + lines_from(content@, pos as int) == taken.push(line) + rest);
            taken = taken.push(line);
        }
        if e < n {
            pos = e + 1;
        } else {
            pos = n;
        }
        proof {
            if e >= n {
                assert(lines_from(content@, pos as int) == Seq::<Seq<char>>::empty());
                assert(taken + Seq::<Seq<char>>::empty() == taken);
            }
        }
        k = k + 1;
    }
    proof {
        if pos >= n {
            assert(lines_from(content@, pos as int) == Seq::<Seq<char>>::empty());
            assert(taken + Seq::<Seq<char>>::empty() == taken);
            assert(lines(content@).take(k as int) == taken);
        } else {
            assert(k == max_lines);
            assert(lines_from(content@, pos as int).len() > 0);
            assert(lines(content@).take(k as int) == taken);
        }
    }
    (res, pos < n)
}

/// Number of non-overlapping occurrences of `pat` in `s`, found left to right
/// (`s.matches(pat).count()`).
pub fn count_matches(s: &str, pat: &str) -> (res: usize)
    requires
        s@.len() < usize::MAX,
    ensures
        res == count_occurrences(s@, pat@),
{
    let hs = chars_of(s);
    let ps = chars_of(pat);
    let n = hs.len();
    let m = ps.len();
    if m == 0 {
        return n + 1;
    }
    let mut count: usize = 0;
    let mut i: usize = 0;
    while m <= n - i
        invariant
            hs@ == s@,
            ps@ == pat@,
            n == hs@.len(),
            m == ps@.len(),
            m > 0,
            i <= n,
            count + occurrences_from(s@, pat@, i as int) == occurrences_from(s@, pat@, 0),
            count <= i,
        decreases n - i,
    {
        let mut j: usize = 0;
        while j < m && hs[i + j] == ps[j]
            invariant
                hs@ == s@,
                ps@ == pat@,
                n == hs@.len(),
                m == ps@.len(),
                i + m <= n,
                j <= m,
                forall|k: int| 0 <= k < j ==> s@[i + k] == pat@[k],
            decreases m - j,
        {
            j = j + 1;
        }
        if j == m {
            assert(s@.subrange(i as int, i + m) == pat@);
            count = count + 1;
            i = i + m;
        } else {
            assert(s@.subrange(i as int, i + m)[j as int] != pat@[j as int]);
            i = i + 1;
        }
    }
    count
}

/// The one-character string `"\n"`.
pub fn newline() -> (res: &'static str)
    ensures
        res@ == seq!['\n'],
{
    proof {
        reveal_strlit("\n");
    }
    "\n"
}

} // verus!
