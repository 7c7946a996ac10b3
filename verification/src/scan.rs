//! Reading the links of one line.
//!
//! A line is scanned from left to right. Four forms of link are known:
//! reference definitions `[label]: URL` at the start of the line, autolinks
//! `<URL>`, inline links `[text](URL "title")` and bare `http://` or `https://`
//! URLs. Code spans, from one backtick to the next, are passed over.
use vstd::prelude::*;

use crate::extract::Problem;
use crate::text::{
    chars_of, find, find_char, find_space, find_whitespace, is_whitespace, lemma_find,
    lemma_find_space, lemma_skip_space, matches_at, skip_space, skip_whitespace, split_tokens,
    stands_at, substring, white_space, words,
};
use crate::urls::{has_http_prefix, verdict, verdict_of, Verdict};

verus! {

/// A form of link found in a line: where it starts, where the scan goes on
/// after it, its target, and what is wrong with its form.
pub struct Candidate {
    pub at: int,
    pub end: int,
    pub url: Seq<char>,
    pub problem: Option<Problem>,
}

/// The autolink `<URL>` whose `<` is at `open`: the position after it, and the
/// URL, which starts with `http://` or `https://`.
pub open spec fn autolink(s: Seq<char>, open: int) -> Option<(int, Seq<char>)> {
    let close = find(s, '>', open + 1);
    if 0 <= open < s.len() && close < s.len() && has_http_prefix(s.subrange(open + 1, close)) {
        Some((close + 1, s.subrange(open + 1, close)))
    } else {
        None
    }
}

/// The reference definition `[label]: URL` or `[label]: <URL>` that starts the
/// line: the position after it, and the URL. White space or the end of the line
/// follows the colon.
pub open spec fn definition(s: Seq<char>) -> Option<(int, Seq<char>)> {
    let close = find(s, ']', 0);
    if s.len() > 0 && s[0] == '[' && close + 1 < s.len() && s[close + 1] == ':' && (close + 2 < s.len()
        ==> white_space(s[close + 2])) {
        let start = skip_space(s, close + 2);
        if start < s.len() && s[start] == '<' {
            let end = find(s, '>', start);
            if end < s.len() {
                Some((end + 1, s.subrange(start + 1, end)))
            } else {
                None
            }
        } else {
            let end = find_space(s, start);
            Some((end, s.subrange(start, end)))
        }
    } else {
        None
    }
}

/// The position of the parenthesis that closes a group, read from `j` on with
/// `depth` groups open. Parentheses between double quotes do not count. Where
/// the line ends first: whether it ends between quotes.
pub open spec fn closing(s: Seq<char>, j: int, depth: int, quoted: bool) -> Result<int, bool>
    decreases s.len() - j,
{
    if j >= s.len() {
        Err(quoted)
    } else if s[j] == '"' {
        closing(s, j + 1, depth, !quoted)
    } else if quoted {
        closing(s, j + 1, depth, quoted)
    } else if s[j] == '(' {
        closing(s, j + 1, depth + 1, quoted)
    } else if s[j] == ')' {
        if depth == 1 {
            Ok(j)
        } else {
            closing(s, j + 1, depth - 1, quoted)
        }
    } else {
        closing(s, j + 1, depth, quoted)
    }
}

/// A title that starts with a double quote and does not end with one.
pub open spec fn unbalanced(title: Seq<char>) -> bool {
    title.len() > 0 && title[0] == '"' && title.last() != '"'
}

/// The inline link `[text](URL "title")` whose `[` is at `open`: the position
/// after it, the URL, and what is wrong with its form. Where the group is never closed, all
/// of the rest of the line is taken for the URL.
pub open spec fn inline_link(s: Seq<char>, open: int) -> Option<(int, Seq<char>, Option<Problem>)> {
    let bracket = find(s, ']', open + 1);
    if 0 <= open < s.len() && bracket + 1 < s.len() && s[bracket + 1] == '(' {
        match closing(s, bracket + 2, 1, false) {
            Err(quoted) => Some(
                (
                    s.len() as int,
                    s.skip(bracket + 2),
                    Some(
                        if quoted {
                            Problem::UnbalancedTitle
                        } else {
                            Problem::UnmatchedBrackets
                        },
                    ),
                ),
            ),
            Ok(close) => {
                let tokens = words(s.subrange(bracket + 2, close));
                if tokens.len() == 0 {
                    Some((close + 1, seq![], Some(Problem::EmptyUrl)))
                } else if tokens.len() == 2 && unbalanced(tokens[1]) {
                    Some((close + 1, tokens[0], Some(Problem::UnbalancedTitle)))
                } else {
                    Some((close + 1, tokens[0], None))
                }
            },
        }
    } else {
        None
    }
}

/// `c` ends a bare URL.
pub open spec fn ends_bare(c: char) -> bool {
    white_space(c) || c == '<' || c == '>' || c == ')'
}

/// The first position at or after `from` that ends a bare URL, or the length
/// of `s` where none does.
pub open spec fn bare_end(s: Seq<char>, from: int) -> int
    decreases s.len() - from,
{
    if from >= s.len() {
        s.len() as int
    } else if ends_bare(s[from]) {
        from
    } else {
        bare_end(s, from + 1)
    }
}

/// `c` is punctuation that a bare URL does not end with.
pub open spec fn trailing(c: char) -> bool {
    c == '.' || c == ',' || c == ';' || c == ':' || c == '!' || c == '?'
}

/// `url` without its trailing punctuation. A character stays where `url` is a
/// link with it and none without it.
pub open spec fn strip(url: Seq<char>) -> Seq<char>
    decreases url.len(),
{
    if url.len() > 0 && trailing(url.last()) && !(verdict(url) == Verdict::Link && verdict(
        url.drop_last(),
    ) != Verdict::Link) {
        strip(url.drop_last())
    } else {
        url
    }
}

/// The bare URL that starts at `open`.
pub open spec fn bare_url(s: Seq<char>, open: int) -> Seq<char> {
    strip(s.subrange(open, bare_end(s, open)))
}

/// `http://` or `https://` stands in `s` at `at`.
pub open spec fn http_at(s: Seq<char>, at: int) -> bool {
    stands_at(s, at, "http://"@) || stands_at(s, at, "https://"@)
}

/// The link that starts at position `at` of a line, outside code spans.
pub open spec fn candidate(s: Seq<char>, at: int) -> Option<Candidate> {
    if at == 0 && definition(s) is Some {
        let (end, url) = definition(s)->0;
        Some(Candidate { at, end, url, problem: None })
    } else if s[at] == '<' && autolink(s, at) is Some {
        let (end, url) = autolink(s, at)->0;
        Some(Candidate { at, end, url, problem: None })
    } else if s[at] == '[' && inline_link(s, at) is Some {
        let (end, url, problem) = inline_link(s, at)->0;
        Some(Candidate { at, end, url, problem })
    } else if http_at(s, at) {
        let url = bare_url(s, at);
        Some(Candidate { at, end: at + url.len(), url, problem: None })
    } else {
        None
    }
}

/// The links of a line from position `at` on, where `in_code` tells whether
/// that position is inside a code span.
pub open spec fn candidates(s: Seq<char>, at: int, in_code: bool) -> Seq<Candidate>
    decreases s.len() - at,
    via candidates_decreases
{
    if at < 0 || at >= s.len() {
        seq![]
    } else if s[at] == '`' {
        candidates(s, at + 1, !in_code)
    } else if in_code || candidate(s, at) is None {
        candidates(s, at + 1, in_code)
    } else {
        let found = candidate(s, at)->0;
        seq![found] + candidates(s, found.end, in_code)
    }
}

#[via_fn]
proof fn candidates_decreases(s: Seq<char>, at: int, in_code: bool) {
    if 0 <= at < s.len() {
        lemma_candidate(s, at);
    }
}

pub proof fn lemma_bare_end(s: Seq<char>, from: int)
    requires
        0 <= from <= s.len(),
    ensures
        from <= bare_end(s, from) <= s.len(),
        forall|i: int| from <= i < bare_end(s, from) ==> !ends_bare(s[i]),
        bare_end(s, from) < s.len() ==> ends_bare(s[bare_end(s, from)]),
    decreases s.len() - from,
{
    if from < s.len() && !ends_bare(s[from]) {
        lemma_bare_end(s, from + 1);
    }
}

pub proof fn lemma_closing(s: Seq<char>, j: int, depth: int, quoted: bool)
    requires
        0 <= j <= s.len(),
    ensures
        closing(s, j, depth, quoted) matches Ok(close) ==> j <= close < s.len() && s[close] == ')',
    decreases s.len() - j,
{
    if j < s.len() {
        lemma_closing(s, j + 1, depth, quoted);
        lemma_closing(s, j + 1, depth, !quoted);
        lemma_closing(s, j + 1, depth + 1, quoted);
        lemma_closing(s, j + 1, depth - 1, quoted);
    }
}

/// Stripping leaves a prefix, and all of it up to a character that is not
/// trailing punctuation.
proof fn lemma_strip(url: Seq<char>, k: int)
    ensures
        strip(url).len() <= url.len(),
        strip(url) == url.take(strip(url).len() as int),
        0 <= k < url.len() && !trailing(url[k]) ==> k < strip(url).len(),
    decreases url.len(),
{
    if strip(url) != url {
        lemma_strip(url.drop_last(), k);
        assert(url.drop_last().take(strip(url).len() as int) == url.take(strip(url).len() as int));
    } else {
        assert(url.take(url.len() as int) == url);
    }
}

/// A bare URL keeps its prefix.
pub proof fn lemma_bare(s: Seq<char>, open: int)
    requires
        http_at(s, open),
    ensures
        7 <= bare_url(s, open).len() <= s.len() - open,
        bare_url(s, open) == s.subrange(open, open + bare_url(s, open).len()),
        has_http_prefix(bare_url(s, open)),
{
    reveal_strlit("http://");
    reveal_strlit("https://");
    let end = bare_end(s, open);
    lemma_bare_end(s, open);
    let p = if stands_at(s, open, "http://"@) {
        "http://"@
    } else {
        "https://"@
    };
    assert forall|i: int| 0 <= i < p.len() implies s[open + i] == p[i] by {
        assert(s.subrange(open, open + p.len())[i] == p[i]);
    }
    assert(end >= open + p.len()) by {
        if end < open + p.len() {
            let i = end - open;
            assert(ends_bare(s[open + i]));
            assert(p =~= seq!['h', 't', 't', 'p', ':', '/', '/'] || p =~= seq![
                'h',
                't',
                't',
                'p',
                's',
                ':',
                '/',
                '/',
            ]);
            assert(!ends_bare(p[i]));
        }
    }
    let raw = s.subrange(open, end);
    assert(raw[p.len() - 1] == s[open + (p.len() - 1)]);
    lemma_strip(raw, p.len() - 1);
    let url = bare_url(s, open);
    assert(url == s.subrange(open, open + url.len()));
    assert(url.subrange(0, p.len() as int) =~= p);
}

/// A link ends after its start, and within the line.
pub proof fn lemma_candidate(s: Seq<char>, at: int)
    requires
        0 <= at < s.len(),
    ensures
        candidate(s, at) matches Some(c) ==> c.at == at && at < c.end <= s.len(),
{
    lemma_find(s, ']', 0);
    let close = find(s, ']', 0);
    if close + 1 < s.len() {
        lemma_skip_space(s, close + 2);
        let start = skip_space(s, close + 2);
        lemma_find(s, '>', start);
        lemma_find_space(s, start);
    }
    lemma_find(s, '>', at + 1);
    lemma_find(s, ']', at + 1);
    let bracket = find(s, ']', at + 1);
    if bracket + 1 < s.len() {
        lemma_closing(s, bracket + 2, 1, false);
    }
    if http_at(s, at) {
        lemma_bare(s, at);
    }
}

/// The model of a target read from a line.
pub open spec fn target(r: Option<(usize, String)>) -> Option<(int, Seq<char>)> {
    match r {
        Some((end, url)) => Some((end as int, url@)),
        None => None,
    }
}

/// The model of an inline link read from a line.
pub open spec fn inline_target(r: Option<(usize, String, Option<Problem>)>) -> Option<
    (int, Seq<char>, Option<Problem>),
> {
    match r {
        Some((end, url, problem)) => Some((end as int, url@, problem)),
        None => None,
    }
}

/// Whether `http://` or `https://` stands at `at`.
pub fn is_http_at(chars: &Vec<char>, at: usize) -> (r: bool)
    ensures
        r == http_at(chars@, at as int),
{
    matches_at(chars, at, "http://") || matches_at(chars, at, "https://")
}

/// Reads the autolink whose `<` is at `open`.
pub fn read_angle(chars: &Vec<char>, open: usize) -> (r: Option<(usize, String)>)
    requires
        open < chars@.len(),
    ensures
        target(r) == autolink(chars@, open as int),
{
    let n = chars.len();
    let close = find_char(chars, '>', open + 1);
    if close == n {
        return None;
    }
    let ghost s = chars@.subrange(open + 1, close as int);
    proof {
        reveal_strlit("http://");
        reveal_strlit("https://");
        assert(s.len() >= 7 ==> s.subrange(0, 7) == chars@.subrange(open + 1, open + 8));
        assert(s.len() >= 8 ==> s.subrange(0, 8) == chars@.subrange(open + 1, open + 9));
    }
    let plain = close - open > 7 && matches_at(chars, open + 1, "http://");
    let secure = close - open > 8 && matches_at(chars, open + 1, "https://");
    if plain || secure {
        Some((close + 1, substring(chars, open + 1, close)))
    } else {
        None
    }
}

/// Reads the reference definition that starts the line.
pub fn read_refdef(chars: &Vec<char>) -> (r: Option<(usize, String)>)
    ensures
        target(r) == definition(chars@),
{
    let n = chars.len();
    if n == 0 || chars[0] != '[' {
        return None;
    }
    let close = find_char(chars, ']', 0);
    if close >= n - 1 || chars[close + 1] != ':' {
        return None;
    }
    if close + 2 < n && !is_whitespace(chars[close + 2]) {
        return None;
    }
    let start = skip_whitespace(chars, close + 2);
    if start < n && chars[start] == '<' {
        let end = find_char(chars, '>', start);
        if end == n {
            return None;
        }
        assert(end > start) by {
            lemma_find(chars@, '>', start as int);
        }
        Some((end + 1, substring(chars, start + 1, end)))
    } else {
        let end = find_whitespace(chars, start);
        Some((end, substring(chars, start, end)))
    }
}

/// The position of the parenthesis that closes the group whose content starts
/// at `from`, or, where the line ends first, whether it ends between quotes.
pub fn find_closing(chars: &Vec<char>, from: usize) -> (r: Result<usize, bool>)
    requires
        0 < from <= chars@.len(),
    ensures
        match r {
            Ok(close) => closing(chars@, from as int, 1, false) == Ok::<int, bool>(close as int)
                && from <= close < chars@.len(),
            Err(quoted) => closing(chars@, from as int, 1, false) == Err::<int, bool>(quoted),
        },
{
    let mut depth: usize = 1;
    let mut j: usize = from;
    let mut quoted = false;
    while j < chars.len()
        invariant
            0 < from <= j <= chars.len(),
            1 <= depth <= j - from + 1,
            closing(chars@, from as int, 1, false) == closing(
                chars@,
                j as int,
                depth as int,
                quoted,
            ),
        decreases chars@.len() - j,
    {
        let c = chars[j];
        if c == '"' {
            quoted = !quoted;
        } else if !quoted && c == '(' {
            depth += 1;
        } else if !quoted && c == ')' {
            if depth == 1 {
                return Ok(j);
            }
            depth -= 1;
        }
        j += 1;
    }
    Err(quoted)
}

/// Whether a title starts with a double quote and does not end with one.
pub fn is_unbalanced(title: &String) -> (r: bool)
    ensures
        r == unbalanced(title@),
{
    let chars = chars_of(title.as_str());
    chars.len() > 0 && chars[0] == '"' && chars[chars.len() - 1] != '"'
}

/// Reads the inline link whose `[` is at `open`.
pub fn read_inline(chars: &Vec<char>, open: usize) -> (r: Option<
    (usize, String, Option<Problem>),
>)
    requires
        open < chars@.len(),
    ensures
        inline_target(r) == inline_link(chars@, open as int),
{
    let n = chars.len();
    let bracket = find_char(chars, ']', open + 1);
    if bracket >= n - 1 || chars[bracket + 1] != '(' {
        return None;
    }
    let from = bracket + 2;
    match find_closing(chars, from) {
        Err(quoted) => {
            let problem = if quoted {
                Problem::UnbalancedTitle
            } else {
                Problem::UnmatchedBrackets
            };
            assert(chars@.subrange(from as int, n as int) == chars@.skip(from as int));
            Some((n, substring(chars, from, n), Some(problem)))
        },
        Ok(close) => {
            let tokens = split_tokens(chars, from, close);
            let ghost expected = words(chars@.subrange(from as int, close as int));
            assert(expected.len() == tokens@.len());
            if tokens.len() == 0 {
                return Some((close + 1, String::new(), Some(Problem::EmptyUrl)));
            }
            assert(expected[0] == tokens@[0]@);
            let url = tokens[0].clone();
            if tokens.len() == 2 && is_unbalanced(&tokens[1]) {
                assert(expected[1] == tokens@[1]@);
                return Some((close + 1, url, Some(Problem::UnbalancedTitle)));
            }
            assert(tokens@.len() == 2 ==> expected[1] == tokens@[1]@);
            Some((close + 1, url, None))
        },
    }
}

/// Reads the bare URL at `open`: the position after it, and the URL.
pub fn read_bare(chars: &Vec<char>, open: usize) -> (r: (usize, String))
    requires
        http_at(chars@, open as int),
    ensures
        r.1@ == bare_url(chars@, open as int),
        r.0 == open + r.1@.len(),
        r.0 <= chars@.len(),
{
    proof {
        reveal_strlit("http://");
        reveal_strlit("https://");
    }
    let mut end: usize = open;
    while end < chars.len() && !(is_whitespace(chars[end]) || chars[end] == '<' || chars[end] == '>'
        || chars[end] == ')')
        invariant
            open <= end <= chars@.len(),
            bare_end(chars@, open as int) == bare_end(chars@, end as int),
        decreases chars@.len() - end,
    {
        end += 1;
    }
    let mut raw = substring(chars, open, end);
    let ghost url = bare_url(chars@, open as int);
    while end > open && (chars[end - 1] == '.' || chars[end - 1] == ',' || chars[end - 1] == ';'
        || chars[end - 1] == ':' || chars[end - 1] == '!' || chars[end - 1] == '?')
        invariant_except_break
            open <= end <= chars@.len(),
            raw@ == chars@.subrange(open as int, end as int),
            strip(raw@) == url,
        ensures
            open <= end <= chars@.len(),
            raw@ == chars@.subrange(open as int, end as int),
            raw@ == url,
        decreases end,
    {
        let cut = substring(chars, open, end - 1);
        assert(cut@ == raw@.drop_last());
        assert(trailing(raw@.last()));
        if verdict_of(raw.as_str()) == Verdict::Link && verdict_of(cut.as_str()) != Verdict::Link {
            break;
        }
        raw = cut;
        end -= 1;
    }
    (end, raw)
}

/// Reads the link that starts at `at`.
pub fn read_link(chars: &Vec<char>, at: usize) -> (r: Option<(usize, String, Option<Problem>)>)
    requires
        at < chars@.len(),
    ensures
        match r {
            Some((end, url, problem)) => candidate(chars@, at as int) == Some(
                Candidate { at: at as int, end: end as int, url: url@, problem },
            ),
            None => candidate(chars@, at as int) is None,
        },
{
    if at == 0 {
        if let Some((end, url)) = read_refdef(chars) {
            return Some((end, url, None));
        }
    }
    if chars[at] == '<' {
        if let Some((end, url)) = read_angle(chars, at) {
            return Some((end, url, None));
        }
    }
    if chars[at] == '[' {
        if let Some((end, url, problem)) = read_inline(chars, at) {
            return Some((end, url, problem));
        }
    }
    if is_http_at(chars, at) {
        let (end, url) = read_bare(chars, at);
        return Some((end, url, None));
    }
    None
}

} // verus!
