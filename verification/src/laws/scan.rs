//! The forms of link, and what is found of them in a line.
use vstd::prelude::*;

use crate::extract::Problem;
use crate::scan::{
    autolink, bare_end, candidate, candidates, closing, definition, ends_bare, http_at, inline_link,
    lemma_bare, lemma_bare_end, lemma_candidate, lemma_closing, strip, trailing, unbalanced,
    Candidate,
};
use crate::text::{
    find, find_space, lemma_find, lemma_find_space, lemma_skip_space, skip_space, stands_at,
    white_space, words,
};
use crate::urls::has_http_prefix;

verus! {

/// No character of `s` is `c`.
pub open spec fn lacks(s: Seq<char>, c: char) -> bool {
    forall|i: int| 0 <= i < s.len() ==> #[trigger] s[i] != c
}

/// No character of `s` is white space.
pub open spec fn is_word(s: Seq<char>) -> bool {
    s.len() > 0 && forall|i: int| 0 <= i < s.len() ==> !white_space(#[trigger] s[i])
}

/// All characters of `s` are white space.
pub open spec fn is_blank(s: Seq<char>) -> bool {
    forall|i: int| 0 <= i < s.len() ==> white_space(#[trigger] s[i])
}

/// `s`, between parentheses, is a group: its own parentheses and quotes are
/// balanced.
pub open spec fn is_group(s: Seq<char>) -> bool {
    closing(s.push(')'), 0, 1, false) == Ok::<int, bool>(s.len() as int)
}

pub proof fn lemma_words_nonempty(s: Seq<char>, k: int)
    requires
        0 <= k < s.len(),
        !white_space(s[k]),
    ensures
        words(s).len() > 0,
    decreases s.len(),
{
    if white_space(s[0]) {
        assert(s.skip(1)[k - 1] == s[k]);
        lemma_words_nonempty(s.skip(1), k - 1);
    }
}

pub proof fn lemma_words_blank(s: Seq<char>)
    requires
        is_blank(s),
    ensures
        words(s).len() == 0,
    decreases s.len(),
{
    if s.len() > 0 {
        assert(white_space(s[0]));
        assert forall|i: int| 0 <= i < s.skip(1).len() implies white_space(
            #[trigger] s.skip(1)[i],
        ) by {
            assert(white_space(s[i + 1]));
        }
        lemma_words_blank(s.skip(1));
    }
}

/// White space at the start does not matter to the words.
pub proof fn lemma_words_skip(gap: Seq<char>, s: Seq<char>)
    requires
        is_blank(gap),
    ensures
        words(gap + s) == words(s),
    decreases gap.len(),
{
    if gap.len() == 0 {
        assert(gap + s =~= s);
    } else {
        assert(white_space(gap[0]));
        assert((gap + s)[0] == gap[0]);
        assert((gap + s).skip(1) =~= gap.skip(1) + s);
        assert forall|i: int| 0 <= i < gap.skip(1).len() implies white_space(
            #[trigger] gap.skip(1)[i],
        ) by {
            assert(white_space(gap[i + 1]));
        }
        lemma_words_skip(gap.skip(1), s);
    }
}

/// A word that white space follows is the first word.
pub proof fn lemma_words_first(w: Seq<char>, s: Seq<char>)
    requires
        is_word(w),
        s.len() > 0 ==> white_space(s[0]),
    ensures
        words(w + s) == seq![w] + words(s),
{
    let all = w + s;
    assert(all[0] == w[0]);
    lemma_find_space(all, 0);
    let end = find_space(all, 0);
    if end < w.len() {
        assert(white_space(all[end]));
        assert(all[end] == w[end]);
    }
    if end > w.len() {
        assert(all[w.len() as int] == s[0]);
    }
    assert(all.take(end) =~= w);
    assert(all.skip(end) =~= s);
}

proof fn lemma_closing_plain(s: Seq<char>, j: int, k: int, depth: int)
    requires
        0 <= j <= k <= s.len(),
        forall|i: int| j <= i < k ==> #[trigger] s[i] != '(' && s[i] != ')' && s[i] != '"',
    ensures
        closing(s, j, depth, false) == closing(s, k, depth, false),
    decreases k - j,
{
    if j < k {
        lemma_closing_plain(s, j + 1, k, depth);
    }
}

proof fn lemma_closing_quoted(s: Seq<char>, j: int, k: int, depth: int)
    requires
        0 <= j <= k <= s.len(),
        forall|i: int| j <= i < k ==> #[trigger] s[i] != '"',
    ensures
        closing(s, j, depth, true) == closing(s, k, depth, true),
    decreases k - j,
{
    if j < k {
        lemma_closing_quoted(s, j + 1, k, depth);
    }
}

/// Where a group is closed does not depend on what stands before and after it.
proof fn lemma_closing_within(s: Seq<char>, off: int, t: Seq<char>, i: int, depth: int, quoted: bool)
    requires
        0 <= off,
        0 <= i <= t.len(),
        stands_at(s, off, t),
        closing(t, i, depth, quoted) is Ok,
    ensures
        closing(s, off + i, depth, quoted) == Ok::<int, bool>(off + closing(t, i, depth, quoted)->Ok_0),
    decreases t.len() - i,
{
    if i < t.len() {
        assert(s.subrange(off, off + t.len())[i] == s[off + i]);
        if t[i] == '"' {
            lemma_closing_within(s, off, t, i + 1, depth, !quoted);
        } else if quoted {
            lemma_closing_within(s, off, t, i + 1, depth, quoted);
        } else if t[i] == '(' {
            lemma_closing_within(s, off, t, i + 1, depth + 1, quoted);
        } else if t[i] == ')' {
            if depth != 1 {
                lemma_closing_within(s, off, t, i + 1, depth - 1, quoted);
            }
        } else {
            lemma_closing_within(s, off, t, i + 1, depth, quoted);
        }
    }
}

/// Text without parentheses and quotes is a group.
pub proof fn lemma_plain_group(s: Seq<char>)
    requires
        lacks(s, '('),
        lacks(s, ')'),
        lacks(s, '"'),
    ensures
        is_group(s),
{
    let t = s.push(')');
    assert forall|i: int| 0 <= i < s.len() implies #[trigger] t[i] != '(' && t[i] != ')' && t[i]
        != '"' by {
        assert(t[i] == s[i]);
    }
    lemma_closing_plain(t, 0, s.len() as int, 1);
}

/// The `[text](` that starts an inline link at position `at`.
proof fn lemma_inline_start(pre: Seq<char>, text: Seq<char>, rest: Seq<char>)
    requires
        lacks(text, ']'),
    ensures
        ({
            let s = pre + seq!['['] + text + seq![']', '('] + rest;
            let at = pre.len() as int;
            &&& s[at] == '['
            &&& find(s, ']', at + 1) == at + 1 + text.len()
            &&& s[at + 2 + text.len()] == '('
            &&& s.skip(at + 3 + text.len()) == rest
            &&& at == 0 ==> definition(s) is None
        }),
{
    let s = pre + seq!['['] + text + seq![']', '('] + rest;
    let at = pre.len() as int;
    lemma_find(s, ']', at + 1);
    let b = at + 1 + text.len();
    assert(s[b] == ']');
    let found = find(s, ']', at + 1);
    if found < b {
        assert(s[found] == text[found - at - 1]);
    }
    assert(s.skip(at + 3 + text.len()) =~= rest);
    if at == 0 {
        lemma_find(s, ']', 0);
        let close = find(s, ']', 0);
        if close < b {
            if close > 0 {
                assert(s[close] == text[close - 1]);
            }
        }
    }
}

/// An inline link `[text](group)` is found where it stands: its URL is the
/// first word of the group.
pub proof fn law_inline_link(pre: Seq<char>, text: Seq<char>, group: Seq<char>, post: Seq<char>)
    requires
        lacks(text, ']'),
        is_group(group),
        words(group).len() > 0,
        !(words(group).len() == 2 && unbalanced(words(group)[1])),
    ensures
        ({
            let s = pre + seq!['['] + text + seq![']', '('] + (group.push(')') + post);
            candidate(s, pre.len() as int) == Some(
                Candidate {
                    at: pre.len() as int,
                    end: pre.len() + text.len() + group.len() + 4int,
                    url: words(group)[0],
                    problem: None,
                },
            )
        }),
{
    let rest = group.push(')') + post;
    let s = pre + seq!['['] + text + seq![']', '('] + rest;
    let at = pre.len() as int;
    lemma_inline_start(pre, text, rest);
    let off = at + 3 + text.len();
    let t = group.push(')');
    assert(s.subrange(off, off + t.len()) =~= t);
    lemma_closing_within(s, off, t, 0, 1, false);
    assert(s.subrange(off, off + group.len()) =~= group);
}

/// `[text](URL)` is found where it stands, with its URL.
pub proof fn law_inline_link_without_title(
    pre: Seq<char>,
    text: Seq<char>,
    url: Seq<char>,
    post: Seq<char>,
)
    requires
        lacks(text, ']'),
        is_word(url),
        is_group(url),
    ensures
        ({
            let s = pre + seq!['['] + text + seq![']', '('] + (url.push(')') + post);
            candidate(s, pre.len() as int) == Some(
                Candidate {
                    at: pre.len() as int,
                    end: pre.len() + text.len() + url.len() + 4int,
                    url,
                    problem: None,
                },
            )
        }),
{
    lemma_words_first(url, seq![]);
    assert(url + Seq::<char>::empty() =~= url);
    law_inline_link(pre, text, url, post);
}

/// `[text](URL "title")` is found where it stands, with its URL. The title may
/// hold anything but double quotes.
pub proof fn law_inline_link_with_title(
    pre: Seq<char>,
    text: Seq<char>,
    url: Seq<char>,
    gap: Seq<char>,
    title: Seq<char>,
    post: Seq<char>,
)
    requires
        lacks(text, ']'),
        is_word(url),
        lacks(url, '('),
        lacks(url, ')'),
        lacks(url, '"'),
        gap.len() > 0,
        is_blank(gap),
        lacks(title, '"'),
    ensures
        ({
            let group = url + gap + (seq!['"'] + title + seq!['"']);
            let s = pre + seq!['['] + text + seq![']', '('] + (group.push(')') + post);
            candidate(s, pre.len() as int) == Some(
                Candidate {
                    at: pre.len() as int,
                    end: pre.len() + text.len() + group.len() + 4int,
                    url,
                    problem: None,
                },
            )
        }),
{
    let quoted = seq!['"'] + title + seq!['"'];
    let group = url + gap + quoted;
    assert(group =~= url + (gap + quoted));
    assert((gap + quoted)[0] == gap[0]);
    lemma_words_first(url, gap + quoted);
    lemma_words_skip(gap, quoted);
    lemma_words_nonempty(quoted, 0);
    let n = (url.len() + gap.len()) as int;
    let t = group.push(')');
    assert forall|i: int| 0 <= i < n implies #[trigger] t[i] != '(' && t[i] != ')' && t[i]
        != '"' by {
        if i < url.len() {
            assert(t[i] == url[i]);
        } else {
            assert(t[i] == gap[i - url.len()]);
            assert(white_space(gap[i - url.len()]));
        }
    }
    lemma_closing_plain(t, 0, n, 1);
    assert(t[n] == '"');
    let m = n + 1 + title.len();
    assert forall|i: int| n + 1 <= i < m implies #[trigger] t[i] != '"' by {
        assert(t[i] == title[i - n - 1]);
    }
    lemma_closing_quoted(t, n + 1, m, 1);
    assert(t[m] == '"');
    assert(t[m + 1] == ')');
    assert(closing(t, n, 1, false) == closing(t, n + 1, 1, true));
    assert(closing(t, m, 1, true) == closing(t, m + 1, 1, false));
    assert(closing(t, m + 1, 1, false) == Ok::<int, bool>(m + 1));
    assert(words(group) == seq![url] + words(quoted));
    if words(quoted).len() == 1 {
        lemma_find_space(quoted, 1);
        let end = find_space(quoted, 0);
        if end < quoted.len() {
            let rest = quoted.skip(end);
            assert(rest[rest.len() - 1] == '"');
            lemma_words_nonempty(rest, rest.len() - 1);
        }
        assert(quoted.take(end) =~= quoted);
        assert(words(group)[1] == quoted);
    }
    law_inline_link(pre, text, group, post);
}

/// An inline link with nothing but white space for its URL has an empty URL.
pub proof fn law_inline_link_without_url(
    pre: Seq<char>,
    text: Seq<char>,
    gap: Seq<char>,
    post: Seq<char>,
)
    requires
        lacks(text, ']'),
        is_blank(gap),
    ensures
        ({
            let s = pre + seq!['['] + text + seq![']', '('] + (gap.push(')') + post);
            candidate(s, pre.len() as int) == Some(
                Candidate {
                    at: pre.len() as int,
                    end: pre.len() + text.len() + gap.len() + 4int,
                    url: seq![],
                    problem: Some(Problem::EmptyUrl),
                },
            )
        }),
{
    let rest = gap.push(')') + post;
    let s = pre + seq!['['] + text + seq![']', '('] + rest;
    let at = pre.len() as int;
    lemma_inline_start(pre, text, rest);
    let off = at + 3 + text.len();
    let t = gap.push(')');
    assert forall|i: int| 0 <= i < gap.len() implies #[trigger] gap[i] != '(' && gap[i] != ')'
        && gap[i] != '"' by {
        assert(white_space(gap[i]));
    }
    lemma_plain_group(gap);
    assert(s.subrange(off, off + t.len()) =~= t);
    lemma_closing_within(s, off, t, 0, 1, false);
    assert(s.subrange(off, off + gap.len()) =~= gap);
    lemma_words_blank(gap);
}

/// An inline link that is never closed has unmatched brackets, or, where a
/// quote is left open, an unbalanced title.
pub proof fn law_inline_link_left_open(
    pre: Seq<char>,
    text: Seq<char>,
    open: Seq<char>,
    title: Seq<char>,
)
    requires
        lacks(text, ']'),
        lacks(open, '('),
        lacks(open, ')'),
        lacks(open, '"'),
        lacks(title, '"'),
    ensures
        ({
            let s = pre + seq!['['] + text + seq![']', '('] + open;
            candidate(s, pre.len() as int) == Some(
                Candidate {
                    at: pre.len() as int,
                    end: s.len() as int,
                    url: open,
                    problem: Some(Problem::UnmatchedBrackets),
                },
            )
        }),
        ({
            let rest = open.push('"') + title;
            let s = pre + seq!['['] + text + seq![']', '('] + rest;
            candidate(s, pre.len() as int) == Some(
                Candidate {
                    at: pre.len() as int,
                    end: s.len() as int,
                    url: rest,
                    problem: Some(Problem::UnbalancedTitle),
                },
            )
        }),
{
    let at = pre.len() as int;
    let off = at + 3 + text.len();
    let s1 = pre + seq!['['] + text + seq![']', '('] + open;
    lemma_inline_start(pre, text, open);
    assert forall|i: int| off <= i < s1.len() implies #[trigger] s1[i] != '(' && s1[i] != ')'
        && s1[i] != '"' by {
        assert(s1[i] == open[i - off]);
    }
    lemma_closing_plain(s1, off, s1.len() as int, 1);
    let rest = open.push('"') + title;
    let s2 = pre + seq!['['] + text + seq![']', '('] + rest;
    lemma_inline_start(pre, text, rest);
    let q = off + open.len();
    assert forall|i: int| off <= i < q implies #[trigger] s2[i] != '(' && s2[i] != ')' && s2[i]
        != '"' by {
        assert(s2[i] == open[i - off]);
    }
    lemma_closing_plain(s2, off, q, 1);
    assert(s2[q] == '"');
    assert forall|i: int| q + 1 <= i < s2.len() implies #[trigger] s2[i] != '"' by {
        assert(s2[i] == title[i - q - 1]);
    }
    lemma_closing_quoted(s2, q + 1, s2.len() as int, 1);
}

/// `<URL>` is found where it stands, with its URL, which starts with `http://`
/// or `https://`.
pub proof fn law_autolink(pre: Seq<char>, url: Seq<char>, post: Seq<char>)
    requires
        lacks(url, '>'),
        has_http_prefix(url),
    ensures
        candidate(pre + seq!['<'] + url + seq!['>'] + post, pre.len() as int) == Some(
            Candidate {
                at: pre.len() as int,
                end: pre.len() + url.len() + 2int,
                url,
                problem: None,
            },
        ),
{
    let s = pre + seq!['<'] + url + seq!['>'] + post;
    let at = pre.len() as int;
    lemma_find(s, '>', at + 1);
    let close = at + 1 + url.len();
    assert(s[close] == '>');
    let found = find(s, '>', at + 1);
    if found < close {
        assert(s[found] == url[found - at - 1]);
    }
    assert(s.subrange(at + 1, close) =~= url);
    assert(s[at] == '<');
}

/// A reference definition `[label]: URL`, alone in its line or with white space
/// behind it, is found at the start of the line, with its URL.
pub proof fn law_definition(label: Seq<char>, gap: Seq<char>, url: Seq<char>, post: Seq<char>)
    requires
        lacks(label, ']'),
        gap.len() > 0,
        is_blank(gap),
        is_word(url),
        url[0] != '<',
        post.len() > 0 ==> white_space(post[0]),
    ensures
        candidate(seq!['['] + label + seq![']', ':'] + gap + url + post, 0) == Some(
            Candidate {
                at: 0,
                end: label.len() + gap.len() + url.len() + 3int,
                url,
                problem: None,
            },
        ),
{
    let s = seq!['['] + label + seq![']', ':'] + gap + url + post;
    let start = label.len() + 3int + gap.len();
    lemma_definition_start(s, label, gap, url + post);
    let end = start + url.len();
    lemma_find_space(s, start);
    let found = find_space(s, start);
    if found < end {
        assert(s[found] == url[found - start]);
    }
    if found > end {
        assert(s[end] == post[0]);
    }
    assert(s.subrange(start, end) =~= url);
}

/// A reference definition `[label]: <URL>` is found at the start of the line,
/// with its URL.
pub proof fn law_definition_in_angles(
    label: Seq<char>,
    gap: Seq<char>,
    url: Seq<char>,
    post: Seq<char>,
)
    requires
        lacks(label, ']'),
        gap.len() > 0,
        is_blank(gap),
        lacks(url, '>'),
    ensures
        candidate(
            seq!['['] + label + seq![']', ':'] + gap + (seq!['<'] + url + seq!['>']) + post,
            0,
        ) == Some(
            Candidate {
                at: 0,
                end: label.len() + gap.len() + url.len() + 5int,
                url,
                problem: None,
            },
        ),
{
    let angled = seq!['<'] + url + seq!['>'];
    let s = seq!['['] + label + seq![']', ':'] + gap + angled + post;
    let start = label.len() + 3int + gap.len();
    lemma_definition_start(s, label, gap, angled + post);
    let end = start + 1 + url.len();
    lemma_find(s, '>', start);
    let found = find(s, '>', start);
    assert(s[start] == '<');
    assert(s[end] == '>');
    if start < found < end {
        assert(s[found] == url[found - start - 1]);
    }
    assert(s.subrange(start + 1, end) =~= url);
}

proof fn lemma_definition_start(s: Seq<char>, label: Seq<char>, gap: Seq<char>, rest: Seq<char>)
    requires
        s =~= seq!['['] + label + seq![']', ':'] + gap + rest,
        lacks(label, ']'),
        gap.len() > 0,
        is_blank(gap),
        rest.len() > 0,
        !white_space(rest[0]),
    ensures
        s[0] == '[',
        find(s, ']', 0) == label.len() + 1,
        s[label.len() + 2int] == ':',
        white_space(s[label.len() + 3int]),
        skip_space(s, label.len() + 3int) == label.len() + 3 + gap.len(),
{
    lemma_find(s, ']', 0);
    let close = find(s, ']', 0);
    assert(s[label.len() + 1int] == ']');
    if 0 < close < label.len() + 1 {
        assert(s[close] == label[close - 1]);
    }
    let from = label.len() + 3int;
    let start = from + gap.len();
    assert(s[from] == gap[0]);
    lemma_skip_space(s, from);
    let found = skip_space(s, from);
    assert(s[start] == rest[0]);
    if found < start {
        assert(s[found] == gap[found - from]);
        assert(white_space(gap[found - from]));
    }
}

/// A bare URL is found where it stands, up to the end of the line, white space
/// or a bracket that ends it. The URL does not end with punctuation.
pub proof fn law_bare_url(pre: Seq<char>, url: Seq<char>, post: Seq<char>)
    requires
        has_http_prefix(url),
        forall|i: int| 0 <= i < url.len() ==> !ends_bare(#[trigger] url[i]),
        !trailing(url.last()),
        post.len() > 0 ==> ends_bare(post[0]),
    ensures
        candidate(pre + url + post, pre.len() as int) == Some(
            Candidate { at: pre.len() as int, end: (pre.len() + url.len()) as int, url, problem: None },
        ),
{
    reveal_strlit("http://");
    reveal_strlit("https://");
    let s = pre + url + post;
    let at = pre.len() as int;
    let end = at + url.len();
    lemma_bare_end(s, at);
    let found = bare_end(s, at);
    if found < end {
        assert(s[found] == url[found - at]);
    }
    if found > end {
        assert(s[end] == post[0]);
    }
    assert(s.subrange(at, end) =~= url);
    assert(url.subrange(0, 7) =~= s.subrange(at, at + 7));
    if url.len() >= 8 {
        assert(url.subrange(0, 8) =~= s.subrange(at, at + 8));
    }
    assert(url[0] == 'h') by {
        assert(url.subrange(0, 7)[0] == url[0]);
        if url.len() >= 8 {
            assert(url.subrange(0, 8)[0] == url[0]);
        }
    }
    assert(s[at] == 'h');
}

/// Trailing punctuation is cut off a URL, unless the URL is a link with it and
/// none without.
pub proof fn law_trailing_punctuation(url: Seq<char>, c: char)
    requires
        trailing(c),
    ensures
        strip(url.push(c)) == (if crate::urls::verdict(url.push(c)) == crate::urls::Verdict::Link
            && crate::urls::verdict(url) != crate::urls::Verdict::Link {
            url.push(c)
        } else {
            strip(url)
        }),
{
    assert(url.push(c).drop_last() =~= url);
}

/// Only a `<`, a `[` or an `h` starts a link.
pub proof fn law_links_start(s: Seq<char>, at: int)
    requires
        0 <= at < s.len(),
        candidate(s, at) is Some,
    ensures
        s[at] == '<' || s[at] == '[' || s[at] == 'h',
{
    reveal_strlit("http://");
    reveal_strlit("https://");
    if http_at(s, at) {
        if stands_at(s, at, "http://"@) {
            assert(s.subrange(at, at + 7)[0] == s[at]);
        } else {
            assert(s.subrange(at, at + 8)[0] == s[at]);
        }
    }
}

/// The first link of a line is the one before which no other starts, outside
/// code, and the scan goes on after it.
pub proof fn law_first_link(s: Seq<char>, from: int, at: int)
    requires
        0 <= from <= at < s.len(),
        forall|i: int| from <= i < at ==> #[trigger] s[i] != '`' && candidate(s, i) is None,
        s[at] != '`',
        candidate(s, at) is Some,
    ensures
        candidates(s, from, false) == seq![candidate(s, at)->0] + candidates(
            s,
            (candidate(s, at)->0).end,
            false,
        ),
    decreases at - from,
{
    if from < at {
        assert(s[from] != '`');
        law_first_link(s, from + 1, at);
    }
}

/// The links of a line start one after the other, within the line, and the scan
/// goes on after each.
pub proof fn law_candidates_in_order(s: Seq<char>, at: int, in_code: bool)
    requires
        0 <= at <= s.len(),
    ensures
        forall|k: int|
            0 <= k < candidates(s, at, in_code).len() ==> {
                let c = #[trigger] candidates(s, at, in_code)[k];
                at <= c.at < c.end <= s.len() && candidate(s, c.at) == Some(c)
            },
        forall|k: int, l: int|
            0 <= k < l < candidates(s, at, in_code).len() ==> (#[trigger] candidates(
                s,
                at,
                in_code,
            )[k]).end <= (#[trigger] candidates(s, at, in_code)[l]).at,
    decreases s.len() - at,
{
    if at < s.len() {
        if s[at] == '`' {
            law_candidates_in_order(s, at + 1, !in_code);
        } else if in_code || candidate(s, at) is None {
            law_candidates_in_order(s, at + 1, in_code);
        } else {
            lemma_candidate(s, at);
            let found = candidate(s, at)->0;
            let rest = candidates(s, found.end, in_code);
            law_candidates_in_order(s, found.end, in_code);
            let all = candidates(s, at, in_code);
            assert(all == seq![found] + rest);
            assert forall|k: int| 0 <= k < all.len() implies {
                let c = #[trigger] all[k];
                at <= c.at < c.end <= s.len() && candidate(s, c.at) == Some(c)
            } by {
                if k > 0 {
                    assert(all[k] == rest[k - 1]);
                }
            }
            assert forall|k: int, l: int| 0 <= k < l < all.len() implies (#[trigger] all[k]).end <= (
            #[trigger] all[l]).at by {
                assert(all[l] == rest[l - 1]);
                if k > 0 {
                    assert(all[k] == rest[k - 1]);
                }
            }
        }
    }
}

/// A code span, from one backtick to the next, holds no links. Without a
/// second backtick the rest of the line is code.
pub proof fn law_code_spans_are_skipped(s: Seq<char>, at: int)
    requires
        0 <= at < s.len(),
        s[at] == '`',
    ensures
        find(s, '`', at + 1) < s.len() ==> candidates(s, at, false) == candidates(
            s,
            find(s, '`', at + 1) + 1,
            false,
        ),
        find(s, '`', at + 1) == s.len() ==> candidates(s, at, false).len() == 0,
{
    lemma_code_span(s, at + 1);
}

proof fn lemma_code_span(s: Seq<char>, at: int)
    requires
        0 <= at <= s.len(),
    ensures
        find(s, '`', at) < s.len() ==> candidates(s, at, true) == candidates(
            s,
            find(s, '`', at) + 1,
            false,
        ),
        find(s, '`', at) == s.len() ==> candidates(s, at, true).len() == 0,
    decreases s.len() - at,
{
    if at < s.len() && s[at] != '`' {
        lemma_code_span(s, at + 1);
    }
}

/// The words of a text are parts of it.
proof fn lemma_words_are_parts(s: Seq<char>, k: int)
    requires
        0 <= k < words(s).len(),
    ensures
        exists|a: int, b: int|
            0 <= a <= b <= s.len() && words(s)[k] == #[trigger] s.subrange(a, b),
    decreases s.len(),
{
    if white_space(s[0]) {
        let rest = s.skip(1);
        lemma_words_are_parts(rest, k);
        let (a, b) = choose|a: int, b: int|
            0 <= a <= b <= rest.len() && words(rest)[k] == #[trigger] rest.subrange(a, b);
        assert(rest.subrange(a, b) == s.subrange(a + 1, b + 1));
    } else {
        lemma_find_space(s, 1);
        let end = find_space(s, 0);
        let rest = s.skip(end);
        if k == 0 {
            assert(words(s)[0] == s.take(end));
            assert(s.take(end) == s.subrange(0, end));
        } else {
            assert(words(s)[k] == words(rest)[k - 1]);
            lemma_words_are_parts(rest, k - 1);
            let (a, b) = choose|a: int, b: int|
                0 <= a <= b <= rest.len() && words(rest)[k - 1] == #[trigger] rest.subrange(a, b);
            assert(rest.subrange(a, b) == s.subrange(a + end, b + end));
        }
    }
}

/// The URL of a link is a part of the line, between the start and the end of
/// the link.
pub proof fn law_url_is_part_of_line(s: Seq<char>, at: int)
    requires
        0 <= at < s.len(),
        candidate(s, at) is Some,
    ensures
        ({
            let c = candidate(s, at)->0;
            exists|a: int, b: int|
                at <= a <= b <= c.end && c.url == #[trigger] s.subrange(a, b)
        }),
{
    lemma_candidate(s, at);
    let c = candidate(s, at)->0;
    if at == 0 && definition(s) is Some {
        let close = find(s, ']', 0);
        lemma_find(s, ']', 0);
        let start = skip_space(s, close + 2);
        lemma_skip_space(s, close + 2);
        lemma_find(s, '>', start);
        lemma_find_space(s, start);
    } else if s[at] == '<' && autolink(s, at) is Some {
        lemma_find(s, '>', at + 1);
        assert(c.url == s.subrange(at + 1, c.end - 1));
    } else if s[at] == '[' && inline_link(s, at) is Some {
        let bracket = find(s, ']', at + 1);
        lemma_find(s, ']', at + 1);
        lemma_closing(s, bracket + 2, 1, false);
        match closing(s, bracket + 2, 1, false) {
            Err(_) => {
                assert(c.url == s.subrange(bracket + 2, s.len() as int));
            },
            Ok(close) => {
                let inner = s.subrange(bracket + 2, close);
                if words(inner).len() == 0 {
                    assert(c.url =~= s.subrange(at, at));
                } else {
                    lemma_words_are_parts(inner, 0);
                    let (a, b) = choose|a: int, b: int|
                        0 <= a <= b <= inner.len() && words(inner)[0] == #[trigger] inner.subrange(
                            a,
                            b,
                        );
                    assert(inner.subrange(a, b) == s.subrange(bracket + 2 + a, bracket + 2 + b));
                }
            },
        }
    } else {
        lemma_bare(s, at);
        assert(c.url == s.subrange(at, c.end));
    }
}

} // verus!
