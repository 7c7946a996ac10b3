//! The forms of link, told by their characters.
use vstd::prelude::*;

use crate::extract::Problem;
use crate::laws::scan::law_bare_url;
use crate::laws::text::{blank, law_searches, law_white_space};
use crate::laws::urls::{law_prefixes, prefix, starts_as_http};
use crate::scan::{
    autolink, bare_end, bare_url, candidate, candidates, closing, definition, ends_bare, http_at,
    inline_link, inline_target, lemma_bare_end, strip, target, trailing, unbalanced, Candidate,
};
use crate::text::{white_space, words};
use crate::urls::{verdict, Verdict};

verus! {

proof fn lemma_white_space_is_blank()
    ensures
        forall|c: char| #[trigger] white_space(c) <==> blank(c),
{
    assert forall|c: char| #[trigger] white_space(c) <==> blank(c) by {
        law_white_space(c);
    }
}

/// A bare URL starts where the characters of `http://` or `https://` stand.
pub proof fn lemma_http_at(s: Seq<char>, at: int)
    requires
        0 <= at <= s.len(),
    ensures
        http_at(s, at) <==> starts_as_http(s.skip(at)),
{
    let t = s.skip(at);
    reveal_strlit("http://");
    reveal_strlit("https://");
    assert("http://"@ =~= prefix(false));
    assert("https://"@ =~= prefix(true));
    if t.len() >= 7 {
        assert(t.take(7) =~= s.subrange(at, at + 7));
    }
    if t.len() >= 8 {
        assert(t.take(8) =~= s.subrange(at, at + 8));
    }
}

/// Both prefixes start with an `h`.
pub proof fn lemma_http_starts_with_h(t: Seq<char>)
    requires
        starts_as_http(t),
    ensures
        t[0] == 'h',
{
    if t.len() >= 7 && t.take(7) == prefix(false) {
        assert(t.take(7)[0] == t[0]);
    } else {
        assert(t.take(8)[0] == t[0]);
    }
}

/// A bare URL reaches to the first white space, `<`, `>` or `)`, or to the end of
/// the line: text from `http://` or `https://` on that holds none of these and
/// does not end in `.`, `,`, `;`, `:`, `!` or `?` is read as a whole.
pub proof fn law_bare_url_is_read_whole(pre: Seq<char>, url: Seq<char>, post: Seq<char>)
    requires
        starts_as_http(url),
        forall|i: int|
            0 <= i < url.len() ==> {
                let c = #[trigger] url[i];
                !blank(c) && c != '<' && c != '>' && c != ')'
            },
        url.last() != '.' && url.last() != ',' && url.last() != ';',
        url.last() != ':' && url.last() != '!' && url.last() != '?',
        post.len() > 0 ==> blank(post[0]) || post[0] == '<' || post[0] == '>' || post[0] == ')',
    ensures
        bare_url(pre + url + post, pre.len() as int) == url,
        candidate(pre + url + post, pre.len() as int) == Some(
            Candidate { at: pre.len() as int, end: (pre.len() + url.len()) as int, url, problem: None },
        ),
{
    lemma_white_space_is_blank();
    law_prefixes(url);
    assert forall|i: int| 0 <= i < url.len() implies !ends_bare(#[trigger] url[i]) by {
        assert(white_space(url[i]) <==> blank(url[i]));
    }
    if post.len() > 0 {
        assert(white_space(post[0]) <==> blank(post[0]));
        assert(ends_bare(post[0]));
    }
    assert(!trailing(url.last()));
    law_bare_url(pre, url, post);
    let s = pre + url + post;
    let at = pre.len() as int;
    let end = at + url.len();
    lemma_bare_end(s, at);
    let found = bare_end(s, at);
    if found < end {
        assert(s[found] == url[found - at]);
    }
    if found > end {
        assert(s[end] == post[0]);
    }
    assert(s.subrange(at, end) =~= url);
}

/// What is read as a bare URL, and where the run that it starts ends: the run
/// goes up to white space, `<`, `>`, `)` or the end of the line, and what is cut
/// off it is punctuation. Punctuation stays only where the URL is a link with it
/// and none without it.
pub open spec fn is_bare_reading(s: Seq<char>, open: int, end: int, url: Seq<char>) -> bool {
    &&& open + url.len() <= end <= s.len()
    &&& url == s.subrange(open, open + url.len())
    &&& end < s.len() ==> blank(s[end]) || s[end] == '<' || s[end] == '>' || s[end] == ')'
    &&& forall|i: int|
        open <= i < end ==> {
            let c = #[trigger] s[i];
            !blank(c) && c != '<' && c != '>' && c != ')'
        }
    &&& forall|i: int|
        open + url.len() <= i < end ==> {
            let c = #[trigger] s[i];
            c == '.' || c == ',' || c == ';' || c == ':' || c == '!' || c == '?'
        }
    &&& forall|i: int|
        open + url.len() <= i < end ==> !(verdict(#[trigger] s.subrange(open, i + 1))
            == Verdict::Link && verdict(s.subrange(open, i)) != Verdict::Link)
    &&& url.len() > 0 && {
        let c = url.last();
        c == '.' || c == ',' || c == ';' || c == ':' || c == '!' || c == '?'
    } ==> verdict(url) == Verdict::Link && verdict(url.drop_last()) != Verdict::Link
}

proof fn lemma_strip_reading(s: Seq<char>, open: int, end: int)
    requires
        0 <= open <= end <= s.len(),
    ensures
        ({
            let url = strip(s.subrange(open, end));
            &&& open + url.len() <= end
            &&& url == s.subrange(open, open + url.len())
            &&& forall|i: int| open + url.len() <= i < end ==> trailing(#[trigger] s[i])
            &&& forall|i: int|
                open + url.len() <= i < end ==> !(verdict(#[trigger] s.subrange(open, i + 1))
                    == Verdict::Link && verdict(s.subrange(open, i)) != Verdict::Link)
            &&& url.len() > 0 && trailing(url.last()) ==> verdict(url) == Verdict::Link && verdict(
                url.drop_last(),
            ) != Verdict::Link
        }),
    decreases end - open,
{
    let raw = s.subrange(open, end);
    let url = strip(raw);
    if raw.len() > 0 && trailing(raw.last()) && !(verdict(raw) == Verdict::Link && verdict(
        raw.drop_last(),
    ) != Verdict::Link) {
        assert(raw.drop_last() =~= s.subrange(open, end - 1));
        lemma_strip_reading(s, open, end - 1);
        assert(raw.last() == s[end - 1]);
        assert forall|i: int| open + url.len() <= i < end implies !(verdict(
            #[trigger] s.subrange(open, i + 1),
        ) == Verdict::Link && verdict(s.subrange(open, i)) != Verdict::Link) by {
            if i == end - 1 {
                assert(s.subrange(open, i + 1) =~= raw);
                assert(s.subrange(open, i) =~= raw.drop_last());
            }
        }
    } else {
        assert(url == raw);
    }
}

/// Every bare URL is read so.
pub proof fn law_bare_url_reading(s: Seq<char>, open: int)
    requires
        0 <= open <= s.len(),
        starts_as_http(s.skip(open)),
    ensures
        exists|end: int| #[trigger] is_bare_reading(s, open, end, bare_url(s, open)),
{
    lemma_white_space_is_blank();
    lemma_http_at(s, open);
    lemma_bare_end(s, open);
    let end = bare_end(s, open);
    lemma_strip_reading(s, open, end);
    let url = bare_url(s, open);
    assert forall|i: int| open <= i < end implies {
        let c = #[trigger] s[i];
        !blank(c) && c != '<' && c != '>' && c != ')'
    } by {
        assert(!ends_bare(s[i]));
        assert(white_space(s[i]) <==> blank(s[i]));
    }
    if end < s.len() {
        assert(ends_bare(s[end]));
        assert(white_space(s[end]) <==> blank(s[end]));
    }
    assert forall|i: int| open + url.len() <= i < end implies {
        let c = #[trigger] s[i];
        c == '.' || c == ',' || c == ';' || c == ':' || c == '!' || c == '?'
    } by {
        assert(trailing(s[i]));
    }
    assert(is_bare_reading(s, open, end, url));
}

/// Where a character starts no form of link, there is none: only `<`, `[` and the
/// `h` of `http://` or `https://` do. At that `h` stands a bare URL.
pub proof fn law_starts_of_links(s: Seq<char>, at: int)
    requires
        0 <= at < s.len(),
        s[at] != '<',
        s[at] != '[',
    ensures
        starts_as_http(s.skip(at)) ==> candidate(s, at) == Some(
            Candidate {
                at,
                end: at + bare_url(s, at).len(),
                url: bare_url(s, at),
                problem: None,
            },
        ),
        !starts_as_http(s.skip(at)) ==> candidate(s, at) is None,
{
    lemma_http_at(s, at);
}

/// `<` starts a link where a `>` follows and `http://` or `https://` stands right
/// behind the `<` and before that `>`. The URL is what stands between them.
pub proof fn law_angle_brackets(s: Seq<char>, at: int, close: int)
    requires
        0 <= at < close <= s.len(),
        close < s.len() ==> s[close] == '>',
        forall|i: int| at < i < close ==> #[trigger] s[i] != '>',
    ensures
        autolink(s, at) == (if close < s.len() && starts_as_http(s.subrange(at + 1, close)) {
            Some((close + 1, s.subrange(at + 1, close)))
        } else {
            None
        }),
        s[at] == '<' ==> candidate(s, at) == (if close < s.len() && starts_as_http(
            s.subrange(at + 1, close),
        ) {
            Some(Candidate { at, end: close + 1, url: s.subrange(at + 1, close), problem: None })
        } else {
            None
        }),
{
    law_searches(s, '>', at + 1, close);
    law_prefixes(s.subrange(at + 1, close));
    lemma_http_at(s, at);
    if starts_as_http(s.skip(at)) {
        lemma_http_starts_with_h(s.skip(at));
    }
}

/// What a line that starts with `[` defines. `close` is the first `]`, or the end;
/// `start` the first character other than white space two places on, or the end;
/// `stop` the end of what stands there.
pub proof fn law_definitions(s: Seq<char>, close: int, start: int, stop: int)
    requires
        s.len() > 0,
        s[0] == '[',
        0 <= close <= s.len(),
        close < s.len() ==> s[close] == ']',
        forall|i: int| 0 <= i < close ==> #[trigger] s[i] != ']',
        close + 2 <= s.len() ==> {
            &&& close + 2 <= start <= stop <= s.len()
            &&& start < s.len() ==> !blank(s[start])
            &&& forall|i: int| close + 2 <= i < start ==> blank(#[trigger] s[i])
            &&& if start < s.len() && s[start] == '<' {
                &&& stop < s.len() ==> s[stop] == '>'
                &&& forall|i: int| start <= i < stop ==> #[trigger] s[i] != '>'
            } else {
                &&& stop < s.len() ==> blank(s[stop])
                &&& forall|i: int| start <= i < stop ==> !blank(#[trigger] s[i])
            }
        },
    ensures
        definition(s) == (if close + 2 > s.len() || s[close + 1] != ':' || (close + 2 < s.len()
            && !blank(s[close + 2])) {
            None
        } else if start < s.len() && s[start] == '<' {
            if stop < s.len() {
                Some((stop + 1, s.subrange(start + 1, stop)))
            } else {
                None
            }
        } else {
            Some((stop, s.subrange(start, stop)))
        }),
        definition(s) matches Some((end, url)) ==> candidate(s, 0) == Some(
            Candidate { at: 0, end, url, problem: None },
        ),
{
    lemma_white_space_is_blank();
    law_searches(s, ']', 0, close);
    if close + 2 <= s.len() {
        law_searches(s, ' ', close + 2, start);
        law_searches(s, '>', start, stop);
        if close + 2 < s.len() {
            assert(white_space(s[close + 2]) <==> blank(s[close + 2]));
        }
    }
}

/// No other line defines anything.
pub proof fn law_other_lines_define_nothing(s: Seq<char>)
    requires
        s.len() > 0 ==> s[0] != '[',
    ensures
        definition(s) is None,
{
}

/// How many double quotes stand from `from` up to `to`.
pub open spec fn quotes(s: Seq<char>, from: int, to: int) -> int
    decreases to - from,
{
    if to <= from {
        0
    } else {
        quotes(s, from, to - 1) + (if s[to - 1] == '"' {
            1int
        } else {
            0
        })
    }
}

/// How many groups are open at `to`, where one is at `from`: each `(` behind an
/// even number of quotes opens one, and each such `)` closes one.
pub open spec fn depth(s: Seq<char>, from: int, to: int) -> int
    decreases to - from,
{
    if to <= from {
        1
    } else if quotes(s, from, to - 1) % 2 != 0 {
        depth(s, from, to - 1)
    } else if s[to - 1] == '(' {
        depth(s, from, to - 1) + 1
    } else if s[to - 1] == ')' {
        depth(s, from, to - 1) - 1
    } else {
        depth(s, from, to - 1)
    }
}

/// At `j` stands a `)`, outside quotes, where only the first group is open.
pub open spec fn closes(s: Seq<char>, from: int, j: int) -> bool {
    &&& s[j] == ')'
    &&& quotes(s, from, j) % 2 == 0
    &&& depth(s, from, j) == 1
}

proof fn lemma_closing_by_count(s: Seq<char>, from: int, j: int)
    requires
        0 <= from <= j <= s.len(),
        forall|i: int| from <= i < j ==> !#[trigger] closes(s, from, i),
    ensures
        closing(s, from, 1, false) == closing(
            s,
            j,
            depth(s, from, j),
            quotes(s, from, j) % 2 != 0,
        ),
        0 <= quotes(s, from, j),
    decreases j,
{
    if j > from {
        lemma_closing_by_count(s, from, j - 1);
        assert(!closes(s, from, j - 1));
    }
}

/// A group is closed by the first `)` outside quotes behind which it would be the
/// last one open. Where there is none, it is left open, between quotes or not.
pub proof fn law_groups_close(s: Seq<char>, from: int, close: int)
    requires
        0 <= from <= close <= s.len(),
        close < s.len() ==> closes(s, from, close),
        forall|i: int| from <= i < close ==> !#[trigger] closes(s, from, i),
    ensures
        closing(s, from, 1, false) == (if close < s.len() {
            Ok::<int, bool>(close)
        } else {
            Err(quotes(s, from, close) % 2 != 0)
        }),
{
    lemma_closing_by_count(s, from, close);
}

/// What stands in an inline link `[..](..)`. `bracket` is the first `]` behind its
/// `[`, and `close` the `)` that closes its group, or the end. The URL is the
/// first word of the group.
pub proof fn law_inline_forms(s: Seq<char>, at: int, bracket: int, close: int)
    requires
        0 <= at < bracket,
        bracket + 1 < s.len(),
        s[bracket] == ']',
        forall|i: int| at < i < bracket ==> #[trigger] s[i] != ']',
        s[bracket + 1] == '(',
        bracket + 2 <= close <= s.len(),
        close < s.len() ==> closes(s, bracket + 2, close),
        forall|i: int| bracket + 2 <= i < close ==> !#[trigger] closes(s, bracket + 2, i),
    ensures
        ({
            let inner = words(s.subrange(bracket + 2, close));
            let read = if close == s.len() {
                (
                    s.len() as int,
                    s.skip(bracket + 2),
                    Some(
                        if quotes(s, bracket + 2, close) % 2 != 0 {
                            Problem::UnbalancedTitle
                        } else {
                            Problem::UnmatchedBrackets
                        },
                    ),
                )
            } else if inner.len() == 0 {
                (close + 1, Seq::<char>::empty(), Some(Problem::EmptyUrl))
            } else if inner.len() == 2 && inner[1].len() > 0 && inner[1][0] == '"'
                && inner[1].last() != '"' {
                (close + 1, inner[0], Some(Problem::UnbalancedTitle))
            } else {
                (close + 1, inner[0], None)
            };
            &&& inline_link(s, at) == Some(read)
            &&& s[at] == '[' ==> candidate(s, at) == Some(
                Candidate { at, end: read.0, url: read.1, problem: read.2 },
            )
        }),
{
    law_searches(s, ']', at + 1, bracket);
    law_groups_close(s, bracket + 2, close);
    if s[at] == '[' && at == 0 {
        assert(s[0] != ']');
        law_searches(s, ']', 0, bracket);
    }
    lemma_http_at(s, at);
}

/// Where no `]` follows, or no `(` stands behind the first one, there is no inline
/// link, and a `[` behind the start of a line starts nothing.
pub proof fn law_no_inline_form(s: Seq<char>, at: int, bracket: int)
    requires
        0 <= at < bracket <= s.len(),
        bracket < s.len() ==> s[bracket] == ']',
        forall|i: int| at < i < bracket ==> #[trigger] s[i] != ']',
        bracket + 1 < s.len() ==> s[bracket + 1] != '(',
    ensures
        inline_link(s, at) is None,
        s[at] == '[' && (at > 0 || definition(s) is None) ==> candidate(s, at) is None,
{
    law_searches(s, ']', at + 1, bracket);
    lemma_http_at(s, at);
    if starts_as_http(s.skip(at)) {
        lemma_http_starts_with_h(s.skip(at));
    }
}

/// A line is read from left to right: a backtick opens or closes a code span, in
/// which nothing is read, and outside it each link is read where it starts and
/// skipped as a whole.
pub proof fn law_lines_are_read_on(s: Seq<char>, at: int)
    requires
        0 <= at < s.len(),
    ensures
        candidates(s, s.len() as int, false).len() == 0,
        candidates(s, s.len() as int, true).len() == 0,
        s[at] == '`' ==> candidates(s, at, false) == candidates(s, at + 1, true),
        s[at] == '`' ==> candidates(s, at, true) == candidates(s, at + 1, false),
        s[at] != '`' ==> candidates(s, at, true) == candidates(s, at + 1, true),
        s[at] != '`' && candidate(s, at) is None ==> candidates(s, at, false) == candidates(
            s,
            at + 1,
            false,
        ),
        s[at] != '`' && candidate(s, at) is Some ==> candidates(s, at, false) == seq![
            candidate(s, at)->0,
        ] + candidates(s, (candidate(s, at)->0).end, false),
{
}

/// A line without `<`, `[`, and without `http://` and `https://`, holds no links.
pub proof fn law_plain_lines_hold_no_links(s: Seq<char>, at: int)
    requires
        0 <= at <= s.len(),
        forall|i: int| at <= i < s.len() ==> #[trigger] s[i] != '<' && s[i] != '[',
        forall|i: int| at <= i < s.len() ==> !starts_as_http(#[trigger] s.skip(i)),
    ensures
        candidates(s, at, false).len() == 0,
        candidates(s, at, true).len() == 0,
    decreases s.len() - at,
{
    if at < s.len() {
        law_plain_lines_hold_no_links(s, at + 1);
        assert(s[at] != '<' && s[at] != '[');
        assert(!starts_as_http(s.skip(at)));
        law_starts_of_links(s, at);
    }
}

/// A title is unbalanced where it starts with a double quote and ends with another
/// character.
pub proof fn law_unbalanced(title: Seq<char>)
    ensures
        unbalanced(title) <==> title.len() > 0 && title[0] == '"' && title[title.len() - 1] != '"',
{
}

/// What the readers return stands for what they found.
pub proof fn law_readings(end: usize, url: String, problem: Option<Problem>)
    ensures
        target(Some((end, url))) == Some((end as int, url@)),
        target(None) is None,
        inline_target(Some((end, url, problem))) == Some((end as int, url@, problem)),
        inline_target(None) is None,
{
}

} // verus!
