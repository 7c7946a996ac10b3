//! Links in documents, from the characters of a line to what is reported.
use vstd::prelude::*;

use crate::extract::{column, document_findings, extraction, LinkModel, Place};
use crate::laws::document::{is_of_document, law_findings_of_document, law_links_of_lines_are_found};
use crate::laws::forms::{law_bare_url_is_read_whole, law_starts_of_links, lemma_http_starts_with_h};
use crate::laws::lines::{fences, law_fences_open_and_close, starts_with_three};
use crate::laws::scan::{
    is_word, lacks, law_first_link, law_inline_link_without_title, lemma_plain_group,
};
use crate::laws::text::{blank, law_white_space};
use crate::laws::urls::{law_prefixes, starts_as_http};
use crate::scan::{candidate, candidates, lemma_candidate, Candidate};
use crate::text::{lines, white_space};
use crate::urls::{url_parse, verdict, Verdict};

verus! {

/// Line `k` of `text`, counted from 0, is outside fenced blocks.
pub open spec fn is_outside_fences(text: Seq<char>, k: int) -> bool {
    &&& 0 <= k < lines(text).len()
    &&& fences(lines(text), k) % 2 == 0
    &&& !starts_with_three(lines(text)[k], '`')
    &&& !starts_with_three(lines(text)[k], '~')
}

/// In the first `n` characters of `line` stands nothing that starts a link or a
/// code span.
pub open spec fn is_plain_up_to(line: Seq<char>, n: int) -> bool {
    &&& 0 <= n <= line.len()
    &&& forall|i: int|
        0 <= i < n ==> {
            let c = #[trigger] line[i];
            c != '<' && c != '[' && c != '`'
        }
    &&& forall|i: int| 0 <= i < n ==> !starts_as_http(#[trigger] line.skip(i))
}

proof fn lemma_first_link_is_extracted(file: Seq<char>, text: Seq<char>, k: int, at: int)
    requires
        is_outside_fences(text, k),
        is_plain_up_to(lines(text)[k], at),
        at < lines(text)[k].len(),
        lines(text)[k][at] != '`',
        candidate(lines(text)[k], at) matches Some(c) && c.problem is None && verdict(c.url)
            == Verdict::Link,
    ensures
        ({
            let line = lines(text)[k];
            extraction(document_findings(file, text)).occurrences.contains(
                LinkModel {
                    url: (candidate(line, at)->0).url,
                    place: Place { file, line: k + 1, column: column(line, at) },
                },
            )
        }),
{
    let line = lines(text)[k];
    assert forall|i: int| 0 <= i < at implies #[trigger] line[i] != '`' && candidate(line, i)
        is None by {
        assert(!starts_as_http(line.skip(i)));
        law_starts_of_links(line, i);
    }
    law_first_link(line, 0, at);
    law_fences_open_and_close(lines(text), k);
    lemma_candidate(line, at);
    assert(candidates(line, 0, false)[0] == candidate(line, at)->0);
    law_links_of_lines_are_found(file, text, k, 0);
}

/// A bare URL in a line outside fenced blocks, with nothing before it that starts
/// another link or a code span, is to be checked as a whole, where it stands: up
/// to the white space, `<`, `>` or `)` behind it, or the end of the line.
pub proof fn law_bare_urls_are_extracted(
    file: Seq<char>,
    text: Seq<char>,
    k: int,
    pre: Seq<char>,
    url: Seq<char>,
    post: Seq<char>,
)
    requires
        is_outside_fences(text, k),
        lines(text)[k] == pre + url + post,
        is_plain_up_to(pre + url + post, pre.len() as int),
        starts_as_http(url),
        url_parse(url) matches Some((_, Some(_))),
        forall|i: int|
            0 <= i < url.len() ==> {
                let c = #[trigger] url[i];
                !blank(c) && c != '<' && c != '>' && c != ')'
            },
        url.last() != '.' && url.last() != ',' && url.last() != ';',
        url.last() != ':' && url.last() != '!' && url.last() != '?',
        post.len() > 0 ==> blank(post[0]) || post[0] == '<' || post[0] == '>' || post[0] == ')',
    ensures
        extraction(document_findings(file, text)).occurrences.contains(
            LinkModel {
                url,
                place: Place {
                    file,
                    line: k + 1,
                    column: column(pre + url + post, pre.len() as int),
                },
            },
        ),
{
    let at = pre.len() as int;
    let line = pre + url + post;
    assert(candidate(line, at) == Some(
        Candidate { at, end: at + url.len(), url, problem: None },
    )) by {
        law_bare_url_is_read_whole(pre, url, post);
    }
    assert(verdict(url) == Verdict::Link) by {
        law_prefixes(url);
    }
    assert(url.len() > 0 && url[0] == 'h') by {
        lemma_http_starts_with_h(url);
    }
    assert(line[at] == url[0]);
    lemma_first_link_is_extracted(file, text, k, at);
}

/// An inline link `[label](URL)` in a line outside fenced blocks, with nothing
/// before it that starts another link or a code span, is to be checked, where it
/// stands.
pub proof fn law_inline_links_are_extracted(
    file: Seq<char>,
    text: Seq<char>,
    k: int,
    pre: Seq<char>,
    label: Seq<char>,
    url: Seq<char>,
    post: Seq<char>,
)
    requires
        is_outside_fences(text, k),
        lines(text)[k] == pre + seq!['['] + label + seq![']', '('] + (url.push(')') + post),
        is_plain_up_to(lines(text)[k], pre.len() as int),
        forall|i: int| 0 <= i < label.len() ==> #[trigger] label[i] != ']',
        starts_as_http(url),
        url_parse(url) matches Some((_, Some(_))),
        forall|i: int|
            0 <= i < url.len() ==> {
                let c = #[trigger] url[i];
                !blank(c) && c != '(' && c != ')' && c != '"'
            },
    ensures
        extraction(document_findings(file, text)).occurrences.contains(
            LinkModel {
                url,
                place: Place {
                    file,
                    line: k + 1,
                    column: column(lines(text)[k], pre.len() as int),
                },
            },
        ),
{
    law_prefixes(url);
    assert forall|i: int| 0 <= i < url.len() implies !white_space(#[trigger] url[i]) by {
        law_white_space(url[i]);
    }
    assert(is_word(url));
    assert(lacks(label, ']'));
    lemma_plain_group(url);
    law_inline_link_without_title(pre, label, url, post);
    let s = lines(text)[k];
    assert(s[pre.len() as int] == '[');
    lemma_first_link_is_extracted(file, text, k, pre.len() as int);
}

/// Nothing is reported of a fence, nor of what stands in a fenced block.
pub proof fn law_fenced_lines_are_left_out(file: Seq<char>, text: Seq<char>, j: int)
    requires
        0 <= j < document_findings(file, text).len(),
    ensures
        is_outside_fences(text, document_findings(file, text)[j].place.line - 1),
{
    law_findings_of_document(file, text);
    let f = document_findings(file, text)[j];
    assert(is_of_document(file, lines(text), f));
    law_fences_open_and_close(lines(text), f.place.line - 1);
}

} // verus!
