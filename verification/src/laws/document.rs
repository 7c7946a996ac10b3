//! What is found in a document, and what is reported of it.
use vstd::prelude::*;
use vstd::utf8::encode_utf8;

use crate::extract::{
    column, distinct, document_findings, extraction, fence_open, finding, findings_upto, is_fence,
    is_scanned, law_distinct, line_findings, links_of, malformed_of, urls_of, Finding, LinkModel,
    MalformedModel, Place,
};
use crate::laws::scan::{lacks, law_candidates_in_order, law_url_is_part_of_line};
use crate::order::place_less;
use crate::scan::{candidate, candidates};
use crate::text::{lemma_lines_hold_no_line_feed, lemma_prefix_bytes_increase, lines};
use crate::urls::{verdict, Verdict};

verus! {

/// `url` is a part of `line`.
pub open spec fn is_part(url: Seq<char>, line: Seq<char>) -> bool {
    exists|a: int, b: int| 0 <= a <= b <= line.len() && url == #[trigger] line.subrange(a, b)
}

/// `f` is of the document `all` called `file`: its place is in a line that is
/// scanned, its URL is a part of that line, and where it counts as a link, its
/// URL is one.
pub open spec fn is_of_document(file: Seq<char>, all: Seq<Seq<char>>, f: Finding) -> bool {
    &&& f.place.file == file
    &&& 1 <= f.place.line <= all.len()
    &&& is_scanned(all, f.place.line - 1)
    &&& 1 <= f.place.column <= encode_utf8(all[f.place.line - 1]).len()
    &&& is_part(f.url, all[f.place.line - 1])
    &&& f.verdict == Verdict::Link ==> verdict(f.url) == Verdict::Link
}

proof fn lemma_line_findings(file: Seq<char>, all: Seq<Seq<char>>, n: int)
    requires
        1 <= n <= all.len(),
        is_scanned(all, n - 1),
    ensures
        forall|k: int|
            0 <= k < line_findings(file, n, all[n - 1]).len() ==> {
                let f = #[trigger] line_findings(file, n, all[n - 1])[k];
                is_of_document(file, all, f) && f.place.line == n
            },
        forall|k: int, l: int|
            0 <= k < l < line_findings(file, n, all[n - 1]).len() ==> place_less(
                (#[trigger] line_findings(file, n, all[n - 1])[k]).place,
                (#[trigger] line_findings(file, n, all[n - 1])[l]).place,
            ),
{
    let s = all[n - 1];
    let found = candidates(s, 0, false);
    let fs = line_findings(file, n, s);
    law_candidates_in_order(s, 0, false);
    assert(s.take(s.len() as int) == s);
    assert forall|k: int| 0 <= k < fs.len() implies {
        let f = #[trigger] fs[k];
        is_of_document(file, all, f) && f.place.line == n
    } by {
        let c = found[k];
        assert(fs[k] == finding(file, n, s, c));
        assert(candidate(s, c.at) == Some(c));
        law_url_is_part_of_line(s, c.at);
        let (a, b) = choose|a: int, b: int|
            c.at <= a <= b <= c.end && c.url == #[trigger] s.subrange(a, b);
        assert(c.url == s.subrange(a, b));
        lemma_prefix_bytes_increase(s, c.at, s.len() as int);
    }
    assert forall|k: int, l: int| 0 <= k < l < fs.len() implies place_less(
        (#[trigger] fs[k]).place,
        (#[trigger] fs[l]).place,
    ) by {
        assert(fs[k] == finding(file, n, s, found[k]));
        assert(fs[l] == finding(file, n, s, found[l]));
        assert(candidate(s, found[k].at) == Some(found[k]));
        assert(found[k].end <= found[l].at);
        lemma_prefix_bytes_increase(s, found[k].at, found[l].at);
    }
}

proof fn lemma_findings_upto(file: Seq<char>, all: Seq<Seq<char>>, n: int)
    requires
        0 <= n <= all.len(),
    ensures
        forall|k: int|
            0 <= k < findings_upto(file, all, n).len() ==> {
                let f = #[trigger] findings_upto(file, all, n)[k];
                is_of_document(file, all, f) && f.place.line <= n
            },
        forall|k: int, l: int|
            0 <= k < l < findings_upto(file, all, n).len() ==> place_less(
                (#[trigger] findings_upto(file, all, n)[k]).place,
                (#[trigger] findings_upto(file, all, n)[l]).place,
            ),
    decreases n,
{
    if n > 0 {
        lemma_findings_upto(file, all, n - 1);
        if is_scanned(all, n - 1) {
            lemma_line_findings(file, all, n);
            let before = findings_upto(file, all, n - 1);
            let more = line_findings(file, n, all[n - 1]);
            let both = findings_upto(file, all, n);
            assert(both == before + more);
            assert forall|k: int| 0 <= k < both.len() implies {
                let f = #[trigger] both[k];
                is_of_document(file, all, f) && f.place.line <= n
            } by {
                if k < before.len() {
                    assert(both[k] == before[k]);
                } else {
                    assert(both[k] == more[k - before.len()]);
                }
            }
            assert forall|k: int, l: int| 0 <= k < l < both.len() implies place_less(
                (#[trigger] both[k]).place,
                (#[trigger] both[l]).place,
            ) by {
                if l < before.len() {
                    assert(both[k] == before[k] && both[l] == before[l]);
                } else if k >= before.len() {
                    assert(both[k] == more[k - before.len()]);
                    assert(both[l] == more[l - before.len()]);
                } else {
                    assert(both[k] == before[k]);
                    assert(both[l] == more[l - before.len()]);
                }
            }
        }
    }
}

/// Everything found in a document stands in a line outside fenced blocks, at
/// the place and with the URL that are reported, and comes in the order of the
/// places, no two at the same place.
pub proof fn law_findings_of_document(file: Seq<char>, text: Seq<char>)
    ensures
        forall|k: int|
            0 <= k < document_findings(file, text).len() ==> is_of_document(
                file,
                lines(text),
                #[trigger] document_findings(file, text)[k],
            ),
        forall|k: int, l: int|
            0 <= k < l < document_findings(file, text).len() ==> place_less(
                (#[trigger] document_findings(file, text)[k]).place,
                (#[trigger] document_findings(file, text)[l]).place,
            ),
{
    lemma_findings_upto(file, lines(text), lines(text).len() as int);
}

/// No URL holds a line feed.
pub proof fn law_urls_hold_no_line_feed(file: Seq<char>, text: Seq<char>)
    ensures
        forall|k: int|
            0 <= k < document_findings(file, text).len() ==> lacks(
                (#[trigger] document_findings(file, text)[k]).url,
                '\n',
            ),
{
    let found = document_findings(file, text);
    let all = lines(text);
    law_findings_of_document(file, text);
    lemma_lines_hold_no_line_feed(text);
    assert forall|k: int| 0 <= k < found.len() implies lacks((#[trigger] found[k]).url, '\n') by {
        assert(is_of_document(file, all, found[k]));
        let n = found[k].place.line - 1;
        let url = found[k].url;
        let (a, b) = choose|a: int, b: int|
            0 <= a <= b <= all[n].len() && url == #[trigger] all[n].subrange(a, b);
        assert forall|i: int| 0 <= i < url.len() implies #[trigger] url[i] != '\n' by {
            assert(url[i] == all[n][a + i]);
        }
    }
}

/// Every finding is reported once, as a link or as malformed, unless it is out
/// of scope; and nothing else is reported.
pub proof fn law_findings_are_reported(found: Seq<Finding>)
    ensures
        forall|k: int|
            0 <= k < found.len() && (#[trigger] found[k]).verdict == Verdict::Link
                ==> extraction(found).occurrences.contains(
                LinkModel { url: found[k].url, place: found[k].place },
            ),
        forall|k: int|
            0 <= k < found.len() && (#[trigger] found[k]).verdict is Malformed
                ==> extraction(found).malformed.contains(
                MalformedModel {
                    url: found[k].url,
                    problem: found[k].verdict->Malformed_0,
                    place: found[k].place,
                },
            ),
        forall|link: LinkModel| #[trigger]
            extraction(found).occurrences.contains(link) ==> exists|k: int|
                0 <= k < found.len() && (#[trigger] found[k]).verdict == Verdict::Link
                    && found[k].url == link.url && found[k].place == link.place,
        forall|m: MalformedModel| #[trigger]
            extraction(found).malformed.contains(m) ==> exists|k: int|
                0 <= k < found.len() && (#[trigger] found[k]).verdict == Verdict::Malformed(
                    m.problem,
                ) && found[k].url == m.url && found[k].place == m.place,
        extraction(found).occurrences.len() + extraction(found).malformed.len() + skipped(found)
            == found.len(),
    decreases found.len(),
{
    if found.len() > 0 {
        let rest = found.drop_last();
        let last = found.last();
        law_findings_are_reported(rest);
        let o = links_of(found);
        let m = malformed_of(found);
        assert forall|k: int|
            0 <= k < found.len() && (#[trigger] found[k]).verdict == Verdict::Link implies o.contains(
            LinkModel { url: found[k].url, place: found[k].place },
        ) by {
            let link = LinkModel { url: found[k].url, place: found[k].place };
            if k < rest.len() {
                assert(rest[k].verdict == Verdict::Link);
                assert(extraction(rest).occurrences.contains(link));
                let i = links_of(rest).index_of(link);
                assert(o[i] == link);
            } else {
                assert(o.last() == link);
            }
        }
        assert forall|k: int|
            0 <= k < found.len() && (#[trigger] found[k]).verdict is Malformed implies m.contains(
            MalformedModel {
                url: found[k].url,
                problem: found[k].verdict->Malformed_0,
                place: found[k].place,
            },
        ) by {
            let problem = found[k].verdict->Malformed_0;
            let bad = MalformedModel { url: found[k].url, problem, place: found[k].place };
            if k < rest.len() {
                assert(rest[k].verdict is Malformed);
                assert(extraction(rest).malformed.contains(bad));
                let i = malformed_of(rest).index_of(bad);
                assert(m[i] == bad);
            } else {
                assert(m.last() == bad);
            }
        }
        assert forall|link: LinkModel| #[trigger] o.contains(link) implies exists|k: int|
            0 <= k < found.len() && (#[trigger] found[k]).verdict == Verdict::Link && found[k].url
                == link.url && found[k].place == link.place by {
            let i = o.index_of(link);
            if i < links_of(rest).len() {
                assert(links_of(rest)[i] == link);
                assert(extraction(rest).occurrences.contains(link));
                let k = choose|k: int|
                    0 <= k < rest.len() && (#[trigger] rest[k]).verdict == Verdict::Link
                        && rest[k].url == link.url && rest[k].place == link.place;
                assert(found[k] == rest[k]);
            } else {
                assert(found[found.len() - 1].url == link.url);
            }
        }
        assert forall|bad: MalformedModel| #[trigger] m.contains(bad) implies exists|k: int|
            0 <= k < found.len() && (#[trigger] found[k]).verdict == Verdict::Malformed(bad.problem)
                && found[k].url == bad.url && found[k].place == bad.place by {
            let i = m.index_of(bad);
            if i < malformed_of(rest).len() {
                assert(malformed_of(rest)[i] == bad);
                assert(extraction(rest).malformed.contains(bad));
                let k = choose|k: int|
                    0 <= k < rest.len() && (#[trigger] rest[k]).verdict == Verdict::Malformed(
                        bad.problem,
                    ) && rest[k].url == bad.url && rest[k].place == bad.place;
                assert(found[k] == rest[k]);
            } else {
                assert(found[found.len() - 1].url == bad.url);
            }
        }
    }
}

/// How many of `found` are out of scope.
pub open spec fn skipped(found: Seq<Finding>) -> nat
    decreases found.len(),
{
    if found.len() == 0 {
        0
    } else if found.last().verdict == Verdict::Skipped {
        skipped(found.drop_last()) + 1
    } else {
        skipped(found.drop_last())
    }
}

/// Only links are checked: each URL to check starts with `http://` or
/// `https://` and has a host, and none is checked twice.
pub proof fn law_only_links_are_checked(file: Seq<char>, text: Seq<char>)
    ensures
        ({
            let urls = distinct(
                urls_of(extraction(document_findings(file, text)).occurrences),
            );
            &&& urls.no_duplicates()
            &&& forall|i: int| 0 <= i < urls.len() ==> verdict(#[trigger] urls[i]) == Verdict::Link
        }),
{
    let found = document_findings(file, text);
    let links = extraction(found).occurrences;
    let all = urls_of(links);
    let urls = distinct(all);
    law_distinct(all);
    law_findings_of_document(file, text);
    law_findings_are_reported(found);
    assert forall|i: int| 0 <= i < urls.len() implies verdict(#[trigger] urls[i])
        == Verdict::Link by {
        assert(urls.contains(urls[i]));
        let k = all.index_of(urls[i]);
        assert(all[k] == links[k].url);
        assert(links.contains(links[k]));
        let j = choose|j: int|
            0 <= j < found.len() && (#[trigger] found[j]).verdict == Verdict::Link && found[j].url
                == links[k].url && found[j].place == links[k].place;
        assert(is_of_document(file, lines(text), found[j]));
    }
}

/// What stands in fenced blocks does not matter: two documents with the same
/// lines outside them, and fences at the same lines, have the same findings.
pub proof fn law_fenced_text_does_not_matter(file: Seq<char>, a: Seq<char>, b: Seq<char>)
    requires
        lines(a).len() == lines(b).len(),
        forall|k: int|
            0 <= k < lines(a).len() ==> is_fence(#[trigger] lines(a)[k]) == is_fence(lines(b)[k]),
        forall|k: int|
            0 <= k < lines(a).len() && is_scanned(lines(a), k) ==> #[trigger] lines(a)[k]
                == lines(b)[k],
    ensures
        document_findings(file, a) == document_findings(file, b),
{
    lemma_fenced_text(file, lines(a), lines(b), lines(a).len() as int);
}

proof fn lemma_fenced_text(file: Seq<char>, a: Seq<Seq<char>>, b: Seq<Seq<char>>, n: int)
    requires
        0 <= n <= a.len(),
        a.len() == b.len(),
        forall|k: int| 0 <= k < a.len() ==> is_fence(#[trigger] a[k]) == is_fence(b[k]),
        forall|k: int| 0 <= k < a.len() && is_scanned(a, k) ==> #[trigger] a[k] == b[k],
    ensures
        fence_open(a, n) == fence_open(b, n),
        findings_upto(file, a, n) == findings_upto(file, b, n),
    decreases n,
{
    if n > 0 {
        lemma_fenced_text(file, a, b, n - 1);
        assert(is_fence(a[n - 1]) == is_fence(b[n - 1]));
    }
}

proof fn lemma_findings_contain(
    file: Seq<char>,
    all: Seq<Seq<char>>,
    n: int,
    k: int,
    j: int,
)
    requires
        0 <= k < n <= all.len(),
        is_scanned(all, k),
        0 <= j < candidates(all[k], 0, false).len(),
    ensures
        findings_upto(file, all, n).contains(
            finding(file, k + 1, all[k], candidates(all[k], 0, false)[j]),
        ),
    decreases n,
{
    let f = finding(file, k + 1, all[k], candidates(all[k], 0, false)[j]);
    let before = findings_upto(file, all, n - 1);
    if k == n - 1 {
        let more = line_findings(file, n, all[n - 1]);
        assert(more[j] == f);
        assert(findings_upto(file, all, n)[before.len() + j] == f);
    } else {
        lemma_findings_contain(file, all, n - 1, k, j);
        let i = before.index_of(f);
        assert(findings_upto(file, all, n)[i] == f);
    }
}

/// Every link of a line outside fenced blocks is found: where its form and its
/// URL are in order, it is among those to check.
pub proof fn law_links_of_lines_are_found(file: Seq<char>, text: Seq<char>, k: int, j: int)
    requires
        0 <= k < lines(text).len(),
        is_scanned(lines(text), k),
        0 <= j < candidates(lines(text)[k], 0, false).len(),
    ensures
        ({
            let line = lines(text)[k];
            let c = candidates(line, 0, false)[j];
            let place = Place { file, line: k + 1, column: column(line, c.at) };
            let found = document_findings(file, text);
            &&& found.contains(finding(file, k + 1, line, c))
            &&& c.problem is None && verdict(c.url) == Verdict::Link
                ==> extraction(found).occurrences.contains(LinkModel { url: c.url, place })
            &&& c.problem matches Some(problem) ==> extraction(found).malformed.contains(
                MalformedModel { url: c.url, problem, place },
            )
        }),
{
    let all = lines(text);
    let c = candidates(all[k], 0, false)[j];
    let f = finding(file, k + 1, all[k], c);
    let found = document_findings(file, text);
    lemma_findings_contain(file, all, all.len() as int, k, j);
    law_findings_are_reported(found);
    let i = found.index_of(f);
    assert(found[i] == f);
}

} // verus!
