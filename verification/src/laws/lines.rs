//! Fenced blocks, and what is found in the lines outside them.
use vstd::prelude::*;

use crate::extract::{
    column, distinct, document_findings, extended, extraction, fence_open, findings_upto,
    hosts_given, is_fence, is_scanned, line_findings, links_of, malformed_of, urls_of,
    ExtractionModel, Finding, LinkModel, MalformedModel,
};
use crate::laws::document::law_findings_of_document;
use crate::laws::text::{blank, law_searches, law_stands_at};
use crate::laws::urls::{law_http_targets, prefix};
use crate::order::place_less;
use crate::scan::candidates;
use crate::text::{lemma_skip_space, lines, skip_space, stands_at};
use crate::urls::{verdict, Verdict};

verus! {

/// Behind white space, or at the start of the line, stand three times `mark`.
pub open spec fn starts_with_three(s: Seq<char>, mark: char) -> bool {
    exists|k: int|
        0 <= k && k + 3 <= s.len() && (forall|i: int| 0 <= i < k ==> blank(#[trigger] s[i]))
            && #[trigger] s[k] == mark && s[k + 1] == mark && s[k + 2] == mark
}

/// A line is a fence exactly where three backticks or three tildes start it, with
/// nothing but white space before them. Whatever follows them, such as the name
/// of a language, does not matter.
pub proof fn law_fences(s: Seq<char>)
    ensures
        is_fence(s) <==> starts_with_three(s, '`') || starts_with_three(s, '~'),
{
    reveal_strlit("```");
    reveal_strlit("~~~");
    lemma_skip_space(s, 0);
    let start = skip_space(s, 0);
    law_searches(s, ' ', 0, start);
    law_stands_at(s, start, "```"@);
    law_stands_at(s, start, "~~~"@);
    assert("```"@ =~= seq!['`', '`', '`']);
    assert("~~~"@ =~= seq!['~', '~', '~']);
    if is_fence(s) {
        if stands_at(s, start, "```"@) {
            assert(s[start + 0] == "```"@[0] && s[start + 1] == "```"@[1] && s[start + 2]
                == "```"@[2]);
            assert(starts_with_three(s, '`'));
        } else {
            assert(s[start + 0] == "~~~"@[0] && s[start + 1] == "~~~"@[1] && s[start + 2]
                == "~~~"@[2]);
            assert(starts_with_three(s, '~'));
        }
    }
    if starts_with_three(s, '`') {
        let k = choose|k: int|
            0 <= k && k + 3 <= s.len() && (forall|i: int| 0 <= i < k ==> blank(#[trigger] s[i]))
                && #[trigger] s[k] == '`' && s[k + 1] == '`' && s[k + 2] == '`';
        law_searches(s, ' ', 0, k);
        assert(start == k);
        assert forall|i: int| 0 <= i < 3 implies s[start + i] == #[trigger] "```"@[i] by {}
    }
    if starts_with_three(s, '~') {
        let k = choose|k: int|
            0 <= k && k + 3 <= s.len() && (forall|i: int| 0 <= i < k ==> blank(#[trigger] s[i]))
                && #[trigger] s[k] == '~' && s[k + 1] == '~' && s[k + 2] == '~';
        law_searches(s, ' ', 0, k);
        assert(start == k);
        assert forall|i: int| 0 <= i < 3 implies s[start + i] == #[trigger] "~~~"@[i] by {}
    }
}

/// White space, three backticks or tildes and any text are a fence.
pub proof fn law_fences_with_text(gap: Seq<char>, text: Seq<char>)
    requires
        forall|i: int| 0 <= i < gap.len() ==> blank(#[trigger] gap[i]),
    ensures
        is_fence(gap + seq!['`', '`', '`'] + text),
        is_fence(gap + seq!['~', '~', '~'] + text),
{
    let a = gap + seq!['`', '`', '`'] + text;
    let b = gap + seq!['~', '~', '~'] + text;
    let k = gap.len() as int;
    assert(forall|i: int| 0 <= i < k ==> #[trigger] a[i] == gap[i]);
    assert(forall|i: int| 0 <= i < k ==> #[trigger] b[i] == gap[i]);
    assert(a[k] == '`' && a[k + 1] == '`' && a[k + 2] == '`');
    assert(b[k] == '~' && b[k + 1] == '~' && b[k + 2] == '~');
    assert(starts_with_three(a, '`'));
    assert(starts_with_three(b, '~'));
    law_fences(a);
    law_fences(b);
}

/// How many of the first `n` lines start with three backticks or tildes.
pub open spec fn fences(all: Seq<Seq<char>>, n: int) -> int
    decreases n,
{
    if n <= 0 {
        0
    } else {
        fences(all, n - 1) + (if starts_with_three(all[n - 1], '`') || starts_with_three(
            all[n - 1],
            '~',
        ) {
            1int
        } else {
            0
        })
    }
}

/// A fence opens a block or closes the open one, and every other line leaves it
/// as it is: a block is open after an odd number of fences. The lines that are
/// read are those that are no fences, with no block open.
pub proof fn law_fences_open_and_close(all: Seq<Seq<char>>, n: int)
    requires
        0 <= n,
    ensures
        fence_open(all, n) <==> fences(all, n) % 2 != 0,
        is_scanned(all, n) <==> fences(all, n) % 2 == 0 && !starts_with_three(all[n], '`')
            && !starts_with_three(all[n], '~'),
    decreases n,
{
    law_fences(all[n]);
    if n > 0 {
        law_fences_open_and_close(all, n - 1);
        law_fences(all[n - 1]);
    }
}

/// The lines are read one by one, each with its number counted from 1.
pub proof fn law_lines_are_read(file: Seq<char>, all: Seq<Seq<char>>, n: int)
    requires
        0 <= n < all.len(),
    ensures
        findings_upto(file, all, 0).len() == 0,
        findings_upto(file, all, n + 1) == (if fences(all, n) % 2 == 0 && !starts_with_three(
            all[n],
            '`',
        ) && !starts_with_three(all[n], '~') {
            findings_upto(file, all, n) + line_findings(file, n + 1, all[n])
        } else {
            findings_upto(file, all, n)
        }),
{
    law_fences_open_and_close(all, n);
}

/// Each link of a line makes a finding, in order: with its URL, the file, the
/// number of the line, the column at which it starts, and what is wrong with its
/// form or else the verdict on its URL.
pub proof fn law_findings_of_line(file: Seq<char>, line: int, s: Seq<char>, k: int)
    requires
        0 <= k < candidates(s, 0, false).len(),
    ensures
        line_findings(file, line, s).len() == candidates(s, 0, false).len(),
        ({
            let c = candidates(s, 0, false)[k];
            let f = line_findings(file, line, s)[k];
            &&& f.url == c.url
            &&& f.place.file == file
            &&& f.place.line == line
            &&& f.place.column == column(s, c.at)
            &&& c.problem matches Some(problem) ==> f.verdict == Verdict::Malformed(problem)
            &&& c.problem is None ==> f.verdict == verdict(c.url)
        }),
{
}

/// A document is read as all its lines.
pub proof fn law_document_is_its_lines(file: Seq<char>, text: Seq<char>)
    ensures
        document_findings(file, text) == findings_upto(file, lines(text), lines(text).len() as int),
{
}

/// Links and malformed links are kept apart, each in the order of the findings,
/// with what was found of them.
pub proof fn law_findings_are_sorted_out(base: ExtractionModel, found: Seq<Finding>, f: Finding)
    ensures
        extraction(seq![]).occurrences.len() == 0 && extraction(seq![]).malformed.len() == 0,
        extraction(found.push(f)).occurrences == (if f.verdict == Verdict::Link {
            extraction(found).occurrences.push(LinkModel { url: f.url, place: f.place })
        } else {
            extraction(found).occurrences
        }),
        extraction(found.push(f)).malformed == (if f.verdict is Malformed {
            extraction(found).malformed.push(
                MalformedModel { url: f.url, problem: f.verdict->Malformed_0, place: f.place },
            )
        } else {
            extraction(found).malformed
        }),
        extended(base, found).occurrences == base.occurrences + extraction(found).occurrences,
        extended(base, found).malformed == base.malformed + extraction(found).malformed,
{
    assert(found.push(f).drop_last() =~= found);
}

/// The links of a document come in the order of their places.
pub proof fn law_links_in_order(file: Seq<char>, text: Seq<char>)
    ensures
        ({
            let links = extraction(document_findings(file, text)).occurrences;
            forall|k: int, l: int|
                0 <= k < l < links.len() ==> place_less(
                    (#[trigger] links[k]).place,
                    (#[trigger] links[l]).place,
                )
        }),
        ({
            let bad = extraction(document_findings(file, text)).malformed;
            forall|k: int, l: int|
                0 <= k < l < bad.len() ==> place_less(
                    (#[trigger] bad[k]).place,
                    (#[trigger] bad[l]).place,
                )
        }),
{
    law_findings_of_document(file, text);
    lemma_order_is_kept(document_findings(file, text));
}

proof fn lemma_order_is_kept(found: Seq<Finding>)
    requires
        forall|k: int, l: int|
            0 <= k < l < found.len() ==> place_less(
                (#[trigger] found[k]).place,
                (#[trigger] found[l]).place,
            ),
    ensures
        ({
            let links = links_of(found);
            let bad = malformed_of(found);
            &&& forall|k: int, l: int|
                0 <= k < l < links.len() ==> place_less(
                    (#[trigger] links[k]).place,
                    (#[trigger] links[l]).place,
                )
            &&& forall|k: int, l: int|
                0 <= k < l < bad.len() ==> place_less(
                    (#[trigger] bad[k]).place,
                    (#[trigger] bad[l]).place,
                )
            &&& forall|k: int|
                0 <= k < links.len() ==> exists|i: int|
                    0 <= i < found.len() && (#[trigger] found[i]).place == (#[trigger] links[k]).place
            &&& forall|k: int|
                0 <= k < bad.len() ==> exists|i: int|
                    0 <= i < found.len() && (#[trigger] found[i]).place == (#[trigger] bad[k]).place
        }),
    decreases found.len(),
{
    if found.len() > 0 {
        let rest = found.drop_last();
        let last = found.len() - 1;
        assert forall|k: int, l: int| 0 <= k < l < rest.len() implies place_less(
            (#[trigger] rest[k]).place,
            (#[trigger] rest[l]).place,
        ) by {
            assert(place_less(found[k].place, found[l].place));
        }
        lemma_order_is_kept(rest);
        let links = links_of(found);
        let bad = malformed_of(found);
        let some = links_of(rest);
        let few = malformed_of(rest);
        assert forall|k: int| 0 <= k < links.len() implies exists|i: int|
            0 <= i < found.len() && (#[trigger] found[i]).place == (#[trigger] links[k]).place by {
            if k < some.len() {
                assert(links[k] == some[k]);
                let i = choose|i: int|
                    0 <= i < rest.len() && (#[trigger] rest[i]).place == some[k].place;
                assert(found[i].place == links[k].place);
            } else {
                assert(found[last].place == links[k].place);
            }
        }
        assert forall|k: int| 0 <= k < bad.len() implies exists|i: int|
            0 <= i < found.len() && (#[trigger] found[i]).place == (#[trigger] bad[k]).place by {
            if k < few.len() {
                assert(bad[k] == few[k]);
                let i = choose|i: int|
                    0 <= i < rest.len() && (#[trigger] rest[i]).place == few[k].place;
                assert(found[i].place == bad[k].place);
            } else {
                assert(found[last].place == bad[k].place);
            }
        }
        assert forall|k: int, l: int| 0 <= k < l < links.len() implies place_less(
            (#[trigger] links[k]).place,
            (#[trigger] links[l]).place,
        ) by {
            assert(links[k] == some[k]);
            if l < some.len() {
                assert(links[l] == some[l]);
            } else {
                let i = choose|i: int|
                    0 <= i < rest.len() && (#[trigger] rest[i]).place == some[k].place;
                assert(place_less(found[i].place, found[last].place));
            }
        }
        assert forall|k: int, l: int| 0 <= k < l < bad.len() implies place_less(
            (#[trigger] bad[k]).place,
            (#[trigger] bad[l]).place,
        ) by {
            assert(bad[k] == few[k]);
            if l < few.len() {
                assert(bad[l] == few[l]);
            } else {
                let i = choose|i: int|
                    0 <= i < rest.len() && (#[trigger] rest[i]).place == few[k].place;
                assert(place_less(found[i].place, found[last].place));
            }
        }
    }
}

/// A URL is checked where it first occurs, and not again: one more occurrence
/// adds its URL at the end, unless it occurred before.
pub proof fn law_first_occurrences(links: Seq<LinkModel>, more: LinkModel)
    ensures
        distinct(urls_of(seq![])).len() == 0,
        distinct(urls_of(links.push(more))) == (if exists|i: int|
            0 <= i < links.len() && (#[trigger] links[i]).url == more.url {
            distinct(urls_of(links))
        } else {
            distinct(urls_of(links)).push(more.url)
        }),
{
    let all = urls_of(links.push(more));
    let before = urls_of(links);
    assert(all.drop_last() =~= before);
    assert(all.last() == more.url);
    if before.contains(more.url) {
        let i = before.index_of(more.url);
        assert(links[i].url == more.url);
    }
    if exists|i: int| 0 <= i < links.len() && (#[trigger] links[i]).url == more.url {
        let i = choose|i: int| 0 <= i < links.len() && (#[trigger] links[i]).url == more.url;
        assert(before[i] == more.url);
    }
}

/// No link is a prefix alone, or one with a query or a fragment right behind it.
pub proof fn law_links_have_hosts(e: ExtractionModel, k: int, secure: bool, rest: Seq<char>)
    requires
        hosts_given(e),
        0 <= k < e.occurrences.len(),
        e.occurrences[k].url == prefix(secure) + rest,
    ensures
        rest.len() > 0 && rest[0] != '?' && rest[0] != '#',
{
    law_http_targets(secure, rest, seq![], seq![]);
}

} // verus!
