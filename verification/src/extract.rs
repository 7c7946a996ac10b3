//! Finding the links of a Markdown document.
//!
//! The document is scanned line by line. Fenced blocks are passed over.
use vstd::prelude::*;
use vstd::utf8::encode_utf8;

use crate::scan::{candidate, candidates, lemma_candidate, read_link, Candidate};
use crate::text::{
    chars_of, lemma_lines_len, lemma_prefix_bytes, lemma_prefix_bytes_increase, lines, matches_at,
    skip_space, skip_whitespace, split_lines, stands_at, views,
};
use crate::urls::{gives_no_host, verdict, verdict_of, Verdict};

verus! {

/// Where a link stands: the file, the line, counted from 1, and the column,
/// counted in bytes from 1.
#[derive(Debug, PartialEq, Eq)]
pub struct Location {
    pub file: String,
    pub line: usize,
    pub column: usize,
}

/// A link to check, and where it was found.
pub struct Occurrence {
    pub url: String,
    pub location: Location,
}

/// What is wrong with a malformed link.
#[derive(Clone, Copy, Debug, PartialEq, Eq, Structural)]
pub enum Problem {
    EmptyUrl,
    InvalidUrl,
    MissingHost,
    UnmatchedBrackets,
    UnbalancedTitle,
}

/// A malformed link, and where it was found.
pub struct Malformed {
    pub url: String,
    pub problem: Problem,
    pub location: Location,
}

/// The links of a document.
pub struct Extraction {
    pub occurrences: Vec<Occurrence>,
    pub malformed: Vec<Malformed>,
}

/// The model of a [`Location`].
#[verifier::ext_equal]
pub struct Place {
    pub file: Seq<char>,
    pub line: int,
    pub column: int,
}

/// The model of an [`Occurrence`].
#[verifier::ext_equal]
pub struct LinkModel {
    pub url: Seq<char>,
    pub place: Place,
}

/// The model of a [`Malformed`].
#[verifier::ext_equal]
pub struct MalformedModel {
    pub url: Seq<char>,
    pub problem: Problem,
    pub place: Place,
}

/// The model of an [`Extraction`].
#[verifier::ext_equal]
pub struct ExtractionModel {
    pub occurrences: Seq<LinkModel>,
    pub malformed: Seq<MalformedModel>,
}

impl View for Location {
    type V = Place;

    open spec fn view(&self) -> Place {
        Place { file: self.file@, line: self.line as int, column: self.column as int }
    }
}

impl View for Occurrence {
    type V = LinkModel;

    open spec fn view(&self) -> LinkModel {
        LinkModel { url: self.url@, place: self.location@ }
    }
}

impl View for Malformed {
    type V = MalformedModel;

    open spec fn view(&self) -> MalformedModel {
        MalformedModel { url: self.url@, problem: self.problem, place: self.location@ }
    }
}

impl View for Extraction {
    type V = ExtractionModel;

    open spec fn view(&self) -> ExtractionModel {
        ExtractionModel {
            occurrences: views(self.occurrences@),
            malformed: views(self.malformed@),
        }
    }
}

impl Clone for Location {
    fn clone(&self) -> (r: Self)
        ensures
            r == *self,
    {
        Location { file: self.file.clone(), line: self.line, column: self.column }
    }
}

impl Clone for Occurrence {
    fn clone(&self) -> (r: Self)
        ensures
            r == *self,
    {
        Occurrence { url: self.url.clone(), location: self.location.clone() }
    }
}

impl Clone for Malformed {
    fn clone(&self) -> (r: Self)
        ensures
            r == *self,
    {
        Malformed {
            url: self.url.clone(),
            problem: self.problem,
            location: self.location.clone(),
        }
    }
}

impl Clone for Extraction {
    fn clone(&self) -> (r: Self)
        ensures
            r@ == self@,
    {
        let r = Extraction {
            occurrences: self.occurrences.clone(),
            malformed: self.malformed.clone(),
        };
        assert(r.occurrences@ =~= self.occurrences@);
        assert(r.malformed@ =~= self.malformed@);
        r
    }
}

/// The column of position `at` of a line: 1 more than the bytes before it.
pub open spec fn column(s: Seq<char>, at: int) -> int {
    1int + encode_utf8(s.take(at)).len()
}

/// A finding: a link of the document with its place and the verdict on it.
#[verifier::ext_equal]
pub struct Finding {
    pub url: Seq<char>,
    pub verdict: Verdict,
    pub place: Place,
}

/// The finding that candidate `c` of line number `line` makes.
pub open spec fn finding(file: Seq<char>, line: int, s: Seq<char>, c: Candidate) -> Finding {
    Finding {
        url: c.url,
        verdict: match c.problem {
            Some(problem) => Verdict::Malformed(problem),
            None => verdict(c.url),
        },
        place: Place { file, line, column: column(s, c.at) },
    }
}

/// The findings that candidates of line number `line` make.
pub open spec fn findings(file: Seq<char>, line: int, s: Seq<char>, found: Seq<Candidate>) -> Seq<
    Finding,
> {
    Seq::new(found.len(), |k: int| finding(file, line, s, found[k]))
}

/// The findings of a line.
pub open spec fn line_findings(file: Seq<char>, line: int, s: Seq<char>) -> Seq<Finding> {
    findings(file, line, s, candidates(s, 0, false))
}

/// A line that opens or closes a fenced block: the first characters other than
/// white space are three backticks or three tildes.
pub open spec fn is_fence(s: Seq<char>) -> bool {
    let start = skip_space(s, 0);
    stands_at(s, start, "```"@) || stands_at(s, start, "~~~"@)
}

/// A fenced block is open after the first `n` of `all`.
pub open spec fn fence_open(all: Seq<Seq<char>>, n: int) -> bool
    decreases n,
{
    if n <= 0 {
        false
    } else {
        is_fence(all[n - 1]) != fence_open(all, n - 1)
    }
}

/// Line `k` of `all`, counted from 0, is scanned for links.
pub open spec fn is_scanned(all: Seq<Seq<char>>, k: int) -> bool {
    !is_fence(all[k]) && !fence_open(all, k)
}

/// The findings of the first `n` of `all`.
pub open spec fn findings_upto(file: Seq<char>, all: Seq<Seq<char>>, n: int) -> Seq<Finding>
    decreases n,
{
    if n <= 0 {
        seq![]
    } else if is_scanned(all, n - 1) {
        findings_upto(file, all, n - 1) + line_findings(file, n, all[n - 1])
    } else {
        findings_upto(file, all, n - 1)
    }
}

/// The findings of a document.
pub open spec fn document_findings(file: Seq<char>, text: Seq<char>) -> Seq<Finding> {
    findings_upto(file, lines(text), lines(text).len() as int)
}

/// The links among `found`.
pub open spec fn links_of(found: Seq<Finding>) -> Seq<LinkModel>
    decreases found.len(),
{
    if found.len() == 0 {
        seq![]
    } else {
        let before = links_of(found.drop_last());
        let last = found.last();
        if last.verdict == Verdict::Link {
            before.push(LinkModel { url: last.url, place: last.place })
        } else {
            before
        }
    }
}

/// The malformed links among `found`.
pub open spec fn malformed_of(found: Seq<Finding>) -> Seq<MalformedModel>
    decreases found.len(),
{
    if found.len() == 0 {
        seq![]
    } else {
        let before = malformed_of(found.drop_last());
        let last = found.last();
        match last.verdict {
            Verdict::Malformed(problem) => before.push(
                MalformedModel { url: last.url, problem, place: last.place },
            ),
            _ => before,
        }
    }
}

/// The extraction that reports `found` after what `base` holds.
pub open spec fn extended(base: ExtractionModel, found: Seq<Finding>) -> ExtractionModel {
    ExtractionModel {
        occurrences: base.occurrences + links_of(found),
        malformed: base.malformed + malformed_of(found),
    }
}

/// The extraction that reports `found`.
pub open spec fn extraction(found: Seq<Finding>) -> ExtractionModel {
    ExtractionModel { occurrences: links_of(found), malformed: malformed_of(found) }
}

proof fn lemma_extended_push(base: ExtractionModel, found: Seq<Finding>, f: Finding)
    ensures
        extended(base, found.push(f)) == extended(extended(base, found), seq![f]),
{
    let one = seq![f];
    assert(found.push(f).drop_last() == found);
    assert(one.drop_last() == Seq::<Finding>::empty());
    reveal_with_fuel(links_of, 2);
    reveal_with_fuel(malformed_of, 2);
    assert(extended(base, found.push(f)) =~= extended(extended(base, found), one));
}

proof fn lemma_extended_append(base: ExtractionModel, a: Seq<Finding>, b: Seq<Finding>)
    ensures
        extended(base, a + b) == extended(extended(base, a), b),
    decreases b.len(),
{
    if b.len() == 0 {
        assert(a + b == a);
        assert(extended(base, a) =~= extended(extended(base, a), b));
    } else {
        let c = b.drop_last();
        lemma_extended_append(base, a, c);
        lemma_extended_push(base, a + c, b.last());
        lemma_extended_push(extended(base, a), c, b.last());
        assert((a + c).push(b.last()) == a + b);
        assert(c.push(b.last()) == b);
    }
}

/// No link in `e` is an HTTP(S) prefix without a host behind it.
pub open spec fn hosts_given(e: ExtractionModel) -> bool {
    forall|k: int| 0 <= k < e.occurrences.len() ==> !gives_no_host(#[trigger] e.occurrences[k].url)
}

/// Adds a link to check.
fn push_occurrence(file: &str, line: usize, column: usize, url: String, out: &mut Extraction)
    ensures
        final(out)@ == (ExtractionModel {
            occurrences: old(out)@.occurrences.push(
                LinkModel {
                    url: url@,
                    place: Place { file: file@, line: line as int, column: column as int },
                },
            ),
            malformed: old(out)@.malformed,
        }),
{
    let occurrence = Occurrence {
        url,
        location: Location { file: file.to_owned(), line, column },
    };
    out.occurrences.push(occurrence);
    assert(out@.occurrences =~= old(out)@.occurrences.push(occurrence@));
}

/// Adds a malformed link.
fn push_malformed(
    file: &str,
    line: usize,
    column: usize,
    url: String,
    problem: Problem,
    out: &mut Extraction,
)
    ensures
        final(out)@ == (ExtractionModel {
            occurrences: old(out)@.occurrences,
            malformed: old(out)@.malformed.push(
                MalformedModel {
                    url: url@,
                    problem,
                    place: Place { file: file@, line: line as int, column: column as int },
                },
            ),
        }),
{
    let malformed = Malformed {
        url,
        problem,
        location: Location { file: file.to_owned(), line, column },
    };
    out.malformed.push(malformed);
    assert(out@.malformed =~= old(out)@.malformed.push(malformed@));
}

/// Reports a link target as the verdict on it says.
pub fn classify(file: &str, line: usize, column: usize, url: String, out: &mut Extraction)
    ensures
        final(out)@ == extended(
            old(out)@,
            seq![
                Finding {
                    url: url@,
                    verdict: verdict(url@),
                    place: Place { file: file@, line: line as int, column: column as int },
                },
            ],
        ),
        hosts_given(old(out)@) ==> hosts_given(final(out)@),
{
    let ghost f = Finding {
        url: url@,
        verdict: verdict(url@),
        place: Place { file: file@, line: line as int, column: column as int },
    };
    proof {
        reveal_with_fuel(links_of, 2);
        reveal_with_fuel(malformed_of, 2);
        assert(seq![f].drop_last() == Seq::<Finding>::empty());
    }
    match verdict_of(url.as_str()) {
        Verdict::Link => push_occurrence(file, line, column, url, out),
        Verdict::Malformed(problem) => push_malformed(file, line, column, url, problem, out),
        Verdict::Skipped => {},
    }
    assert(out@ =~= extended(old(out)@, seq![f]));
}

/// The column of position `at` of a line.
fn column_of(chars: &Vec<char>, at: usize) -> (c: usize)
    requires
        at < chars@.len(),
        encode_utf8(chars@).len() <= usize::MAX,
    ensures
        c == column(chars@, at as int),
{
    let mut bytes: usize = 0;
    let mut i: usize = 0;
    assert(chars@.take(0) == Seq::<char>::empty());
    assert(chars@.take(chars@.len() as int) == chars@);
    while i < at
        invariant
            i <= at < chars@.len(),
            encode_utf8(chars@).len() <= usize::MAX,
            chars@.take(chars@.len() as int) == chars@,
            bytes == encode_utf8(chars@.take(i as int)).len(),
        decreases at - i,
    {
        let code = chars[i] as u32;
        let width: usize = if code <= 0x7f {
            1
        } else if code <= 0x7ff {
            2
        } else if code <= 0xffff {
            3
        } else {
            4
        };
        proof {
            lemma_prefix_bytes(chars@, i as int);
            lemma_prefix_bytes_increase(chars@, i + 1, chars@.len() as int);
        }
        bytes += width;
        i += 1;
    }
    proof {
        lemma_prefix_bytes_increase(chars@, at as int, chars@.len() as int);
    }
    bytes + 1
}

/// Reports the links of one line.
pub fn process_line(file: &str, line: usize, text: &str, out: &mut Extraction)
    ensures
        final(out)@ == extended(old(out)@, line_findings(file@, line as int, text@)),
        hosts_given(old(out)@) ==> hosts_given(final(out)@),
{
    let bytes = text.as_bytes().len();
    let chars = chars_of(text);
    let ghost s = chars@;
    let ghost base = out@;
    let ghost mut done: Seq<Candidate> = seq![];
    let mut idx: usize = 0;
    let mut in_code = false;
    proof {
        assert(findings(file@, line as int, s, done) =~= seq![]);
        assert(extended(base, seq![]) =~= base);
    }
    while idx < chars.len()
        invariant
            s == chars@,
            idx <= s.len(),
            encode_utf8(s).len() == bytes,
            done + candidates(s, idx as int, in_code) == candidates(s, 0, false),
            out@ == extended(base, findings(file@, line as int, s, done)),
            hosts_given(base) ==> hosts_given(out@),
        decreases s.len() - idx,
    {
        let ghost before = out@;
        if chars[idx] == '`' {
            in_code = !in_code;
            idx += 1;
            continue;
        }
        if !in_code {
            if let Some((end, url, problem)) = read_link(&chars, idx) {
                let column = column_of(&chars, idx);
                let ghost found = candidate(s, idx as int)->0;
                let ghost f = finding(file@, line as int, s, found);
                match problem {
                    Some(p) => {
                        push_malformed(file, line, column, url, p, out);
                        proof {
                            reveal_with_fuel(links_of, 2);
                            reveal_with_fuel(malformed_of, 2);
                            assert(seq![f].drop_last() == Seq::<Finding>::empty());
                            assert(out@ =~= extended(before, seq![f]));
                        }
                    },
                    None => classify(file, line, column, url, out),
                }
                proof {
                    lemma_candidate(s, idx as int);
                    let old_done = done;
                    done = done.push(found);
                    assert(findings(file@, line as int, s, done) =~= findings(
                        file@,
                        line as int,
                        s,
                        old_done,
                    ).push(f));
                    lemma_extended_push(base, findings(file@, line as int, s, old_done), f);
                    assert(old_done + (seq![found] + candidates(s, end as int, in_code)) =~= done
                        + candidates(s, end as int, in_code));
                }
                idx = end;
                continue;
            }
        }
        idx += 1;
    }
    proof {
        assert(done + candidates(s, idx as int, in_code) =~= done);
    }
}

/// Whether a line opens or closes a fenced block.
pub fn is_fence_line(chars: &Vec<char>) -> (r: bool)
    ensures
        r == is_fence(chars@),
{
    let start = skip_whitespace(chars, 0);
    matches_at(chars, start, "```") || matches_at(chars, start, "~~~")
}

/// The links of the document `text`, reported as of `file`.
pub fn extract(file: &str, text: &str) -> (r: Extraction)
    ensures
        r@ == extraction(document_findings(file@, text@)),
        hosts_given(r@),
{
    let mut result = Extraction { occurrences: Vec::new(), malformed: Vec::new() };
    let all = split_lines(text);
    let ghost ls = lines(text@);
    let ghost empty = result@;
    proof {
        lemma_lines_len(text@);
        assert(ls.len() == all@.len());
        assert(result@ =~= extraction(seq![]));
    }
    let mut in_fence = false;
    let mut k: usize = 0;
    while k < all.len()
        invariant
            k <= all@.len(),
            ls == views(all@),
            ls.len() == all@.len(),
            in_fence == fence_open(ls, k as int),
            result@ == extraction(findings_upto(file@, ls, k as int)),
            hosts_given(result@),
        decreases all@.len() - k,
    {
        let line = all[k].as_str();
        assert(line@ == ls[k as int]);
        let ghost before = findings_upto(file@, ls, k as int);
        if is_fence_line(&chars_of(line)) {
            in_fence = !in_fence;
        } else if !in_fence {
            let ghost f = line_findings(file@, k + 1, line@);
            process_line(file, k + 1, line, &mut result);
            proof {
                lemma_extended_append(extraction(seq![]), before, f);
                assert(extended(extraction(seq![]), before) =~= extraction(before));
                assert(extended(extraction(seq![]), before + f) =~= extraction(before + f));
            }
        }
        k += 1;
    }
    result
}

/// `items` without those that occurred before.
pub open spec fn distinct(items: Seq<Seq<char>>) -> Seq<Seq<char>>
    decreases items.len(),
{
    if items.len() == 0 {
        seq![]
    } else {
        let before = distinct(items.drop_last());
        if items.drop_last().contains(items.last()) {
            before
        } else {
            before.push(items.last())
        }
    }
}

/// The URLs of links.
pub open spec fn urls_of(links: Seq<LinkModel>) -> Seq<Seq<char>> {
    Seq::new(links.len(), |i: int| links[i].url)
}

/// Every item is kept once, and no other.
pub proof fn law_distinct(items: Seq<Seq<char>>)
    ensures
        distinct(items).no_duplicates(),
        forall|u: Seq<char>| #[trigger] distinct(items).contains(u) <==> items.contains(u),
    decreases items.len(),
{
    if items.len() > 0 {
        let rest = items.drop_last();
        let last = items.last();
        law_distinct(rest);
        assert(items == rest.push(last));
        assert forall|u: Seq<char>| #[trigger] distinct(items).contains(u) <==> items.contains(u) by {
            assert(distinct(rest).contains(u) <==> rest.contains(u));
            if rest.contains(u) {
                let i = rest.index_of(u);
                assert(items[i] == u);
                let j = distinct(rest).index_of(u);
                assert(distinct(items)[j] == u);
            }
            if u == last {
                assert(items[items.len() - 1] == u);
                if !rest.contains(last) {
                    assert(distinct(items).last() == u);
                }
            }
            if items.contains(u) {
                let i = items.index_of(u);
                if i < rest.len() {
                    assert(rest[i] == u);
                }
            }
            if distinct(items).contains(u) {
                let j = distinct(items).index_of(u);
                if j < distinct(rest).len() {
                    assert(distinct(rest)[j] == u);
                }
            }
        }
        assert(distinct(rest).contains(last) <==> rest.contains(last));
    }
}

/// Repeating an item anywhere later changes nothing: items are kept in the
/// order in which they first occur.
pub proof fn law_distinct_extends(items: Seq<Seq<char>>, more: Seq<Seq<char>>)
    ensures
        distinct(items).is_prefix_of(distinct(items + more)),
        (forall|i: int| 0 <= i < more.len() ==> items.contains(#[trigger] more[i])) ==> distinct(
            items + more,
        ) == distinct(items),
    decreases more.len(),
{
    if more.len() == 0 {
        assert(items + more == items);
    } else {
        let shorter = more.drop_last();
        law_distinct_extends(items, shorter);
        assert((items + more).drop_last() == items + shorter);
        assert((items + more).last() == more.last());
        if forall|i: int| 0 <= i < more.len() ==> items.contains(#[trigger] more[i]) {
            assert forall|i: int| 0 <= i < shorter.len() implies items.contains(
                #[trigger] shorter[i],
            ) by {
                assert(items.contains(more[i]));
            }
            assert(items.contains(more[more.len() - 1]));
            let k = items.index_of(more.last());
            assert((items + shorter)[k] == more.last());
        }
    }
}

/// The URLs of `occurrences`, each once, in the order in which they first occur.
pub fn unique_urls(occurrences: &[Occurrence]) -> (r: Vec<String>)
    ensures
        views(r@) == distinct(urls_of(views(occurrences@))),
{
    let ghost all = urls_of(views(occurrences@));
    let mut result: Vec<String> = Vec::new();
    let mut k: usize = 0;
    assert(all.take(0) == Seq::<Seq<char>>::empty());
    assert(views(result@) =~= seq![]);
    while k < occurrences.len()
        invariant
            k <= occurrences@.len(),
            all == urls_of(views(occurrences@)),
            views(result@) == distinct(all.take(k as int)),
        decreases occurrences@.len() - k,
    {
        let url = &occurrences[k].url;
        let ghost before = all.take(k as int);
        let mut dup = false;
        let mut i: usize = 0;
        while i < result.len() && !dup
            invariant
                i <= result@.len(),
                dup <==> exists|j: int| 0 <= j < i && result@[j]@ == url@,
            decreases result@.len() - i + (if dup { 0int } else { 1int }),
        {
            if result[i] == *url {
                dup = true;
            }
            i += 1;
        }
        proof {
            law_distinct(before);
            assert(all[k as int] == url@);
            assert(all.take(k + 1).drop_last() == before);
            assert(distinct(before).contains(url@) <==> before.contains(url@));
            if dup {
                let j = choose|j: int| 0 <= j < i && result@[j]@ == url@;
                assert(distinct(before)[j] == url@);
            } else if distinct(before).contains(url@) {
                let j = distinct(before).index_of(url@);
                assert(result@[j]@ == url@);
            }
        }
        if !dup {
            let ghost old_result = result@;
            result.push(url.clone());
            assert(views(result@) =~= views(old_result).push(url@));
        }
        k += 1;
    }
    assert(all.take(k as int) == all);
    result
}

} // verus!
