//! The entries of a report: what they tell, their order and their counts.
use vstd::prelude::*;

use crate::check::{ResultModel, Status};
use crate::extract::{LinkModel, MalformedModel, Place, Problem};
use crate::laws::report::law_failures;
use crate::order::{lemma_place_asymmetric, lemma_text_order, place_less, text_less};
use crate::report::{
    arranged, comes_before, count_kind, entries_for, failures, has_failure, is_3xx, is_failure,
    is_order, is_sorted_form, kind_name, label, left_unfollowed, link_entry, malformed_entry,
    summarizes, EntryModel, Kind, Summary,
};

verus! {

/// The entry for a link that was checked tells the result. One that was not is an
/// error, as it was skipped.
pub proof fn law_entry_of_link(link: LinkModel, by_url: Map<Seq<char>, ResultModel>)
    ensures
        ({
            let e = link_entry(link, by_url);
            let r = by_url[link.url];
            &&& e.url == link.url
            &&& e.place == link.place
            &&& by_url.contains_key(link.url) ==> {
                &&& e.kind == Kind::Okay <==> r.status == Status::Okay
                &&& e.kind == Kind::Broken <==> r.status == Status::Broken
                &&& e.kind == Kind::Redirect <==> r.status == Status::Redirect
                &&& e.kind == Kind::Error <==> r.status == Status::Error
                &&& e.http_status == r.http_status
                &&& e.redirect_chain == r.redirect_chain
                &&& e.redirect_target == r.redirect_target
                &&& e.error == r.error
            }
            &&& !by_url.contains_key(link.url) ==> {
                &&& e.kind == Kind::Error
                &&& e.http_status is None
                &&& e.redirect_chain.len() == 0
                &&& e.redirect_target is None
                &&& e.error == Some("skipped (fail-fast)"@)
            }
        }),
{
}

/// The entry for a malformed link tells what is wrong with it.
pub proof fn law_entry_of_malformed(m: MalformedModel)
    ensures
        ({
            let e = malformed_entry(m);
            &&& e.url == m.url
            &&& e.place == m.place
            &&& e.kind == Kind::Malformed
            &&& e.http_status is None
            &&& e.redirect_chain.len() == 0
            &&& e.redirect_target is None
            &&& m.problem == Problem::EmptyUrl ==> e.error == Some("empty url"@)
            &&& m.problem == Problem::InvalidUrl ==> e.error == Some("bad url"@)
            &&& m.problem == Problem::MissingHost ==> e.error == Some("missing host"@)
            &&& m.problem == Problem::UnmatchedBrackets ==> e.error == Some("unmatched brackets"@)
            &&& m.problem == Problem::UnbalancedTitle ==> e.error == Some("unbalanced title"@)
        }),
        malformed_entry(m).error == Some(label(m.problem)),
{
}

/// The names of the kinds.
pub proof fn law_kind_names()
    ensures
        kind_name(Kind::Okay) == "ok"@,
        kind_name(Kind::Broken) == "broken"@,
        kind_name(Kind::Redirect) == "redirect"@,
        kind_name(Kind::Error) == "error"@,
        kind_name(Kind::Malformed) == "malformed"@,
{
}

/// There is one entry for each link, and then one for each malformed link.
pub proof fn law_entries(
    links: Seq<LinkModel>,
    malformed: Seq<MalformedModel>,
    by_url: Map<Seq<char>, ResultModel>,
    i: int,
)
    ensures
        entries_for(links, malformed, by_url).len() == links.len() + malformed.len(),
        0 <= i < links.len() ==> entries_for(links, malformed, by_url)[i] == link_entry(
            links[i],
            by_url,
        ),
        0 <= i < malformed.len() ==> entries_for(links, malformed, by_url)[links.len() + i]
            == malformed_entry(malformed[i]),
{
}

/// `a` and `b` agree up to `k`, where `a` ends first or has the smaller character.
pub open spec fn parts_at(a: Seq<char>, b: Seq<char>, k: int) -> bool {
    &&& 0 <= k <= a.len()
    &&& k < b.len()
    &&& forall|i: int| 0 <= i < k ==> #[trigger] a[i] == b[i]
    &&& k < a.len() ==> a[k] < b[k]
}

/// Texts are ordered by the code points of their first different characters, and
/// the start of a text comes before it.
pub proof fn law_text_order(a: Seq<char>, b: Seq<char>)
    ensures
        text_less(a, b) <==> exists|k: int| #[trigger] parts_at(a, b, k),
    decreases b.len(),
{
    if a.len() > 0 && b.len() > 0 && a[0] == b[0] {
        let x = a.skip(1);
        let y = b.skip(1);
        law_text_order(x, y);
        if text_less(x, y) {
            let k = choose|k: int| #[trigger] parts_at(x, y, k);
            assert forall|i: int| 0 <= i < k + 1 implies #[trigger] a[i] == b[i] by {
                if i > 0 {
                    assert(x[i - 1] == y[i - 1]);
                }
            }
            assert(k < x.len() ==> a[k + 1] == x[k]);
            assert(b[k + 1] == y[k]);
            assert(parts_at(a, b, k + 1));
        }
        if exists|k: int| #[trigger] parts_at(a, b, k) {
            let k = choose|k: int| #[trigger] parts_at(a, b, k);
            assert(k > 0);
            assert forall|i: int| 0 <= i < k - 1 implies #[trigger] x[i] == y[i] by {
                assert(a[i + 1] == b[i + 1]);
            }
            assert(k < a.len() ==> x[k - 1] == a[k]);
            assert(y[k - 1] == b[k]);
            assert(parts_at(x, y, k - 1));
        }
    } else if b.len() > 0 {
        if text_less(a, b) {
            assert(parts_at(a, b, 0));
        }
        if exists|k: int| #[trigger] parts_at(a, b, k) {
            let k = choose|k: int| #[trigger] parts_at(a, b, k);
            if a.len() > 0 && k > 0 {
                assert(a[0] == b[0]);
            }
        }
    }
}

/// `a` is an earlier place than `b`: in a file whose name comes first, in an
/// earlier line of the same file, or in an earlier column of the same line.
pub open spec fn is_earlier(a: Place, b: Place) -> bool {
    ||| exists|k: int| #[trigger] parts_at(a.file, b.file, k)
    ||| a.file == b.file && a.line < b.line
    ||| a.file == b.file && a.line == b.line && a.column < b.column
}

/// Places are ordered by file, then by line, then by column.
pub proof fn law_place_order(a: Place, b: Place)
    ensures
        place_less(a, b) <==> is_earlier(a, b),
{
    law_text_order(a.file, b.file);
}

/// `sorted` is `items` rearranged as `order` says: earlier places come first, and
/// items at the same place stay in the order given.
pub open spec fn is_arrangement(
    sorted: Seq<EntryModel>,
    items: Seq<EntryModel>,
    order: Seq<int>,
) -> bool {
    &&& sorted.len() == items.len()
    &&& order.len() == items.len()
    &&& order.no_duplicates()
    &&& forall|k: int|
        0 <= k < order.len() ==> 0 <= #[trigger] order[k] < items.len() && sorted[k]
            == items[order[k]]
    &&& forall|a: int, b: int|
        0 <= a < b < sorted.len() ==> is_earlier(
            (#[trigger] sorted[a]).place,
            (#[trigger] sorted[b]).place,
        ) || (sorted[a].place == sorted[b].place && order[a] < order[b])
}

/// Sorting rearranges the entries in that way.
pub proof fn law_sorting(sorted: Seq<EntryModel>, items: Seq<EntryModel>)
    requires
        is_sorted_form(sorted, items),
    ensures
        exists|order: Seq<int>| #[trigger] is_arrangement(sorted, items, order),
{
    let order = choose|order: Seq<int>|
        #[trigger] is_order(items, order) && sorted == arranged(items, order);
    assert forall|a: int, b: int| 0 <= a < order.len() && 0 <= b < order.len() && a
        != b implies order[a] != order[b] by {
        let x = if a < b { a } else { b };
        let y = if a < b { b } else { a };
        assert(comes_before(items, order[x], order[y]));
        lemma_place_asymmetric(items[order[x]].place, items[order[y]].place);
    }
    assert forall|a: int, b: int| 0 <= a < b < sorted.len() implies is_earlier(
        (#[trigger] sorted[a]).place,
        (#[trigger] sorted[b]).place,
    ) || (sorted[a].place == sorted[b].place && order[a] < order[b]) by {
        assert(comes_before(items, order[a], order[b]));
        let p = sorted[a].place;
        let q = sorted[b].place;
        law_place_order(p, q);
        lemma_text_order(p.file, q.file);
        if !place_less(p, q) {
            assert(!place_less(q, p));
            assert(p.file == q.file && p.line == q.line && p.column == q.column);
        }
    }
    assert(is_arrangement(sorted, items, order));
}

proof fn lemma_count_is_filter(entries: Seq<EntryModel>, kind: Kind)
    ensures
        count_kind(entries, kind) == entries.filter(|e: EntryModel| e.kind == kind).len(),
    decreases entries.len(),
{
    reveal(Seq::filter);
    if entries.len() > 0 {
        lemma_count_is_filter(entries.drop_last(), kind);
    }
}

/// A summary counts the entries of each kind.
pub proof fn law_summary(s: Summary, entries: Seq<EntryModel>)
    requires
        summarizes(s, entries),
    ensures
        s.total == entries.len(),
        s.ok == entries.filter(|e: EntryModel| e.kind == Kind::Okay).len(),
        s.broken == entries.filter(|e: EntryModel| e.kind == Kind::Broken).len(),
        s.redirects == entries.filter(|e: EntryModel| e.kind == Kind::Redirect).len(),
        s.errors == entries.filter(|e: EntryModel| e.kind == Kind::Error).len(),
        s.malformed == entries.filter(|e: EntryModel| e.kind == Kind::Malformed).len(),
{
    lemma_count_is_filter(entries, Kind::Okay);
    lemma_count_is_filter(entries, Kind::Broken);
    lemma_count_is_filter(entries, Kind::Redirect);
    lemma_count_is_filter(entries, Kind::Error);
    lemma_count_is_filter(entries, Kind::Malformed);
}

/// A broken link, or a redirect whose own status code is from 300 to 399 and that
/// has no redirects before it.
pub open spec fn is_bad(e: EntryModel) -> bool {
    ||| e.kind == Kind::Broken
    ||| e.kind == Kind::Redirect && e.redirect_chain.len() == 0 && (e.http_status matches Some(code)
        && 300 <= code <= 399)
}

/// A run fails exactly where one of its entries is bad, and its failures are the
/// bad entries, in order.
pub proof fn law_bad_entries_fail(entries: Seq<EntryModel>)
    ensures
        has_failure(entries) <==> exists|i: int| 0 <= i < entries.len() && is_bad(#[trigger] entries[i]),
        failures(entries) == entries.filter(|e: EntryModel| is_bad(e)),
    decreases entries.len(),
{
    reveal(Seq::filter);
    assert forall|e: EntryModel| #[trigger] is_failure(e) <==> is_bad(e) by {}
    if has_failure(entries) {
        let i = choose|i: int| 0 <= i < entries.len() && is_failure(#[trigger] entries[i]);
        assert(is_bad(entries[i]));
    }
    if exists|i: int| 0 <= i < entries.len() && is_bad(#[trigger] entries[i]) {
        let i = choose|i: int| 0 <= i < entries.len() && is_bad(#[trigger] entries[i]);
        assert(is_failure(entries[i]));
    }
    if entries.len() > 0 {
        law_bad_entries_fail(entries.drop_last());
        assert(is_failure(entries.last()) <==> is_bad(entries.last()));
    }
}

/// A broken link makes the run fail and is among the failures, whatever its status
/// code.
pub proof fn law_broken_links_fail(entries: Seq<EntryModel>, i: int)
    requires
        0 <= i < entries.len(),
        entries[i].kind == Kind::Broken,
    ensures
        has_failure(entries),
        failures(entries).contains(entries[i]),
{
    assert(is_failure(entries[i]));
    law_failures(entries);
}

/// A redirect was left unfollowed where its own status code is from 300 to 399 and
/// no redirects came before it.
pub proof fn law_left_unfollowed(e: EntryModel)
    ensures
        left_unfollowed(e) <==> e.redirect_chain.len() == 0 && (e.http_status matches Some(code)
            && 300 <= code <= 399),
        is_3xx(e.http_status) <==> (e.http_status matches Some(code) && 300 <= code <= 399),
{
}

} // verus!
