//! The order of a report, its exit code and its text.
use vstd::prelude::*;

use crate::check::ResultModel;
use crate::extract::{LinkModel, MalformedModel};
use crate::laws::scan::lacks;
use crate::order::{lemma_place_asymmetric, place_less};
use crate::report::{
    arranged, comes_before, entries_for, entry_text, failures, has_failure, is_failure, is_order,
    is_sorted_form, link_entry, malformed_entry, text_of, EntryModel, Kind,
};
use crate::text::{drop_return, lemma_lines_of_line_and_rest, lines};

verus! {

/// There is one sorted form: the order of a report depends on nothing but what
/// is reported.
pub proof fn law_sorted_form_is_unique(
    a: Seq<EntryModel>,
    b: Seq<EntryModel>,
    items: Seq<EntryModel>,
)
    requires
        is_sorted_form(a, items),
        is_sorted_form(b, items),
    ensures
        a == b,
{
    let x = choose|order: Seq<int>| #[trigger] is_order(items, order) && a == arranged(items, order);
    let y = choose|order: Seq<int>| #[trigger] is_order(items, order) && b == arranged(items, order);
    assert forall|k: int| 0 <= k < x.len() implies x[k] == y[k] by {
        lemma_orders_agree(items, x, y, k);
    }
    assert(x =~= y);
}

proof fn lemma_orders_agree(items: Seq<EntryModel>, x: Seq<int>, y: Seq<int>, k: int)
    requires
        is_order(items, x),
        is_order(items, y),
        0 <= k < x.len(),
    ensures
        x[k] == y[k],
    decreases k,
{
    assert forall|j: int| 0 <= j < k implies x[j] == y[j] by {
        lemma_orders_agree(items, x, y, j);
    }
    if x[k] != y[k] {
        assert(y.contains(x[k]));
        let p = y.index_of(x[k]);
        assert(x.contains(y[k]));
        let q = x.index_of(y[k]);
        lemma_place_asymmetric(items[x[k]].place, items[y[k]].place);
        lemma_place_asymmetric(items[x[k]].place, items[x[k]].place);
        lemma_place_asymmetric(items[y[k]].place, items[y[k]].place);
        if p < k {
            assert(x[p] == x[k]);
            assert(comes_before(items, x[p], x[k]));
        }
        if q < k {
            assert(y[q] == y[k]);
            assert(comes_before(items, y[q], y[k]));
        }
        assert(comes_before(items, x[k], x[q]));
        assert(comes_before(items, y[k], y[p]));
    }
}

/// The sorted form holds the same items, each as often, with none at a place
/// after that of the next.
pub proof fn law_sorted_form(sorted: Seq<EntryModel>, items: Seq<EntryModel>)
    requires
        is_sorted_form(sorted, items),
    ensures
        sorted.len() == items.len(),
        sorted.to_multiset() == items.to_multiset(),
        forall|i: int, j: int|
            0 <= i < j < sorted.len() ==> !place_less(
                (#[trigger] sorted[j]).place,
                (#[trigger] sorted[i]).place,
            ),
{
    let order = choose|order: Seq<int>|
        #[trigger] is_order(items, order) && sorted == arranged(items, order);
    lemma_arranged_multiset(items, order);
    assert forall|i: int, j: int| 0 <= i < j < sorted.len() implies !place_less(
        (#[trigger] sorted[j]).place,
        (#[trigger] sorted[i]).place,
    ) by {
        assert(comes_before(items, order[i], order[j]));
        lemma_place_asymmetric(sorted[i].place, sorted[j].place);
    }
}

proof fn lemma_arranged_multiset(items: Seq<EntryModel>, order: Seq<int>)
    requires
        is_order(items, order),
    ensures
        arranged(items, order).to_multiset() == items.to_multiset(),
    decreases items.len(),
{
    broadcast use vstd::seq_lib::group_to_multiset_ensures;

    let sorted = arranged(items, order);
    if items.len() == 0 {
        assert(sorted =~= items);
    } else {
        let n = items.len() - 1;
        let rest = items.drop_last();
        assert(order.contains(n));
        let p = order.index_of(n);
        let shorter = order.remove(p);
        assert forall|a: int, b: int| 0 <= a < b < order.len() implies order[a] != order[b] by {
            assert(comes_before(items, order[a], order[b]));
            lemma_place_asymmetric(items[order[a]].place, items[order[b]].place);
        }
        assert forall|k: int| 0 <= k < shorter.len() implies 0 <= #[trigger] shorter[k]
            < rest.len() by {
            if k < p {
                assert(shorter[k] == order[k]);
            } else {
                assert(shorter[k] == order[k + 1]);
            }
        }
        assert forall|i: int| 0 <= i < rest.len() implies #[trigger] shorter.contains(i) by {
            assert(order.contains(i));
            let k = order.index_of(i);
            if k < p {
                assert(shorter[k] == i);
            } else {
                assert(shorter[k - 1] == i);
            }
        }
        assert forall|a: int, b: int| 0 <= a < b < shorter.len() implies comes_before(
            rest,
            #[trigger] shorter[a],
            #[trigger] shorter[b],
        ) by {
            let x = if a < p { a } else { a + 1 };
            let y = if b < p { b } else { b + 1 };
            assert(shorter[a] == order[x] && shorter[b] == order[y]);
            assert(comes_before(items, order[x], order[y]));
        }
        lemma_arranged_multiset(rest, shorter);
        assert(sorted.remove(p) =~= arranged(rest, shorter));
        assert(sorted[p] == items.last());
        assert(sorted =~= sorted.remove(p).insert(p, items.last()));
        assert(items =~= rest.push(items.last()));
    }
}

/// The order of a report does not change its exit code.
pub proof fn law_order_keeps_exit_code(sorted: Seq<EntryModel>, items: Seq<EntryModel>)
    requires
        is_sorted_form(sorted, items),
    ensures
        has_failure(sorted) == has_failure(items),
{
    let order = choose|order: Seq<int>|
        #[trigger] is_order(items, order) && sorted == arranged(items, order);
    if has_failure(sorted) {
        let i = choose|i: int| 0 <= i < sorted.len() && is_failure(#[trigger] sorted[i]);
        assert(is_failure(items[order[i]]));
    }
    if has_failure(items) {
        let i = choose|i: int| 0 <= i < items.len() && is_failure(#[trigger] items[i]);
        assert(order.contains(i));
        let k = order.index_of(i);
        assert(is_failure(sorted[k]));
    }
}

/// Healthy links, errors and malformed links do not make a run fail: taking one
/// out does not change the exit code.
pub proof fn law_errors_and_malformed_do_not_fail(
    before: Seq<EntryModel>,
    e: EntryModel,
    after: Seq<EntryModel>,
)
    requires
        e.kind == Kind::Okay || e.kind == Kind::Error || e.kind == Kind::Malformed,
    ensures
        has_failure(before.push(e) + after) == has_failure(before + after),
{
    let with = before.push(e) + after;
    let without = before + after;
    if has_failure(with) {
        let i = choose|i: int| 0 <= i < with.len() && is_failure(#[trigger] with[i]);
        if i < before.len() {
            assert(is_failure(without[i]));
        } else {
            assert(is_failure(without[i - 1]));
        }
    }
    if has_failure(without) {
        let i = choose|i: int| 0 <= i < without.len() && is_failure(#[trigger] without[i]);
        if i < before.len() {
            assert(is_failure(with[i]));
        } else {
            assert(is_failure(with[i + 1]));
        }
    }
}

/// The quiet report is empty exactly where the exit code is 0.
pub proof fn law_quiet_is_empty_without_failure(entries: Seq<EntryModel>)
    ensures
        text_of(failures(entries)).len() == 0 <==> !has_failure(entries),
    decreases entries.len(),
{
    if entries.len() > 0 {
        let rest = entries.drop_last();
        law_quiet_is_empty_without_failure(rest);
        if has_failure(rest) {
            let i = choose|i: int| 0 <= i < rest.len() && is_failure(#[trigger] rest[i]);
            assert(is_failure(entries[i]));
        }
        if is_failure(entries.last()) {
            assert(is_failure(entries[entries.len() - 1]));
            let f = failures(rest);
            assert(f.push(entries.last()).drop_last() =~= f);
        } else if has_failure(entries) {
            let i = choose|i: int| 0 <= i < entries.len() && is_failure(#[trigger] entries[i]);
            assert(is_failure(rest[i]));
        }
    }
}

/// The quiet report shows the failures, in order, as the full report does.
pub proof fn law_failures(entries: Seq<EntryModel>)
    ensures
        forall|i: int| 0 <= i < failures(entries).len() ==> is_failure(#[trigger] failures(entries)[i]),
        forall|i: int|
            0 <= i < entries.len() && is_failure(#[trigger] entries[i]) ==> failures(
                entries,
            ).contains(entries[i]),
        (forall|i: int| 0 <= i < entries.len() ==> is_failure(#[trigger] entries[i])) ==> failures(
            entries,
        ) == entries,
    decreases entries.len(),
{
    if entries.len() > 0 {
        let rest = entries.drop_last();
        law_failures(rest);
        assert forall|i: int| 0 <= i < entries.len() && is_failure(#[trigger] entries[i]) implies failures(
            entries,
        ).contains(entries[i]) by {
            if i < rest.len() {
                assert(is_failure(rest[i]));
                let k = failures(rest).index_of(rest[i]);
                assert(failures(entries)[k] == entries[i]);
            } else {
                assert(failures(entries).last() == entries[i]);
            }
        }
        if forall|i: int| 0 <= i < entries.len() ==> is_failure(#[trigger] entries[i]) {
            assert forall|i: int| 0 <= i < rest.len() implies is_failure(#[trigger] rest[i]) by {
                assert(is_failure(entries[i]));
            }
            assert(is_failure(entries[entries.len() - 1]));
            assert(failures(entries) =~= entries);
        }
    }
}

/// The text report has one line per entry, in order, as long as no message or
/// name in it holds a line feed.
pub proof fn law_one_line_per_entry(entries: Seq<EntryModel>)
    requires
        forall|i: int| 0 <= i < entries.len() ==> lacks(entry_text(#[trigger] entries[i]), '\n'),
    ensures
        lines(text_of(entries)) == Seq::new(
            entries.len(),
            |i: int| drop_return(entry_text(entries[i])),
        ),
    decreases entries.len(),
{
    lemma_text_lines(entries, seq![]);
    assert(text_of(entries) + Seq::<char>::empty() =~= text_of(entries));
    assert(lines(text_of(entries)) =~= Seq::new(
        entries.len(),
        |i: int| drop_return(entry_text(entries[i])),
    ));
}

proof fn lemma_text_lines(entries: Seq<EntryModel>, rest: Seq<char>)
    requires
        forall|i: int| 0 <= i < entries.len() ==> lacks(entry_text(#[trigger] entries[i]), '\n'),
    ensures
        lines(text_of(entries) + rest) == Seq::new(
            entries.len(),
            |i: int| drop_return(entry_text(entries[i])),
        ) + lines(rest),
    decreases entries.len(),
{
    let all = Seq::new(entries.len(), |i: int| drop_return(entry_text(entries[i])));
    if entries.len() == 0 {
        assert(text_of(entries) + rest =~= rest);
        assert(all + lines(rest) =~= lines(rest));
    } else {
        let before = entries.drop_last();
        let last = entry_text(entries.last());
        assert forall|i: int| 0 <= i < before.len() implies lacks(
            entry_text(#[trigger] before[i]),
            '\n',
        ) by {
            assert(lacks(entry_text(entries[i]), '\n'));
        }
        assert(lacks(entry_text(entries[entries.len() - 1]), '\n'));
        lemma_text_lines(before, last.push('\n') + rest);
        lemma_lines_of_line_and_rest(last, rest);
        assert(text_of(entries) + rest =~= text_of(before) + (last.push('\n') + rest));
        let some = Seq::new(before.len(), |i: int| drop_return(entry_text(before[i])));
        assert(some.push(drop_return(last)) =~= all);
        assert(some + (seq![drop_return(last)] + lines(rest)) =~= all + lines(rest));
    }
}

/// Every link and every malformed link has its entry in a report, and there are
/// no others.
pub proof fn law_every_link_is_reported(
    sorted: Seq<EntryModel>,
    links: Seq<LinkModel>,
    malformed: Seq<MalformedModel>,
    by_url: Map<Seq<char>, ResultModel>,
)
    requires
        is_sorted_form(sorted, entries_for(links, malformed, by_url)),
    ensures
        sorted.len() == links.len() + malformed.len(),
        forall|i: int|
            0 <= i < links.len() ==> sorted.contains(link_entry(#[trigger] links[i], by_url)),
        forall|i: int|
            0 <= i < malformed.len() ==> sorted.contains(malformed_entry(#[trigger] malformed[i])),
{
    let items = entries_for(links, malformed, by_url);
    let order = choose|order: Seq<int>|
        #[trigger] is_order(items, order) && sorted == arranged(items, order);
    assert forall|i: int| 0 <= i < links.len() implies sorted.contains(
        link_entry(#[trigger] links[i], by_url),
    ) by {
        assert(order.contains(i));
        let k = order.index_of(i);
        assert(sorted[k] == items[i]);
    }
    assert forall|i: int| 0 <= i < malformed.len() implies sorted.contains(
        malformed_entry(#[trigger] malformed[i]),
    ) by {
        assert(order.contains(links.len() + i));
        let k = order.index_of(links.len() + i);
        assert(sorted[k] == items[links.len() + i]);
    }
}

} // verus!
