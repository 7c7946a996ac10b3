//! The course of a run.
use vstd::prelude::*;

use crate::check::{
    chain_under, indexed, is_reportable, result_of, unanswered, AnswerModel, CheckResult, HopModel,
    ResultModel, RunModel,
};
use crate::extract::LinkModel;
use crate::report::{is_failure, link_entry};

verus! {

/// What a run is told.
pub enum Event {
    /// A worker asks for a URL.
    Next,
    /// A worker brings a result.
    Finish(ResultModel),
}

/// The state of a run after one more event.
pub open spec fn step(run: RunModel, event: Event) -> RunModel {
    match event {
        Event::Next => run.advanced(),
        Event::Finish(result) => run.finished(result),
    }
}

/// The state of a run after `events`.
pub open spec fn after(run: RunModel, events: Seq<Event>) -> RunModel
    decreases events.len(),
{
    if events.len() == 0 {
        run
    } else {
        step(after(run, events.drop_last()), events.last())
    }
}

/// The URLs handed out by `events`, in order.
pub open spec fn handed_out(run: RunModel, events: Seq<Event>) -> Seq<Seq<char>>
    decreases events.len(),
{
    if events.len() == 0 {
        seq![]
    } else {
        let before = after(run, events.drop_last());
        let urls = handed_out(run, events.drop_last());
        if events.last() is Next && !before.is_over() {
            urls.push(before.urls[before.handed])
        } else {
            urls
        }
    }
}

/// How many of `events` ask for a URL.
pub open spec fn requests(events: Seq<Event>) -> nat
    decreases events.len(),
{
    if events.len() == 0 {
        0
    } else if events.last() is Next {
        requests(events.drop_last()) + 1
    } else {
        requests(events.drop_last())
    }
}

/// Whatever happens in a run, its state stays valid, and the URLs are handed
/// out from the first on, in order and each once.
pub proof fn law_urls_are_handed_out_in_order(
    urls: Seq<Seq<char>>,
    fail_fast: bool,
    events: Seq<Event>,
)
    ensures
        after(RunModel::started(urls, fail_fast), events).is_valid(),
        after(RunModel::started(urls, fail_fast), events).urls == urls,
        after(RunModel::started(urls, fail_fast), events).fail_fast == fail_fast,
        handed_out(RunModel::started(urls, fail_fast), events) == urls.take(
            after(RunModel::started(urls, fail_fast), events).handed,
        ),
    decreases events.len(),
{
    let start = RunModel::started(urls, fail_fast);
    if events.len() == 0 {
        assert(urls.take(0) =~= seq![]);
    } else {
        law_urls_are_handed_out_in_order(urls, fail_fast, events.drop_last());
        let before = after(start, events.drop_last());
        let now = after(start, events);
        match events.last() {
            Event::Next => {
                if !before.is_over() {
                    assert(urls.take(now.handed) =~= urls.take(before.handed).push(
                        urls[before.handed],
                    ));
                }
            },
            Event::Finish(result) => {
                lemma_finished_is_valid(before, result);
            },
        }
    }
}

proof fn lemma_finished_is_valid(run: RunModel, result: ResultModel)
    requires
        run.is_valid(),
    ensures
        run.finished(result).is_valid(),
{
    let now = run.finished(result);
    assert(now.results.last() == result);
    assert(now.results[now.results.len() - 1] == result);
    assert(forall|i: int| 0 <= i < run.results.len() ==> now.results[i] == run.results[i]);
    if exists|i: int| 0 <= i < run.results.len() && is_reportable(#[trigger] run.results[i]) {
        let i = choose|i: int| 0 <= i < run.results.len() && is_reportable(
            #[trigger] run.results[i],
        );
        assert(is_reportable(now.results[i]));
    }
}

/// A run that is not to fail fast goes through all its URLs, whatever the
/// results.
pub proof fn law_without_fail_fast_all_are_checked(urls: Seq<Seq<char>>, events: Seq<Event>)
    ensures
        after(RunModel::started(urls, false), events).handed == (if requests(events) < urls.len() {
            requests(events) as int
        } else {
            urls.len() as int
        }),
    decreases events.len(),
{
    if events.len() > 0 {
        law_without_fail_fast_all_are_checked(urls, events.drop_last());
        law_urls_are_handed_out_in_order(urls, false, events.drop_last());
    }
}

/// After a reportable result a run that is to fail fast hands out no more URLs,
/// whatever happens then.
pub proof fn law_fail_fast_stops(
    urls: Seq<Seq<char>>,
    events: Seq<Event>,
    result: ResultModel,
    later: Seq<Event>,
)
    requires
        is_reportable(result),
    ensures
        handed_out(
            RunModel::started(urls, true),
            events.push(Event::Finish(result)) + later,
        ) == handed_out(RunModel::started(urls, true), events),
        after(
            RunModel::started(urls, true),
            events.push(Event::Finish(result)) + later,
        ).is_over(),
    decreases later.len(),
{
    let start = RunModel::started(urls, true);
    let told = events.push(Event::Finish(result));
    law_urls_are_handed_out_in_order(urls, true, events);
    assert(told.drop_last() =~= events);
    lemma_stays_cancelled(start, told, later);
}

proof fn lemma_stays_cancelled(run: RunModel, events: Seq<Event>, later: Seq<Event>)
    requires
        after(run, events).cancelled,
    ensures
        after(run, events + later).cancelled,
        handed_out(run, events + later) == handed_out(run, events),
    decreases later.len(),
{
    if later.len() == 0 {
        assert(events + later =~= events);
    } else {
        lemma_stays_cancelled(run, events, later.drop_last());
        assert((events + later).drop_last() =~= events + later.drop_last());
    }
}

/// The redirects taken under a key are those recorded under it, in order; what
/// is recorded under other keys stays; and nothing is left under the key.
pub proof fn law_recorded_redirects_are_taken(
    store: Map<Seq<char>, Seq<HopModel>>,
    key: Seq<char>,
    other: Seq<char>,
    hop: HopModel,
)
    ensures
        ({
            let recorded = store.insert(key, chain_under(store, key).push(hop));
            &&& chain_under(recorded, key) == chain_under(store, key).push(hop)
            &&& other != key ==> chain_under(recorded, other) == chain_under(store, other)
            &&& chain_under(recorded.remove(key), key).len() == 0
            &&& other != key ==> chain_under(recorded.remove(key), other) == chain_under(
                store,
                other,
            )
        }),
{
}

/// Where redirects are followed, unless a reply is itself a redirect that leads
/// nowhere, and where they are not, the results that stop a run are those that
/// make it fail.
pub proof fn law_reportable_results_fail(
    url: Seq<char>,
    reply: Result<AnswerModel, Seq<char>>,
    chain: Seq<HopModel>,
    follow: bool,
    link: LinkModel,
    by_url: Map<Seq<char>, ResultModel>,
)
    requires
        link.url == url,
        by_url.contains_key(url),
        by_url[url] == result_of(url, reply, chain, follow),
        follow && chain.len() == 0 ==> !(reply matches Ok(answer) && 300 <= answer.status < 400),
        !follow ==> chain.len() == 0,
    ensures
        is_reportable(by_url[url]) == is_failure(link_entry(link, by_url)),
{
}

/// A request that got no reply does not stop a run.
pub proof fn law_errors_are_not_reportable(url: Seq<char>, message: Seq<char>)
    ensures
        !is_reportable(unanswered(url, message)),
{
}

/// No two results are for the same URL.
pub open spec fn are_of_distinct_urls(results: Seq<CheckResult>) -> bool {
    forall|i: int, j: int|
        0 <= i < j < results.len() ==> (#[trigger] results[i]).url@ != (#[trigger] results[j]).url@
}

/// Each result is found under its URL, and nothing else is.
pub proof fn law_results_are_found(results: Seq<CheckResult>)
    requires
        are_of_distinct_urls(results),
    ensures
        forall|i: int|
            0 <= i < results.len() ==> indexed(results).contains_key((#[trigger] results[i]).url@)
                && indexed(results)[results[i].url@] == results[i]@,
        forall|url: Seq<char>| #[trigger]
            indexed(results).contains_key(url) ==> exists|i: int|
                0 <= i < results.len() && (#[trigger] results[i]).url@ == url,
    decreases results.len(),
{
    if results.len() > 0 {
        let rest = results.drop_last();
        assert forall|i: int, j: int| 0 <= i < j < rest.len() implies (#[trigger] rest[i]).url@ != (
        #[trigger] rest[j]).url@ by {
            assert(results[i].url@ != results[j].url@);
        }
        law_results_are_found(rest);
        let last = results.len() - 1;
        assert forall|i: int| 0 <= i < results.len() implies indexed(results).contains_key(
            (#[trigger] results[i]).url@,
        ) && indexed(results)[results[i].url@] == results[i]@ by {
            if i < last {
                assert(rest[i] == results[i]);
                assert(results[i].url@ != results[last].url@);
            }
        }
        assert forall|url: Seq<char>| #[trigger] indexed(results).contains_key(
            url,
        ) implies exists|i: int| 0 <= i < results.len() && (#[trigger] results[i]).url@ == url by {
            if url == results[last].url@ {
                assert(results[last].url@ == url);
            } else {
                assert(indexed(rest).contains_key(url));
                let i = choose|i: int| 0 <= i < rest.len() && (#[trigger] rest[i]).url@ == url;
                assert(results[i].url@ == url);
            }
        }
    }
}

/// The order in which results come in does not matter.
pub proof fn law_order_of_results_does_not_matter(a: Seq<CheckResult>, b: Seq<CheckResult>)
    requires
        are_of_distinct_urls(a),
        are_of_distinct_urls(b),
        forall|i: int|
            0 <= i < a.len() ==> exists|j: int|
                0 <= j < b.len() && (#[trigger] a[i])@ == (#[trigger] b[j])@,
        forall|j: int|
            0 <= j < b.len() ==> exists|i: int|
                0 <= i < a.len() && (#[trigger] a[i])@ == (#[trigger] b[j])@,
    ensures
        indexed(a) == indexed(b),
{
    law_results_are_found(a);
    law_results_are_found(b);
    assert forall|url: Seq<char>| #[trigger] indexed(a).contains_key(url) implies indexed(
        b,
    ).contains_key(url) && indexed(a)[url] == indexed(b)[url] by {
        let i = choose|i: int| 0 <= i < a.len() && (#[trigger] a[i]).url@ == url;
        let j = choose|j: int| 0 <= j < b.len() && a[i]@ == (#[trigger] b[j])@;
        assert(a[i]@.url == b[j]@.url);
        assert(indexed(b)[b[j].url@] == b[j]@);
    }
    assert forall|url: Seq<char>| #[trigger] indexed(b).contains_key(url) implies indexed(
        a,
    ).contains_key(url) by {
        let j = choose|j: int| 0 <= j < b.len() && (#[trigger] b[j]).url@ == url;
        let i = choose|i: int| 0 <= i < a.len() && (#[trigger] a[i])@ == b[j]@;
        assert(a[i]@.url == b[j]@.url);
    }
    assert(indexed(a) =~= indexed(b));
}

} // verus!
