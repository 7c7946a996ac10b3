//! What replies mean, which requests follow, and when a run stops.
use vstd::prelude::*;

use crate::check::{
    answered, chain_under, clamped, concurrency_for, emptied, failure_text, indexed, is_refusal,
    is_reportable, recorded, refuses_head, replied, reply_view, result_after_refusal, result_of,
    results_view, timeout_for, unanswered, without_client, workers_for, Answer, AnswerModel,
    CheckResult, HopModel, ResultModel, ResultsByUrl, RunModel, Status, MAX_REDIRECTS,
};
use crate::laws::run::{handed_out, law_fail_fast_stops, step, Event};

verus! {

/// A reply with a status code from 400 to 599 is a broken link, and one from 300
/// to 399 a redirect, whatever redirects came before it. One from 200 to 299 is
/// in order, or a redirect where any came before. All others are errors.
pub proof fn law_status_codes(url: Seq<char>, code: u16, chain: Seq<HopModel>, follow: bool)
    ensures
        ({
            let r = replied(url, code, chain, follow);
            &&& 400 <= code <= 599 ==> r.status == Status::Broken
            &&& 300 <= code <= 399 ==> r.status == Status::Redirect
            &&& 200 <= code <= 299 && chain.len() == 0 ==> r.status == Status::Okay
            &&& 200 <= code <= 299 && chain.len() > 0 ==> r.status == Status::Redirect
            &&& code < 200 || code > 599 ==> r.status == Status::Error
            &&& r.redirect_unfollowed <==> 300 <= code <= 399 && !follow
            &&& r.url == url
            &&& r.http_status == Some(code)
            &&& r.redirect_chain == chain
            &&& r.redirect_target is None
            &&& r.error is None
        }),
{
}

/// The redirects before a reply make a difference to the status only where its
/// code is from 200 to 299, and whether redirects are followed makes none.
pub proof fn law_redirects_matter_to_success_only(
    url: Seq<char>,
    code: u16,
    a: Seq<HopModel>,
    b: Seq<HopModel>,
    follow: bool,
)
    ensures
        code < 200 || code > 299 ==> replied(url, code, a, follow).status == replied(
            url,
            code,
            b,
            !follow,
        ).status,
        replied(url, code, a, follow).status == replied(url, code, a, !follow).status,
{
}

/// An answer is judged by its status code, and tells where a redirect that is not
/// followed leads. No answer is an error, with the reason for it.
pub proof fn law_results(
    url: Seq<char>,
    answer: AnswerModel,
    message: Seq<char>,
    chain: Seq<HopModel>,
    follow: bool,
)
    ensures
        ({
            let code = answer.status;
            let r = result_of(url, Ok(answer), chain, follow);
            &&& r == answered(url, answer, chain, follow)
            &&& 400 <= code <= 599 ==> r.status == Status::Broken
            &&& 300 <= code <= 399 ==> r.status == Status::Redirect
            &&& 200 <= code <= 299 && chain.len() == 0 ==> r.status == Status::Okay
            &&& 200 <= code <= 299 && chain.len() > 0 ==> r.status == Status::Redirect
            &&& code < 200 || code > 599 ==> r.status == Status::Error
            &&& r.redirect_unfollowed <==> 300 <= code <= 399 && !follow
            &&& r.redirect_target == (if 300 <= code <= 399 && !follow {
                answer.location
            } else {
                None
            })
            &&& r.url == url
            &&& r.http_status == Some(code)
            &&& r.redirect_chain == chain
            &&& r.error is None
        }),
        ({
            let r = result_of(url, Err(message), chain, follow);
            &&& r == unanswered(url, message)
            &&& r.status == Status::Error
            &&& r.url == url
            &&& r.http_status is None
            &&& r.redirect_chain.len() == 0
            &&& !r.redirect_unfollowed
            &&& r.redirect_target is None
            &&& r.error == Some(message)
        }),
{
}

/// HEAD is refused by the status codes 400, 405 and 501, and by nothing else.
pub proof fn law_refusals(answer: AnswerModel, message: Seq<char>)
    ensures
        refuses_head(answer.status) <==> answer.status == 400 || answer.status == 405
            || answer.status == 501,
        is_refusal(Ok(answer)) <==> answer.status == 400 || answer.status == 405 || answer.status
            == 501,
        !is_refusal(Err(message)),
{
}

/// A reply stands for the answer or the message in it.
pub proof fn law_replies(answer: Answer, message: String)
    ensures
        reply_view(Ok(answer)) == Ok::<AnswerModel, Seq<char>>(answer@),
        reply_view(Err(message)) == Err::<AnswerModel, Seq<char>>(message@),
{
}

/// Every broken link stops a run that is to fail fast, whatever its status code,
/// and so does every redirect that is left unfollowed. Nothing else does.
pub proof fn law_findings_that_stop(r: ResultModel)
    ensures
        r.status == Status::Broken ==> is_reportable(r),
        r.status == Status::Redirect ==> (is_reportable(r) <==> r.redirect_unfollowed),
        r.status == Status::Okay || r.status == Status::Error ==> !is_reportable(r),
{
}

/// After a broken link a run that is to fail fast hands out no more URLs.
pub proof fn law_broken_link_stops(
    urls: Seq<Seq<char>>,
    events: Seq<Event>,
    result: ResultModel,
    later: Seq<Event>,
)
    requires
        result.status == Status::Broken || (result.status == Status::Redirect
            && result.redirect_unfollowed),
    ensures
        handed_out(RunModel::started(urls, true), events.push(Event::Finish(result)) + later)
            == handed_out(RunModel::started(urls, true), events),
{
    law_findings_that_stop(result);
    law_fail_fast_stops(urls, events, result, later);
}

/// A run starts with its first URL, and without results.
pub proof fn law_start(urls: Seq<Seq<char>>, fail_fast: bool)
    ensures
        ({
            let run = RunModel::started(urls, fail_fast);
            &&& run.urls == urls
            &&& run.handed == 0
            &&& run.results.len() == 0
            &&& run.fail_fast == fail_fast
            &&& !run.cancelled
        }),
{
}

/// As long as a run is not cancelled and URLs are left, the next one is handed
/// out; else nothing changes.
pub proof fn law_next_url(run: RunModel)
    ensures
        run.is_over() <==> run.cancelled || run.handed >= run.urls.len(),
        ({
            let next = run.advanced();
            &&& next.handed == (if run.cancelled || run.handed >= run.urls.len() {
                run.handed
            } else {
                run.handed + 1
            })
            &&& next.urls == run.urls
            &&& next.results == run.results
            &&& next.fail_fast == run.fail_fast
            &&& next.cancelled == run.cancelled
        }),
        step(run, Event::Next) == run.advanced(),
{
}

/// A result is kept behind those before it, also where the run is cancelled. It
/// cancels a run that is to fail fast where it is a broken link or a redirect left
/// unfollowed.
pub proof fn law_finish(run: RunModel, r: ResultModel)
    ensures
        ({
            let next = run.finished(r);
            &&& next.results == run.results.push(r)
            &&& next.cancelled <==> run.cancelled || (run.fail_fast && (r.status == Status::Broken
                || (r.status == Status::Redirect && r.redirect_unfollowed)))
            &&& next.urls == run.urls
            &&& next.handed == run.handed
            &&& next.fail_fast == run.fail_fast
        }),
        step(run, Event::Finish(r)) == run.finished(r),
{
}

/// Ten redirects of one request are followed.
pub proof fn law_ten_redirects()
    ensures
        MAX_REDIRECTS == 10,
{
}

/// A value within bounds is kept, and one out of bounds becomes the bound that it
/// passes.
pub proof fn law_clamped(x: int, low: int, high: int)
    requires
        low <= high,
    ensures
        low <= clamped(x, low, high) <= high,
        low <= x <= high ==> clamped(x, low, high) == x,
        x < low ==> clamped(x, low, high) == low,
        x > high ==> clamped(x, low, high) == high,
{
}

/// A timeout from 1 to 120 seconds and a number of requests from 1 to 128 are kept,
/// and others become the nearer bound. There is a worker for each request at a
/// time, and at least one.
pub proof fn law_options(x: int)
    requires
        0 <= x,
    ensures
        1 <= x <= 120 ==> timeout_for(x) == x,
        x == 0 ==> timeout_for(x) == 1,
        x > 120 ==> timeout_for(x) == 120,
        1 <= x <= 128 ==> concurrency_for(x) == x,
        x == 0 ==> concurrency_for(x) == 1,
        x > 128 ==> concurrency_for(x) == 128,
        x == 0 ==> workers_for(x) == 1,
        x > 0 ==> workers_for(x) == x,
{
}

/// A request that was given up is told from others that got no reply.
pub proof fn law_failure_texts(message: Seq<char>)
    ensures
        failure_text(true, message) == seq!['t', 'i', 'm', 'e', 'o', 'u', 't'],
        failure_text(false, message) == message,
{
    reveal_strlit("timeout");
    assert("timeout"@ =~= seq!['t', 'i', 'm', 'e', 'o', 'u', 't']);
}

/// The redirects under a key are those that the store holds there.
pub proof fn law_chains(store: Map<Seq<char>, Seq<HopModel>>, key: Seq<char>)
    ensures
        store.contains_key(key) ==> chain_under(store, key) == store[key],
        !store.contains_key(key) ==> chain_under(store, key).len() == 0,
{
}

/// One after the other, the redirects recorded under a key are found there, in
/// order, and taken from there once. What is under other keys stays.
pub proof fn law_store(
    store: Map<Seq<char>, Seq<HopModel>>,
    key: Seq<char>,
    a: HopModel,
    b: HopModel,
    other: Seq<char>,
)
    requires
        !store.contains_key(key),
    ensures
        ({
            let one = recorded(store, key, a);
            let two = recorded(one, key, b);
            &&& chain_under(one, key) == seq![a]
            &&& chain_under(two, key) == seq![a, b]
            &&& chain_under(emptied(two, key), key).len() == 0
            &&& other != key ==> {
                &&& chain_under(two, other) == chain_under(store, other)
                &&& chain_under(emptied(two, key), other) == chain_under(store, other)
            }
        }),
{
    let one = recorded(store, key, a);
    let two = recorded(one, key, b);
    assert(chain_under(one, key) =~= seq![a]);
    assert(chain_under(two, key) =~= seq![a, b]);
}

/// Where HEAD was refused, the result has the redirects of both requests, those of
/// HEAD first, and is judged by the answer to GET.
pub proof fn law_both_chains(
    url: Seq<char>,
    answer: AnswerModel,
    kept: Seq<HopModel>,
    chain: Seq<HopModel>,
    follow: bool,
)
    ensures
        ({
            let r = result_after_refusal(url, Ok(answer), kept, chain, follow);
            &&& r.redirect_chain == kept + chain
            &&& r.http_status == Some(answer.status)
            &&& 400 <= answer.status <= 599 ==> r.status == Status::Broken
            &&& 200 <= answer.status <= 299 ==> (r.status == Status::Okay <==> kept.len() == 0
                && chain.len() == 0)
        }),
{
}

/// Where the HTTP client cannot be set up, each URL is an error that says so.
pub proof fn law_without_client(url: Seq<char>)
    ensures
        without_client(url).url == url,
        without_client(url).status == Status::Error,
        without_client(url).http_status is None,
        without_client(url).redirect_chain.len() == 0,
        without_client(url).error == Some("failed to initialise HTTP client"@),
{
}

/// The last result for a URL counts, and the results for others stay.
pub proof fn law_indexed(results: Seq<CheckResult>, r: CheckResult, url: Seq<char>)
    ensures
        !indexed(seq![]).contains_key(url),
        indexed(results.push(r)).contains_key(r.url@),
        indexed(results.push(r))[r.url@] == r@,
        url != r.url@ ==> (indexed(results.push(r)).contains_key(url) <==> indexed(
            results,
        ).contains_key(url)),
        url != r.url@ && indexed(results).contains_key(url) ==> indexed(results.push(r))[url]
            == indexed(results)[url],
{
    assert(results.push(r).drop_last() =~= results);
}

/// The results by URL stand for what the map holds.
pub proof fn law_results_by_url(by_url: ResultsByUrl, url: Seq<char>)
    ensures
        results_view(by_url).contains_key(url) <==> by_url@.contains_key(url),
        by_url@.contains_key(url) ==> results_view(by_url)[url] == by_url@[url]@,
{
}

} // verus!
