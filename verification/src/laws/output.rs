//! The text of a report, and its machine-readable form.
use vstd::prelude::*;

use crate::check::RedirectHop;
use crate::laws::entries::{is_bad, law_bad_entries_fail, law_kind_names};
use crate::report::{
    arrows, entry_text, failures, json_check, redirect_text, statuses, stations, status_text,
    text_of, Entry, EntryModel, JsonCheck, JsonHop, Kind,
};
use crate::text::decimal;

verus! {

/// The line of a link without redirects: its kind in 8 columns, then its status
/// code or a dash, then its URL.
pub proof fn law_lines_of_plain_links(e: EntryModel)
    ensures
        ({
            let code = match e.http_status {
                Some(code) => decimal(code as int),
                None => seq!['-'],
            };
            &&& e.kind == Kind::Okay ==> entry_text(e) == "OK       "@ + code + seq![' '] + e.url
            &&& e.kind == Kind::Broken ==> entry_text(e) == "BROKEN   "@ + code + seq![' '] + e.url
        }),
{
    reveal_strlit("OK       ");
    reveal_strlit("BROKEN   ");
    reveal_strlit("OK");
    reveal_strlit("BROKEN");
    reveal_strlit(" ");
    reveal_strlit("-");
    let code = match e.http_status {
        Some(code) => decimal(code as int),
        None => seq!['-'],
    };
    assert(status_text(e.http_status) =~= code);
    if e.kind == Kind::Okay {
        assert(entry_text(e) =~= "OK       "@ + code + seq![' '] + e.url);
    }
    if e.kind == Kind::Broken {
        assert(entry_text(e) =~= "BROKEN   "@ + code + seq![' '] + e.url);
    }
}

/// The line of an error has the message and the URL, that of a malformed link the
/// problem, the URL in quotes, the file and the line.
pub proof fn law_lines_of_problems(e: EntryModel)
    ensures
        e.kind == Kind::Error ==> entry_text(e) == "ERROR    "@ + (match e.error {
            Some(message) => message,
            None => "unknown error"@,
        }) + seq![' '] + e.url,
        e.kind == Kind::Malformed ==> entry_text(e) == "MALFORMED "@ + (match e.error {
            Some(message) => message,
            None => "bad url"@,
        }) + seq![' ', '"'] + e.url + seq!['"', ' ', '('] + e.place.file + seq![':'] + decimal(
            e.place.line,
        ) + seq![')'],
{
    reveal_strlit("ERROR    ");
    reveal_strlit("ERROR");
    reveal_strlit(" ");
    reveal_strlit(" \"");
    reveal_strlit("\" (");
    reveal_strlit(":");
    reveal_strlit(")");
    assert(" "@ =~= seq![' ']);
    assert(" \""@ =~= seq![' ', '"']);
    assert("\" ("@ =~= seq!['"', ' ', '(']);
    assert(":"@ =~= seq![':']);
    assert(")"@ =~= seq![')']);
    if e.kind == Kind::Error {
        assert(entry_text(e) =~= "ERROR    "@ + (match e.error {
            Some(message) => message,
            None => "unknown error"@,
        }) + seq![' '] + e.url);
    }
}

/// Arrows stand between items, and nowhere else.
pub proof fn law_arrows(items: Seq<Seq<char>>, item: Seq<char>)
    ensures
        arrows(seq![]).len() == 0,
        arrows(seq![item]) == item,
        items.len() > 0 ==> arrows(items.push(item)) == arrows(items) + seq![' ', '-', '>', ' ']
            + item,
{
    reveal_strlit(" -> ");
    assert(" -> "@ =~= seq![' ', '-', '>', ' ']);
    assert(items.push(item).drop_last() =~= items);
}

/// The line of a redirect that was followed has the status codes of the redirects
/// and then the last one, and the URL and then those to which the redirects led.
pub proof fn law_lines_of_followed_redirects(e: EntryModel)
    requires
        e.kind == Kind::Redirect,
        e.redirect_chain.len() > 0,
    ensures
        ({
            let codes = Seq::new(
                e.redirect_chain.len(),
                |i: int| decimal(e.redirect_chain[i].status as int),
            );
            let urls = Seq::new(e.redirect_chain.len(), |i: int| e.redirect_chain[i].url);
            let last = match e.http_status {
                Some(code) => decimal(code as int),
                None => seq!['-'],
            };
            entry_text(e) == "REDIRECT "@ + arrows(codes.push(last)) + seq![' '] + arrows(
                seq![e.url] + urls,
            )
        }),
{
    reveal_strlit(" ");
    reveal_strlit("-");
    let codes = Seq::new(
        e.redirect_chain.len(),
        |i: int| decimal(e.redirect_chain[i].status as int),
    );
    let urls = Seq::new(e.redirect_chain.len(), |i: int| e.redirect_chain[i].url);
    let last = match e.http_status {
        Some(code) => decimal(code as int),
        None => seq!['-'],
    };
    assert(status_text(e.http_status) =~= last);
    assert(statuses(e.redirect_chain, e.http_status) =~= codes.push(last));
    assert(stations(e.url, e.redirect_chain) =~= seq![e.url] + urls);
    assert(" "@ =~= seq![' ']);
}

/// The line of a redirect that was not followed says so, and where it leads as far
/// as that is known.
pub proof fn law_lines_of_unfollowed_redirects(e: EntryModel)
    requires
        e.kind == Kind::Redirect,
        e.redirect_chain.len() == 0,
    ensures
        ({
            let code = match e.http_status {
                Some(code) => decimal(code as int),
                None => seq!['-'],
            };
            let unfollowed = e.http_status matches Some(code) && 300 <= code <= 399;
            &&& !unfollowed ==> entry_text(e) == "REDIRECT "@ + code + seq![' '] + e.url
            &&& unfollowed && e.redirect_target is None ==> entry_text(e)
                == "REDIRECT (unfollowed) "@ + code + seq![' '] + e.url
            &&& unfollowed && e.redirect_target is Some ==> entry_text(e)
                == "REDIRECT (unfollowed) "@ + code + seq![' '] + e.url + seq![' ', '-', '>', ' ']
                + e.redirect_target->0
        }),
{
    reveal_strlit(" ");
    reveal_strlit("-");
    reveal_strlit(" -> ");
    let code = match e.http_status {
        Some(code) => decimal(code as int),
        None => seq!['-'],
    };
    assert(status_text(e.http_status) =~= code);
    assert(" "@ =~= seq![' ']);
    assert(" -> "@ =~= seq![' ', '-', '>', ' ']);
    let start = "REDIRECT (unfollowed) "@ + code + seq![' '] + e.url;
    if e.redirect_target is None {
        assert(start + Seq::<char>::empty() =~= start);
    } else {
        let target = e.redirect_target->0;
        assert(start + (" -> "@ + target) =~= start + " -> "@ + target);
    }
    assert(entry_text(e) == redirect_text(e));
}

/// A report is the lines of its entries, in order, each ended by a line feed. The
/// quiet report is that of the bad entries alone.
pub proof fn law_text_is_lines(entries: Seq<EntryModel>, e: EntryModel)
    ensures
        text_of(seq![]).len() == 0,
        text_of(entries.push(e)) == text_of(entries) + entry_text(e) + seq!['\n'],
        text_of(failures(entries)) == text_of(entries.filter(|e: EntryModel| is_bad(e))),
{
    assert(entries.push(e).drop_last() =~= entries);
    assert(text_of(entries.push(e)) =~= text_of(entries) + entry_text(e) + seq!['\n']);
    law_bad_entries_fail(entries);
}

/// `hops` tells of the redirects in `chain`, one by one.
pub open spec fn tells_of(hops: Seq<JsonHop>, chain: Seq<RedirectHop>) -> bool {
    &&& hops.len() == chain.len()
    &&& forall|i: int|
        0 <= i < hops.len() ==> (#[trigger] hops[i]).status == chain[i].status && hops[i].url@
            == chain[i].url@
}

/// The machine-readable form of an entry has its URL, its file, line and column,
/// the name of its kind, its status code and its redirects, and the message of an
/// error but of nothing else.
pub proof fn law_json(e: Entry, check: JsonCheck<'_>)
    requires
        check@ == json_check(e@),
    ensures
        check.url@ == e.url@,
        check.location.file@ == e.location.file@,
        check.location.line == e.location.line,
        check.location.column == e.location.column,
        e.kind == Kind::Okay ==> check.status@ == "ok"@,
        e.kind == Kind::Broken ==> check.status@ == "broken"@,
        e.kind == Kind::Redirect ==> check.status@ == "redirect"@,
        e.kind == Kind::Error ==> check.status@ == "error"@,
        e.kind == Kind::Malformed ==> check.status@ == "malformed"@,
        check.http_status == e.http_status,
        tells_of(check.redirect_chain@, e.redirect_chain@),
        check.error is Some <==> e.kind == Kind::Error && e.error is Some,
        check.error is Some ==> check.error->0@ == e.error->0@,
{
    law_kind_names();
    let hops = check.redirect_chain@;
    let chain = e.redirect_chain@;
    assert(check@.redirect_chain == e@.redirect_chain);
    assert(check@.redirect_chain.len() == hops.len());
    assert(e@.redirect_chain.len() == chain.len());
    assert forall|i: int| 0 <= i < hops.len() implies (#[trigger] hops[i]).status == chain[i].status
        && hops[i].url@ == chain[i].url@ by {
        assert(check@.redirect_chain[i] == hops[i]@);
        assert(e@.redirect_chain[i] == chain[i]@);
    }
    assert(check@.place == e@.place);
    assert(check@.error == json_check(e@).error);
}

} // verus!
