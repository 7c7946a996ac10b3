//! What the models of the types hold.
use vstd::prelude::*;

use crate::check::{Answer, CheckResult, RedirectHop};
use crate::extract::{Extraction, Location, Malformed, Occurrence};
use crate::report::{Entry, JsonCheck, JsonHop, JsonLocation};
use crate::urls::ParsedUrl;

verus! {

/// The model of a location has its file, its line and its column.
pub proof fn law_location(a: Location, b: JsonLocation)
    ensures
        a@.file == a.file@,
        a@.line == a.line,
        a@.column == a.column,
        b@.file == b.file@,
        b@.line == b.line,
        b@.column == b.column,
{
}

/// The models of links and malformed links have their URLs and locations.
pub proof fn law_occurrence(link: Occurrence, m: Malformed)
    ensures
        link@.url == link.url@,
        link@.place == link.location@,
        m@.url == m.url@,
        m@.problem == m.problem,
        m@.place == m.location@,
{
}

/// The model of an extraction has its links and malformed links, in order.
pub proof fn law_extraction(e: Extraction, i: int)
    ensures
        e@.occurrences.len() == e.occurrences@.len(),
        e@.malformed.len() == e.malformed@.len(),
        0 <= i < e.occurrences@.len() ==> e@.occurrences[i] == e.occurrences@[i]@,
        0 <= i < e.malformed@.len() ==> e@.malformed[i] == e.malformed@[i]@,
{
}

/// The models of redirects have their status codes and destinations.
pub proof fn law_hop(a: RedirectHop, b: JsonHop)
    ensures
        a@.status == a.status,
        a@.url == a.url@,
        b@.status == b.status,
        b@.url == b.url@,
{
}

/// The model of a check result has all that it holds.
pub proof fn law_check_result(r: CheckResult, i: int)
    ensures
        r@.url == r.url@,
        r@.status == r.status,
        r@.http_status == r.http_status,
        r@.redirect_unfollowed == r.redirect_unfollowed,
        r.redirect_target matches Some(t) ==> r@.redirect_target == Some(t@),
        r.redirect_target is None ==> r@.redirect_target is None,
        r.error matches Some(m) ==> r@.error == Some(m@),
        r.error is None ==> r@.error is None,
        r@.redirect_chain.len() == r.redirect_chain@.len(),
        0 <= i < r.redirect_chain@.len() ==> r@.redirect_chain[i] == r.redirect_chain@[i]@,
{
}

/// The model of an entry has all that it holds.
pub proof fn law_entry(e: Entry, i: int)
    ensures
        e@.url == e.url@,
        e@.place == e.location@,
        e@.kind == e.kind,
        e@.http_status == e.http_status,
        e.redirect_target matches Some(t) ==> e@.redirect_target == Some(t@),
        e.redirect_target is None ==> e@.redirect_target is None,
        e.error matches Some(m) ==> e@.error == Some(m@),
        e.error is None ==> e@.error is None,
        e@.redirect_chain.len() == e.redirect_chain@.len(),
        0 <= i < e.redirect_chain@.len() ==> e@.redirect_chain[i] == e.redirect_chain@[i]@,
{
}

/// The model of an entry of the machine-readable report has all that it holds.
pub proof fn law_json_check(c: JsonCheck<'_>, i: int)
    ensures
        c@.url == c.url@,
        c@.place == c.location@,
        c@.status == c.status@,
        c@.http_status == c.http_status,
        c.error matches Some(m) ==> c@.error == Some(m@),
        c.error is None ==> c@.error is None,
        c@.redirect_chain.len() == c.redirect_chain@.len(),
        0 <= i < c.redirect_chain@.len() ==> c@.redirect_chain[i] == c.redirect_chain@[i]@,
{
}

/// The models of answers and of parsed URLs have what these hold.
pub proof fn law_answer(a: Answer, p: ParsedUrl)
    ensures
        a@.status == a.status,
        a.location matches Some(l) ==> a@.location == Some(l@),
        a.location is None ==> a@.location is None,
        p@.0 == p.text@,
        p.host matches Some(h) ==> p@.1 == Some(h@),
        p.host is None ==> p@.1 is None,
{
}

} // verus!
