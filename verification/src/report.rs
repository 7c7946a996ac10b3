//! Reporting: entries, their order, the summary, the exit code and the output.
use vstd::prelude::*;

use crate::check::{
    clone_chain, clone_message, results_view, HopModel, RedirectHop, ResultModel, ResultsByUrl,
    Status,
};
use crate::extract::{LinkModel, Location, Malformed, MalformedModel, Occurrence, Place, Problem};
use crate::order::{
    is_before, lemma_place_asymmetric, lemma_place_transitive, place_less,
};
use crate::text::{decimal, decimal_string, option_view, views};

verus! {

/// What is reported of a link.
#[derive(Clone, Copy, Debug, PartialEq, Eq, Structural)]
pub enum Kind {
    Okay,
    Broken,
    Redirect,
    Error,
    Malformed,
}

/// One reported link, with its check result where it was checked.
#[derive(Debug)]
pub struct Entry {
    pub url: String,
    pub location: Location,
    pub kind: Kind,
    pub http_status: Option<u16>,
    pub redirect_chain: Vec<RedirectHop>,
    /// Where a redirect that was left unfollowed leads.
    pub redirect_target: Option<String>,
    pub error: Option<String>,
}

/// How many entries there are of each kind.
#[derive(Debug)]
pub struct Summary {
    pub total: usize,
    pub ok: usize,
    pub broken: usize,
    pub redirects: usize,
    pub errors: usize,
    pub malformed: usize,
}

/// The model of an [`Entry`].
#[verifier::ext_equal]
pub struct EntryModel {
    pub url: Seq<char>,
    pub place: Place,
    pub kind: Kind,
    pub http_status: Option<u16>,
    pub redirect_chain: Seq<HopModel>,
    pub redirect_target: Option<Seq<char>>,
    pub error: Option<Seq<char>>,
}

impl View for Entry {
    type V = EntryModel;

    open spec fn view(&self) -> EntryModel {
        EntryModel {
            url: self.url@,
            place: self.location@,
            kind: self.kind,
            http_status: self.http_status,
            redirect_chain: views(self.redirect_chain@),
            redirect_target: option_view(self.redirect_target),
            error: option_view(self.error),
        }
    }
}

/// The name of a kind.
pub open spec fn kind_name(kind: Kind) -> Seq<char> {
    match kind {
        Kind::Okay => "ok"@,
        Kind::Broken => "broken"@,
        Kind::Redirect => "redirect"@,
        Kind::Error => "error"@,
        Kind::Malformed => "malformed"@,
    }
}

impl Kind {
    /// The name of a kind.
    pub fn as_str(&self) -> (name: &'static str)
        ensures
            name@ == kind_name(*self),
    {
        match self {
            Kind::Okay => "ok",
            Kind::Broken => "broken",
            Kind::Redirect => "redirect",
            Kind::Error => "error",
            Kind::Malformed => "malformed",
        }
    }
}

impl Default for Summary {
    fn default() -> (s: Summary)
        ensures
            s.total == 0 && s.ok == 0 && s.broken == 0,
            s.redirects == 0 && s.errors == 0 && s.malformed == 0,
    {
        Summary { total: 0, ok: 0, broken: 0, redirects: 0, errors: 0, malformed: 0 }
    }
}

/// The kind of entry that a check with a given status makes.
pub open spec fn kind_for(status: Status) -> Kind {
    match status {
        Status::Okay => Kind::Okay,
        Status::Broken => Kind::Broken,
        Status::Redirect => Kind::Redirect,
        Status::Error => Kind::Error,
    }
}

/// The label of a problem.
pub open spec fn label(problem: Problem) -> Seq<char> {
    match problem {
        Problem::EmptyUrl => "empty url"@,
        Problem::InvalidUrl => "bad url"@,
        Problem::MissingHost => "missing host"@,
        Problem::UnmatchedBrackets => "unmatched brackets"@,
        Problem::UnbalancedTitle => "unbalanced title"@,
    }
}

/// The entry for a link. A link that was never checked is reported as an error.
pub open spec fn link_entry(link: LinkModel, by_url: Map<Seq<char>, ResultModel>) -> EntryModel {
    if by_url.contains_key(link.url) {
        let r = by_url[link.url];
        EntryModel {
            url: link.url,
            place: link.place,
            kind: kind_for(r.status),
            http_status: r.http_status,
            redirect_chain: r.redirect_chain,
            redirect_target: r.redirect_target,
            error: r.error,
        }
    } else {
        EntryModel {
            url: link.url,
            place: link.place,
            kind: Kind::Error,
            http_status: None,
            redirect_chain: seq![],
            redirect_target: None,
            error: Some("skipped (fail-fast)"@),
        }
    }
}

/// The entry for a malformed link.
pub open spec fn malformed_entry(m: MalformedModel) -> EntryModel {
    EntryModel {
        url: m.url,
        place: m.place,
        kind: Kind::Malformed,
        http_status: None,
        redirect_chain: seq![],
        redirect_target: None,
        error: Some(label(m.problem)),
    }
}

/// The entries for links and then malformed links, in the order given.
pub open spec fn entries_for(
    links: Seq<LinkModel>,
    malformed: Seq<MalformedModel>,
    by_url: Map<Seq<char>, ResultModel>,
) -> Seq<EntryModel> {
    Seq::new(links.len(), |i: int| link_entry(links[i], by_url)) + Seq::new(
        malformed.len(),
        |i: int| malformed_entry(malformed[i]),
    )
}

/// Item `i` is to come before item `j`: by place, and where the places are
/// equal, in the order given.
pub open spec fn comes_before(items: Seq<EntryModel>, i: int, j: int) -> bool {
    ||| place_less(items[i].place, items[j].place)
    ||| !place_less(items[j].place, items[i].place) && i < j
}

/// `order` lists the positions of all items, each where it is to come.
pub open spec fn is_order(items: Seq<EntryModel>, order: Seq<int>) -> bool {
    &&& order.len() == items.len()
    &&& forall|k: int| 0 <= k < order.len() ==> 0 <= #[trigger] order[k] < items.len()
    &&& forall|i: int| 0 <= i < items.len() ==> #[trigger] order.contains(i)
    &&& forall|a: int, b: int|
        0 <= a < b < order.len() ==> comes_before(items, #[trigger] order[a], #[trigger] order[b])
}

/// The items at the positions that `order` lists.
pub open spec fn arranged(items: Seq<EntryModel>, order: Seq<int>) -> Seq<EntryModel> {
    Seq::new(order.len(), |k: int| items[order[k]])
}

/// `sorted` holds the items of `items`, ordered by place. Items with the same
/// place stay in the order given.
pub open spec fn is_sorted_form(sorted: Seq<EntryModel>, items: Seq<EntryModel>) -> bool {
    exists|order: Seq<int>| #[trigger] is_order(items, order) && sorted == arranged(items, order)
}

/// Putting one more item after those whose place is not after its own keeps
/// the order.
proof fn lemma_insert(
    items: Seq<EntryModel>,
    order: Seq<int>,
    sorted: Seq<EntryModel>,
    e: EntryModel,
    p: int,
)
    requires
        is_order(items, order),
        sorted == arranged(items, order),
        0 <= p <= sorted.len(),
        p > 0 ==> !place_less(e.place, sorted[p - 1].place),
        forall|k: int| p <= k < sorted.len() ==> place_less(e.place, #[trigger] sorted[k].place),
    ensures
        is_order(items.push(e), order.insert(p, items.len() as int)),
        sorted.insert(p, e) == arranged(items.push(e), order.insert(p, items.len() as int)),
{
    let n = items.len() as int;
    let new_items = items.push(e);
    let new_order = order.insert(p, n);
    assert forall|k: int| 0 <= k < p implies !place_less(e.place, #[trigger] sorted[k].place) by {
        if k < p - 1 {
            assert(comes_before(items, order[k], order[p - 1]));
            lemma_place_transitive(e.place, sorted[k].place, sorted[p - 1].place);
            lemma_place_asymmetric(sorted[k].place, sorted[p - 1].place);
        }
    }
    assert forall|i: int| 0 <= i < new_items.len() implies #[trigger] new_order.contains(i) by {
        if i == n {
            assert(new_order[p] == n);
        } else {
            assert(order.contains(i));
            let k = order.index_of(i);
            assert(order[k] == i);
            if k < p {
                assert(new_order[k] == i);
            } else {
                assert(new_order[k + 1] == i);
            }
        }
    }
    assert forall|a: int, b: int| 0 <= a < b < new_order.len() implies comes_before(
        new_items,
        #[trigger] new_order[a],
        #[trigger] new_order[b],
    ) by {
        if a < p && b == p {
            assert(new_order[a] == order[a]);
            assert(!place_less(e.place, sorted[a].place));
        } else if a == p {
            assert(new_order[b] == order[b - 1]);
            assert(place_less(e.place, sorted[b - 1].place));
        } else {
            let x = if a < p { a } else { a - 1 };
            let y = if b < p { b } else { b - 1 };
            assert(new_order[a] == order[x]);
            assert(new_order[b] == order[y]);
            assert(comes_before(items, order[x], order[y]));
        }
    }
    assert(sorted.insert(p, e) =~= arranged(new_items, new_order));
}

/// Puts an entry where it belongs among sorted entries, after those with the
/// same place.
fn insert_entry(entries: &mut Vec<Entry>, e: Entry, Ghost(items): Ghost<Seq<EntryModel>>)
    requires
        is_sorted_form(views(old(entries)@), items),
    ensures
        is_sorted_form(views(final(entries)@), items.push(e@)),
{
    let ghost order = choose|order: Seq<int>|
        #[trigger] is_order(items, order) && views(entries@) == arranged(items, order);
    let ghost sorted = views(entries@);
    let mut p: usize = entries.len();
    while p > 0 && is_before(&e.location, &entries[p - 1].location)
        invariant
            p <= entries@.len(),
            sorted == views(entries@),
            forall|k: int|
                p <= k < sorted.len() ==> place_less(e@.place, #[trigger] sorted[k].place),
        decreases p,
    {
        p -= 1;
        assert(sorted[p as int] == entries@[p as int]@);
    }
    proof {
        if p > 0 {
            assert(sorted[p - 1] == entries@[p - 1]@);
        }
        lemma_insert(items, order, sorted, e@, p as int);
        assert(views(entries@.insert(p as int, e)) =~= sorted.insert(p as int, e@));
    }
    entries.insert(p, e);
}

/// The label of a problem.
pub fn problem_label(problem: &Problem) -> (s: &'static str)
    ensures
        s@ == label(*problem),
{
    match problem {
        Problem::EmptyUrl => "empty url",
        Problem::InvalidUrl => "bad url",
        Problem::MissingHost => "missing host",
        Problem::UnmatchedBrackets => "unmatched brackets",
        Problem::UnbalancedTitle => "unbalanced title",
    }
}

/// The entry for a link.
pub fn entry_for_link(link: &Occurrence, by_url: &ResultsByUrl) -> (e: Entry)
    ensures
        e@ == link_entry(link@, results_view(*by_url)),
{
    let e = match by_url.get(link.url.as_str()) {
        Some(r) => Entry {
            url: link.url.clone(),
            location: link.location.clone(),
            kind: match r.status {
                Status::Okay => Kind::Okay,
                Status::Broken => Kind::Broken,
                Status::Redirect => Kind::Redirect,
                Status::Error => Kind::Error,
            },
            http_status: r.http_status,
            redirect_chain: clone_chain(&r.redirect_chain),
            redirect_target: clone_message(&r.redirect_target),
            error: clone_message(&r.error),
        },
        None => Entry {
            url: link.url.clone(),
            location: link.location.clone(),
            kind: Kind::Error,
            http_status: None,
            redirect_chain: Vec::new(),
            redirect_target: None,
            error: Some("skipped (fail-fast)".to_owned()),
        },
    };
    assert(e@ =~= link_entry(link@, results_view(*by_url)));
    e
}

/// The entry for a malformed link.
pub fn entry_for_malformed(m: &Malformed) -> (e: Entry)
    ensures
        e@ == malformed_entry(m@),
{
    let e = Entry {
        url: m.url.clone(),
        location: m.location.clone(),
        kind: Kind::Malformed,
        http_status: None,
        redirect_chain: Vec::new(),
        redirect_target: None,
        error: Some(problem_label(&m.problem).to_owned()),
    };
    assert(e@ =~= malformed_entry(m@));
    e
}

/// The entries for all links and malformed links, ordered by file, line and
/// column.
pub fn build_entries(
    occurrences: &[Occurrence],
    malformed: &[Malformed],
    by_url: &ResultsByUrl,
) -> (entries: Vec<Entry>)
    ensures
        is_sorted_form(
            views(entries@),
            entries_for(views(occurrences@), views(malformed@), results_view(*by_url)),
        ),
{
    let ghost links = views(occurrences@);
    let ghost bad = views(malformed@);
    let ghost results = results_view(*by_url);
    let ghost all = entries_for(links, bad, results);
    let mut entries: Vec<Entry> = Vec::new();
    proof {
        assert(is_order(seq![], seq![]));
        assert(views(entries@) =~= arranged(seq![], seq![]));
        assert(all.take(0) =~= seq![]);
    }
    let mut i: usize = 0;
    while i < occurrences.len()
        invariant
            i <= occurrences@.len(),
            links == views(occurrences@),
            bad == views(malformed@),
            results == results_view(*by_url),
            all == entries_for(links, bad, results),
            is_sorted_form(views(entries@), all.take(i as int)),
        decreases occurrences@.len() - i,
    {
        let e = entry_for_link(&occurrences[i], by_url);
        assert(all.take(i + 1) =~= all.take(i as int).push(e@));
        insert_entry(&mut entries, e, Ghost(all.take(i as int)));
        i += 1;
    }
    let mut j: usize = 0;
    while j < malformed.len()
        invariant
            j <= malformed@.len(),
            links.len() == occurrences@.len(),
            bad == views(malformed@),
            all == entries_for(links, bad, results),
            is_sorted_form(views(entries@), all.take(links.len() + j)),
        decreases malformed@.len() - j,
    {
        let e = entry_for_malformed(&malformed[j]);
        assert(all.take(links.len() + j + 1) =~= all.take(links.len() + j).push(e@));
        insert_entry(&mut entries, e, Ghost(all.take(links.len() + j)));
        j += 1;
    }
    assert(all.take(links.len() + j) =~= all);
    entries
}

/// How many of `entries` are of kind `kind`.
pub open spec fn count_kind(entries: Seq<EntryModel>, kind: Kind) -> nat
    decreases entries.len(),
{
    if entries.len() == 0 {
        0
    } else {
        let before = count_kind(entries.drop_last(), kind);
        if entries.last().kind == kind {
            before + 1
        } else {
            before
        }
    }
}

/// `s` counts the entries of each kind.
pub open spec fn summarizes(s: Summary, entries: Seq<EntryModel>) -> bool {
    &&& s.total == entries.len()
    &&& s.ok == count_kind(entries, Kind::Okay)
    &&& s.broken == count_kind(entries, Kind::Broken)
    &&& s.redirects == count_kind(entries, Kind::Redirect)
    &&& s.errors == count_kind(entries, Kind::Error)
    &&& s.malformed == count_kind(entries, Kind::Malformed)
}

/// Every entry is counted once.
pub proof fn law_kinds_add_up(entries: Seq<EntryModel>)
    ensures
        count_kind(entries, Kind::Okay) + count_kind(entries, Kind::Broken) + count_kind(
            entries,
            Kind::Redirect,
        ) + count_kind(entries, Kind::Error) + count_kind(entries, Kind::Malformed)
            == entries.len(),
    decreases entries.len(),
{
    if entries.len() > 0 {
        law_kinds_add_up(entries.drop_last());
    }
}

/// Counts the entries of each kind.
pub fn summarize(entries: &[Entry]) -> (s: Summary)
    ensures
        summarizes(s, views(entries@)),
        s.total == s.ok + s.broken + s.redirects + s.errors + s.malformed,
{
    let ghost all = views(entries@);
    let mut s = Summary::default();
    s.total = entries.len();
    let mut i: usize = 0;
    assert(all.take(0) =~= seq![]);
    while i < entries.len()
        invariant
            i <= entries.len(),
            all == views(entries@),
            s.total == entries@.len(),
            s.ok == count_kind(all.take(i as int), Kind::Okay),
            s.broken == count_kind(all.take(i as int), Kind::Broken),
            s.redirects == count_kind(all.take(i as int), Kind::Redirect),
            s.errors == count_kind(all.take(i as int), Kind::Error),
            s.malformed == count_kind(all.take(i as int), Kind::Malformed),
        decreases entries@.len() - i,
    {
        proof {
            law_kinds_add_up(all.take(i as int));
            assert(all.take(i + 1).drop_last() =~= all.take(i as int));
            assert(all.take(i + 1).last() == entries@[i as int]@);
        }
        match entries[i].kind {
            Kind::Okay => {
                s.ok += 1;
            },
            Kind::Broken => {
                s.broken += 1;
            },
            Kind::Redirect => {
                s.redirects += 1;
            },
            Kind::Error => {
                s.errors += 1;
            },
            Kind::Malformed => {
                s.malformed += 1;
            },
        }
        i += 1;
    }
    proof {
        assert(all.take(i as int) =~= all);
        law_kinds_add_up(all);
    }
    s
}

/// A status code of a redirect.
pub open spec fn is_3xx(status: Option<u16>) -> bool {
    status matches Some(code) && 300 <= code < 400
}

/// A redirect that was not followed: the reply itself was a redirect, and no
/// other came before it.
pub open spec fn left_unfollowed(e: EntryModel) -> bool {
    e.redirect_chain.len() == 0 && is_3xx(e.http_status)
}

/// An entry that makes the run fail: a broken link, or a redirect that was not
/// followed.
pub open spec fn is_failure(e: EntryModel) -> bool {
    e.kind == Kind::Broken || (e.kind == Kind::Redirect && left_unfollowed(e))
}

/// One of `entries` makes the run fail.
pub open spec fn has_failure(entries: Seq<EntryModel>) -> bool {
    exists|i: int| 0 <= i < entries.len() && is_failure(#[trigger] entries[i])
}

/// Whether a status code is that of a redirect.
pub fn http_is_3xx(status: Option<u16>) -> (r: bool)
    ensures
        r == is_3xx(status),
{
    match status {
        Some(code) => 300 <= code && code < 400,
        None => false,
    }
}

/// Whether a redirect was not followed.
pub fn is_unfollowed(e: &Entry) -> (r: bool)
    ensures
        r == left_unfollowed(e@),
{
    e.redirect_chain.len() == 0 && http_is_3xx(e.http_status)
}

/// Whether an entry makes the run fail.
pub fn fails(e: &Entry) -> (r: bool)
    ensures
        r == is_failure(e@),
        e.kind == Kind::Broken ==> r,
{
    match e.kind {
        Kind::Broken => true,
        Kind::Redirect => is_unfollowed(e),
        _ => false,
    }
}

/// The exit code: 1 where an entry makes the run fail, else 0.
pub fn exit_code(entries: &[Entry]) -> (code: i32)
    ensures
        code == (if has_failure(views(entries@)) {
            1int
        } else {
            0int
        }),
        (exists|i: int| 0 <= i < entries@.len() && (#[trigger] entries@[i]).kind == Kind::Broken)
            ==> code == 1,
{
    let ghost all = views(entries@);
    let mut i: usize = 0;
    while i < entries.len()
        invariant
            i <= entries@.len(),
            all == views(entries@),
            forall|k: int| 0 <= k < i ==> !is_failure(#[trigger] all[k]),
            forall|k: int| 0 <= k < i ==> (#[trigger] entries@[k]).kind != Kind::Broken,
        decreases entries@.len() - i,
    {
        assert(all[i as int] == entries@[i as int]@);
        if fails(&entries[i]) {
            return 1;
        }
        i += 1;
    }
    0
}

/// An optional status code in text, a dash where there is none.
pub open spec fn status_text(status: Option<u16>) -> Seq<char> {
    match status {
        Some(code) => decimal(code as int),
        None => "-"@,
    }
}

/// `items` with arrows between them.
pub open spec fn arrows(items: Seq<Seq<char>>) -> Seq<char>
    decreases items.len(),
{
    if items.len() == 0 {
        seq![]
    } else if items.len() == 1 {
        items[0]
    } else {
        arrows(items.drop_last()) + " -> "@ + items.last()
    }
}

/// The status codes on the way: those of the redirects in `chain`, then `last`.
pub open spec fn statuses(chain: Seq<HopModel>, last: Option<u16>) -> Seq<Seq<char>> {
    Seq::new(chain.len(), |i: int| decimal(chain[i].status as int)).push(status_text(last))
}

/// The URLs on the way: `url`, then where the redirects in `chain` lead.
pub open spec fn stations(url: Seq<char>, chain: Seq<HopModel>) -> Seq<Seq<char>> {
    seq![url] + Seq::new(chain.len(), |i: int| chain[i].url)
}

/// `name` filled up with blanks to 8 characters.
pub open spec fn padded(name: Seq<char>) -> Seq<char> {
    if name.len() < 8 {
        name + Seq::new((8 - name.len()) as nat, |i: int| ' ')
    } else {
        name
    }
}

/// The line for a redirect: the statuses and the URLs on the way where it was
/// followed, else the status, the URL and, as far as is known, where it leads.
pub open spec fn redirect_text(e: EntryModel) -> Seq<char> {
    if e.redirect_chain.len() > 0 {
        "REDIRECT "@ + arrows(statuses(e.redirect_chain, e.http_status)) + " "@ + arrows(
            stations(e.url, e.redirect_chain),
        )
    } else if left_unfollowed(e) {
        "REDIRECT (unfollowed) "@ + status_text(e.http_status) + " "@ + e.url + (
        match e.redirect_target {
            Some(target) => " -> "@ + target,
            None => seq![],
        })
    } else {
        "REDIRECT "@ + status_text(e.http_status) + " "@ + e.url
    }
}

/// The value, or `other` where there is none.
pub open spec fn or_else(value: Option<Seq<char>>, other: Seq<char>) -> Seq<char> {
    match value {
        Some(v) => v,
        None => other,
    }
}

/// The line for an entry, without the line feed at its end.
pub open spec fn entry_text(e: EntryModel) -> Seq<char> {
    match e.kind {
        Kind::Okay => padded("OK"@) + " "@ + status_text(e.http_status) + " "@ + e.url,
        Kind::Broken => padded("BROKEN"@) + " "@ + status_text(e.http_status) + " "@ + e.url,
        Kind::Redirect => redirect_text(e),
        Kind::Error => padded("ERROR"@) + " "@ + or_else(e.error, "unknown error"@) + " "@ + e.url,
        Kind::Malformed => "MALFORMED "@ + or_else(e.error, "bad url"@) + " \""@ + e.url + "\" ("@
            + e.place.file + ":"@ + decimal(e.place.line) + ")"@,
    }
}

/// The text for entries: one line each.
pub open spec fn text_of(entries: Seq<EntryModel>) -> Seq<char>
    decreases entries.len(),
{
    if entries.len() == 0 {
        seq![]
    } else {
        text_of(entries.drop_last()) + entry_text(entries.last()).push('\n')
    }
}

/// The entries that make the run fail.
pub open spec fn failures(entries: Seq<EntryModel>) -> Seq<EntryModel>
    decreases entries.len(),
{
    if entries.len() == 0 {
        seq![]
    } else if is_failure(entries.last()) {
        failures(entries.drop_last()).push(entries.last())
    } else {
        failures(entries.drop_last())
    }
}

fn status_string(status: Option<u16>) -> (s: String)
    ensures
        s@ == status_text(status),
{
    match status {
        Some(code) => decimal_string(code as usize),
        None => "-".to_owned(),
    }
}

fn arrows_string(items: &Vec<String>) -> (s: String)
    ensures
        s@ == arrows(views(items@)),
{
    let ghost all = views(items@);
    let mut s = String::new();
    let mut i: usize = 0;
    assert(all.take(0) =~= seq![]);
    while i < items.len()
        invariant
            i <= items@.len(),
            all == views(items@),
            s@ == arrows(all.take(i as int)),
        decreases items@.len() - i,
    {
        let ghost before = s@;
        if i > 0 {
            s.append(" -> ");
        }
        s.append(items[i].as_str());
        proof {
            let item = all[i as int];
            assert(all.take(i + 1).drop_last() =~= all.take(i as int));
            assert(all.take(i + 1).last() == item);
            assert(all.take(i + 1)[0] == all[0]);
            if i > 0 {
                assert(s@ =~= before + " -> "@ + item);
            } else {
                assert(s@ =~= item);
            }
        }
        i += 1;
    }
    assert(all.take(i as int) =~= all);
    s
}

fn status_strings(chain: &Vec<RedirectHop>, last: Option<u16>) -> (r: Vec<String>)
    ensures
        views(r@) == statuses(views(chain@), last),
{
    let ghost all = statuses(views(chain@), last);
    let mut r: Vec<String> = Vec::new();
    let mut i: usize = 0;
    while i < chain.len()
        invariant
            i <= chain@.len(),
            all == statuses(views(chain@), last),
            views(r@) =~= all.take(i as int),
        decreases chain@.len() - i,
    {
        let ghost before = r@;
        let status = decimal_string(chain[i].status as usize);
        r.push(status);
        assert(views(r@) =~= views(before).push(status@));
        i += 1;
    }
    let ghost before = r@;
    let status = status_string(last);
    r.push(status);
    assert(views(r@) =~= views(before).push(status@));
    assert(views(r@) =~= all);
    r
}

fn station_strings(url: &String, chain: &Vec<RedirectHop>) -> (r: Vec<String>)
    ensures
        views(r@) == stations(url@, views(chain@)),
{
    let ghost all = stations(url@, views(chain@));
    let mut r: Vec<String> = Vec::new();
    r.push(url.clone());
    let mut i: usize = 0;
    while i < chain.len()
        invariant
            i <= chain@.len(),
            all == stations(url@, views(chain@)),
            views(r@) =~= all.take(i + 1),
        decreases chain@.len() - i,
    {
        let ghost before = r@;
        let station = chain[i].url.clone();
        r.push(station);
        assert(views(r@) =~= views(before).push(station@));
        i += 1;
    }
    assert(views(r@) =~= all);
    r
}

/// The line for a redirect.
fn redirect_line(e: &Entry) -> (s: String)
    ensures
        s@ == redirect_text(e@),
{
    let mut s = String::new();
    if e.redirect_chain.len() > 0 {
        s.append("REDIRECT ");
        let codes = arrows_string(&status_strings(&e.redirect_chain, e.http_status));
        s.append(codes.as_str());
        s.append(" ");
        let urls = arrows_string(&station_strings(&e.url, &e.redirect_chain));
        s.append(urls.as_str());
    } else {
        if is_unfollowed(e) {
            s.append("REDIRECT (unfollowed) ");
        } else {
            s.append("REDIRECT ");
        }
        let status = status_string(e.http_status);
        s.append(status.as_str());
        s.append(" ");
        s.append(e.url.as_str());
        if is_unfollowed(e) {
            match &e.redirect_target {
                Some(target) => {
                    s.append(" -> ");
                    s.append(target.as_str());
                },
                None => {},
            }
        }
    }
    assert(s@ =~= redirect_text(e@));
    s
}

/// The line for an entry, without the line feed at its end.
pub fn entry_line(e: &Entry) -> (s: String)
    ensures
        s@ == entry_text(e@),
{
    proof {
        reveal_strlit("OK");
        reveal_strlit("BROKEN");
        reveal_strlit("ERROR");
        reveal_strlit(" ");
        reveal_strlit("OK       ");
        reveal_strlit("BROKEN   ");
        reveal_strlit("ERROR    ");
        assert("OK       "@ =~= padded("OK"@) + " "@);
        assert("BROKEN   "@ =~= padded("BROKEN"@) + " "@);
        assert("ERROR    "@ =~= padded("ERROR"@) + " "@);
    }
    let mut s = String::new();
    match e.kind {
        Kind::Okay | Kind::Broken => {
            match e.kind {
                Kind::Okay => s.append("OK       "),
                _ => s.append("BROKEN   "),
            }
            let status = status_string(e.http_status);
            s.append(status.as_str());
            s.append(" ");
            s.append(e.url.as_str());
        },
        Kind::Redirect => {
            return redirect_line(e);
        },
        Kind::Error => {
            s.append("ERROR    ");
            match &e.error {
                Some(message) => s.append(message.as_str()),
                None => s.append("unknown error"),
            }
            s.append(" ");
            s.append(e.url.as_str());
        },
        Kind::Malformed => {
            s.append("MALFORMED ");
            match &e.error {
                Some(message) => s.append(message.as_str()),
                None => s.append("bad url"),
            }
            s.append(" \"");
            s.append(e.url.as_str());
            s.append("\" (");
            s.append(e.location.file.as_str());
            s.append(":");
            let line = decimal_string(e.location.line);
            s.append(line.as_str());
            s.append(")");
        },
    }
    assert(s@ =~= entry_text(e@));
    s
}

/// The report in text, one line per entry.
pub fn render_text(entries: &[Entry]) -> (out: String)
    ensures
        out@ == text_of(views(entries@)),
{
    let ghost all = views(entries@);
    let mut out = String::new();
    let mut i: usize = 0;
    assert(all.take(0) =~= seq![]);
    while i < entries.len()
        invariant
            i <= entries@.len(),
            all == views(entries@),
            out@ == text_of(all.take(i as int)),
        decreases entries@.len() - i,
    {
        let ghost before = out@;
        let line = entry_line(&entries[i]);
        out.append(line.as_str());
        out.push('\n');
        proof {
            assert(all.take(i + 1).drop_last() =~= all.take(i as int));
            assert(all.take(i + 1).last() == entries@[i as int]@);
            assert(out@ =~= before + line@.push('\n'));
        }
        i += 1;
    }
    assert(all.take(i as int) =~= all);
    out
}

/// The report in text with only the entries that make the run fail.
pub fn render_quiet(entries: &[Entry]) -> (out: String)
    ensures
        out@ == text_of(failures(views(entries@))),
{
    let ghost all = views(entries@);
    let mut out = String::new();
    let mut i: usize = 0;
    assert(all.take(0) =~= seq![]);
    while i < entries.len()
        invariant
            i <= entries@.len(),
            all == views(entries@),
            out@ == text_of(failures(all.take(i as int))),
        decreases entries@.len() - i,
    {
        let ghost before = out@;
        proof {
            assert(all.take(i + 1).drop_last() =~= all.take(i as int));
            assert(all.take(i + 1).last() == entries@[i as int]@);
        }
        if fails(&entries[i]) {
            let line = entry_line(&entries[i]);
            out.append(line.as_str());
            out.push('\n');
            proof {
                let f = failures(all.take(i as int));
                assert(f.push(all[i as int]).drop_last() =~= f);
                assert(out@ =~= before + line@.push('\n'));
            }
        }
        i += 1;
    }
    assert(all.take(i as int) =~= all);
    out
}

/// The machine-readable report.
pub struct JsonReport<'a> {
    pub version: u32,
    pub files: Vec<&'a str>,
    pub summary: JsonSummary,
    pub checks: Vec<JsonCheck<'a>>,
}

/// The summary of a machine-readable report.
pub struct JsonSummary {
    pub total: usize,
    pub ok: usize,
    pub broken: usize,
    pub redirects: usize,
    pub errors: usize,
    pub malformed: usize,
}

/// One entry of a machine-readable report.
pub struct JsonCheck<'a> {
    pub url: &'a str,
    pub location: JsonLocation,
    pub status: &'a str,
    pub http_status: Option<u16>,
    pub redirect_chain: Vec<JsonHop>,
    pub error: Option<&'a str>,
}

/// A place in a machine-readable report.
pub struct JsonLocation {
    pub file: String,
    pub line: usize,
    pub column: usize,
}

/// A redirect in a machine-readable report.
pub struct JsonHop {
    pub status: u16,
    pub url: String,
}

/// The model of a [`JsonCheck`].
#[verifier::ext_equal]
pub struct JsonCheckModel {
    pub url: Seq<char>,
    pub place: Place,
    pub status: Seq<char>,
    pub http_status: Option<u16>,
    pub redirect_chain: Seq<HopModel>,
    pub error: Option<Seq<char>>,
}

impl View for JsonLocation {
    type V = Place;

    open spec fn view(&self) -> Place {
        Place { file: self.file@, line: self.line as int, column: self.column as int }
    }
}

impl View for JsonHop {
    type V = HopModel;

    open spec fn view(&self) -> HopModel {
        HopModel { status: self.status, url: self.url@ }
    }
}

impl<'a> View for JsonCheck<'a> {
    type V = JsonCheckModel;

    open spec fn view(&self) -> JsonCheckModel {
        JsonCheckModel {
            url: self.url@,
            place: self.location@,
            status: self.status@,
            http_status: self.http_status,
            redirect_chain: views(self.redirect_chain@),
            error: option_view(self.error),
        }
    }
}

/// An entry of the machine-readable report. Only an error has a message there.
pub open spec fn json_check(e: EntryModel) -> JsonCheckModel {
    JsonCheckModel {
        url: e.url,
        place: e.place,
        status: kind_name(e.kind),
        http_status: e.http_status,
        redirect_chain: e.redirect_chain,
        error: if e.kind == Kind::Error {
            e.error
        } else {
            None
        },
    }
}

/// The machine-readable entry for an entry.
pub fn json_check_for<'a>(e: &'a Entry) -> (check: JsonCheck<'a>)
    ensures
        check@ == json_check(e@),
        check.location.file@ == e.location.file@,
        check.location.line == e.location.line,
        check.location.column == e.location.column,
{
    let mut hops: Vec<JsonHop> = Vec::new();
    let mut i: usize = 0;
    while i < e.redirect_chain.len()
        invariant
            i <= e.redirect_chain@.len(),
            views(hops@) =~= views(e.redirect_chain@).take(i as int),
        decreases e.redirect_chain@.len() - i,
    {
        let hop = JsonHop {
            status: e.redirect_chain[i].status,
            url: e.redirect_chain[i].url.clone(),
        };
        let ghost before = hops@;
        hops.push(hop);
        assert(views(hops@) =~= views(before).push(hop@));
        i += 1;
    }
    let check = JsonCheck {
        url: e.url.as_str(),
        location: JsonLocation {
            file: e.location.file.clone(),
            line: e.location.line,
            column: e.location.column,
        },
        status: e.kind.as_str(),
        http_status: e.http_status,
        redirect_chain: hops,
        error: match (e.kind, &e.error) {
            (Kind::Error, Some(message)) => Some(message.as_str()),
            _ => None,
        },
    };
    assert(check@ =~= json_check(e@));
    check
}

/// `a` has the file, the line and the column of `b`.
pub open spec fn is_at(a: JsonLocation, b: Location) -> bool {
    a.file@ == b.file@ && a.line == b.line && a.column == b.column
}

/// The machine-readable report on `files`.
pub fn json_report<'a>(files: &'a [String], entries: &'a [Entry]) -> (r: JsonReport<'a>)
    ensures
        r.version == 1,
        views(r.files@) == views(files@),
        r.checks@.len() == entries@.len(),
        forall|i: int|
            0 <= i < entries@.len() ==> #[trigger] r.checks@[i]@ == json_check(entries@[i]@),
        forall|i: int|
            0 <= i < entries@.len() ==> is_at(
                (#[trigger] r.checks@[i]).location,
                entries@[i].location,
            ),
        summarizes(
            Summary {
                total: r.summary.total,
                ok: r.summary.ok,
                broken: r.summary.broken,
                redirects: r.summary.redirects,
                errors: r.summary.errors,
                malformed: r.summary.malformed,
            },
            views(entries@),
        ),
{
    let s = summarize(entries);
    let mut names: Vec<&'a str> = Vec::new();
    let mut i: usize = 0;
    while i < files.len()
        invariant
            i <= files@.len(),
            views(names@) =~= views(files@).take(i as int),
        decreases files@.len() - i,
    {
        let ghost before = names@;
        let name = files[i].as_str();
        names.push(name);
        assert(views(names@) =~= views(before).push(name@));
        i += 1;
    }
    let mut checks: Vec<JsonCheck<'a>> = Vec::new();
    let mut j: usize = 0;
    while j < entries.len()
        invariant
            j <= entries@.len(),
            checks@.len() == j,
            forall|k: int|
                0 <= k < j ==> #[trigger] checks@[k]@ == json_check(entries@[k]@),
            forall|k: int|
                0 <= k < j ==> is_at((#[trigger] checks@[k]).location, entries@[k].location),
        decreases entries@.len() - j,
    {
        checks.push(json_check_for(&entries[j]));
        j += 1;
    }
    JsonReport {
        version: 1,
        files: names,
        summary: JsonSummary {
            total: s.total,
            ok: s.ok,
            broken: s.broken,
            redirects: s.redirects,
            errors: s.errors,
            malformed: s.malformed,
        },
        checks,
    }
}

} // verus!
