//! Checking links: what a reply means, which request comes next, and when a
//! run is over. The requests themselves are made elsewhere.
use vstd::hash_map::StringHashMap;
use vstd::prelude::*;

use crate::text::{option_view, views};
use crate::urls::{parse_url, url_parse, ParsedUrl};

verus! {

/// A single redirect in a recorded chain.
#[derive(Debug, PartialEq, Eq)]
pub struct RedirectHop {
    pub status: u16,
    pub url: String,
}

/// The outcome of one check.
#[derive(Clone, Copy, Debug, PartialEq, Eq, Structural)]
pub enum Status {
    Okay,
    Broken,
    Redirect,
    Error,
}

/// The result of checking one URL.
#[derive(Debug)]
pub struct CheckResult {
    pub url: String,
    pub status: Status,
    pub http_status: Option<u16>,
    pub redirect_chain: Vec<RedirectHop>,
    /// A redirect was left unfollowed on request.
    pub redirect_unfollowed: bool,
    /// Where a redirect that was left unfollowed leads, as its `Location` header
    /// says.
    pub redirect_target: Option<String>,
    pub error: Option<String>,
}

/// The options of a run.
#[derive(Debug)]
pub struct CheckOptions {
    pub timeout_secs: u64,
    pub concurrency: usize,
    pub user_agent: String,
    pub follow_redirects: bool,
}

/// Check results by the URL that was checked.
pub type ResultsByUrl = StringHashMap<CheckResult>;

/// How many redirects of one request are followed.
pub const MAX_REDIRECTS: usize = 10;

/// The model of a [`RedirectHop`].
#[verifier::ext_equal]
pub struct HopModel {
    pub status: u16,
    pub url: Seq<char>,
}

/// The model of a [`CheckResult`].
#[verifier::ext_equal]
pub struct ResultModel {
    pub url: Seq<char>,
    pub status: Status,
    pub http_status: Option<u16>,
    pub redirect_chain: Seq<HopModel>,
    pub redirect_unfollowed: bool,
    pub redirect_target: Option<Seq<char>>,
    pub error: Option<Seq<char>>,
}

impl View for RedirectHop {
    type V = HopModel;

    open spec fn view(&self) -> HopModel {
        HopModel { status: self.status, url: self.url@ }
    }
}

impl View for CheckResult {
    type V = ResultModel;

    open spec fn view(&self) -> ResultModel {
        ResultModel {
            url: self.url@,
            status: self.status,
            http_status: self.http_status,
            redirect_chain: views(self.redirect_chain@),
            redirect_unfollowed: self.redirect_unfollowed,
            redirect_target: option_view(self.redirect_target),
            error: option_view(self.error),
        }
    }
}

impl Clone for RedirectHop {
    fn clone(&self) -> (r: Self)
        ensures
            r == *self,
    {
        RedirectHop { status: self.status, url: self.url.clone() }
    }
}

impl Clone for CheckOptions {
    fn clone(&self) -> (r: Self)
        ensures
            r == *self,
    {
        CheckOptions {
            timeout_secs: self.timeout_secs,
            concurrency: self.concurrency,
            user_agent: self.user_agent.clone(),
            follow_redirects: self.follow_redirects,
        }
    }
}

impl Clone for CheckResult {
    fn clone(&self) -> (r: Self)
        ensures
            r@ == self@,
    {
        let r = CheckResult {
            url: self.url.clone(),
            status: self.status,
            http_status: self.http_status,
            redirect_chain: clone_chain(&self.redirect_chain),
            redirect_unfollowed: self.redirect_unfollowed,
            redirect_target: clone_message(&self.redirect_target),
            error: clone_message(&self.error),
        };
        assert(r@ =~= self@);
        r
    }
}

/// A copy of a redirect chain.
pub fn clone_chain(chain: &Vec<RedirectHop>) -> (r: Vec<RedirectHop>)
    ensures
        views(r@) == views(chain@),
{
    let r = chain.clone();
    assert(r@ =~= chain@);
    r
}

/// A copy of an optional text.
pub fn clone_message(message: &Option<String>) -> (r: Option<String>)
    ensures
        option_view(r) == option_view(*message),
{
    match message {
        Some(m) => Some(m.clone()),
        None => None,
    }
}

/// The status that an HTTP status code and the redirects on the way stand for.
pub open spec fn status_for(code: u16, redirected: bool) -> Status {
    if 200 <= code < 300 {
        if redirected {
            Status::Redirect
        } else {
            Status::Okay
        }
    } else if 300 <= code < 400 {
        Status::Redirect
    } else if 400 <= code < 600 {
        Status::Broken
    } else {
        Status::Error
    }
}

/// The result for a reply with status `code` after the redirects in `chain`.
pub open spec fn replied(url: Seq<char>, code: u16, chain: Seq<HopModel>, follow: bool) -> ResultModel {
    ResultModel {
        url,
        status: status_for(code, chain.len() > 0),
        http_status: Some(code),
        redirect_chain: chain,
        redirect_unfollowed: 300 <= code < 400 && !follow,
        redirect_target: None,
        error: None,
    }
}

/// The result where no reply came.
pub open spec fn unanswered(url: Seq<char>, message: Seq<char>) -> ResultModel {
    ResultModel {
        url,
        status: Status::Error,
        http_status: None,
        redirect_chain: seq![],
        redirect_unfollowed: false,
        redirect_target: None,
        error: Some(message),
    }
}

/// Maps an HTTP status and a redirect chain to a result.
pub fn classify(url: &str, status: u16, chain: Vec<RedirectHop>, follow: bool) -> (r: CheckResult)
    ensures
        r@ == replied(url@, status, views(chain@), follow),
        400 <= status <= 599 ==> r.status == Status::Broken,
        300 <= status <= 399 ==> r.status == Status::Redirect,
        200 <= status <= 299 ==> r.status == (if chain@.len() == 0 {
            Status::Okay
        } else {
            Status::Redirect
        }),
        status < 200 || status > 599 ==> r.status == Status::Error,
        r.http_status == Some(status),
        r.redirect_unfollowed <==> 300 <= status <= 399 && !follow,
{
    let (kind, unfollowed) = if 200 <= status && status < 300 {
        if chain.len() == 0 {
            (Status::Okay, false)
        } else {
            (Status::Redirect, false)
        }
    } else if 300 <= status && status < 400 {
        (Status::Redirect, !follow)
    } else if 400 <= status && status < 600 {
        (Status::Broken, false)
    } else {
        (Status::Error, false)
    };
    CheckResult {
        url: url.to_owned(),
        status: kind,
        http_status: Some(status),
        redirect_chain: chain,
        redirect_unfollowed: unfollowed,
        redirect_target: None,
        error: None,
    }
}

/// The result for a request that got no reply.
pub fn transport_error(url: &str, msg: String) -> (r: CheckResult)
    ensures
        r@ == unanswered(url@, msg@),
{
    let r = CheckResult {
        url: url.to_owned(),
        status: Status::Error,
        http_status: None,
        redirect_chain: Vec::new(),
        redirect_unfollowed: false,
        redirect_target: None,
        error: Some(msg),
    };
    assert(views(r.redirect_chain@) =~= seq![]);
    r
}

/// The message for a request that got no reply, where `timed_out` tells whether it
/// was given up after the time allowed.
pub open spec fn failure_text(timed_out: bool, message: Seq<char>) -> Seq<char> {
    if timed_out {
        "timeout"@
    } else {
        message
    }
}

/// The message for a request that got no reply: `timeout` where it was given up
/// after the time allowed, else what the client said.
pub fn failure_message(timed_out: bool, message: String) -> (r: String)
    ensures
        r@ == (if timed_out {
            "timeout"@
        } else {
            message@
        }),
        r@ == failure_text(timed_out, message@),
{
    if timed_out {
        "timeout".to_owned()
    } else {
        message
    }
}

/// A result that stops a run that is to fail fast: a broken link, or a redirect
/// left unfollowed.
pub open spec fn is_reportable(r: ResultModel) -> bool {
    r.status == Status::Broken || (r.status == Status::Redirect && r.redirect_unfollowed)
}

/// Whether a result stops a run that is to fail fast.
pub fn reportable(r: &CheckResult) -> (b: bool)
    ensures
        b == is_reportable(r@),
        b <==> r.status == Status::Broken || (r.status == Status::Redirect
            && r.redirect_unfollowed),
{
    matches!(r.status, Status::Broken) || (matches!(r.status, Status::Redirect)
        && r.redirect_unfollowed)
}

/// What a server answers: the status code, and the `Location` header where there
/// is one.
pub struct Answer {
    pub status: u16,
    pub location: Option<String>,
}

/// The model of an [`Answer`].
#[verifier::ext_equal]
pub struct AnswerModel {
    pub status: u16,
    pub location: Option<Seq<char>>,
}

impl View for Answer {
    type V = AnswerModel;

    open spec fn view(&self) -> AnswerModel {
        AnswerModel { status: self.status, location: option_view(self.location) }
    }
}

/// A reply to a request: the answer, or why there is none.
pub type Reply = Result<Answer, String>;

/// The model of a [`Reply`].
pub open spec fn reply_view(r: Reply) -> Result<AnswerModel, Seq<char>> {
    match r {
        Ok(answer) => Ok(answer@),
        Err(message) => Err(message@),
    }
}

/// What follows the reply to a HEAD request.
pub enum NextStep {
    /// The check is over.
    Done(CheckResult),
    /// Ask again with GET. The redirects so far are kept.
    Get(Vec<RedirectHop>),
}

/// The status codes after which a HEAD request is repeated with GET.
pub open spec fn refuses_head(code: u16) -> bool {
    code == 405 || code == 400 || code == 501
}

/// The reply refuses the HEAD request.
pub open spec fn is_refusal(reply: Result<AnswerModel, Seq<char>>) -> bool {
    reply matches Ok(answer) && refuses_head(answer.status)
}

/// The result for an answer after the redirects in `chain`. Where a redirect is
/// left unfollowed, it tells where that leads.
pub open spec fn answered(
    url: Seq<char>,
    answer: AnswerModel,
    chain: Seq<HopModel>,
    follow: bool,
) -> ResultModel {
    let result = replied(url, answer.status, chain, follow);
    if result.redirect_unfollowed {
        ResultModel { redirect_target: answer.location, ..result }
    } else {
        result
    }
}

/// The result that a reply and the redirects on the way to it stand for.
pub open spec fn result_of(
    url: Seq<char>,
    reply: Result<AnswerModel, Seq<char>>,
    chain: Seq<HopModel>,
    follow: bool,
) -> ResultModel {
    match reply {
        Ok(answer) => answered(url, answer, chain, follow),
        Err(message) => unanswered(url, message),
    }
}

/// The result for an answer.
pub fn classify_answer(url: &str, answer: Answer, chain: Vec<RedirectHop>, follow: bool) -> (r:
    CheckResult)
    ensures
        r@ == answered(url@, answer@, views(chain@), follow),
{
    let mut r = classify(url, answer.status, chain, follow);
    if r.redirect_unfollowed {
        r.redirect_target = answer.location;
    }
    assert(r@ =~= answered(url@, answer@, views(chain@), follow));
    r
}

/// Decides what follows the reply to HEAD.
pub fn after_head(url: &str, reply: Reply, chain: Vec<RedirectHop>, follow: bool) -> (step: NextStep)
    ensures
        match step {
            NextStep::Done(r) => {
                &&& !is_refusal(reply_view(reply))
                &&& r@ == result_of(url@, reply_view(reply), views(chain@), follow)
            },
            NextStep::Get(kept) => {
                &&& is_refusal(reply_view(reply))
                &&& kept@ == chain@
            },
        },
{
    match reply {
        Err(message) => NextStep::Done(transport_error(url, message)),
        Ok(answer) => if answer.status == 405 || answer.status == 400 || answer.status == 501 {
            NextStep::Get(chain)
        } else {
            NextStep::Done(classify_answer(url, answer, chain, follow))
        },
    }
}

/// The result for the reply to GET after the redirects in `chain`, where HEAD was
/// refused after those in `kept`.
pub open spec fn result_after_refusal(
    url: Seq<char>,
    reply: Result<AnswerModel, Seq<char>>,
    kept: Seq<HopModel>,
    chain: Seq<HopModel>,
    follow: bool,
) -> ResultModel {
    result_of(url, reply, kept + chain, follow)
}

/// The result after the reply to GET, where HEAD was refused. The redirects of
/// both requests are kept.
pub fn after_get(
    url: &str,
    reply: Reply,
    kept: Vec<RedirectHop>,
    chain: Vec<RedirectHop>,
    follow: bool,
) -> (r: CheckResult)
    ensures
        r@ == result_of(url@, reply_view(reply), views(kept@) + views(chain@), follow),
        r@ == result_after_refusal(
            url@,
            reply_view(reply),
            views(kept@),
            views(chain@),
            follow,
        ),
{
    match reply {
        Err(message) => transport_error(url, message),
        Ok(answer) => {
            let ghost first = kept@;
            let ghost second = chain@;
            let mut all = kept;
            let mut more = chain;
            all.append(&mut more);
            assert(views(all@) =~= views(first) + views(second));
            classify_answer(url, answer, all, follow)
        },
    }
}

/// Whether another redirect is followed, where `visited` URLs were requested so
/// far, the first one included.
pub fn follows_redirect(visited: usize) -> (b: bool)
    ensures
        b == (visited <= MAX_REDIRECTS),
        b <==> visited <= 10,
{
    visited <= MAX_REDIRECTS
}

/// The name under which the redirects of a request for `url` are recorded: the
/// normal form of the URL.
pub open spec fn key_for(
    url: Seq<char>,
    parsed: Option<(Seq<char>, Option<Seq<char>>)>,
) -> Seq<char> {
    match parsed {
        Some((text, _)) => text,
        None => url,
    }
}

/// The name under which redirects are recorded, given what the URL parser made
/// of the URL.
pub fn key_from(url: &str, parsed: Option<ParsedUrl>) -> (key: String)
    ensures
        key@ == key_for(url@, option_view(parsed)),
{
    match parsed {
        Some(p) => p.text,
        None => url.to_owned(),
    }
}

/// The name under which the redirects of a request for `url` are recorded.
pub fn chain_key(url: &str) -> (key: String)
    ensures
        key@ == key_for(url@, url_parse(url@)),
{
    let parsed = parse_url(url);
    key_from(url, parsed)
}

/// The redirects recorded so far, by the URL that was first requested.
pub struct ChainStore {
    chains: StringHashMap<Vec<RedirectHop>>,
}

impl View for ChainStore {
    type V = Map<Seq<char>, Seq<HopModel>>;

    closed spec fn view(&self) -> Map<Seq<char>, Seq<HopModel>> {
        self.chains@.map_values(|chain: Vec<RedirectHop>| views(chain@))
    }
}

/// The redirects recorded under `key`.
pub open spec fn chain_under(store: Map<Seq<char>, Seq<HopModel>>, key: Seq<char>) -> Seq<HopModel> {
    if store.contains_key(key) {
        store[key]
    } else {
        seq![]
    }
}

/// The store after one more redirect was recorded under `key`.
pub open spec fn recorded(
    store: Map<Seq<char>, Seq<HopModel>>,
    key: Seq<char>,
    hop: HopModel,
) -> Map<Seq<char>, Seq<HopModel>> {
    store.insert(key, chain_under(store, key).push(hop))
}

/// The store after the redirects under `key` were taken out of it.
pub open spec fn emptied(store: Map<Seq<char>, Seq<HopModel>>, key: Seq<char>) -> Map<
    Seq<char>,
    Seq<HopModel>,
> {
    store.remove(key)
}

/// A store without redirects.
pub fn new_chain_store() -> (store: ChainStore)
    ensures
        store@ == Map::<Seq<char>, Seq<HopModel>>::empty(),
{
    let store = ChainStore { chains: StringHashMap::new() };
    assert(store@ =~= Map::<Seq<char>, Seq<HopModel>>::empty());
    store
}

/// Records one more redirect under `key`.
pub fn record_hop(store: &mut ChainStore, key: &str, hop: RedirectHop)
    ensures
        final(store)@ == old(store)@.insert(key@, chain_under(old(store)@, key@).push(hop@)),
        final(store)@ == recorded(old(store)@, key@, hop@),
{
    let mut chain = match store.chains.get(key) {
        Some(chain) => clone_chain(chain),
        None => Vec::new(),
    };
    assert(views(chain@) =~= chain_under(old(store)@, key@));
    let ghost before = chain@;
    chain.push(hop);
    assert(views(chain@) =~= views(before).push(hop@));
    store.chains.insert(key.to_owned(), chain);
    assert(store@ =~= old(store)@.insert(key@, chain_under(old(store)@, key@).push(hop@)));
}

/// Takes the redirects recorded under `url` out of the store.
pub fn take_chain(store: &mut ChainStore, url: &str) -> (chain: Vec<RedirectHop>)
    ensures
        views(chain@) == chain_under(old(store)@, url@),
        final(store)@ == old(store)@.remove(url@),
        final(store)@ == emptied(old(store)@, url@),
{
    let chain = match store.chains.get(url) {
        Some(chain) => clone_chain(chain),
        None => Vec::new(),
    };
    assert(views(chain@) =~= chain_under(old(store)@, url@));
    store.chains.remove(url);
    assert(store@ =~= old(store)@.remove(url@));
    chain
}

/// `x`, or the nearer of `low` and `high` where it is not between them.
pub open spec fn clamped(x: int, low: int, high: int) -> int {
    if x < low {
        low
    } else if x > high {
        high
    } else {
        x
    }
}

/// The seconds that a request is given, where `wanted` are asked for.
pub open spec fn timeout_for(wanted: int) -> int {
    clamped(wanted, 1, 120)
}

/// The number of requests at a time, where `wanted` are asked for.
pub open spec fn concurrency_for(wanted: int) -> int {
    clamped(wanted, 1, 128)
}

/// The options of a run. The timeout is kept between 1 and 120 seconds and the
/// number of requests at a time between 1 and 128.
pub fn check_options(
    timeout_secs: u64,
    concurrency: usize,
    user_agent: String,
    follow_redirects: bool,
) -> (options: CheckOptions)
    ensures
        options.timeout_secs == clamped(timeout_secs as int, 1, 120),
        options.concurrency == clamped(concurrency as int, 1, 128),
        options.timeout_secs == timeout_for(timeout_secs as int),
        options.concurrency == concurrency_for(concurrency as int),
        options.user_agent == user_agent,
        options.follow_redirects == follow_redirects,
{
    let timeout_secs = if timeout_secs < 1 {
        1
    } else if timeout_secs > 120 {
        120
    } else {
        timeout_secs
    };
    let concurrency = if concurrency < 1 {
        1
    } else if concurrency > 128 {
        128
    } else {
        concurrency
    };
    CheckOptions { timeout_secs, concurrency, user_agent, follow_redirects }
}

/// How many workers a run has that may make `n` requests at a time.
pub open spec fn workers_for(n: int) -> int {
    if n == 0 {
        1
    } else {
        n
    }
}

/// How many workers a run has: one for each request at a time, and at least one.
pub fn workers(options: &CheckOptions) -> (n: usize)
    ensures
        n == (if options.concurrency == 0 { 1 } else { options.concurrency }),
        n == workers_for(options.concurrency as int),
{
    if options.concurrency == 0 {
        1
    } else {
        options.concurrency
    }
}

/// The result for a URL where the HTTP client cannot be set up.
pub open spec fn without_client(url: Seq<char>) -> ResultModel {
    unanswered(url, "failed to initialise HTTP client"@)
}

/// The results where the HTTP client cannot be set up.
pub fn client_failures(urls: &[String]) -> (results: Vec<CheckResult>)
    ensures
        results@.len() == urls@.len(),
        forall|i: int|
            0 <= i < urls@.len() ==> #[trigger] results@[i]@ == unanswered(
                urls@[i]@,
                "failed to initialise HTTP client"@,
            ),
        forall|i: int|
            0 <= i < urls@.len() ==> #[trigger] results@[i]@ == without_client(urls@[i]@),
{
    let mut results: Vec<CheckResult> = Vec::new();
    let mut i: usize = 0;
    while i < urls.len()
        invariant
            i <= urls@.len(),
            results@.len() == i,
            forall|j: int|
                0 <= j < i ==> #[trigger] results@[j]@ == unanswered(
                    urls@[j]@,
                    "failed to initialise HTTP client"@,
                ),
        decreases urls@.len() - i,
    {
        let message = "failed to initialise HTTP client".to_owned();
        results.push(transport_error(urls[i].as_str(), message));
        i += 1;
    }
    results
}

/// The results by the URL that was checked. Of two results for one URL the
/// later counts.
pub open spec fn indexed(results: Seq<CheckResult>) -> Map<Seq<char>, ResultModel>
    decreases results.len(),
{
    if results.len() == 0 {
        Map::empty()
    } else {
        indexed(results.drop_last()).insert(results.last().url@, results.last()@)
    }
}

/// The models of results by URL.
pub open spec fn results_view(results: ResultsByUrl) -> Map<Seq<char>, ResultModel> {
    results@.map_values(|r: CheckResult| r@)
}

/// Sorts results by the URL that was checked.
pub fn index_results(results: &[CheckResult]) -> (by_url: ResultsByUrl)
    ensures
        results_view(by_url) == indexed(results@),
{
    let mut by_url: ResultsByUrl = StringHashMap::new();
    let mut i: usize = 0;
    assert(results@.take(0) == Seq::<CheckResult>::empty());
    assert(results_view(by_url) =~= Map::empty());
    while i < results.len()
        invariant
            i <= results@.len(),
            results_view(by_url) == indexed(results@.take(i as int)),
        decreases results@.len() - i,
    {
        let ghost before = results_view(by_url);
        let r = results[i].clone();
        by_url.insert(results[i].url.clone(), r);
        assert(results@.take(i + 1).drop_last() == results@.take(i as int));
        assert(results_view(by_url) =~= before.insert(results@[i as int].url@, r@));
        i += 1;
    }
    assert(results@.take(i as int) == results@);
    by_url
}

/// The state of a run: the URLs in the order in which they are handed out, how
/// many were, and the results so far.
pub struct Run {
    urls: Vec<String>,
    handed: usize,
    results: Vec<CheckResult>,
    fail_fast: bool,
    cancelled: bool,
}

/// The model of a [`Run`].
#[verifier::ext_equal]
pub struct RunModel {
    pub urls: Seq<Seq<char>>,
    pub handed: int,
    pub results: Seq<ResultModel>,
    pub fail_fast: bool,
    pub cancelled: bool,
}

impl View for Run {
    type V = RunModel;

    closed spec fn view(&self) -> RunModel {
        RunModel {
            urls: views(self.urls@),
            handed: self.handed as int,
            results: views(self.results@),
            fail_fast: self.fail_fast,
            cancelled: self.cancelled,
        }
    }
}

impl RunModel {
    /// What holds of every run. A run is cancelled exactly when it is to fail
    /// fast and one of its results is reportable.
    pub open spec fn is_valid(self) -> bool {
        &&& 0 <= self.handed <= self.urls.len()
        &&& self.cancelled <==> self.fail_fast && exists|i: int|
            0 <= i < self.results.len() && is_reportable(#[trigger] self.results[i])
    }

    /// A run over `urls` that has not begun.
    pub open spec fn started(urls: Seq<Seq<char>>, fail_fast: bool) -> RunModel {
        RunModel { urls, handed: 0, results: seq![], fail_fast, cancelled: false }
    }

    /// No more URLs are handed out.
    pub open spec fn is_over(self) -> bool {
        self.cancelled || self.handed >= self.urls.len()
    }

    /// The run after the next URL was handed out.
    pub open spec fn advanced(self) -> RunModel {
        if self.is_over() {
            self
        } else {
            RunModel { handed: self.handed + 1, ..self }
        }
    }

    /// The run after `result` came in.
    pub open spec fn finished(self, result: ResultModel) -> RunModel {
        RunModel {
            results: self.results.push(result),
            cancelled: self.cancelled || (self.fail_fast && is_reportable(result)),
            ..self
        }
    }
}

impl Run {
    /// A run over `urls`.
    pub fn new(urls: &[String], fail_fast: bool) -> (run: Run)
        ensures
            run@ == RunModel::started(views(urls@), fail_fast),
            run@.is_valid(),
    {
        let mut queue: Vec<String> = Vec::new();
        let mut i: usize = 0;
        while i < urls.len()
            invariant
                i <= urls@.len(),
                queue@ =~= urls@.take(i as int),
            decreases urls@.len() - i,
        {
            queue.push(urls[i].clone());
            i += 1;
        }
        let run = Run { urls: queue, handed: 0, results: Vec::new(), fail_fast, cancelled: false };
        assert(run@ =~= RunModel::started(views(urls@), fail_fast));
        run
    }

    /// Hands out the next URL to check, in order, until the run is over.
    pub fn next_url(&mut self) -> (url: Option<String>)
        ensures
            final(self)@ == old(self)@.advanced(),
            old(self)@.is_valid() ==> final(self)@.is_valid(),
            option_view(url) == (if old(self)@.is_over() {
                None
            } else {
                Some(old(self)@.urls[old(self)@.handed])
            }),
    {
        if self.cancelled || self.handed >= self.urls.len() {
            return None;
        }
        let url = self.urls[self.handed].clone();
        self.handed += 1;
        assert(self@ =~= old(self)@.advanced());
        Some(url)
    }

    /// Takes in a result.
    pub fn finish(&mut self, result: CheckResult)
        ensures
            old(self)@.fail_fast && result.status == Status::Broken ==> final(self)@.cancelled,
            final(self)@ == old(self)@.finished(result@),
            old(self)@.is_valid() ==> final(self)@.is_valid(),
    {
        if self.fail_fast && reportable(&result) {
            self.cancelled = true;
        }
        let ghost before = old(self)@;
        self.results.push(result);
        proof {
            assert(self@.results =~= before.results.push(result@));
            assert(self@ =~= before.finished(result@));
            assert forall|i: int| 0 <= i < before.results.len() implies self@.results[i]
                == before.results[i] by {}
            assert(self@.results.last() == result@);
            if exists|i: int| 0 <= i < before.results.len() && is_reportable(
                #[trigger] before.results[i],
            ) {
                let i = choose|i: int|
                    0 <= i < before.results.len() && is_reportable(#[trigger] before.results[i]);
                assert(is_reportable(self@.results[i]));
            }
        }
    }

    /// The results that came in.
    pub fn into_results(self) -> (results: Vec<CheckResult>)
        ensures
            views(results@) == self@.results,
    {
        self.results
    }
}

} // verus!
