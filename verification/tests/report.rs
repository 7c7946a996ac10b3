use bookmark_check::check::{
    classify, classify_answer, reportable, Answer, CheckResult, RedirectHop, ResultsByUrl,
    Status as CheckStatus,
};
use bookmark_check::extract::{extract, unique_urls, Location, Malformed, Occurrence, Problem};
use bookmark_check::report::{
    build_entries, exit_code, json_report, problem_label, render_quiet, render_text, summarize,
    Entry, Kind, Summary,
};

fn loc(file: &str, line: usize, column: usize) -> Location {
    Location {
        file: file.to_string(),
        line,
        column,
    }
}

fn entry(url: &str, kind: Kind, status: Option<u16>, chain: Vec<RedirectHop>) -> Entry {
    Entry {
        url: url.to_string(),
        location: loc("a.md", 1, 1),
        kind,
        http_status: status,
        redirect_chain: chain,
        redirect_target: None,
        error: None,
    }
}

fn checked(url: &str, status: CheckStatus, code: u16) -> CheckResult {
    CheckResult {
        url: url.to_string(),
        status,
        http_status: Some(code),
        redirect_chain: vec![],
        redirect_unfollowed: false,
        redirect_target: None,
        error: None,
    }
}

#[test]
fn build_entries_sorts_by_location() {
    let occs = vec![
        Occurrence {
            url: "https://b.org".into(),
            location: loc("b.md", 2, 3),
        },
        Occurrence {
            url: "https://a.org".into(),
            location: loc("a.md", 1, 1),
        },
    ];
    let mut m = ResultsByUrl::new();
    m.insert(
        "https://b.org".to_string(),
        CheckResult {
            url: "https://b.org".into(),
            status: CheckStatus::Okay,
            http_status: Some(200),
            redirect_chain: vec![],
            redirect_unfollowed: false,
            redirect_target: None,
            error: None,
        },
    );
    m.insert(
        "https://a.org".to_string(),
        CheckResult {
            url: "https://a.org".into(),
            status: CheckStatus::Okay,
            http_status: Some(200),
            redirect_chain: vec![],
            redirect_unfollowed: false,
            redirect_target: None,
            error: None,
        },
    );
    let entries = build_entries(&occs, &[], &m);
    let files: Vec<&str> = entries.iter().map(|e| e.location.file.as_str()).collect();
    assert_eq!(files, vec!["a.md", "b.md"]);
}

#[test]
fn summary_counts_and_exit_code() {
    let entries = vec![
        entry("https://ok.example", Kind::Okay, Some(200), vec![]),
        entry("https://bad.example", Kind::Broken, Some(404), vec![]),
        entry("https://err.example", Kind::Error, None, vec![]),
    ];
    let s = summarize(&entries);
    assert_eq!((s.ok, s.broken, s.errors, s.total), (1, 1, 1, 3));
    assert_eq!(exit_code(&entries), 1);
}

#[test]
fn exit_code_zero_when_only_errors_and_redirects_followed() {
    let entries = vec![
        entry("https://ok.example", Kind::Okay, Some(200), vec![]),
        entry(
            "https://old.example",
            Kind::Redirect,
            Some(200),
            vec![RedirectHop {
                status: 301,
                url: "https://new.example".into(),
            }],
        ),
    ];
    assert_eq!(exit_code(&entries), 0);
}

#[test]
fn exit_code_one_for_unfollowed_redirect() {
    let entries = vec![entry(
        "https://old.example",
        Kind::Redirect,
        Some(301),
        vec![],
    )];
    assert_eq!(exit_code(&entries), 1);
}

#[test]
fn json_has_expected_shape() {
    let entries = vec![
        entry("https://ok.example", Kind::Okay, Some(200), vec![]),
        entry("https://bad.example", Kind::Broken, Some(404), vec![]),
    ];
    let files = vec!["a.md".to_string()];
    let report = json_report(&files, &entries);
    assert_eq!(report.version, 1);
    assert_eq!(report.files, vec!["a.md"]);
    assert_eq!(report.summary.ok, 1);
    assert_eq!(report.summary.broken, 1);
    assert_eq!(report.checks[1].status, "broken");
    assert_eq!(report.checks[1].http_status, Some(404));
}

#[test]
fn json_carries_messages_of_errors_only() {
    let mut error = entry("u", Kind::Error, None, vec![]);
    error.error = Some("timed out".to_string());
    let mut malformed = entry("v", Kind::Malformed, None, vec![]);
    malformed.error = Some("empty url".to_string());
    let hop = RedirectHop { status: 301, url: "w".to_string() };
    let redirect = entry("x", Kind::Redirect, Some(200), vec![hop]);
    let entries = vec![error, malformed, redirect];
    let report = json_report(&[], &entries);
    assert_eq!(report.checks[0].error, Some("timed out"));
    assert_eq!(report.checks[1].error, None);
    assert_eq!(report.checks[1].status, "malformed");
    assert_eq!(report.checks[2].redirect_chain[0].status, 301);
    assert_eq!(report.checks[2].redirect_chain[0].url, "w");
    assert_eq!(report.checks[2].location.file, "a.md");
    assert_eq!((report.checks[2].location.line, report.checks[2].location.column), (1, 1));
    assert_eq!((report.summary.total, report.summary.errors), (3, 1));
    assert_eq!((report.summary.malformed, report.summary.redirects), (1, 1));
}

#[test]
fn entries_keep_their_order_at_one_place() {
    let at = |url: &str, file: &str, line: usize, column: usize| Occurrence {
        url: url.to_string(),
        location: loc(file, line, column),
    };
    let occs = vec![
        at("1", "b.md", 1, 1),
        at("2", "a.md", 2, 1),
        at("3", "a.md", 10, 1),
        at("4", "a.md", 2, 1),
        at("5", "a", 9, 9),
        at("6", "a.md", 2, 0),
    ];
    let malformed = vec![Malformed {
        url: "7".to_string(),
        problem: Problem::InvalidUrl,
        location: loc("a.md", 2, 1),
    }];
    let entries = build_entries(&occs, &malformed, &ResultsByUrl::new());
    let order: Vec<&str> = entries.iter().map(|e| e.url.as_str()).collect();
    assert_eq!(order, vec!["5", "6", "2", "4", "7", "3", "1"]);
}

#[test]
fn entries_carry_results() {
    let occs: Vec<Occurrence> = ["o", "b", "r", "e", "s"]
        .iter()
        .enumerate()
        .map(|(i, u)| Occurrence { url: u.to_string(), location: loc("a.md", 1, i + 1) })
        .collect();
    let mut m = ResultsByUrl::new();
    m.insert("o".to_string(), checked("o", CheckStatus::Okay, 200));
    m.insert("b".to_string(), checked("b", CheckStatus::Broken, 404));
    let mut r = checked("r", CheckStatus::Redirect, 200);
    r.redirect_chain = vec![RedirectHop { status: 301, url: "x".to_string() }];
    m.insert("r".to_string(), r);
    let mut e = checked("e", CheckStatus::Error, 100);
    e.error = Some("odd".to_string());
    m.insert("e".to_string(), e);
    let entries = build_entries(&occs, &[], &m);
    let kinds: Vec<Kind> = entries.iter().map(|e| e.kind).collect();
    assert_eq!(
        kinds,
        vec![Kind::Okay, Kind::Broken, Kind::Redirect, Kind::Error, Kind::Error]
    );
    assert_eq!(entries[1].http_status, Some(404));
    assert_eq!(entries[2].redirect_chain[0].url, "x");
    assert_eq!(entries[3].error, Some("odd".to_string()));
    assert_eq!(entries[4].error, Some("skipped (fail-fast)".to_string()));
    assert_eq!(entries[4].http_status, None);
}

#[test]
fn text_has_one_line_per_entry() {
    let hops = vec![
        RedirectHop { status: 301, url: "https://m".to_string() },
        RedirectHop { status: 302, url: "https://n".to_string() },
    ];
    let mut error = entry("https://e", Kind::Error, None, vec![]);
    error.error = Some("timed out".to_string());
    let mut malformed = entry("htp:/x", Kind::Malformed, None, vec![]);
    malformed.error = Some("bad url".to_string());
    malformed.location = loc("docs.md", 12, 3);
    let mut told = entry("https://t", Kind::Redirect, Some(308), vec![]);
    told.redirect_target = Some("/u".to_string());
    let entries = vec![
        entry("https://o", Kind::Okay, Some(200), vec![]),
        entry("https://p", Kind::Okay, None, vec![]),
        entry("https://b", Kind::Broken, Some(404), vec![]),
        entry("https://r", Kind::Redirect, Some(301), vec![]),
        told,
        entry("https://s", Kind::Redirect, Some(200), hops),
        entry("https://v", Kind::Redirect, None, vec![]),
        error,
        entry("https://f", Kind::Error, None, vec![]),
        malformed,
        entry("x", Kind::Malformed, None, vec![]),
    ];
    assert_eq!(
        render_text(&entries),
        "OK       200 https://o\n\
         OK       - https://p\n\
         BROKEN   404 https://b\n\
         REDIRECT (unfollowed) 301 https://r\n\
         REDIRECT (unfollowed) 308 https://t -> /u\n\
         REDIRECT 301 -> 302 -> 200 https://s -> https://m -> https://n\n\
         REDIRECT - https://v\n\
         ERROR    timed out https://e\n\
         ERROR    unknown error https://f\n\
         MALFORMED bad url \"htp:/x\" (docs.md:12)\n\
         MALFORMED bad url \"x\" (a.md:1)\n"
    );
    assert_eq!(
        render_quiet(&entries),
        "BROKEN   404 https://b\n\
         REDIRECT (unfollowed) 301 https://r\n\
         REDIRECT (unfollowed) 308 https://t -> /u\n"
    );
    assert_eq!(render_text(&[]), "");
}

#[test]
fn quiet_output_is_empty_where_the_exit_code_is_zero() {
    let entries = vec![
        entry("https://o", Kind::Okay, Some(200), vec![]),
        entry("https://e", Kind::Error, None, vec![]),
        entry("https://r", Kind::Redirect, None, vec![]),
        entry("m", Kind::Malformed, None, vec![]),
    ];
    assert_eq!(render_quiet(&entries), "");
    assert_eq!(exit_code(&entries), 0);
    assert_eq!(exit_code(&[]), 0);
}

#[test]
fn kinds_and_problems_have_names() {
    let kinds = [Kind::Okay, Kind::Broken, Kind::Redirect, Kind::Error, Kind::Malformed];
    let names: Vec<&str> = kinds.iter().map(|k| k.as_str()).collect();
    assert_eq!(names, vec!["ok", "broken", "redirect", "error", "malformed"]);
    let problems = [
        Problem::EmptyUrl,
        Problem::InvalidUrl,
        Problem::MissingHost,
        Problem::UnmatchedBrackets,
        Problem::UnbalancedTitle,
    ];
    let labels: Vec<&str> = problems.iter().map(problem_label).collect();
    assert_eq!(
        labels,
        vec!["empty url", "bad url", "missing host", "unmatched brackets", "unbalanced title"]
    );
}

#[test]
fn counts_add_up() {
    let s = Summary::default();
    assert_eq!(s.total + s.ok + s.broken + s.redirects + s.errors + s.malformed, 0);
    let entries = vec![
        entry("a", Kind::Redirect, Some(301), vec![]),
        entry("b", Kind::Malformed, None, vec![]),
        entry("c", Kind::Redirect, Some(301), vec![]),
    ];
    let s = summarize(&entries);
    assert_eq!((s.total, s.redirects, s.malformed), (3, 2, 1));
    assert_eq!((s.ok, s.broken, s.errors), (0, 0, 0));
}

#[test]
fn a_document_is_reported_from_text_to_exit_code() {
    let r = extract("a.md", "[x]() https://a.com\n[a](http://)\nhttps://a.com [b](http://c");
    let urls = unique_urls(&r.occurrences);
    assert_eq!(urls, vec!["https://a.com"]);
    let mut m = ResultsByUrl::new();
    m.insert(urls[0].clone(), checked("https://a.com", CheckStatus::Okay, 200));
    let entries = build_entries(&r.occurrences, &r.malformed, &m);
    assert_eq!(
        render_text(&entries),
        "MALFORMED empty url \"\" (a.md:1)\n\
         OK       200 https://a.com\n\
         MALFORMED missing host \"http://\" (a.md:2)\n\
         OK       200 https://a.com\n\
         MALFORMED unmatched brackets \"http://c\" (a.md:3)\n"
    );
    assert_eq!(exit_code(&entries), 0);
}

#[test]
fn results_that_stop_a_run_make_it_fail() {
    let occs = vec![Occurrence { url: "u".to_string(), location: loc("a.md", 1, 1) }];
    for (code, follow) in [(200, true), (404, true), (500, false), (301, false), (100, true)] {
        let r = classify("u", code, vec![], follow);
        let stops = reportable(&r);
        let mut m = ResultsByUrl::new();
        m.insert("u".to_string(), r);
        let entries = build_entries(&occs, &[], &m);
        assert_eq!(exit_code(&entries), if stops { 1 } else { 0 });
    }
}

#[test]
fn harmless_entries_and_order_do_not_change_the_exit_code() {
    let broken = || entry("b", Kind::Broken, Some(404), vec![]);
    let error = || entry("e", Kind::Error, None, vec![]);
    let malformed = || entry("m", Kind::Malformed, None, vec![]);
    assert_eq!(exit_code(&[broken(), error(), malformed()]), 1);
    assert_eq!(exit_code(&[malformed(), error(), broken()]), 1);
    assert_eq!(exit_code(&[error(), broken()]), 1);
    assert_eq!(exit_code(&[error(), malformed()]), 0);
}

#[test]
fn lines_are_set_in_columns() {
    let mut error = entry("https://10.0.0.1/", Kind::Error, None, vec![]);
    error.error = Some("connection timed out".to_string());
    let hop = RedirectHop { status: 301, url: "https://new.example".to_string() };
    let entries = vec![
        entry("https://example.com", Kind::Okay, Some(200), vec![]),
        entry("https://old.example", Kind::Redirect, Some(200), vec![hop]),
        entry("https://example.com/missing", Kind::Broken, Some(404), vec![]),
        error,
    ];
    assert_eq!(
        render_text(&entries),
        "OK       200 https://example.com\n\
         REDIRECT 301 -> 200 https://old.example -> https://new.example\n\
         BROKEN   404 https://example.com/missing\n\
         ERROR    connection timed out https://10.0.0.1/\n"
    );
}

#[test]
fn a_mistyped_url_is_reported() {
    let r = extract("docs.md", "\n[a](htp:/x)");
    assert_eq!(r.occurrences.len(), 0);
    let entries = build_entries(&[], &r.malformed, &ResultsByUrl::new());
    assert_eq!(render_text(&entries), "MALFORMED bad url \"htp:/x\" (docs.md:2)\n");
}

#[test]
fn an_unfollowed_redirect_tells_where_it_leads() {
    let occs = vec![Occurrence { url: "u".to_string(), location: loc("a.md", 1, 1) }];
    let answer = Answer { status: 301, location: Some("https://new.example".to_string()) };
    let mut m = ResultsByUrl::new();
    m.insert("u".to_string(), classify_answer("u", answer, vec![], false));
    let entries = build_entries(&occs, &[], &m);
    assert_eq!(
        render_text(&entries),
        "REDIRECT (unfollowed) 301 u -> https://new.example\n"
    );
    assert_eq!(exit_code(&entries), 1);
}
