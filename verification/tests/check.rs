use bookmark_check::check::{
    after_get, after_head, chain_key, check_options, classify as classify_reply, client_failures,
    failure_message, follows_redirect, index_results, key_from, new_chain_store, record_hop,
    reportable, take_chain, transport_error, workers, Answer, CheckResult, NextStep, RedirectHop,
    Reply, Run, Status,
};

fn classify(s: u16, chain: Vec<RedirectHop>, follow: bool) -> CheckResult {
    classify_reply("https://x.example", s, chain, follow)
}

fn answer(status: u16) -> Reply {
    Ok(Answer { status, location: None })
}

fn hop(status: u16, url: &str) -> RedirectHop {
    RedirectHop { status, url: url.to_string() }
}

#[test]
fn ok_2xx() {
    let r = classify(200, vec![], true);
    assert_eq!(r.status, Status::Okay);
    assert_eq!(r.http_status, Some(200));
    assert!(!r.redirect_unfollowed);
}

#[test]
fn followed_redirect_ending_2xx_is_redirect_but_healthy() {
    let chain = vec![RedirectHop {
        status: 301,
        url: "https://new.example".into(),
    }];
    let r = classify(200, chain, true);
    assert_eq!(r.status, Status::Redirect);
    assert!(!r.redirect_unfollowed);
}

#[test]
fn unfollowed_3xx_is_reportable() {
    let r = classify(301, vec![], false);
    assert_eq!(r.status, Status::Redirect);
    assert!(r.redirect_unfollowed);
}

#[test]
fn followed_3xx_without_final_success_is_redirect() {
    let r = classify(302, vec![], true);
    assert_eq!(r.status, Status::Redirect);
    assert!(!r.redirect_unfollowed);
}

#[test]
fn broken_4xx_and_5xx() {
    let r4 = classify(404, vec![], true);
    assert_eq!(r4.status, Status::Broken);
    let r5 = classify(503, vec![], true);
    assert_eq!(r5.status, Status::Broken);
}

#[test]
fn invalid_status_is_error() {
    let r = classify(100, vec![], true);
    assert_eq!(r.status, Status::Error);
}

#[test]
fn status_classes_have_exact_bounds() {
    for (code, status) in [
        (199, Status::Error),
        (200, Status::Okay),
        (299, Status::Okay),
        (300, Status::Redirect),
        (399, Status::Redirect),
        (400, Status::Broken),
        (599, Status::Broken),
        (600, Status::Error),
        (999, Status::Error),
    ] {
        let r = classify(code, vec![], true);
        assert_eq!(r.status, status);
        assert_eq!(r.http_status, Some(code));
        assert_eq!(r.url, "https://x.example");
        assert_eq!(r.error, None);
    }
}

#[test]
fn transport_errors_have_no_status() {
    let r = transport_error("https://x.example", "timed out".to_string());
    assert_eq!(r.status, Status::Error);
    assert_eq!(r.http_status, None);
    assert_eq!(r.redirect_chain, vec![]);
    assert_eq!(r.error, Some("timed out".to_string()));
    assert!(!reportable(&r));
}

#[test]
fn head_is_repeated_with_get_where_it_is_refused() {
    for code in [405, 400, 501] {
        match after_head("u", answer(code), vec![hop(301, "v")], true) {
            NextStep::Get(kept) => {
                assert_eq!(kept, vec![hop(301, "v")]);
                let r = after_get("u", answer(200), kept, vec![hop(302, "w")], true);
                assert_eq!(r.status, Status::Redirect);
                assert_eq!(r.redirect_chain, vec![hop(301, "v"), hop(302, "w")]);
            }
            NextStep::Done(_) => panic!("HEAD was refused"),
        }
    }
    let r = after_get("u", Err("refused".to_string()), vec![hop(301, "v")], vec![], true);
    assert_eq!(r.error, Some("refused".to_string()));
    assert_eq!(r.redirect_chain, vec![]);
    let r = after_get("u", answer(405), vec![], vec![], true);
    assert_eq!(r.status, Status::Broken);
}

#[test]
fn head_decides_where_it_is_not_refused() {
    match after_head("u", answer(404), vec![], true) {
        NextStep::Done(r) => assert_eq!((r.status, r.http_status), (Status::Broken, Some(404))),
        NextStep::Get(_) => panic!("HEAD was answered"),
    }
    match after_head("u", Err("no route".to_string()), vec![hop(301, "v")], true) {
        NextStep::Done(r) => {
            assert_eq!(r.status, Status::Error);
            assert_eq!(r.error, Some("no route".to_string()));
            assert_eq!(r.redirect_chain, vec![]);
        }
        NextStep::Get(_) => panic!("HEAD got no answer"),
    }
}

#[test]
fn only_an_unfollowed_redirect_has_a_target() {
    for (status, follow, target) in [
        (301, false, Some("v".to_string())),
        (301, true, None),
        (200, false, None),
        (404, false, None),
    ] {
        let reply = Ok(Answer { status, location: Some("v".to_string()) });
        match after_head("u", reply, vec![], follow) {
            NextStep::Done(r) => assert_eq!(r.redirect_target, target),
            NextStep::Get(_) => panic!("HEAD was answered"),
        }
    }
    let reply = Ok(Answer { status: 302, location: Some("v".to_string()) });
    let r = after_get("u", reply, vec![], vec![], false);
    assert_eq!((r.redirect_target, r.redirect_unfollowed), (Some("v".to_string()), true));
    assert_eq!(classify(301, vec![], false).redirect_target, None);
}

#[test]
fn ten_redirects_are_followed() {
    assert!(follows_redirect(1));
    assert!(follows_redirect(10));
    assert!(!follows_redirect(11));
}

#[test]
fn redirects_are_recorded_under_the_normal_form() {
    assert_eq!(chain_key("https://example.com"), "https://example.com/");
    assert_eq!(chain_key("HTTP://Example.com:80/a/../b"), "http://example.com/b");
    assert_eq!(chain_key("not a url"), "not a url");
    assert_eq!(key_from("u", None), "u");
}

#[test]
fn chains_are_taken_as_recorded() {
    let mut store = new_chain_store();
    record_hop(&mut store, "a", hop(301, "b"));
    record_hop(&mut store, "x", hop(308, "y"));
    record_hop(&mut store, "a", hop(302, "c"));
    assert_eq!(take_chain(&mut store, "a"), vec![hop(301, "b"), hop(302, "c")]);
    assert_eq!(take_chain(&mut store, "a"), vec![]);
    assert_eq!(take_chain(&mut store, "x"), vec![hop(308, "y")]);
    assert_eq!(take_chain(&mut store, "never"), vec![]);
}

#[test]
fn options_are_clamped() {
    let o = check_options(0, 0, "ua".to_string(), true);
    assert_eq!((o.timeout_secs, o.concurrency), (1, 1));
    let o = check_options(500, 500, "ua".to_string(), false);
    assert_eq!((o.timeout_secs, o.concurrency), (120, 128));
    let mut o = check_options(10, 16, "ua".to_string(), false);
    assert_eq!((o.timeout_secs, o.concurrency), (10, 16));
    assert_eq!(o.user_agent, "ua");
    assert!(!o.follow_redirects);
    assert_eq!(workers(&o), 16);
    o.concurrency = 0;
    assert_eq!(workers(&o), 1);
}

#[test]
fn client_failure_is_reported_per_url() {
    let urls = vec!["a".to_string(), "b".to_string()];
    let results = client_failures(&urls);
    assert_eq!(results.len(), 2);
    assert_eq!(results[1].url, "b");
    assert_eq!(results[1].error, Some("failed to initialise HTTP client".to_string()));
}

#[test]
fn later_results_replace_earlier_ones() {
    let results = vec![classify(200, vec![], true), classify(404, vec![], true)];
    let by_url = index_results(&results);
    assert_eq!(by_url.len(), 1);
    assert_eq!(by_url.get("https://x.example").unwrap().http_status, Some(404));
    assert!(by_url.get("https://y.example").is_none());
}

#[test]
fn every_url_is_handed_out_once_in_order() {
    let urls = vec!["a".to_string(), "b".to_string()];
    let mut run = Run::new(&urls, false);
    assert_eq!(run.next_url(), Some("a".to_string()));
    run.finish(classify_reply("a", 404, vec![], true));
    assert_eq!(run.next_url(), Some("b".to_string()));
    assert_eq!(run.next_url(), None);
    run.finish(classify_reply("b", 200, vec![], true));
    let results = run.into_results();
    assert_eq!(results.len(), 2);
    assert_eq!(results[0].url, "a");
    assert_eq!(results[1].status, Status::Okay);
}

#[test]
fn a_finding_stops_a_run_that_fails_fast() {
    let urls = vec!["a".to_string(), "b".to_string(), "c".to_string()];
    let mut run = Run::new(&urls, true);
    assert_eq!(run.next_url(), Some("a".to_string()));
    run.finish(transport_error("a", "timed out".to_string()));
    assert_eq!(run.next_url(), Some("b".to_string()));
    run.finish(classify_reply("b", 301, vec![], false));
    assert_eq!(run.next_url(), None);
    run.finish(classify_reply("x", 200, vec![], true));
    assert_eq!(run.next_url(), None);
    assert_eq!(run.into_results().len(), 3);
}

#[test]
fn timeouts_are_named() {
    assert_eq!(failure_message(true, "operation timed out".to_string()), "timeout");
    assert_eq!(failure_message(false, "refused".to_string()), "refused");
}
