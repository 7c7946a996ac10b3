use bookmark_check::extract::{classify, process_line, Extraction, Location, Problem};
use bookmark_check::order::is_before;
use bookmark_check::scan::{
    find_closing, is_http_at, is_unbalanced, read_angle, read_bare, read_inline, read_link,
    read_refdef,
};
use bookmark_check::text::chars_of;
use bookmark_check::urls::{
    classify_http, judge, looks_mistyped, looks_scheme_like, scheme_is, single_slash,
    strip_scheme_prefix, verdict_of, ParsedUrl, Verdict,
};

fn parsed(text: &str, host: Option<&str>) -> Option<ParsedUrl> {
    Some(ParsedUrl { text: text.to_string(), host: host.map(String::from) })
}

fn empty() -> Extraction {
    Extraction { occurrences: vec![], malformed: vec![] }
}

#[test]
fn judgement_follows_the_parser() {
    let host = parsed("http://x/", Some("x"));
    let no_host = parsed("http:x", None);
    assert_eq!(judge("http://x", &host), Verdict::Link);
    assert_eq!(judge("https://x", &host), Verdict::Link);
    assert_eq!(judge("http://x", &no_host), Verdict::Malformed(Problem::MissingHost));
    assert_eq!(judge("http://x", &None), Verdict::Malformed(Problem::InvalidUrl));
    assert_eq!(judge("http:///x", &None), Verdict::Malformed(Problem::MissingHost));
    assert_eq!(judge("https://?x", &None), Verdict::Malformed(Problem::MissingHost));
    assert_eq!(judge("https://", &None), Verdict::Malformed(Problem::MissingHost));
    assert_eq!(judge("", &host), Verdict::Malformed(Problem::EmptyUrl));
    assert_eq!(judge("ftp://x", &host), Verdict::Skipped);
    assert_eq!(judge("a:b", &None), Verdict::Malformed(Problem::InvalidUrl));
    assert_eq!(judge("a/b:c", &None), Verdict::Skipped);
}

#[test]
fn verdicts_on_real_urls() {
    assert_eq!(verdict_of("https://example.com/a?b#c"), Verdict::Link);
    assert_eq!(verdict_of("http://[::1]:80"), Verdict::Link);
    assert_eq!(verdict_of("http://"), Verdict::Malformed(Problem::MissingHost));
    assert_eq!(verdict_of("http://#"), Verdict::Malformed(Problem::MissingHost));
    assert_eq!(verdict_of("http://a b"), Verdict::Malformed(Problem::InvalidUrl));
    assert_eq!(verdict_of("http://x:99999"), Verdict::Malformed(Problem::InvalidUrl));
    assert_eq!(verdict_of("mailto:a@b.c"), Verdict::Skipped);
    assert_eq!(verdict_of("tel:123"), Verdict::Skipped);
    assert_eq!(verdict_of("data:,x"), Verdict::Skipped);
    assert_eq!(verdict_of("ftp://x"), Verdict::Skipped);
    assert_eq!(verdict_of("file:///x"), Verdict::Skipped);
    assert_eq!(verdict_of("urn:isbn:1"), Verdict::Skipped);
    assert_eq!(verdict_of("#top"), Verdict::Skipped);
    assert_eq!(verdict_of("../a.md"), Verdict::Skipped);
    assert_eq!(verdict_of("://x"), Verdict::Malformed(Problem::InvalidUrl));
}

#[test]
fn mistyped_urls_are_malformed() {
    let invalid = Verdict::Malformed(Problem::InvalidUrl);
    for url in ["htp:/x", "HTP:/x", "htps:/", "htp:/x?a://b"] {
        assert_eq!(verdict_of(url), invalid);
        assert_eq!(judge(url, &parsed(url, None)), invalid);
        assert_eq!(judge(url, &None), invalid);
    }
    for url in ["file:/x", "FILE:/x", "mailto:/x", "tel:/x", "data:/x", "http:/x", "wss:/x"] {
        assert_eq!(verdict_of(url), Verdict::Skipped);
    }
    for url in ["htp://x", "htp:x", "steam:/x", "unix:/run/x", "C:/x", "a/b:/x", "?ab:/x"] {
        assert_eq!(verdict_of(url), Verdict::Skipped);
    }
    assert!(scheme_is(&chars_of("FtP:x"), "ftp"));
    assert!(!scheme_is(&chars_of("ftp"), "ftp"));
    assert!(!scheme_is(&chars_of("ftps:x"), "ftp"));
    assert!(single_slash(&chars_of("ab:/"), "ab"));
    assert!(!single_slash(&chars_of("ab://"), "ab"));
    assert!(!looks_mistyped(&chars_of("htp:")));
}

#[test]
fn prefixes_are_stripped() {
    assert_eq!(strip_scheme_prefix(&chars_of("https://x")), 8);
    assert_eq!(strip_scheme_prefix(&chars_of("http://x")), 7);
    assert_eq!(strip_scheme_prefix(&chars_of("HTTP://x")), 0);
    assert_eq!(
        classify_http(&chars_of("http://x"), &parsed("", Some(""))),
        Verdict::Link
    );
    assert!(looks_scheme_like(&chars_of("a:")));
    assert!(!looks_scheme_like(&chars_of("a?b:")));
    assert!(!looks_scheme_like(&chars_of("ab")));
}

#[test]
fn readers_give_the_position_after_the_link() {
    let c = chars_of("<http://x> y");
    assert_eq!(read_angle(&c, 0), Some((10, "http://x".to_string())));
    assert_eq!(read_angle(&c, 1), None);
    assert_eq!(read_angle(&chars_of("xhttp://y>"), 0), Some((10, "http://y".to_string())));
    assert_eq!(read_link(&chars_of("xhttp://y>"), 0), None);
    assert_eq!(read_angle(&chars_of("<http:/>/x>"), 0), None);
    let c = chars_of("[a]:  u v");
    assert_eq!(read_refdef(&c), Some((7, "u".to_string())));
    assert_eq!(read_refdef(&chars_of("[a]: <u v>w")), Some((10, "u v".to_string())));
    assert_eq!(read_refdef(&chars_of("[a]:u")), None);
    assert_eq!(read_refdef(&chars_of("[a]:<u>")), None);
    assert_eq!(read_refdef(&chars_of("[a]:")), Some((4, "".to_string())));
    assert_eq!(read_refdef(&chars_of("[a] : u")), None);
    assert_eq!(read_refdef(&chars_of(" [a]: u")), None);
    assert_eq!(read_refdef(&chars_of("[a]")), None);
    let c = chars_of("x[a](u \"t\")y");
    assert_eq!(read_inline(&c, 1), Some((11, "u".to_string(), None)));
    assert_eq!(read_inline(&c, 0), Some((11, "u".to_string(), None)));
    assert_eq!(read_link(&c, 0), None);
    assert_eq!(read_inline(&chars_of("a](u)"), 0), Some((5, "u".to_string(), None)));
    assert_eq!(read_link(&chars_of("a](u)"), 0), None);
    assert_eq!(read_inline(&chars_of("[a] (u)"), 0), None);
    let c = chars_of("[a](u (v)");
    assert_eq!(
        read_inline(&c, 0),
        Some((9, "u (v)".to_string(), Some(Problem::UnmatchedBrackets)))
    );
    let c = chars_of("see http://x.y/z., then");
    assert!(is_http_at(&c, 4));
    assert_eq!(read_bare(&c, 4), (16, "http://x.y/z".to_string()));
    assert_eq!(read_link(&c, 4), Some((16, "http://x.y/z".to_string(), None)));
    assert_eq!(read_link(&c, 0), None);
}

#[test]
fn groups_close_outside_quotes() {
    assert_eq!(find_closing(&chars_of("((a)b)c"), 1), Ok(5));
    assert_eq!(find_closing(&chars_of("(\")\")"), 1), Ok(4));
    assert_eq!(find_closing(&chars_of("(\")"), 1), Err(true));
    assert_eq!(find_closing(&chars_of("(a"), 1), Err(false));
    assert!(is_unbalanced(&"\"a".to_string()));
    assert!(!is_unbalanced(&"\"a\"".to_string()));
    assert!(!is_unbalanced(&"\"".to_string()));
    assert!(!is_unbalanced(&"a\"".to_string()));
}

#[test]
fn targets_are_filed_by_their_verdict() {
    let mut out = empty();
    classify("f", 2, 3, "http://x".to_string(), &mut out);
    classify("f", 4, 5, "".to_string(), &mut out);
    classify("f", 6, 7, "tel:1".to_string(), &mut out);
    assert_eq!((out.occurrences.len(), out.malformed.len()), (1, 1));
    assert_eq!((out.occurrences[0].location.line, out.occurrences[0].location.column), (2, 3));
    assert_eq!(out.malformed[0].problem, Problem::EmptyUrl);
}

#[test]
fn lines_are_added_to_what_was_found() {
    let mut out = empty();
    process_line("f", 1, "http://x", &mut out);
    process_line("f", 9, "`http://y` <http://z>", &mut out);
    assert_eq!(out.occurrences.len(), 2);
    assert_eq!(out.occurrences[1].url, "http://z");
    assert_eq!((out.occurrences[1].location.line, out.occurrences[1].location.column), (9, 12));
}

#[test]
fn places_are_ordered_by_file_line_and_column() {
    let at = |file: &str, line: usize, column: usize| Location {
        file: file.to_string(),
        line,
        column,
    };
    assert!(is_before(&at("a", 9, 9), &at("b", 1, 1)));
    assert!(is_before(&at("a", 9, 9), &at("a.md", 1, 1)));
    assert!(is_before(&at("a", 2, 9), &at("a", 10, 1)));
    assert!(is_before(&at("a", 2, 1), &at("a", 2, 2)));
    assert!(!is_before(&at("a", 2, 2), &at("a", 2, 2)));
    assert!(!is_before(&at("b", 1, 1), &at("a", 9, 9)));
    assert!(is_before(&at("\u{ffff}", 1, 1), &at("\u{10000}", 1, 1)));
}
