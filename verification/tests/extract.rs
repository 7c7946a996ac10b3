use bookmark_check::extract::{extract, unique_urls, Extraction, Problem};

fn urls(res: &Extraction) -> Vec<String> {
    res.occurrences.iter().map(|o| o.url.clone()).collect()
}

fn problems(res: &Extraction) -> Vec<Problem> {
    res.malformed.iter().map(|m| m.problem.clone()).collect()
}

#[test]
fn inline_link() {
    let r = extract("doc.md", "a [label](https://example.com) b");
    assert_eq!(urls(&r), vec!["https://example.com"]);
    assert_eq!(r.malformed.len(), 0);
    let o = &r.occurrences[0];
    assert_eq!(o.location.file, "doc.md");
    assert_eq!(o.location.line, 1);
    assert_eq!(o.location.column, 3);
}

#[test]
fn inline_link_with_title() {
    let r = extract("doc.md", "[a](https://example.com \"the title\")");
    assert_eq!(urls(&r), vec!["https://example.com"]);
}

#[test]
fn autolink() {
    let r = extract("doc.md", "see <https://example.com> now");
    assert_eq!(urls(&r), vec!["https://example.com"]);
    assert_eq!(r.occurrences[0].location.column, 5);
}

#[test]
fn reference_definition() {
    let r = extract("doc.md", "[ref]: https://example.com\nuse [ref] later");
    assert_eq!(urls(&r), vec!["https://example.com"]);
    assert_eq!(r.occurrences[0].location.line, 1);
    assert_eq!(r.occurrences[0].location.column, 1);
}

#[test]
fn reference_definition_angled() {
    let r = extract("doc.md", "[ref]: <https://example.com/path> trailing");
    assert_eq!(urls(&r), vec!["https://example.com/path"]);
}

#[test]
fn bare_url() {
    let r = extract("doc.md", "visit http://example.com today");
    assert_eq!(urls(&r), vec!["http://example.com"]);
    assert_eq!(r.occurrences[0].location.column, 7);
}

#[test]
fn bare_url_strips_trailing_punct() {
    let r = extract("doc.md", "see https://example.com, and https://x.org/end.");
    assert_eq!(urls(&r), vec!["https://example.com", "https://x.org/end"]);
}

#[test]
fn multiple_on_one_line_with_locations() {
    let r = extract("doc.md", " [a](https://a.com)\n  https://b.com");
    let o = &r.occurrences;
    assert_eq!(o.len(), 2);
    assert_eq!(o[0].location.line, 1);
    assert_eq!(o[0].location.column, 2);
    assert_eq!(o[1].location.line, 2);
    assert_eq!(o[1].location.column, 3);
}

#[test]
fn fenced_code_excluded() {
    let r = extract(
        "doc.md",
        "```\n[a](https://excluded.com)\n```\nvalid [b](https://ok.com)",
    );
    assert_eq!(urls(&r), vec!["https://ok.com"]);
}

#[test]
fn inline_code_excluded() {
    let r = extract(
        "doc.md",
        "`[a](https://excluded.com)` real [b](https://ok.com)",
    );
    assert_eq!(urls(&r), vec!["https://ok.com"]);
}

#[test]
fn non_http_schemes_skipped() {
    let r = extract(
        "doc.md",
        "[mail](mailto:a@b.c) [ftp](ftp://x) [f](file:///x) [rel](sub/page)",
    );
    assert_eq!(r.occurrences.len(), 0);
    assert_eq!(r.malformed.len(), 0);
}

#[test]
fn http_missing_host_is_malformed() {
    let r = extract("doc.md", "[a](http://)");
    assert_eq!(r.occurrences.len(), 0);
    assert_eq!(problems(&r), vec![Problem::MissingHost]);
}

#[test]
fn invalid_url_is_malformed() {
    let r = extract("doc.md", "[a](http://%zz) [b](http://[bad])");
    assert_eq!(r.occurrences.len(), 0);
    assert_eq!(problems(&r), vec![Problem::InvalidUrl, Problem::InvalidUrl]);
}

#[test]
fn empty_url_is_malformed() {
    let r = extract("doc.md", "[a]()");
    assert_eq!(problems(&r), vec![Problem::EmptyUrl]);
    assert_eq!(r.malformed[0].location.column, 1);
}

#[test]
fn unmatched_brackets_is_malformed() {
    let r = extract("doc.md", "[a](https://example.com");
    assert_eq!(problems(&r), vec![Problem::UnmatchedBrackets]);
}

#[test]
fn unbalanced_title_is_malformed() {
    let r = extract("doc.md", "[a](https://example.com \"title)");
    assert_eq!(problems(&r), vec![Problem::UnbalancedTitle]);
}

#[test]
fn malformed_never_occurrence() {
    let r = extract("doc.md", "[a](http://)\n[b](http://%zz)");
    assert_eq!(r.occurrences.len(), 0);
    assert_eq!(r.malformed.len(), 2);
}

#[test]
fn dedup_preserves_occurrences() {
    let r = extract("doc.md", "[a](https://x.com)\n[b](https://x.com)");
    assert_eq!(r.occurrences.len(), 2);
    assert_eq!(unique_urls(&r.occurrences), vec!["https://x.com"]);
}

#[test]
fn multidoc_locations() {
    let a = extract("a.md", "[x](https://a.com)");
    let b = extract("b.md", "[y](https://b.com)");
    assert_eq!(a.occurrences[0].location.file, "a.md");
    assert_eq!(b.occurrences[0].location.file, "b.md");
}

#[test]
fn no_text_has_no_links() {
    let r = extract("doc.md", "");
    assert_eq!(r.occurrences.len(), 0);
    assert_eq!(r.malformed.len(), 0);
}

#[test]
fn columns_count_bytes() {
    let r = extract("doc.md", "\u{e4}\u{20ac}\u{1f600} https://x.com <https://y.com>");
    assert_eq!(urls(&r), vec!["https://x.com", "https://y.com"]);
    assert_eq!(r.occurrences[0].location.column, 11);
    assert_eq!(r.occurrences[1].location.column, 25);
}

#[test]
fn non_ascii_hosts_are_links() {
    let r = extract("doc.md", "<https://\u{e4}.com> <https://b.com>");
    assert_eq!(urls(&r), vec!["https://\u{e4}.com", "https://b.com"]);
    assert_eq!(r.occurrences[1].location.column, 18);
}

#[test]
fn carriage_returns_end_lines_only_before_line_feeds() {
    let r = extract("doc.md", "https://a.com\r\nhttps://b.com\n");
    assert_eq!(urls(&r), vec!["https://a.com", "https://b.com"]);
    assert_eq!(r.occurrences[1].location.line, 2);
}

#[test]
fn fences_may_be_indented_and_tilded() {
    let r = extract(
        "doc.md",
        "https://a.com\n  ~~~ text\nhttps://b.com\n~~~\nhttps://c.com\n```\nhttps://d.com",
    );
    assert_eq!(urls(&r), vec!["https://a.com", "https://c.com"]);
    assert_eq!(r.occurrences[1].location.line, 5);
}

#[test]
fn code_span_without_end_hides_the_rest() {
    let r = extract("doc.md", "https://a.com ` https://b.com");
    assert_eq!(urls(&r), vec!["https://a.com"]);
}

#[test]
fn definition_needs_a_bracket_at_line_start() {
    let r = extract("doc.md", "http://a.com x]: http://b.com");
    assert_eq!(urls(&r), vec!["http://a.com", "http://b.com"]);
    assert_eq!(r.occurrences[1].location.column, 18);
}

#[test]
fn definition_without_url_is_malformed() {
    let r = extract("doc.md", "[a]:");
    assert_eq!(problems(&r), vec![Problem::EmptyUrl]);
}

#[test]
fn definition_with_open_angle_is_none() {
    let r = extract("doc.md", "[a]: <https://x.com");
    assert_eq!(urls(&r), vec!["https://x.com"]);
    assert_eq!(r.occurrences[0].location.column, 7);
}

#[test]
fn autolink_needs_a_web_prefix() {
    let r = extract("doc.md", "<mailto:a@b.c> <ftp://x>");
    assert_eq!(r.occurrences.len(), 0);
    assert_eq!(r.malformed.len(), 0);
}

#[test]
fn parentheses_nest_and_quotes_hide_them() {
    let r = extract("doc.md", "[a](https://x.com/(y)) [b](https://z.com \"t)\")");
    assert_eq!(urls(&r), vec!["https://x.com/(y)", "https://z.com"]);
}

#[test]
fn title_with_text_behind_it_is_unbalanced() {
    let r = extract("doc.md", "[a](https://x.com \"t\"u)");
    assert_eq!(r.occurrences.len(), 0);
    assert_eq!(problems(&r), vec![Problem::UnbalancedTitle]);
    assert_eq!(r.malformed[0].url, "https://x.com");
}

#[test]
fn unmatched_brackets_keep_the_rest_of_the_line() {
    let r = extract("doc.md", "x [a](https://x.com and [b](https://y.com)");
    assert_eq!(r.occurrences.len(), 0);
    assert_eq!(problems(&r), vec![Problem::UnmatchedBrackets]);
    assert_eq!(r.malformed[0].url, "https://x.com and [b](https://y.com)");
    assert_eq!(r.malformed[0].location.column, 3);
}

#[test]
fn text_that_only_looks_like_a_scheme_is_malformed() {
    let r = extract("doc.md", "[a](1:2) [b](#top) [c](/a:b) [d](tel:1)");
    assert_eq!(r.occurrences.len(), 0);
    assert_eq!(problems(&r), vec![Problem::InvalidUrl]);
    assert_eq!(r.malformed[0].url, "1:2");
}

#[test]
fn punctuation_stays_where_the_url_needs_it() {
    let r = extract("doc.md", "http://! and http://a.com!?");
    assert_eq!(urls(&r), vec!["http://!", "http://a.com"]);
    assert_eq!(r.malformed.len(), 0);
}

#[test]
fn bare_url_ends_at_white_space_and_brackets() {
    let r = extract(
        "doc.md",
        "https://a.com\u{a0}x (https://b.com) https://c.com<br>https://d.com\tx",
    );
    assert_eq!(
        urls(&r),
        vec!["https://a.com", "https://b.com", "https://c.com", "https://d.com"]
    );
}

#[test]
fn prefix_without_host_is_never_a_link() {
    let r = extract("doc.md", "[a](https://) [b](http://?q) [c](https://#f) [d](http:///)");
    assert_eq!(r.occurrences.len(), 0);
    assert_eq!(problems(&r), vec![Problem::MissingHost; 4]);
}

#[test]
fn links_come_in_the_order_of_their_places() {
    let r = extract(
        "doc.md",
        "https://a.com [b](https://b.com) <https://c.com>\n\nhttps://d.com https://e.com",
    );
    let places: Vec<(usize, usize)> =
        r.occurrences.iter().map(|o| (o.location.line, o.location.column)).collect();
    assert_eq!(places, vec![(1, 1), (1, 15), (1, 34), (3, 1), (3, 15)]);
}

#[test]
fn unique_urls_keep_the_first_order() {
    let r = extract("doc.md", "http://b.c http://a.c http://b.c http://d.c http://a.c");
    assert_eq!(unique_urls(&r.occurrences), vec!["http://b.c", "http://a.c", "http://d.c"]);
    assert_eq!(unique_urls(&r.occurrences[..2]), vec!["http://b.c", "http://a.c"]);
    assert_eq!(unique_urls(&[]), Vec::<String>::new());
}

#[test]
fn extraction_clones_to_equal_parts() {
    let r = extract("doc.md", "[a](https://x.com) [b]()");
    let c = r.clone();
    assert_eq!(urls(&c), urls(&r));
    assert_eq!(problems(&c), problems(&r));
    assert_eq!(c.occurrences[0].location, r.occurrences[0].location);
    assert_eq!(c.malformed[0].location, r.malformed[0].location);
}

#[test]
fn mistyped_url_is_malformed() {
    let r = extract("doc.md", "[a](htp:/x)");
    assert_eq!(r.occurrences.len(), 0);
    assert_eq!(r.malformed.len(), 1);
    assert_eq!(r.malformed[0].url, "htp:/x");
    assert_eq!(r.malformed[0].problem, Problem::InvalidUrl);
    assert_eq!((r.malformed[0].location.line, r.malformed[0].location.column), (1, 1));
}

#[test]
fn a_definition_needs_white_space() {
    let r = extract("doc.md", "[a]:http://x.y\n[b]:z");
    assert_eq!(r.occurrences.len(), 1);
    assert_eq!(r.occurrences[0].location.column, 5);
    assert_eq!(r.malformed.len(), 0);
}
