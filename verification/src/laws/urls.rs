//! The verdict on a link target, told by its characters.
use vstd::prelude::*;

use crate::check::key_for;
use crate::extract::Problem;
use crate::urls::{
    after_prefix, ends_host, gives_no_host, has_http_prefix, has_scheme, has_single_slash,
    is_letter, is_mistyped, scheme_like, url_parse, verdict, verdict_on, Verdict,
};

verus! {

/// `https://` or `http://`.
pub open spec fn prefix(secure: bool) -> Seq<char> {
    if secure {
        seq!['h', 't', 't', 'p', 's', ':', '/', '/']
    } else {
        seq!['h', 't', 't', 'p', ':', '/', '/']
    }
}

/// `url` starts with the characters of `http://` or of `https://`.
pub open spec fn starts_as_http(url: Seq<char>) -> bool {
    ||| url.len() >= 7 && url.take(7) == prefix(false)
    ||| url.len() >= 8 && url.take(8) == prefix(true)
}

/// The prefixes of HTTP(S) URLs are `http://` and `https://`, in lower case.
pub proof fn law_prefixes(url: Seq<char>)
    ensures
        has_http_prefix(url) <==> starts_as_http(url),
{
    reveal_strlit("http://");
    reveal_strlit("https://");
    assert("http://"@ =~= prefix(false));
    assert("https://"@ =~= prefix(true));
    if url.len() >= 7 {
        assert(url.take(7) =~= url.subrange(0, 7));
    }
    if url.len() >= 8 {
        assert(url.take(8) =~= url.subrange(0, 8));
    }
}

/// An HTTP(S) URL in which the parser finds a host is a link. Where it finds
/// none, or where nothing, `/`, `?` or `#` follows the prefix of one that does
/// not parse, the host is missing; any other that does not parse is invalid.
pub proof fn law_http_targets(
    secure: bool,
    rest: Seq<char>,
    text: Seq<char>,
    host: Seq<char>,
)
    ensures
        ({
            let url = prefix(secure) + rest;
            &&& has_http_prefix(url)
            &&& after_prefix(url) == rest
            &&& gives_no_host(url) <==> rest.len() == 0 || rest[0] == '?' || rest[0] == '#'
            &&& verdict_on(url, Some((text, Some(host)))) == Verdict::Link
            &&& verdict_on(url, Some((text, None))) == Verdict::Malformed(Problem::MissingHost)
            &&& verdict_on(url, None) == Verdict::Malformed(
                if rest.len() == 0 || rest[0] == '/' || rest[0] == '?' || rest[0] == '#' {
                    Problem::MissingHost
                } else {
                    Problem::InvalidUrl
                },
            )
        }),
{
    let url = prefix(secure) + rest;
    law_prefixes(url);
    reveal_strlit("http://");
    reveal_strlit("https://");
    assert("http://"@ =~= prefix(false));
    assert("https://"@ =~= prefix(true));
    if secure {
        assert(url.take(8) =~= prefix(true));
        assert(url.subrange(0, 8) =~= "https://"@);
        assert(url.skip(8) =~= rest);
    } else {
        assert(url.take(7) =~= prefix(false));
        assert(url.subrange(0, 7) =~= "http://"@);
        assert(url.skip(7) =~= rest);
        if url.len() >= 8 {
            assert(url.subrange(0, 8)[4] == ':');
        }
    }
}

/// A `:` comes before any `/`, `?` or `#`.
pub open spec fn has_early_colon(url: Seq<char>) -> bool {
    exists|i: int|
        0 <= i < url.len() && #[trigger] url[i] == ':' && forall|j: int|
            0 <= j < i ==> #[trigger] url[j] != '/' && url[j] != '?' && url[j] != '#'
}

/// `htp:/` or `htps:/`, in letters of either case, and no second slash.
pub open spec fn has_slip(url: Seq<char>) -> bool {
    &&& url.len() >= 5
    &&& url[0] == 'h' || url[0] == 'H'
    &&& url[1] == 't' || url[1] == 'T'
    &&& url[2] == 'p' || url[2] == 'P'
    &&& {
        ||| url[3] == ':' && url[4] == '/' && (url.len() > 5 ==> url[5] != '/')
        ||| (url[3] == 's' || url[3] == 'S') && url[4] == ':' && url.len() > 5 && url[5] == '/' && (
        url.len() > 6 ==> url[6] != '/')
    }
}

/// A mistyped URL is told by its characters.
pub proof fn law_slips(url: Seq<char>)
    ensures
        is_mistyped(url) <==> has_slip(url),
{
    reveal_strlit("htp");
    reveal_strlit("htps");
    let p = "htp"@;
    let q = "htps"@;
    assert(p =~= seq!['h', 't', 'p']);
    assert(q =~= seq!['h', 't', 'p', 's']);
    if has_single_slash(url, p) {
        assert(is_letter(url[0], p[0]) && is_letter(url[1], p[1]) && is_letter(url[2], p[2]));
    }
    if has_single_slash(url, q) {
        assert(is_letter(url[0], q[0]) && is_letter(url[1], q[1]) && is_letter(url[2], q[2]));
        assert(is_letter(url[3], q[3]));
    }
    if has_slip(url) {
        if url[3] == ':' {
            assert(has_scheme(url, p));
        } else {
            assert(has_scheme(url, q));
        }
    }
}

/// A target without an HTTP(S) prefix is no link. It is malformed where it is
/// empty, mistyped, or does not parse and has a `:` before any `/`, `?` or `#`;
/// else it is skipped.
pub proof fn law_targets_out_of_scope(
    url: Seq<char>,
    parsed: Option<(Seq<char>, Option<Seq<char>>)>,
)
    requires
        !starts_as_http(url),
    ensures
        verdict_on(url, parsed) == (if url.len() == 0 {
            Verdict::Malformed(Problem::EmptyUrl)
        } else if has_slip(url) || (parsed is None && has_early_colon(url)) {
            Verdict::Malformed(Problem::InvalidUrl)
        } else {
            Verdict::Skipped
        }),
        after_prefix(url) == url,
{
    law_prefixes(url);
    law_slips(url);
    if scheme_like(url) {
        let i = choose|i: int|
            0 <= i < url.len() && #[trigger] url[i] == ':' && forall|j: int|
                0 <= j < i ==> !ends_host(#[trigger] url[j]);
        assert forall|j: int| 0 <= j < i implies #[trigger] url[j] != '/' && url[j] != '?' && url[j]
            != '#' by {
            assert(!ends_host(url[j]));
        }
        assert(has_early_colon(url));
    }
    if has_early_colon(url) {
        let i = choose|i: int|
            0 <= i < url.len() && #[trigger] url[i] == ':' && forall|j: int|
                0 <= j < i ==> #[trigger] url[j] != '/' && url[j] != '?' && url[j] != '#';
        assert(forall|j: int| 0 <= j < i ==> !ends_host(#[trigger] url[j]));
        assert(scheme_like(url));
    }
}

/// The verdict on a URL goes by what the parser makes of that URL, and the name
/// of its redirects is the normal form that the parser gives it, or the URL
/// itself.
pub proof fn law_parser_is_asked(url: Seq<char>, text: Seq<char>, host: Option<Seq<char>>)
    ensures
        verdict(url) == verdict_on(url, url_parse(url)),
        key_for(url, Some((text, host))) == text,
        key_for(url, None) == url,
{
}

} // verus!
