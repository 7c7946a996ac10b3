//! What a link target is: a link to check, a malformed link, or out of scope.
use vstd::prelude::*;

use crate::extract::Problem;
use crate::text::{chars_of, matches_at, option_view, stands_at};

verus! {

/// What becomes of a link target.
#[derive(Clone, Copy, Debug, PartialEq, Eq, Structural)]
pub enum Verdict {
    /// An HTTP(S) URL with a host.
    Link,
    /// Reported, and never checked.
    Malformed(Problem),
    /// Out of scope: another scheme, a fragment or a relative path.
    Skipped,
}

/// What is read off an absolute URL.
pub struct ParsedUrl {
    /// The URL in its normal form.
    pub text: String,
    /// The host, where the URL has one.
    pub host: Option<String>,
}

impl View for ParsedUrl {
    type V = (Seq<char>, Option<Seq<char>>);

    open spec fn view(&self) -> (Seq<char>, Option<Seq<char>>) {
        (self.text@, option_view(self.host))
    }
}

/// What `url::Url::parse` makes of `input`: the normal form of the URL and its
/// host, or nothing where `input` is not an absolute URL.
pub uninterp spec fn url_parse(input: Seq<char>) -> Option<(Seq<char>, Option<Seq<char>>)>;

/// Calls `url::Url::parse` and reads the serialization and the host off the
/// URL. What the parser accepts is given the name `url_parse`. Stated beside it
/// is only that `http://` and `https://` need a host: where the prefix is
/// followed by nothing, by a query or by a fragment, there is no URL.
#[verifier::external_body]
pub(crate) fn parse_url(input: &str) -> (parsed: Option<ParsedUrl>)
    ensures
        option_view(parsed) == url_parse(input@),
        gives_no_host(input@) ==> parsed is None,
{
    match url::Url::parse(input) {
        Ok(url) => Some(
            ParsedUrl { text: String::from(url.as_str()), host: url.host_str().map(String::from) },
        ),
        Err(_) => None,
    }
}

/// `url` starts with `http://` or `https://`.
pub open spec fn has_http_prefix(url: Seq<char>) -> bool {
    stands_at(url, 0, "http://"@) || stands_at(url, 0, "https://"@)
}

/// What follows the `https://` or `http://` prefix; all of `url` where it has
/// neither.
pub open spec fn after_prefix(url: Seq<char>) -> Seq<char> {
    if stands_at(url, 0, "https://"@) {
        url.skip("https://"@.len() as int)
    } else if stands_at(url, 0, "http://"@) {
        url.skip("http://"@.len() as int)
    } else {
        url
    }
}

/// `c` ends the host part of a URL.
pub open spec fn ends_host(c: char) -> bool {
    c == '/' || c == '?' || c == '#'
}

/// Nothing, a query or a fragment follows the HTTP(S) prefix.
pub open spec fn gives_no_host(url: Seq<char>) -> bool {
    has_http_prefix(url) && {
        let after = after_prefix(url);
        after.len() == 0 || after[0] == '?' || after[0] == '#'
    }
}

/// `url` has a `:` with no `/`, `?` or `#` before it.
pub open spec fn scheme_like(url: Seq<char>) -> bool {
    exists|i: int|
        0 <= i < url.len() && #[trigger] url[i] == ':' && forall|j: int|
            0 <= j < i ==> !ends_host(#[trigger] url[j])
}

/// `c` is the letter `d`, in either case. `d` is in lower case.
pub open spec fn is_letter(c: char, d: char) -> bool {
    c == d || ('A' <= c <= 'Z' && c as u32 + 32 == d as u32)
}

/// The scheme of `url` is `name`.
pub open spec fn has_scheme(url: Seq<char>, name: Seq<char>) -> bool {
    &&& name.len() < url.len()
    &&& url[name.len() as int] == ':'
    &&& forall|i: int| 0 <= i < name.len() ==> is_letter(#[trigger] url[i], name[i])
}

/// `url` has the scheme `name`, and a single slash behind it.
pub open spec fn has_single_slash(url: Seq<char>, name: Seq<char>) -> bool {
    &&& has_scheme(url, name)
    &&& name.len() + 1 < url.len()
    &&& url[name.len() + 1int] == '/'
    &&& name.len() + 2 < url.len() ==> url[name.len() + 2int] != '/'
}

/// `url` is a mistyped HTTP(S) URL, such as `htp:/x`: the scheme lacks a `t`, and
/// a slash is missing as well.
pub open spec fn is_mistyped(url: Seq<char>) -> bool {
    has_single_slash(url, "htp"@) || has_single_slash(url, "htps"@)
}

/// The verdict on `url`, given what the URL parser makes of it.
pub open spec fn verdict_on(
    url: Seq<char>,
    parsed: Option<(Seq<char>, Option<Seq<char>>)>,
) -> Verdict {
    if url.len() == 0 {
        Verdict::Malformed(Problem::EmptyUrl)
    } else if has_http_prefix(url) {
        match parsed {
            Some((_, Some(_))) => Verdict::Link,
            Some((_, None)) => Verdict::Malformed(Problem::MissingHost),
            None => {
                let after = after_prefix(url);
                if after.len() == 0 || ends_host(after[0]) {
                    Verdict::Malformed(Problem::MissingHost)
                } else {
                    Verdict::Malformed(Problem::InvalidUrl)
                }
            },
        }
    } else if is_mistyped(url) || (parsed is None && scheme_like(url)) {
        Verdict::Malformed(Problem::InvalidUrl)
    } else {
        Verdict::Skipped
    }
}

/// The verdict on `url`.
pub open spec fn verdict(url: Seq<char>) -> Verdict {
    verdict_on(url, url_parse(url))
}

/// The position after the HTTP(S) prefix, 0 where there is none.
pub fn strip_scheme_prefix(url: &Vec<char>) -> (at: usize)
    ensures
        at <= url@.len(),
        url@.skip(at as int) == after_prefix(url@),
        at > 0 <==> has_http_prefix(url@),
{
    proof {
        reveal_strlit("https://");
        reveal_strlit("http://");
    }
    if matches_at(url, 0, "https://") {
        8
    } else if matches_at(url, 0, "http://") {
        7
    } else {
        assert(url@.skip(0) == url@);
        0
    }
}

/// Whether a `:` comes before the first `/`, `?` or `#`.
pub fn looks_scheme_like(url: &Vec<char>) -> (r: bool)
    ensures
        r == scheme_like(url@),
{
    let mut i: usize = 0;
    while i < url.len()
        invariant
            i <= url@.len(),
            forall|j: int| 0 <= j < i ==> url@[j] != ':' && !ends_host(url@[j]),
        decreases url@.len() - i,
    {
        let c = url[i];
        if c == ':' {
            return true;
        }
        if c == '/' || c == '?' || c == '#' {
            assert(ends_host(url@[i as int]));
            return false;
        }
        i += 1;
    }
    false
}

/// Whether the scheme of a URL is `name`.
pub fn scheme_is(url: &Vec<char>, name: &str) -> (r: bool)
    ensures
        r == has_scheme(url@, name@),
{
    let wanted = chars_of(name);
    if wanted.len() >= url.len() || url[wanted.len()] != ':' {
        return false;
    }
    let mut i: usize = 0;
    while i < wanted.len()
        invariant
            i <= wanted@.len() < url@.len(),
            wanted@ == name@,
            forall|j: int| 0 <= j < i ==> is_letter(#[trigger] url@[j], name@[j]),
        decreases wanted@.len() - i,
    {
        let c = url[i];
        let d = wanted[i];
        if !(c == d || ('A' <= c && c <= 'Z' && c as u32 + 32 == d as u32)) {
            assert(!is_letter(url@[i as int], name@[i as int]));
            return false;
        }
        i += 1;
    }
    true
}

/// Whether a URL has the scheme `name`, and a single slash behind it.
pub fn single_slash(url: &Vec<char>, name: &str) -> (r: bool)
    ensures
        r == has_single_slash(url@, name@),
{
    if !scheme_is(url, name) {
        return false;
    }
    let colon = chars_of(name).len();
    let rest = url.len() - colon;
    rest > 1 && url[colon + 1] == '/' && !(rest > 2 && url[colon + 2] == '/')
}

/// Whether a URL is a mistyped HTTP(S) URL.
pub fn looks_mistyped(url: &Vec<char>) -> (r: bool)
    ensures
        r == is_mistyped(url@),
{
    single_slash(url, "htp") || single_slash(url, "htps")
}

/// The verdict on a URL with an HTTP(S) prefix, given what the URL parser made
/// of it.
pub fn classify_http(url: &Vec<char>, parsed: &Option<ParsedUrl>) -> (v: Verdict)
    requires
        has_http_prefix(url@),
    ensures
        v == verdict_on(url@, option_view(*parsed)),
{
    proof {
        reveal_strlit("https://");
        reveal_strlit("http://");
    }
    match parsed {
        Some(p) => {
            if p.host.is_none() {
                Verdict::Malformed(Problem::MissingHost)
            } else {
                Verdict::Link
            }
        },
        None => {
            let at = strip_scheme_prefix(url);
            if at == url.len() || url[at] == '/' || url[at] == '?' || url[at] == '#' {
                Verdict::Malformed(Problem::MissingHost)
            } else {
                Verdict::Malformed(Problem::InvalidUrl)
            }
        },
    }
}

/// The verdict on a URL, given what the URL parser made of it.
pub fn judge(url: &str, parsed: &Option<ParsedUrl>) -> (v: Verdict)
    ensures
        v == verdict_on(url@, option_view(*parsed)),
{
    let chars = chars_of(url);
    if chars.len() == 0 {
        return Verdict::Malformed(Problem::EmptyUrl);
    }
    if strip_scheme_prefix(&chars) > 0 {
        return classify_http(&chars, parsed);
    }
    if looks_mistyped(&chars) || (parsed.is_none() && looks_scheme_like(&chars)) {
        Verdict::Malformed(Problem::InvalidUrl)
    } else {
        Verdict::Skipped
    }
}

/// The verdict on a URL. An HTTP(S) prefix with nothing, a query or a fragment
/// behind it is always a link without a host.
pub fn verdict_of(url: &str) -> (v: Verdict)
    ensures
        v == verdict(url@),
        gives_no_host(url@) ==> v == Verdict::Malformed(Problem::MissingHost),
{
    proof {
        reveal_strlit("https://");
        reveal_strlit("http://");
    }
    let parsed = parse_url(url);
    judge(url, &parsed)
}

/// A link starts with `http://` or `https://`, and the URL parser finds a host
/// in it.
pub proof fn law_link_has_scheme_and_host(url: Seq<char>)
    ensures
        verdict(url) == Verdict::Link <==> {
            &&& url.len() > 0
            &&& has_http_prefix(url)
            &&& url_parse(url) matches Some((_, Some(_)))
        },
{
}

/// Whatever has no HTTP(S) prefix is no link, and is malformed only where it is
/// empty, a mistyped HTTP(S) URL, or looks like a URL with a scheme and does not
/// parse.
pub proof fn law_other_targets(url: Seq<char>)
    requires
        !has_http_prefix(url),
    ensures
        verdict(url) != Verdict::Link,
        url.len() > 0 && url_parse(url) is Some && !is_mistyped(url) ==> verdict(url)
            == Verdict::Skipped,
        url.len() > 0 && !scheme_like(url) ==> verdict(url) == Verdict::Skipped,
{
    if is_mistyped(url) {
        reveal_strlit("htp");
        reveal_strlit("htps");
        let name = if has_single_slash(url, "htp"@) {
            "htp"@
        } else {
            "htps"@
        };
        assert forall|j: int| 0 <= j < name.len() implies !ends_host(#[trigger] url[j]) by {
            assert(is_letter(url[j], name[j]));
        }
        assert(url[name.len() as int] == ':');
        assert(scheme_like(url));
    }
}

/// A mistyped HTTP(S) URL is an invalid one, whatever the URL parser says.
pub proof fn law_mistyped_url(url: Seq<char>)
    requires
        is_mistyped(url),
    ensures
        verdict(url) == Verdict::Malformed(Problem::InvalidUrl),
{
    reveal_strlit("htp");
    reveal_strlit("htps");
    reveal_strlit("http://");
    reveal_strlit("https://");
    assert(url[2] != 't') by {
        if has_single_slash(url, "htp"@) {
            assert(is_letter(url[2], "htp"@[2]));
        } else {
            assert(is_letter(url[2], "htps"@[2]));
        }
    }
    if stands_at(url, 0, "http://"@) {
        assert(url.subrange(0, 7)[2] == url[2]);
    }
    if stands_at(url, 0, "https://"@) {
        assert(url.subrange(0, 8)[2] == url[2]);
    }
}

} // verus!
