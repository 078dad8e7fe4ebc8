//! URL classification and the mapping of remote URLs to local proxy paths.
use crate::text::{contains_str, ends_with, occurs_in, starts_with};
use path_slash::PathExt;
use vstd::prelude::*;
use vstd::string::*;

verus! {

/// The parts of a parsed URL that the rewriting rules read.
pub struct UrlParts {
    pub scheme: String,
    pub host: Option<String>,
    pub port: Option<u16>,
    pub path: String,
    pub query: Option<String>,
    /// The decoded keys of the `key=value` pairs of the query, in order.
    pub query_keys: Vec<String>,
}

/// The mathematical value of a [`UrlParts`].
pub struct UrlView {
    pub scheme: Seq<char>,
    pub host: Option<Seq<char>>,
    pub port: Option<u16>,
    pub path: Seq<char>,
    pub query: Option<Seq<char>>,
    pub query_keys: Seq<Seq<char>>,
}

pub open spec fn opt_view(o: Option<String>) -> Option<Seq<char>> {
    match o {
        Some(s) => Some(s@),
        None => None,
    }
}

/// The views of a sequence of strings.
pub open spec fn string_views(s: Seq<String>) -> Seq<Seq<char>> {
    s.map_values(|k: String| k@)
}

impl View for UrlParts {
    type V = UrlView;

    open spec fn view(&self) -> UrlView {
        UrlView {
            scheme: self.scheme@,
            host: opt_view(self.host),
            port: self.port,
            path: self.path@,
            query: opt_view(self.query),
            query_keys: string_views(self.query_keys@),
        }
    }
}

/// What the WHATWG URL parser makes of a string: `None` where it fails.
pub uninterp spec fn parsed_url(s: Seq<char>) -> Option<UrlView>;

/// The form that a path takes with `/` as its separator.
pub uninterp spec fn slash_path(p: Seq<char>) -> Option<Seq<char>>;

/// Relies on `url::Url::parse`, and on its accessors `scheme`, `host_str`,
/// `port`, `path`, `query` and `query_pairs`, to split a URL into its parts.
#[verifier::external_body]
pub(crate) fn parse_url(s: &str) -> (r: Option<UrlParts>)
    ensures
        r is Some <==> parsed_url(s@) is Some,
        r is Some ==> r->0@ == parsed_url(s@)->0,
{
    let u = url::Url::parse(s).ok()?;
    Some(UrlParts {
        scheme: u.scheme().to_string(),
        host: u.host_str().map(|h| h.to_string()),
        port: u.port(),
        path: u.path().to_string(),
        query: u.query().map(|q| q.to_string()),
        query_keys: u.query_pairs().map(|(k, _)| k.into_owned()).collect(),
    })
}

/// Relies on `path_slash::PathExt::to_slash`: the path written with `/` as
/// its separator, or `None` where it is not valid UTF-8.
#[verifier::external_body]
pub(crate) fn to_slash(p: &str) -> (r: Option<String>)
    ensures
        opt_view(r) == slash_path(p@),
{
    std::path::Path::new(p).to_slash().map(|c| c.into_owned())
}

/// The decimal digit `d`.
pub open spec fn digit(d: nat) -> char {
    if d == 0 {
        '0'
    } else if d == 1 {
        '1'
    } else if d == 2 {
        '2'
    } else if d == 3 {
        '3'
    } else if d == 4 {
        '4'
    } else if d == 5 {
        '5'
    } else if d == 6 {
        '6'
    } else if d == 7 {
        '7'
    } else if d == 8 {
        '8'
    } else {
        '9'
    }
}

/// `n` written in decimal, without leading zeros.
pub open spec fn decimal(n: nat) -> Seq<char>
    decreases n,
{
    if n < 10 {
        seq![digit(n)]
    } else {
        decimal(n / 10).push(digit(n % 10))
    }
}

fn digit_str(d: u32) -> (r: &'static str)
    requires
        d < 10,
    ensures
        r@ == seq![digit(d as nat)],
{
    proof {
        reveal_strlit("0");
        reveal_strlit("1");
        reveal_strlit("2");
        reveal_strlit("3");
        reveal_strlit("4");
        reveal_strlit("5");
        reveal_strlit("6");
        reveal_strlit("7");
        reveal_strlit("8");
        reveal_strlit("9");
    }
    let r = if d == 0 {
        "0"
    } else if d == 1 {
        "1"
    } else if d == 2 {
        "2"
    } else if d == 3 {
        "3"
    } else if d == 4 {
        "4"
    } else if d == 5 {
        "5"
    } else if d == 6 {
        "6"
    } else if d == 7 {
        "7"
    } else if d == 8 {
        "8"
    } else {
        "9"
    };
    assert(r@ =~= seq![digit(d as nat)]);
    r
}

/// `n` written in decimal.
pub fn decimal_string(n: u32) -> (r: String)
    ensures
        r@ == decimal(n as nat),
    decreases n,
{
    if n < 10 {
        String::from_str(digit_str(n))
    } else {
        let head = decimal_string(n / 10);
        let r = head.concat(digit_str(n % 10));
        assert(r@ =~= decimal(n as nat));
        r
    }
}

/// Starts with `http://` or `https://`.
pub open spec fn is_http(u: Seq<char>) -> bool {
    "https://"@.is_prefix_of(u) || "http://"@.is_prefix_of(u)
}

/// Points into the `esm.sh` module CDN.
pub open spec fn is_esm_sh(u: Seq<char>) -> bool {
    "https://esm.sh/"@.is_prefix_of(u) || "http://esm.sh/"@.is_prefix_of(u)
}

/// Refers to a stylesheet: a `.css` file, with or without a query, or a CDN
/// module asked for with a `css` query key.
pub open spec fn is_css(u: Seq<char>) -> bool {
    ||| is_esm_sh(u) && parsed_url(u) is Some && parsed_url(u)->0.query_keys.contains("css"@)
    ||| ".css"@.is_suffix_of(u)
    ||| occurs_in(".css?"@, u)
}

/// Whether `url` is a remote (`http` or `https`) URL.
pub fn is_http_url(url: &str) -> (r: bool)
    ensures
        r == is_http(url@),
{
    starts_with(url, "https://") || starts_with(url, "http://")
}

/// Whether `url` points into the `esm.sh` CDN.
pub fn is_esm_sh_url(url: &str) -> (r: bool)
    ensures
        r == is_esm_sh(url@),
{
    starts_with(url, "https://esm.sh/") || starts_with(url, "http://esm.sh/")
}

fn has_key(keys: &Vec<String>, key: &str) -> (r: bool)
    ensures
        r == string_views(keys@).contains(key@),
{
    let target = String::from_str(key);
    let mut i: usize = 0;
    while i < keys.len()
        invariant
            i <= keys.len(),
            target@ == key@,
            forall|j: int| 0 <= j < i ==> keys@[j]@ != key@,
        decreases keys.len() - i,
    {
        if keys[i] == target {
            assert(string_views(keys@)[i as int] == key@);
            return true;
        }
        i = i + 1;
    }
    assert forall|j: int| 0 <= j < keys@.len() implies #[trigger] string_views(keys@)[j]
        != key@ by {}
    false
}

/// Whether `url` refers to a stylesheet.
pub fn is_css_url(url: &str) -> (r: bool)
    ensures
        r == is_css(url@),
{
    if is_esm_sh_url(url) {
        if let Some(parts) = parse_url(url) {
            if has_key(&parts.query_keys, "css") {
                return true;
            }
        }
    }
    ends_with(url, ".css") || contains_str(url, ".css?")
}

/// The local proxy path that stands for a remote URL:
/// `/-/`, then `http_` for plain `http`, the host, `_` and the port where one
/// is given that is not the scheme's default, the path and the query.
pub open spec fn local_path(v: UrlView, host: Seq<char>, path: Seq<char>) -> Seq<char> {
    let scheme_part = if v.scheme == "http"@ {
        "http_"@
    } else {
        Seq::<char>::empty()
    };
    let port_part = match v.port {
        Some(p) => if (v.scheme == "http"@ && p == 80) || (v.scheme == "https"@ && p == 443) {
            Seq::<char>::empty()
        } else {
            "_"@ + decimal(p as nat)
        },
        None => Seq::<char>::empty(),
    };
    let query_part = match v.query {
        Some(q) => "?"@ + q,
        None => Seq::<char>::empty(),
    };
    "/-/"@ + scheme_part + host + port_part + path + query_part
}

/// The local proxy path of `url`, where it parses with a host.
pub open spec fn local_path_of(url: Seq<char>) -> Option<Seq<char>> {
    match parsed_url(url) {
        Some(v) => match v.host {
            Some(h) => match slash_path(v.path) {
                Some(p) => Some(local_path(v, h, p)),
                None => None,
            },
            None => None,
        },
        None => None,
    }
}

/// Builds the proxy path from the parts of a parsed URL; `None` where the URL
/// has no host.
pub fn local_path_from_parts(parts: &UrlParts) -> (r: Option<String>)
    ensures
        r is Some <==> (parts@.host is Some && slash_path(parts@.path) is Some),
        r is Some ==> r->0@ == local_path(
            parts@,
            parts@.host->0,
            slash_path(parts@.path)->0,
        ),
{
    let host = match &parts.host {
        Some(h) => h,
        None => return None,
    };
    let path = match to_slash(parts.path.as_str()) {
        Some(p) => p,
        None => return None,
    };
    proof {
        reveal_strlit("/-/");
        reveal_strlit("http_");
        reveal_strlit("http");
        reveal_strlit("https");
        reveal_strlit("_");
        reveal_strlit("?");
    }
    let is_plain_http = parts.scheme == String::from_str("http");
    let is_https = parts.scheme == String::from_str("https");
    let mut out = String::from_str("/-/");
    if is_plain_http {
        out.append("http_");
    }
    out.append(host.as_str());
    if let Some(port) = parts.port {
        if (is_plain_http && port == 80) || (is_https && port == 443) {
        } else {
            out.append("_");
            let digits = decimal_string(port as u32);
            out.append(digits.as_str());
        }
    }
    out.append(path.as_str());
    if let Some(q) = &parts.query {
        out.append("?");
        out.append(q.as_str());
    }
    let ghost v = parts@;
    assert(out@ =~= local_path(v, host@, path@));
    Some(out)
}

/// Proxy paths: an `https` URL becomes `/-/` and its host; a plain `http`
/// URL becomes `/-/http_` and its host.
pub proof fn lemma_proxy_prefix(v: UrlView, host: Seq<char>, path: Seq<char>)
    ensures
        v.scheme == "https"@ ==> ("/-/"@ + host).is_prefix_of(local_path(v, host, path)),
        v.scheme == "http"@ ==> ("/-/http_"@ + host).is_prefix_of(local_path(v, host, path)),
{
    reveal_strlit("http");
    reveal_strlit("https");
    reveal_strlit("http_");
    reveal_strlit("/-/");
    reveal_strlit("/-/http_");
    let out = local_path(v, host, path);
    if v.scheme == "https"@ {
        assert(v.scheme.len() == 5);
        assert(v.scheme != "http"@);
        let pre = "/-/"@ + host;
        assert(out.subrange(0, pre.len() as int) =~= pre);
    }
    if v.scheme == "http"@ {
        let pre = "/-/http_"@ + host;
        assert(out.subrange(0, pre.len() as int) =~= pre);
    }
}

} // verus!
