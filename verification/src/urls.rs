//! URLs: parsing (absolute URIs and absolute paths) and the accessors of
//! a parsed URL.
//!
//! Parsing is the `url` crate's; its result is held as plain values, and
//! every accessor is computed here from them.
use vstd::prelude::*;
use crate::text::{dec_digits, push_char, push_decimal, push_str, str_eq, string_of};

verus! {

#[verifier::external_type_specification]
#[verifier::external_body]
pub struct ExUrlParseError(url::ParseError);

/// A parsed URL: its scheme, host, port, path, decoded query pairs and
/// serialised form.
#[derive(Debug)]
pub struct KubeUrl {
    scheme: String,
    host: Option<String>,
    port: Option<u16>,
    path: String,
    query: Vec<(String, String)>,
    text: String,
}

/// The parts of a URL: scheme, host, port, path, query pairs, serialisation.
pub type UrlParts = (Seq<char>, Option<Seq<char>>, Option<u16>, Seq<char>, Seq<(Seq<char>, Seq<char>)>, Seq<char>);

/// The text of a list of string pairs.
pub open spec fn pairs_view(v: Seq<(String, String)>) -> Seq<(Seq<char>, Seq<char>)> {
    v.map_values(|p: (String, String)| (p.0@, p.1@))
}

/// The text of an optional string.
pub open spec fn opt_view(o: Option<String>) -> Option<Seq<char>> {
    match o {
        Some(s) => Some(s@),
        None => None,
    }
}

impl View for KubeUrl {
    type V = UrlParts;

    closed spec fn view(&self) -> UrlParts {
        (self.scheme@, opt_view(self.host), self.port, self.path@, pairs_view(self.query@), self.text@)
    }
}

/// What `url::Url::parse` gives for `text`: the parts of the URL, or `None`
/// where it reports an error.
pub uninterp spec fn url_parse(text: Seq<char>) -> Option<UrlParts>;

/// Parses `s` with `url::Url::parse` and reads the parts of the result
/// (`scheme`, `host_str`, `port`, `path`, `query_pairs`, `as_str`).
///
/// The contract claims that the call succeeds exactly where [`url_parse`]
/// has a value, and that the URL has those parts.
#[verifier::external_body]
fn parse_url_text(s: &str) -> (r: Result<KubeUrl, url::ParseError>)
    ensures
        match r {
            Ok(u) => url_parse(s@) == Some(u@),
            Err(_) => url_parse(s@) is None,
        },
{
    match url::Url::parse(s) {
        Ok(u) => Ok(
            KubeUrl {
                scheme: u.scheme().to_string(),
                host: u.host_str().map(|h| h.to_string()),
                port: u.port(),
                path: u.path().to_string(),
                query: u.query_pairs().map(|(k, v)| (k.into_owned(), v.into_owned())).collect(),
                text: u.as_str().to_string(),
            },
        ),
        Err(e) => Err(e),
    }
}

/// The message of a `url::ParseError` (its `Display`); nothing is claimed
/// of it.
#[verifier::external_body]
fn url_error_message(e: &url::ParseError) -> String {
    e.to_string()
}

/// The text parsed for `s`: an absolute path is read against
/// `http://localhost`.
pub open spec fn url_input(s: Seq<char>) -> Seq<char> {
    if s.len() > 0 && s[0] == '/' {
        "http://localhost"@ + s
    } else {
        s
    }
}

/// Parses an absolute URI, or an absolute path (read as
/// `http://localhost<path>`). The error names the `url` crate's message
/// after `invalid URL: `.
pub fn validate_and_parse(s: &str) -> (r: Result<KubeUrl, String>)
    ensures
        match r {
            Ok(u) => url_parse(url_input(s@)) == Some(u@),
            Err(e) => url_parse(url_input(s@)) is None && e@.len() >= 13 && e@.subrange(0, 13)
                == "invalid URL: "@,
        },
{
    let v = crate::text::chars_of(s);
    let parsed = if v.len() > 0 && v[0] == '/' {
        let mut full = string_of("http://localhost");
        push_str(&mut full, s);
        parse_url_text(full.as_str())
    } else {
        parse_url_text(s)
    };
    match parsed {
        Ok(u) => Ok(u),
        Err(e) => {
            let mut m = string_of("invalid URL: ");
            let ghost prefix = m@;
            push_str(&mut m, url_error_message(&e).as_str());
            proof {
                reveal_strlit("invalid URL: ");
                assert(m@.subrange(0, 13) =~= prefix);
            }
            Err(m)
        },
    }
}

/// `url(<string>)`.
pub fn parse_url(s: &str) -> (r: Result<KubeUrl, String>)
    ensures
        match r {
            Ok(u) => url_parse(url_input(s@)) == Some(u@),
            Err(_) => url_parse(url_input(s@)) is None,
        },
{
    validate_and_parse(s)
}

/// `isURL(<string>)`.
pub fn is_url(s: &str) -> (b: bool)
    ensures
        b == url_parse(url_input(s@)) is Some,
{
    validate_and_parse(s).is_ok()
}

/// What `getScheme()` gives: the scheme, or nothing for a URL read from an
/// absolute path (scheme `http`, host `localhost`).
pub open spec fn scheme_of(u: UrlParts) -> Seq<char> {
    if u.0 == "http"@ && u.1 == Some("localhost"@) {
        Seq::empty()
    } else {
        u.0
    }
}

/// The host, or nothing.
pub open spec fn host_text(u: UrlParts) -> Seq<char> {
    match u.1 {
        Some(h) => h,
        None => Seq::empty(),
    }
}

/// What `getHost()` gives: the host, with `:port` where there is one.
pub open spec fn host_with_port(u: UrlParts) -> Seq<char> {
    match u.2 {
        Some(p) => host_text(u) + seq![':'] + dec_digits(p as nat),
        None => host_text(u),
    }
}

/// What `getHostname()` gives: the host without IPv6 brackets.
pub open spec fn hostname_of(u: UrlParts) -> Seq<char> {
    let h = host_text(u);
    if h.len() >= 2 && h[0] == '[' && h.last() == ']' {
        h.subrange(1, h.len() - 1)
    } else {
        h
    }
}

/// What `getPort()` gives: the port in decimal, or nothing.
pub open spec fn port_text(u: UrlParts) -> Seq<char> {
    match u.2 {
        Some(p) => dec_digits(p as nat),
        None => Seq::empty(),
    }
}

/// Whether no pair before index `i` has the key of pair `i`.
pub open spec fn first_with_key(pairs: Seq<(Seq<char>, Seq<char>)>, i: int) -> bool {
    forall|j: int| 0 <= j < i ==> #[trigger] pairs[j].0 != pairs[i].0
}

/// The values of the first `n` pairs whose key is `k`, in order.
pub open spec fn values_for(pairs: Seq<(Seq<char>, Seq<char>)>, k: Seq<char>, n: nat) -> Seq<Seq<char>>
    decreases n,
{
    if n == 0 || n > pairs.len() {
        Seq::empty()
    } else {
        let rest = values_for(pairs, k, (n - 1) as nat);
        if pairs[n - 1].0 == k {
            rest.push(pairs[n - 1].1)
        } else {
            rest
        }
    }
}

/// The keys among the first `n` pairs, in order of first appearance, each
/// with all its values (`getQuery()`).
pub open spec fn grouped(pairs: Seq<(Seq<char>, Seq<char>)>, n: nat) -> Seq<(Seq<char>, Seq<Seq<char>>)>
    decreases n,
{
    if n == 0 || n > pairs.len() {
        Seq::empty()
    } else {
        let rest = grouped(pairs, (n - 1) as nat);
        if first_with_key(pairs, n - 1) {
            rest.push((pairs[n - 1].0, values_for(pairs, pairs[n - 1].0, pairs.len())))
        } else {
            rest
        }
    }
}

/// The text of a query map.
pub open spec fn groups_view(v: Seq<(String, Vec<String>)>) -> Seq<(Seq<char>, Seq<Seq<char>>)> {
    v.map_values(|g: (String, Vec<String>)| (g.0@, g.1@.map_values(|s: String| s@)))
}

impl KubeUrl {
    /// `getScheme()`.
    pub fn get_scheme(&self) -> (r: String)
        ensures
            r@ == scheme_of(self@),
    {
        let localhost = match &self.host {
            Some(h) => str_eq(h.as_str(), "localhost"),
            None => false,
        };
        if str_eq(self.scheme.as_str(), "http") && localhost {
            String::new()
        } else {
            self.scheme.clone()
        }
    }

    fn host_or_empty(&self) -> (r: String)
        ensures
            r@ == host_text(self@),
    {
        match &self.host {
            Some(h) => h.clone(),
            None => String::new(),
        }
    }

    /// `getHost()`: the host with the port, if any.
    pub fn get_host(&self) -> (r: String)
        ensures
            r@ == host_with_port(self@),
    {
        let mut r = self.host_or_empty();
        match self.port {
            Some(p) => {
                push_char(&mut r, ':');
                push_decimal(&mut r, p as u128);
            },
            None => {},
        }
        r
    }

    /// `getHostname()`: the host without IPv6 brackets.
    pub fn get_hostname(&self) -> (r: String)
        ensures
            r@ == hostname_of(self@),
    {
        let h = self.host_or_empty();
        let v = crate::text::chars_of(h.as_str());
        if v.len() >= 2 && v[0] == '[' && v[v.len() - 1] == ']' {
            crate::text::string_from_range(&v, 1, v.len() - 1)
        } else {
            h
        }
    }

    /// `getPort()`: the port in decimal, or an empty string.
    pub fn get_port(&self) -> (r: String)
        ensures
            r@ == port_text(self@),
    {
        let mut r = String::new();
        match self.port {
            Some(p) => push_decimal(&mut r, p as u128),
            None => {},
        }
        proof {
            assert(r@ =~= port_text(self@));
        }
        r
    }

    /// `getEscapedPath()`: the percent-encoded path.
    pub fn get_escaped_path(&self) -> (r: String)
        ensures
            r@ == self@.3,
    {
        self.path.clone()
    }

    /// The URL as the `url` crate serialises it.
    pub fn as_text(&self) -> (r: String)
        ensures
            r@ == self@.5,
    {
        self.text.clone()
    }

    /// `==` on URLs: the serialisations are the same.
    pub fn same_as(&self, other: &KubeUrl) -> (b: bool)
        ensures
            b == (self@.5 == other@.5),
    {
        str_eq(self.text.as_str(), other.text.as_str())
    }

    /// `getQuery()`: each key, in order of first appearance, with all its
    /// values in order.
    pub fn get_query(&self) -> (r: Vec<(String, Vec<String>)>)
        ensures
            groups_view(r@) == grouped(self@.4, self@.4.len()),
    {
        let ghost pairs = pairs_view(self.query@);
        let n = self.query.len();
        let mut r: Vec<(String, Vec<String>)> = Vec::new();
        let mut i: usize = 0;
        proof {
            assert(groups_view(r@) =~= Seq::empty());
        }
        while i < n
            invariant
                n == self.query@.len(),
                pairs == pairs_view(self.query@),
                pairs.len() == n,
                i <= n,
                groups_view(r@) == grouped(pairs, i as nat),
            decreases n - i,
        {
            let first = first_key_at(&self.query, i);
            if first {
                let vals = values_of(&self.query, &self.query[i].0);
                let ghost before = groups_view(r@);
                let k = self.query[i].0.clone();
                r.push((k, vals));
                proof {
                    assert(pairs[i as int].0 == self.query@[i as int].0@);
                    assert(groups_view(r@) =~= before.push(
                        (pairs[i as int].0, values_for(pairs, pairs[i as int].0, pairs.len())),
                    ));
                }
            }
            i = i + 1;
        }
        r
    }
}

/// Whether no pair before `i` has the key of pair `i`.
fn first_key_at(q: &Vec<(String, String)>, i: usize) -> (b: bool)
    requires
        i < q@.len(),
    ensures
        b == first_with_key(pairs_view(q@), i as int),
{
    let ghost pairs = pairs_view(q@);
    let mut j: usize = 0;
    while j < i
        invariant
            i < q@.len(),
            pairs == pairs_view(q@),
            j <= i,
            forall|m: int| 0 <= m < j ==> #[trigger] pairs[m].0 != pairs[i as int].0,
        decreases i - j,
    {
        if str_eq(q[j].0.as_str(), q[i].0.as_str()) {
            assert(pairs[j as int].0 == pairs[i as int].0);
            return false;
        }
        j = j + 1;
    }
    true
}

/// The values of the pairs whose key is `k`, in order.
fn values_of(q: &Vec<(String, String)>, k: &String) -> (r: Vec<String>)
    ensures
        r@.map_values(|s: String| s@) == values_for(pairs_view(q@), k@, q@.len()),
{
    let ghost pairs = pairs_view(q@);
    let mut r: Vec<String> = Vec::new();
    let mut j: usize = 0;
    proof {
        assert(r@.map_values(|s: String| s@) =~= Seq::empty());
    }
    while j < q.len()
        invariant
            pairs == pairs_view(q@),
            pairs.len() == q@.len(),
            j <= q@.len(),
            r@.map_values(|s: String| s@) == values_for(pairs, k@, j as nat),
        decreases q@.len() - j,
    {
        let ghost before = r@.map_values(|s: String| s@);
        if str_eq(q[j].0.as_str(), k.as_str()) {
            r.push(q[j].1.clone());
            proof {
                assert(r@.map_values(|s: String| s@) =~= before.push(pairs[j as int].1));
            }
        }
        j = j + 1;
    }
    r
}

} // verus!
