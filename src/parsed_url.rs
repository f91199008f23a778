use vstd::prelude::*;

use crate::error::SpartanError;

verus! {

/// Port used when a URL names none.
pub const DEFAULT_PORT: u16 = 300;

/// The parts of a URL that a Spartan request is made from, as plain values.
pub struct ParsedUrl {
    pub scheme: String,
    pub host: Option<String>,
    pub path: String,
    pub query: Option<String>,
    pub port: Option<u16>,
}

/// The mathematical value of a [`ParsedUrl`].
pub struct UrlView {
    pub scheme: Seq<char>,
    pub host: Option<Seq<char>>,
    pub path: Seq<char>,
    pub query: Option<Seq<char>>,
    pub port: Option<u16>,
}

pub open spec fn opt_view(o: Option<String>) -> Option<Seq<char>> {
    match o {
        Some(s) => Some(s@),
        None => None,
    }
}

impl View for ParsedUrl {
    type V = UrlView;

    open spec fn view(&self) -> UrlView {
        UrlView {
            scheme: self.scheme@,
            host: opt_view(self.host),
            path: self.path@,
            query: opt_view(self.query),
            port: self.port,
        }
    }
}

#[verifier::external_type_specification]
#[verifier::external_body]
pub struct ExParseError(url::ParseError);

/// The parts that the url crate reads from a URL string, with the host as it
/// stands in the URL; `None` where the string is no valid URL.
pub uninterp spec fn url_parts_of(s: Seq<char>) -> Option<UrlView>;

/// The ASCII text of a host after the url crate's host parsing (percent-decoding,
/// IDNA domain-to-ASCII, IP address forms); `None` where it is no valid host.
pub uninterp spec fn host_ascii_of(h: Seq<char>) -> Option<Seq<char>>;

/// Relies on `url::Url::parse` and on the parsed URL's `scheme`, `host_str`,
/// `path`, `query` and `port`: the parts depend on the input alone.
#[verifier::external_body]
fn split_url(s: &str) -> (r: Result<ParsedUrl, url::ParseError>)
    ensures
        match r {
            Ok(u) => url_parts_of(s@) == Some(u@),
            Err(_) => url_parts_of(s@) is None,
        },
{
    match url::Url::parse(s) {
        Ok(u) => Ok(ParsedUrl {
            scheme: u.scheme().to_string(),
            host: u.host_str().map(String::from),
            path: u.path().to_string(),
            query: u.query().map(String::from),
            port: u.port(),
        }),
        Err(e) => Err(e),
    }
}

/// Relies on `url::Host::parse` and the host's `Display`: the text depends on
/// the input alone.
#[verifier::external_body]
fn ascii_host(h: &str) -> (r: Result<String, url::ParseError>)
    ensures
        match r {
            Ok(a) => host_ascii_of(h@) == Some(a@),
            Err(_) => host_ascii_of(h@) is None,
        },
{
    match url::Host::parse(h) {
        Ok(host) => Ok(host.to_string()),
        Err(e) => Err(e),
    }
}

/// What [`ParsedUrl::parse`] gives for the text `s`: the url crate's parts, with
/// a non-empty host brought to its ASCII form.
pub open spec fn parse_spec(s: Seq<char>) -> Result<UrlView, SpartanError> {
    match url_parts_of(s) {
        None => Err(SpartanError::ParseError),
        Some(u) => {
            if u.host is Some && u.host->Some_0.len() > 0 {
                match host_ascii_of(u.host->Some_0) {
                    None => Err(SpartanError::ParseError),
                    Some(a) => Ok(UrlView { host: Some(a), ..u }),
                }
            } else {
                Ok(u)
            }
        },
    }
}

/// The port that a connection for `u` goes to.
pub open spec fn port_spec(u: UrlView) -> u16 {
    match u.port {
        Some(p) => p,
        None => DEFAULT_PORT,
    }
}

impl ParsedUrl {
    /// Parses `s` as a URL, with a non-ASCII host name turned into its
    /// ASCII-compatible encoding.
    pub fn parse(s: &str) -> (r: Result<ParsedUrl, SpartanError>)
        ensures
            match r {
                Ok(u) => parse_spec(s@) == Ok::<UrlView, SpartanError>(u@),
                Err(e) => parse_spec(s@) == Err::<UrlView, SpartanError>(e),
            },
    {
        let parts = match split_url(s) {
            Ok(u) => u,
            Err(_) => return Err(SpartanError::ParseError),
        };
        let ParsedUrl { scheme, host, path, query, port } = parts;
        let host = match host {
            Some(h) => {
                if h.as_str().is_empty() {
                    Some(h)
                } else {
                    match ascii_host(h.as_str()) {
                        Ok(a) => Some(a),
                        Err(_) => return Err(SpartanError::ParseError),
                    }
                }
            },
            None => None,
        };
        let r = ParsedUrl { scheme, host, path, query, port };
        Ok(r)
    }

    /// The URL's port, or the Spartan default where it names none.
    pub fn port_or_default(&self) -> (r: u16)
        ensures
            r == port_spec(self@),
    {
        match self.port {
            Some(p) => p,
            None => DEFAULT_PORT,
        }
    }
}

} // verus!
