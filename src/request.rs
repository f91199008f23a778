use vstd::prelude::*;

use crate::decimal::{decimal, lemma_decimal_digits, lemma_decimal_injective, push_decimal};
use crate::error::SpartanError;
use crate::parsed_url::{opt_view, ParsedUrl, UrlView};

verus! {

/// A Spartan request: the host, the path, the body's length in characters and
/// the body itself.
pub struct Request {
    host: String,
    path: String,
    content_length: usize,
    data: Option<String>,
}

/// The mathematical value of a [`Request`].
pub struct RequestView {
    pub host: Seq<char>,
    pub path: Seq<char>,
    pub content_length: nat,
    pub data: Option<Seq<char>>,
}

impl RequestView {
    /// A body is present exactly when its length is not zero, and the length
    /// counts its characters.
    pub open spec fn wf(self) -> bool {
        &&& (self.content_length == 0 <==> self.data is None)
        &&& (self.data is Some ==> self.content_length == self.data->Some_0.len())
    }
}

impl View for Request {
    type V = RequestView;

    closed spec fn view(&self) -> RequestView {
        RequestView {
            host: self.host@,
            path: self.path@,
            content_length: self.content_length as nat,
            data: opt_view(self.data),
        }
    }
}

#[verifier::external_type_specification]
#[verifier::external_body]
pub struct ExFromUtf8Error(std::string::FromUtf8Error);

/// The text that a query percent-decodes to; `None` where the decoded bytes are
/// no valid UTF-8.
pub uninterp spec fn percent_decoded(q: Seq<char>) -> Option<Seq<char>>;

/// Relies on `urlencoding::decode`: each `%XX` escape becomes its byte, all else
/// (`+` included) stays as it is, and the bytes are read as UTF-8. The result
/// depends on the input alone.
#[verifier::external_body]
fn decode_query(q: &str) -> (r: Result<String, std::string::FromUtf8Error>)
    ensures
        match r {
            Ok(d) => percent_decoded(q@) == Some(d@),
            Err(_) => percent_decoded(q@) is None,
        },
{
    match urlencoding::decode(q) {
        Ok(d) => Ok(d.into_owned()),
        Err(e) => Err(e),
    }
}

/// The path that a request carries: the URL's path, or `/` where it is empty.
pub open spec fn request_path(p: Seq<char>) -> Seq<char> {
    if p.len() == 0 {
        seq!['/']
    } else {
        p
    }
}

/// The request that a URL maps to, or why it maps to none.
pub open spec fn request_of(u: UrlView) -> Result<RequestView, SpartanError> {
    if u.scheme != "spartan"@ {
        Err(SpartanError::InvalidScheme)
    } else if u.host is None || u.host->Some_0.len() == 0 {
        Err(SpartanError::MissingHost)
    } else {
        let host = u.host->Some_0;
        let path = request_path(u.path);
        match u.query {
            None => Ok(RequestView { host, path, content_length: 0, data: None }),
            Some(q) => match percent_decoded(q) {
                None => Err(SpartanError::DecodeError),
                Some(d) => Ok(
                    RequestView {
                        host,
                        path,
                        content_length: d.len(),
                        data: if d.len() == 0 {
                            None
                        } else {
                            Some(d)
                        },
                    },
                ),
            },
        }
    }
}

/// The request line: host, path and body length, separated by spaces and
/// ended by CR LF.
pub open spec fn request_line(r: RequestView) -> Seq<char> {
    r.host + seq![' '] + r.path + seq![' '] + decimal(r.content_length) + seq!['\r', '\n']
}

/// The body as it goes on the wire: the data, or nothing.
pub open spec fn body(r: RequestView) -> Seq<char> {
    match r.data {
        Some(d) => d,
        None => Seq::empty(),
    }
}

/// The whole request as it goes on the wire.
pub open spec fn wire(r: RequestView) -> Seq<char> {
    request_line(r) + body(r)
}

/// No space, CR or LF: the text can stand as one field of a request line.
pub open spec fn is_field(s: Seq<char>) -> bool {
    forall|i: int| 0 <= i < s.len() ==> s[i] != ' ' && s[i] != '\r' && s[i] != '\n'
}

/// A field followed by a space splits off at that space alone.
proof fn lemma_split_at_space(x: Seq<char>, s: Seq<char>, y: Seq<char>, t: Seq<char>)
    requires
        is_field(x),
        is_field(y),
        x + seq![' '] + s == y + seq![' '] + t,
    ensures
        x == y,
        s == t,
{
    let a = x + seq![' '] + s;
    let b = y + seq![' '] + t;
    if x.len() < y.len() {
        assert(a[x.len() as int] == ' ');
        assert(b[x.len() as int] == y[x.len() as int]);
    } else if y.len() < x.len() {
        assert(b[y.len() as int] == ' ');
        assert(a[y.len() as int] == x[y.len() as int]);
    } else {
        assert(x =~= a.subrange(0, x.len() as int));
        assert(y =~= b.subrange(0, y.len() as int));
        assert(s =~= a.subrange(x.len() as int + 1, a.len() as int));
        assert(t =~= b.subrange(y.len() as int + 1, b.len() as int));
    }
}

/// Parsing the request line back gives what was serialized: where host and
/// path hold no space, CR or LF, equal request lines have equal hosts, paths
/// and lengths, and equal wire forms of well-formed requests are the same
/// request.
pub proof fn lemma_request_line_round_trip(a: RequestView, b: RequestView)
    requires
        is_field(a.host),
        is_field(a.path),
        is_field(b.host),
        is_field(b.path),
    ensures
        request_line(a) == request_line(b) ==> {
            &&& a.host == b.host
            &&& a.path == b.path
            &&& a.content_length == b.content_length
        },
        a.wf() && b.wf() && wire(a) == wire(b) ==> a == b,
{
    lemma_line_determines_fields(a, b);
    if a.wf() && b.wf() && wire(a) == wire(b) {
        lemma_wire_splits(a, b);
        lemma_line_determines_fields(a, b);
        assert(body(a) == body(b));
        if a.data is Some && b.data is Some {
            assert(a.data->Some_0 == b.data->Some_0);
        }
    }
}

proof fn lemma_line_determines_fields(a: RequestView, b: RequestView)
    requires
        is_field(a.host),
        is_field(a.path),
        is_field(b.host),
        is_field(b.path),
    ensures
        request_line(a) == request_line(b) ==> {
            &&& a.host == b.host
            &&& a.path == b.path
            &&& a.content_length == b.content_length
        },
{
    if request_line(a) == request_line(b) {
        let crlf = seq!['\r', '\n'];
        let ra = a.path + seq![' '] + decimal(a.content_length) + crlf;
        let rb = b.path + seq![' '] + decimal(b.content_length) + crlf;
        assert(request_line(a) =~= a.host + seq![' '] + ra);
        assert(request_line(b) =~= b.host + seq![' '] + rb);
        lemma_split_at_space(a.host, ra, b.host, rb);
        let da = decimal(a.content_length) + crlf;
        let db = decimal(b.content_length) + crlf;
        assert(ra =~= a.path + seq![' '] + da);
        assert(rb =~= b.path + seq![' '] + db);
        lemma_split_at_space(a.path, da, b.path, db);
        assert(decimal(a.content_length) =~= da.subrange(0, da.len() - 2));
        assert(decimal(b.content_length) =~= db.subrange(0, db.len() - 2));
        lemma_decimal_injective(a.content_length, b.content_length);
    }
}

/// The request line ends at the first LF of the wire form, so equal wire forms
/// have equal request lines and bodies.
proof fn lemma_wire_splits(a: RequestView, b: RequestView)
    requires
        is_field(a.host),
        is_field(a.path),
        is_field(b.host),
        is_field(b.path),
        wire(a) == wire(b),
    ensures
        request_line(a) == request_line(b),
        body(a) == body(b),
{
    let la = request_line(a);
    let lb = request_line(b);
    let w = wire(a);
    assert forall|i: int| 0 <= i < la.len() - 1 implies la[i] != '\n' by {
        lemma_line_newline_free(a, i);
    }
    assert forall|i: int| 0 <= i < lb.len() - 1 implies lb[i] != '\n' by {
        lemma_line_newline_free(b, i);
    }
    assert(la[la.len() - 1] == '\n');
    assert(lb[lb.len() - 1] == '\n');
    if la.len() < lb.len() {
        assert(w[la.len() - 1] == la[la.len() - 1]);
        assert(wire(b)[la.len() - 1] == lb[la.len() - 1]);
    } else if lb.len() < la.len() {
        assert(w[lb.len() - 1] == la[lb.len() - 1]);
        assert(wire(b)[lb.len() - 1] == lb[lb.len() - 1]);
    }
    assert(la =~= w.subrange(0, la.len() as int));
    assert(lb =~= wire(b).subrange(0, lb.len() as int));
    assert(body(a) =~= w.subrange(la.len() as int, w.len() as int));
    assert(body(b) =~= wire(b).subrange(lb.len() as int, w.len() as int));
}

/// Only the final character of a request line is an LF.
proof fn lemma_line_newline_free(r: RequestView, i: int)
    requires
        is_field(r.host),
        is_field(r.path),
        0 <= i < request_line(r).len() - 1,
    ensures
        request_line(r)[i] != '\n',
{
    let d = decimal(r.content_length);
    lemma_decimal_digits(r.content_length);
    let h = r.host.len() as int;
    let p = r.path.len() as int;
    if i < h {
        assert(request_line(r)[i] == r.host[i]);
    } else if i == h {
    } else if i < h + 1 + p {
        assert(request_line(r)[i] == r.path[i - h - 1]);
    } else if i == h + 1 + p {
    } else if i < h + 2 + p + d.len() {
        assert(request_line(r)[i] == d[i - h - 2 - p]);
    } else {
        assert(request_line(r)[i] == '\r');
    }
}

impl Request {
    /// Maps a Spartan URL to the request that asks for it.
    pub fn from_url(parsed_url: ParsedUrl) -> (r: Result<Request, SpartanError>)
        ensures
            match r {
                Ok(req) => request_of(parsed_url@) == Ok::<RequestView, SpartanError>(req@),
                Err(e) => request_of(parsed_url@) == Err::<RequestView, SpartanError>(e),
            },
            r is Ok ==> r->Ok_0@.wf(),
            r is Ok && parsed_url@.path.len() == 0 ==> r->Ok_0@.path == seq!['/'],
            r is Ok && parsed_url@.query is Some ==> {
                &&& percent_decoded(parsed_url@.query->Some_0) is Some
                &&& r->Ok_0@.content_length == percent_decoded(
                    parsed_url@.query->Some_0,
                )->Some_0.len()
            },
    {
        let ghost u = parsed_url@;
        let spartan = "spartan".to_owned();
        if !(parsed_url.scheme == spartan) {
            return Err(SpartanError::InvalidScheme);
        }
        let ParsedUrl { scheme, host, path, query, port } = parsed_url;
        let host = match host {
            None => return Err(SpartanError::MissingHost),
            Some(h) => {
                if h.as_str().is_empty() {
                    return Err(SpartanError::MissingHost);
                }
                h
            },
        };
        let path = if path.as_str().is_empty() {
            proof {
                reveal_strlit("/");
            }
            let slash = "/".to_owned();
            assert(slash@ =~= seq!['/']);
            slash
        } else {
            path
        };
        let (data, content_length) = match query {
            None => (None, 0),
            Some(q) => match decode_query(q.as_str()) {
                Err(_) => return Err(SpartanError::DecodeError),
                Ok(d) => {
                    let n = d.as_str().unicode_len();
                    if n == 0 {
                        (None, 0)
                    } else {
                        (Some(d), n)
                    }
                },
            },
        };
        Ok(Request { host, path, content_length, data })
    }

    /// The host that the request is for.
    pub fn host(&self) -> (r: &str)
        ensures
            r@ == self@.host,
    {
        self.host.as_str()
    }

    /// The path that the request asks for.
    pub fn path(&self) -> (r: &str)
        ensures
            r@ == self@.path,
    {
        self.path.as_str()
    }

    /// The number of characters in the body.
    pub fn content_length(&self) -> (r: usize)
        ensures
            r as nat == self@.content_length,
    {
        self.content_length
    }

    /// The body, where there is one.
    pub fn data(&self) -> (r: Option<&str>)
        ensures
            r is Some <==> self@.data is Some,
            r is Some ==> r->Some_0@ == self@.data->Some_0,
    {
        match &self.data {
            Some(d) => Some(d.as_str()),
            None => None,
        }
    }

    /// The request as it goes on the wire: `<host> <path> <length>\r\n<body>`.
    pub fn to_string(&self) -> (r: String)
        ensures
            r@ == wire(self@),
    {
        proof {
            reveal_strlit(" ");
            reveal_strlit("\r\n");
        }
        let mut out = self.host.clone();
        out.append(" ");
        out.append(self.path.as_str());
        out.append(" ");
        push_decimal(&mut out, self.content_length);
        out.append("\r\n");
        assert(" "@ =~= seq![' ']);
        assert("\r\n"@ =~= seq!['\r', '\n']);
        assert(out@ =~= request_line(self@));
        match &self.data {
            Some(d) => out.append(d.as_str()),
            None => {},
        }
        assert(out@ =~= wire(self@));
        out
    }
}

} // verus!
