use vstd::prelude::*;

use crate::error::SpartanError;
use crate::parsed_url::{parse_spec, port_spec, ParsedUrl};
use crate::request::{request_of, Request, RequestView};

verus! {

/// The request and port that fetching the URL `s` takes, or why there are none.
pub open spec fn exchange_of(s: Seq<char>) -> Result<(RequestView, u16), SpartanError> {
    match parse_spec(s) {
        Err(e) => Err(e),
        Ok(u) => match request_of(u) {
            Err(e) => Err(e),
            Ok(r) => Ok((r, port_spec(u))),
        },
    }
}

/// Parses `url` and maps it to the request to send and the port to send it to.
pub fn prepare_get(url: &str) -> (r: Result<(Request, u16), SpartanError>)
    ensures
        match r {
            Ok((req, port)) => exchange_of(url@) == Ok::<(RequestView, u16), SpartanError>(
                (req@, port),
            ),
            Err(e) => exchange_of(url@) == Err::<(RequestView, u16), SpartanError>(e),
        },
        r is Ok ==> r->Ok_0.0@.wf(),
{
    let parsed = ParsedUrl::parse(url)?;
    let port = parsed.port_or_default();
    let request = Request::from_url(parsed)?;
    Ok((request, port))
}

/// Mapping has no hidden state: the same URL always yields the same request
/// and port, or the same error.
pub proof fn lemma_mapping_deterministic(s1: Seq<char>, s2: Seq<char>)
    requires
        s1 == s2,
    ensures
        exchange_of(s1) == exchange_of(s2),
{
}

} // verus!
