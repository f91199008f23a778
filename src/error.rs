use vstd::prelude::*;

verus! {

/// Why a request could not be made or completed.
#[derive(Debug, Clone, Copy, PartialEq, Eq, Structural)]
pub enum SpartanError {
    /// The input is not a syntactically valid URL.
    ParseError,
    /// The URL's scheme is not `spartan`.
    InvalidScheme,
    /// The URL carries no host.
    MissingHost,
    /// The query does not percent-decode to valid UTF-8.
    DecodeError,
    /// No connection to the server could be established.
    ConnectError,
    /// The request could not be written in full.
    WriteError,
    /// The response could not be read in full or is not text.
    ReadError,
}

} // verus!
