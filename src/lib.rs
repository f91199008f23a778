//! A client library for the Spartan protocol: it turns a URL into a request
//! line and body, with the mapping proved against its contracts.
pub mod client;
pub mod decimal;
pub mod error;
pub mod parsed_url;
pub mod request;
