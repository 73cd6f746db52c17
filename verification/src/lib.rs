//! A minimal CGI gateway core: the verified logic of a one-request HTTP/1.0
//! gateway that turns an inbound request into a CGI/1.1 environment and
//! relays the request body to a child process.
//!
//! The crate holds the places where that job can go wrong, each with a
//! proved contract: the request-line and header-line parsers (character
//! automatons over the raw text), the environment builder (a last-write-wins
//! mapping populated from the parsed fields and the ambient listener values),
//! and the exact-length body relay (a bounded-buffer copy of precisely the
//! declared number of bytes). A thin unverified driver does the actual
//! stream and process plumbing around these.

pub mod builder;
pub mod cgi;
pub mod error;
pub mod header;
pub mod relay;
pub mod request;
pub mod text;

pub use error::HttpError;
