//! A small HTTP/1.1 server core: requests are read from the lines of a
//! connection, matched against a table of routes by an exact key, answered by
//! the handler of their route, and the answer is written out as the text
//! that goes over the wire.
//!
//! Every function is verified against a contract over the texts involved. The
//! one thing taken on trust is the RFC 2822 text of a date, which comes from
//! chrono.

pub mod app;
pub mod date;
pub mod error;
pub mod request;
pub mod response;
pub mod status;
pub mod text;
