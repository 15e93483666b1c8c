//! A streaming bridge between a line-oriented text source and a chunked,
//! newline-delimited-JSON generation endpoint.
//!
//! The library holds the verified core: grouping input lines into turns,
//! building and serializing conversational requests, incrementally parsing
//! the streamed response records, and threading the opaque context token
//! from one turn into the next. All I/O stays outside.

pub mod config;
pub mod parser;
pub mod records;
pub mod requests;
pub mod session;
pub mod text;
