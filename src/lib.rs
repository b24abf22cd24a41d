//! A small command-line HTTP client library: request construction, header
//! merging, collection entries and response presentation.

pub mod collection;
pub mod headers;
pub mod present;
pub mod request;
pub mod text;
