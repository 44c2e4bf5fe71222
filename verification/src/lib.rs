//! A small HTTP/1.x request processor: a parser from the bytes of a connection
//! to a structured request, and a router that picks the handler for a request
//! by exact path and method.
//!
//! The library does no input or output. It decides: what a buffer parses to,
//! where a request goes, which file a handler needs, what goes out on the wire.
//! Reading, writing and waiting are the caller's part.
//!
//! Text is modelled by its characters (`Seq<char>`), raw input by its bytes
//! (`Seq<u8>`); the two meet in `encoding`.

pub mod search;

pub mod encoding;

pub mod text;

pub mod http;

pub mod files;

pub mod static_handler;

pub mod website_handler;

pub mod server;
