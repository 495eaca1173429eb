//! The core of a small HTTP/1.1 server, on bytes throughout:
//! - `request`: parsing a request into method, path, headers and body, and
//!   encoding one back;
//! - `router`: choosing the response, or the file operation it waits on;
//! - `response`: responses and their wire form;
//! - `connection`: the per-connection state machine that a caller drives
//!   with socket reads and file outcomes;
//! - `laws` and `roundtrip`: properties proved across these parts;
//! - `text`, `lits`: byte-string primitives and the protocol's fixed strings;
//! - `trusted`: the calls into regex, flate2 and std that the rest relies on.
pub mod connection;
pub mod laws;
pub mod lits;
pub mod request;
pub mod response;
pub mod roundtrip;
pub mod router;
pub mod text;
pub mod trusted;
