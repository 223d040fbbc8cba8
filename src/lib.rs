//! Streaming decoder for `multipart/form-data` request bodies.
//!
//! A body arrives as a sequence of arbitrarily sized chunks. The decoder
//! rebuilds CR LF terminated lines from them, classifies part headers, and
//! turns file payloads into storage actions that the caller performs.
//!
//! Faults never stop a session: a line that does not fit where it comes
//! (a preamble line before the first separator, a header line that is not
//! UTF-8) is dropped and reported, and the session goes on with the next
//! line. Lines are decoded only once complete, so where a chunk ends never
//! changes the outcome. A body that ends before its terminal line still
//! yields the parts that were closed.

pub mod headers;
pub mod laws;
pub mod lines;
pub mod model;
pub mod prelude;
pub mod routing;
pub mod session;
