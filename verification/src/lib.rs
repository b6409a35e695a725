//! An in-memory key-value cache with a memcached-style text protocol.
//!
//! The library holds everything with design content: the store with
//! time-based expiry, the whitespace tokenizer and numeric codec for the
//! wire format, and the command executor that turns a parsed request into
//! a response and a store update.  Listening, accepting and socket reads
//! live outside the library; they hand lines of bytes in and write the
//! returned response bytes back out.

pub mod client;
pub mod command;
pub mod conn;
pub mod digits;
pub mod laws;
pub mod store;
pub mod tokens;
