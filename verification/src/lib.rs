//! Language-server core for Unimarkup semantic highlighting.
//!
//! The crate turns a compiled document tree into the delta-encoded token
//! stream that the semantic-highlighting protocol expects, keeps the latest
//! compiled document per file in a store, and classifies inbound protocol
//! messages.  The markup compiler itself, the transport, and the async
//! plumbing live outside this crate; they exchange plain values with it.

pub mod dispatch;
pub mod doc_sync;
pub mod document;
pub mod semantic_tokens;
