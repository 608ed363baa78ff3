//! Speculative decoding: the n-gram continuation index, draft verification
//! and KV-cache bookkeeping, and the engine's request and response types.

pub mod ngram;
pub mod tables;
pub mod index;
pub mod verify;
pub mod protocol;
pub mod generation;
pub mod draft;
