//! Verified core of a model-serving stack: the `.brain` weight container and
//! its sharded layout, safetensors framing, the n-gram draft index used for
//! speculative decoding, the streaming shard cache policy and the small
//! decision procedures of the server around them.

pub mod le_bytes;
pub mod text;
pub mod brain_pack;
pub mod engine_ipc;
pub mod stream_cache;
pub mod mem;
pub mod openai;
pub mod docs;
pub mod assets;
pub mod pages;
pub mod compute;
pub mod server;
