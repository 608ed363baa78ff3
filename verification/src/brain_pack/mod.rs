//! The `.brain` container: binary records, builder, reader and sharding.

pub mod format;
pub mod shard_index;
pub mod pack;
pub mod container;
pub mod shard;
pub mod sharded;
pub mod safetensors;
pub mod layers;
pub mod download;
