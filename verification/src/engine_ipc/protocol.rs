//! Messages of the engine's IPC protocol, and the small decisions the engine
//! makes on names.

use vstd::prelude::*;
use crate::text::{utf8, has_suffix, str_ends_with, ascii_lower_seq, ascii_lowercase_bytes, bytes_eq};

verus! {

/// A loaded model as the engine reports it.
#[derive(Debug, Clone)]
pub struct ModelInfo {
    pub id: String,
    pub name: String,
    pub architecture: String,
    pub parameter_count: u64,
    pub quantization: String,
    pub context_length: u32,
    pub backend: String,
}

/// Token counts of one generation.
#[derive(Debug, Clone, Copy)]
pub struct Usage {
    pub prompt_tokens: usize,
    pub completion_tokens: usize,
    pub total_tokens: usize,
}

impl Usage {
    /// Counts of a generation; the total is their sum.
    pub fn new(prompt_tokens: usize, completion_tokens: usize) -> (r: Usage)
        requires
            prompt_tokens + completion_tokens <= usize::MAX,
        ensures
            r.prompt_tokens == prompt_tokens,
            r.completion_tokens == completion_tokens,
            r.total_tokens == prompt_tokens + completion_tokens,
    {
        Usage { prompt_tokens, completion_tokens, total_tokens: prompt_tokens + completion_tokens }
    }
}

/// Result of one generation.
#[derive(Debug, Clone)]
pub struct GenerateResponse {
    pub tokens: Vec<i32>,
    pub finish_reason: String,
    pub usage: Option<Usage>,
}

/// A reply of the engine.
#[derive(Debug, Clone)]
pub enum IpcResponse {
    ModelLoaded { model_id: String, info: ModelInfo },
    ModelUnloaded { model_id: String },
    ModelsList { models: Vec<ModelInfo> },
    GenerateResponse { response: GenerateResponse },
    /// Streaming-cache snapshot as JSON text, when a sharded model is bound.
    StreamingStats { stats_json: Option<String> },
    HealthOk { version: String, uptime_secs: u64 },
    Error { code: String, message: String },
}

/// Byte length of the model name in a container file name: the part before
/// `.00.brain` (a sharded base fragment), else before `.brain`.
pub open spec fn base_name_len(file_name: Seq<char>) -> Option<nat> {
    let b = utf8(file_name);
    if has_suffix(b, utf8(".00.brain"@)) {
        Some((b.len() - utf8(".00.brain"@).len()) as nat)
    } else if has_suffix(b, utf8(".brain"@)) {
        Some((b.len() - utf8(".brain"@).len()) as nat)
    } else {
        None
    }
}

/// Byte length of the model name in a container file name, when it ends in
/// `.brain`.
pub fn model_name_len(file_name: &str) -> (r: Option<usize>)
    ensures
        match base_name_len(file_name@) {
            Some(n) => r == Some(n as usize),
            None => r is None,
        },
{
    let b = file_name.as_bytes();
    let suffix00 = ".00.brain".as_bytes();
    let suffix = ".brain".as_bytes();
    if crate::text::bytes_end_with(b, suffix00) {
        Some(b.len() - suffix00.len())
    } else if crate::text::bytes_end_with(b, suffix) {
        Some(b.len() - suffix.len())
    } else {
        None
    }
}

/// A compute backend named by a preference string.
#[derive(Debug, Clone, Copy, PartialEq, Eq, Structural)]
pub enum BackendChoice {
    Cuda,
    Rocm,
    Metal,
    Cpu,
    Unknown,
}

/// The backend a preference names, case-insensitively: `cuda`, `rocm`,
/// `metal`, and `cpu` or `auto` for the CPU.
pub open spec fn backend_named(pref: Seq<char>) -> BackendChoice {
    let l = ascii_lower_seq(utf8(pref));
    if l == utf8("cuda"@) {
        BackendChoice::Cuda
    } else if l == utf8("rocm"@) {
        BackendChoice::Rocm
    } else if l == utf8("metal"@) {
        BackendChoice::Metal
    } else if l == utf8("cpu"@) || l == utf8("auto"@) {
        BackendChoice::Cpu
    } else {
        BackendChoice::Unknown
    }
}

pub fn select_backend(preference: &str) -> (r: BackendChoice)
    ensures
        r == backend_named(preference@),
{
    let l = ascii_lowercase_bytes(preference.as_bytes());
    let ls = l.as_slice();
    if bytes_eq(ls, "cuda".as_bytes()) {
        BackendChoice::Cuda
    } else if bytes_eq(ls, "rocm".as_bytes()) {
        BackendChoice::Rocm
    } else if bytes_eq(ls, "metal".as_bytes()) {
        BackendChoice::Metal
    } else if bytes_eq(ls, "cpu".as_bytes()) || bytes_eq(ls, "auto".as_bytes()) {
        BackendChoice::Cpu
    } else {
        BackendChoice::Unknown
    }
}

} // verus!
