//! Building, encoding and reading `.brain` containers.

use vstd::prelude::*;
use vstd::string::StringExecFns;
use sha2::Digest;
use vstd::utf8::encode_utf8;
use crate::le_bytes::{le64, de64, lemma_le_lengths, push_u64, push_zeros, push_bytes, read_u64};
use crate::text::{str_eq, hex_lower, push_hex_lower, lemma_hex_lower_ascii, string_from_ascii, all_ascii, utf8};
use crate::brain_pack::safetensors::{shape_product, product_fits, dims_product};
use crate::brain_pack::format::{
    DataType, QuantizationScheme, ModelInfo, QuantizationParams, TensorInfo, Metadata, Manifest,
    TensorIndexEntry, BRAIN_MAGIC, BRAIN_VERSION, WEIGHTS_ALIGNMENT,
};

verus! {

/// Why a container operation failed.
#[derive(Debug, Clone, Copy, PartialEq, Eq, Structural)]
pub enum PackError {
    /// `build` was called without model information.
    MissingModelInfo,
    /// The bytes end before the record that was being read.
    Truncated,
    /// The bytes do not start with the container magic.
    BadMagic,
    /// No tensor of that name.
    TensorNotFound,
    /// A tensor's byte range lies outside the weights blob.
    OutOfBounds,
    /// The weights do not hash to the manifest checksum.
    ChecksumMismatch,
    /// The encoded container is larger than the memory region it should go to.
    RegionTooSmall,
    /// Some streaming shard would hold more than `SHARD_MAX_BYTES`.
    LayoutTooLarge,
}

/// `n` zero bytes.
pub open spec fn zeros(n: nat) -> Seq<u8> {
    Seq::new(n, |i: int| 0u8)
}

/// Padding that brings `len` up to a multiple of `align`.
pub open spec fn pad_len(len: nat, align: nat) -> nat {
    ((align - len % align) as nat) % align
}

/// `w` followed by zero padding up to a multiple of `align`.
pub open spec fn pad_to(w: Seq<u8>, align: nat) -> Seq<u8> {
    w + zeros(pad_len(w.len(), align))
}

/// SHA-256 digest of a byte string.
pub uninterp spec fn sha256(data: Seq<u8>) -> Seq<u8>;

/// Wraps `sha2::Sha256::digest`: the 32-byte SHA-256 digest of `data`.
#[verifier::external_body]
fn sha256_digest(data: &[u8]) -> (r: Vec<u8>)
    ensures
        r@ == sha256(data@),
        r@.len() == 32,
{
    sha2::Sha256::digest(data).to_vec()
}

/// Wraps `std::time::SystemTime::now`: seconds since the Unix epoch (0 for a
/// clock set before it). Nothing is stated of the value.
#[verifier::external_body]
fn unix_time_now() -> (r: u64) {
    std::time::SystemTime::now()
        .duration_since(std::time::UNIX_EPOCH)
        .map(|d| d.as_secs())
        .unwrap_or(0)
}

/// ASCII bytes of `sha256:`.
pub open spec fn checksum_prefix() -> Seq<u8> {
    seq![115u8, 104u8, 97u8, 50u8, 53u8, 54u8, 58u8]
}

/// Checksum text of a weights blob: `sha256:` and the lowercase hex digest.
pub open spec fn checksum_text(weights: Seq<u8>) -> Seq<u8> {
    checksum_prefix() + hex_lower(sha256(weights))
}

/// The checksum string of a weights blob.
pub fn weights_checksum(weights: &[u8]) -> (r: String)
    ensures
        utf8(r@) == checksum_text(weights@),
{
    let digest = sha256_digest(weights);
    let mut v: Vec<u8> = Vec::new();
    v.push(115u8);
    v.push(104u8);
    v.push(97u8);
    v.push(50u8);
    v.push(53u8);
    v.push(54u8);
    v.push(58u8);
    assert(v@ =~= checksum_prefix());
    push_hex_lower(&mut v, digest.as_slice());
    proof {
        lemma_hex_lower_ascii(digest@);
        assert(all_ascii(v@)) by {
            assert forall|i: int| 0 <= i < v@.len() implies #[trigger] v@[i] < 128 by {
                if i >= 7 {
                    assert(v@[i] == hex_lower(digest@)[i - 7]);
                }
            }
        }
    }
    string_from_ascii(v)
}

/// The tensor as stored: payload at `offset`, `size` bytes long, and scales
/// (when quantized) at `scales_offset`, `scales_size` bytes long.
pub open spec fn placed_tensor(
    t: TensorInfo,
    offset: u64,
    size: u64,
    scales_offset: u64,
    scales_size: Option<u64>,
) -> TensorInfo {
    TensorInfo {
        offset: offset,
        size_bytes: size,
        quantization: match t.quantization {
            Some(q) => Some(
                QuantizationParams {
                    scales_offset: scales_offset,
                    scales_size: match scales_size {
                        Some(s) => s,
                        None => q.scales_size,
                    },
                    ..q
                },
            ),
            None => None,
        },
        ..t
    }
}

/// Accumulates tensors and their payloads into a container.
pub struct BrainPackBuilder {
    tensors: Vec<TensorInfo>,
    model: Option<ModelInfo>,
    metadata: Option<Metadata>,
    weights_data: Vec<u8>,
}

impl BrainPackBuilder {
    /// Tensors added so far, as placed in the weights blob.
    pub closed spec fn tensors(self) -> Seq<TensorInfo> {
        self.tensors@
    }

    /// The weights blob built so far.
    pub closed spec fn weights(self) -> Seq<u8> {
        self.weights_data@
    }

    /// Model information, once given.
    pub closed spec fn model_info(self) -> Option<ModelInfo> {
        self.model
    }

    /// Metadata, once given.
    pub closed spec fn metadata_info(self) -> Option<Metadata> {
        self.metadata
    }

    pub fn new() -> (r: Self)
        ensures
            r.tensors() == Seq::<TensorInfo>::empty(),
            r.weights() == Seq::<u8>::empty(),
            r.model_info() is None,
            r.metadata_info() is None,
    {
        BrainPackBuilder {
            tensors: Vec::new(),
            model: None,
            metadata: None,
            weights_data: Vec::new(),
        }
    }

    pub fn model(self, model: ModelInfo) -> (r: Self)
        ensures
            r.model_info() == Some(model),
            r.tensors() == self.tensors(),
            r.weights() == self.weights(),
            r.metadata_info() == self.metadata_info(),
    {
        let mut b = self;
        b.model = Some(model);
        b
    }

    pub fn metadata(self, metadata: Metadata) -> (r: Self)
        ensures
            r.metadata_info() == Some(metadata),
            r.tensors() == self.tensors(),
            r.weights() == self.weights(),
            r.model_info() == self.model_info(),
    {
        let mut b = self;
        b.metadata = Some(metadata);
        b
    }

    /// Appends zero padding so that the blob length is a multiple of `align`.
    fn align_weights(&mut self, align: u64)
        requires
            1 <= align <= 64,
        ensures
            final(self).weights() == pad_to(old(self).weights(), align as nat),
            final(self).tensors() == old(self).tensors(),
            final(self).model_info() == old(self).model_info(),
            final(self).metadata_info() == old(self).metadata_info(),
    {
        let len = self.weights_data.len() as u64;
        let padding = (align - len % align) % align;
        assert(padding == pad_len(old(self).weights().len(), align as nat));
        push_zeros(&mut self.weights_data, padding as usize);
    }

    /// Appends a tensor: its payload goes at the next multiple of the dtype's
    /// alignment; a quantized tensor's scales offset is then aligned to 64.
    pub fn add_tensor(self, tensor: TensorInfo, data: &[u8]) -> (r: Result<Self, PackError>)
        ensures
            r matches Ok(b) && ({
                let w1 = pad_to(self.weights(), tensor.dtype.spec_alignment());
                let w2 = if tensor.quantization is Some {
                    pad_to(w1, 64)
                } else {
                    w1
                };
                &&& b.weights() == w2 + data@
                &&& b.tensors() == self.tensors().push(
                    placed_tensor(tensor, w1.len() as u64, data@.len() as u64, w2.len() as u64, None),
                )
                &&& b.model_info() == self.model_info()
                &&& b.metadata_info() == self.metadata_info()
            }),
    {
        let mut b = self;
        let mut tensor = tensor;
        let align = tensor.dtype.alignment();
        b.align_weights(align);
        tensor.offset = b.weights_data.len() as u64;
        tensor.size_bytes = data.len() as u64;
        match tensor.quantization {
            Some(q) => {
                b.align_weights(64);
                let mut q2 = q;
                q2.scales_offset = b.weights_data.len() as u64;
                tensor.quantization = Some(q2);
            },
            None => {},
        }
        push_bytes(&mut b.weights_data, data);
        b.tensors.push(tensor);
        Ok(b)
    }

    /// Appends a tensor with its quantization tables: as `add_tensor`, and a
    /// quantized tensor's tables are stored right before its payload.
    pub fn add_tensor_with_quant(self, tensor: TensorInfo, data: &[u8], qparams_data: &[u8]) -> (r:
        Result<Self, PackError>)
        ensures
            r matches Ok(b) && ({
                let w1 = pad_to(self.weights(), tensor.dtype.spec_alignment());
                let w2 = if tensor.quantization is Some {
                    pad_to(w1, 64) + qparams_data@
                } else {
                    w1
                };
                &&& b.weights() == w2 + data@
                &&& b.tensors() == self.tensors().push(
                    placed_tensor(
                        tensor,
                        w1.len() as u64,
                        data@.len() as u64,
                        pad_to(w1, 64).len() as u64,
                        Some(qparams_data@.len() as u64),
                    ),
                )
                &&& b.model_info() == self.model_info()
                &&& b.metadata_info() == self.metadata_info()
            }),
    {
        let mut b = self;
        let mut tensor = tensor;
        let align = tensor.dtype.alignment();
        b.align_weights(align);
        tensor.offset = b.weights_data.len() as u64;
        tensor.size_bytes = data.len() as u64;
        match tensor.quantization {
            Some(q) => {
                b.align_weights(64);
                let mut q2 = q;
                q2.scales_offset = b.weights_data.len() as u64;
                q2.scales_size = qparams_data.len() as u64;
                push_bytes(&mut b.weights_data, qparams_data);
                tensor.quantization = Some(q2);
            },
            None => {},
        }
        push_bytes(&mut b.weights_data, data);
        b.tensors.push(tensor);
        Ok(b)
    }
}


impl BrainPackBuilder {
    /// Finishes the container: the manifest takes the model information, the
    /// tensors in order and the metadata (a default one when none was given),
    /// whose checksum becomes that of the weights blob.
    pub fn build(self) -> (r: Result<BrainPack, PackError>)
        ensures
            match r {
                Ok(p) => {
                    &&& self.model_info() is Some
                    &&& p.manifest.version == BRAIN_VERSION
                    &&& p.manifest.format@ == "brain"@
                    &&& p.manifest.model == self.model_info()->Some_0
                    &&& p.manifest.tensors@ == self.tensors()
                    &&& p.weights@ == self.weights()
                    &&& utf8(p.manifest.metadata.checksum@) == checksum_text(self.weights())
                    &&& match self.metadata_info() {
                        Some(m) => {
                            &&& p.manifest.metadata.created_epoch == m.created_epoch
                            &&& p.manifest.metadata.created_by == m.created_by
                            &&& p.manifest.metadata.license == m.license
                            &&& p.manifest.metadata.description == m.description
                        },
                        None => {
                            &&& p.manifest.metadata.created_by@ == "brain-pack v0.1"@
                            &&& p.manifest.metadata.license@ == "unknown"@
                            &&& p.manifest.metadata.description@ == Seq::<char>::empty()
                        },
                    }
                },
                Err(e) => self.model_info() is None && e == PackError::MissingModelInfo,
            },
    {
        let model = match self.model {
            Some(m) => m,
            None => {
                return Err(PackError::MissingModelInfo);
            },
        };
        let metadata = match self.metadata {
            Some(m) => m,
            None => Metadata {
                created_epoch: unix_time_now(),
                created_by: String::from_str("brain-pack v0.1"),
                checksum: String::new(),
                license: String::from_str("unknown"),
                description: String::new(),
            },
        };
        let checksum = weights_checksum(self.weights_data.as_slice());
        let mut metadata = metadata;
        metadata.checksum = checksum;
        Ok(BrainPack {
            manifest: Manifest {
                version: BRAIN_VERSION,
                format: String::from_str("brain"),
                model,
                tensors: self.tensors,
                metadata,
            },
            weights: self.weights_data,
        })
    }
}

/// A container in memory: manifest plus weights blob.
#[derive(Debug)]
pub struct BrainPack {
    pub manifest: Manifest,
    pub weights: Vec<u8>,
}

/// Zero-copy view of one tensor's payload.
#[derive(Debug, Clone)]
pub struct TensorView<'a> {
    pub data: &'a [u8],
    pub shape: Vec<u64>,
    pub dtype: DataType,
    pub quantization: Option<QuantizationParams>,
    pub quantization_type: QuantizationScheme,
}

impl<'a> TensorView<'a> {
    /// Number of elements: the product of the dimensions.
    pub fn num_elements(&self) -> (r: usize)
        requires
            product_fits(self.shape@),
        ensures
            r == shape_product(self.shape@) as usize,
    {
        dims_product(&self.shape) as usize
    }
}

/// Position of the first tensor called `name`, if any.
pub open spec fn first_named(ts: Seq<TensorInfo>, name: Seq<char>) -> Option<int> {
    if exists|i: int| 0 <= i < ts.len() && #[trigger] ts[i].name@ == name {
        Some(
            choose|i: int|
                0 <= i < ts.len() && #[trigger] ts[i].name@ == name && forall|j: int|
                    0 <= j < i ==> #[trigger] ts[j].name@ != name,
        )
    } else {
        None
    }
}

pub proof fn lemma_first_named(ts: Seq<TensorInfo>, name: Seq<char>, i: int)
    requires
        0 <= i < ts.len(),
        ts[i].name@ == name,
        forall|j: int| 0 <= j < i ==> #[trigger] ts[j].name@ != name,
    ensures
        first_named(ts, name) == Some(i),
{
    let k = choose|k: int|
        0 <= k < ts.len() && #[trigger] ts[k].name@ == name && forall|j: int|
            0 <= j < k ==> #[trigger] ts[j].name@ != name;
    assert(0 <= k < ts.len() && ts[k].name@ == name && forall|j: int|
        0 <= j < k ==> #[trigger] ts[j].name@ != name);
    if k < i {
        assert(ts[k].name@ != name);
    }
    if i < k {
        assert(ts[i].name@ != name);
    }
}

/// A tensor called `name` at `i` has a first such tensor at or before `i`.
proof fn lemma_earliest_named(ts: Seq<TensorInfo>, name: Seq<char>, i: int) -> (m: int)
    requires
        0 <= i < ts.len(),
        ts[i].name@ == name,
    ensures
        0 <= m <= i,
        ts[m].name@ == name,
        forall|j: int| 0 <= j < m ==> #[trigger] ts[j].name@ != name,
    decreases i,
{
    if exists|j: int| 0 <= j < i && #[trigger] ts[j].name@ == name {
        let j = choose|j: int| 0 <= j < i && #[trigger] ts[j].name@ == name;
        lemma_earliest_named(ts, name, j)
    } else {
        i
    }
}

/// The first tensor called `name`, when there is one, is a tensor of that
/// name.
pub proof fn lemma_first_named_is_named(ts: Seq<TensorInfo>, name: Seq<char>)
    ensures
        first_named(ts, name) matches Some(k) ==> 0 <= k < ts.len() && ts[k].name@ == name,
{
    if exists|i: int| 0 <= i < ts.len() && #[trigger] ts[i].name@ == name {
        let i = choose|i: int| 0 <= i < ts.len() && #[trigger] ts[i].name@ == name;
        let m = lemma_earliest_named(ts, name, i);
        lemma_first_named(ts, name, m);
    }
}

/// First position of a tensor called `name`.
fn find_tensor(ts: &Vec<TensorInfo>, name: &str) -> (r: Option<usize>)
    ensures
        match r {
            Some(i) => i < ts@.len() && first_named(ts@, name@) == Some(i as int),
            None => first_named(ts@, name@) is None,
        },
{
    let mut i: usize = 0;
    while i < ts.len()
        invariant
            i <= ts@.len(),
            forall|j: int| 0 <= j < i ==> #[trigger] ts@[j].name@ != name@,
        decreases ts@.len() - i,
    {
        if str_eq(ts[i].name.as_str(), name) {
            proof {
                lemma_first_named(ts@, name@, i as int);
            }
            return Some(i);
        }
        i = i + 1;
    }
    None
}

impl BrainPack {
    /// The tensor's byte range lies inside the weights blob.
    pub open spec fn in_bounds(self, t: TensorInfo) -> bool {
        t.offset + t.size_bytes <= self.weights@.len()
    }

    /// Looking up `name` cannot overflow the address arithmetic.
    pub open spec fn lookup_fits(self, name: Seq<char>) -> bool {
        match first_named(self.manifest.tensors@, name) {
            Some(i) => self.manifest.tensors@[i].offset + self.manifest.tensors@[i].size_bytes
                <= usize::MAX,
            None => true,
        }
    }

    /// When every tensor's byte range ends within the address space, a
    /// lookup of any name fits.
    pub proof fn lemma_lookup_fits(self)
        requires
            forall|i: int|
                0 <= i < self.manifest.tensors@.len() ==> #[trigger] self.manifest.tensors@[i].offset
                    + self.manifest.tensors@[i].size_bytes <= usize::MAX,
        ensures
            forall|name: Seq<char>| #[trigger] self.lookup_fits(name),
    {
        assert forall|name: Seq<char>| #[trigger] self.lookup_fits(name) by {
            lemma_first_named_is_named(self.manifest.tensors@, name);
        }
    }

    /// What looking up `name` yields.
    pub open spec fn lookup_ok(self, name: Seq<char>, v: TensorView) -> bool {
        match first_named(self.manifest.tensors@, name) {
            Some(i) => {
                let t = self.manifest.tensors@[i];
                &&& self.in_bounds(t)
                &&& v.data@ == self.weights@.subrange(
                    t.offset as int,
                    t.offset + t.size_bytes,
                )
                &&& v.shape@ == t.shape@
                &&& v.dtype == t.dtype
                &&& v.quantization == t.quantization
                &&& v.quantization_type == t.quantization_type
            },
            None => false,
        }
    }

    /// Which error looking up `name` yields.
    pub open spec fn lookup_err(self, name: Seq<char>) -> PackError {
        match first_named(self.manifest.tensors@, name) {
            Some(i) => PackError::OutOfBounds,
            None => PackError::TensorNotFound,
        }
    }

    /// What a lookup of `name` returns: the view of the first tensor of that
    /// name when its bytes lie inside the weights, else the error.
    pub open spec fn lookup_result(self, name: Seq<char>, r: Result<TensorView, PackError>) -> bool {
        match r {
            Ok(v) => self.lookup_ok(name, v),
            Err(e) => e == self.lookup_err(name) && !(first_named(self.manifest.tensors@, name) matches Some(
                i,
            ) && self.in_bounds(self.manifest.tensors@[i])),
        }
    }

    /// Two lookups of the same name agree: both succeed or both fail with the
    /// same error, and two views have the same bytes, shape, data type and
    /// quantization. So `tensor_view` gives what `get_tensor` gives, whatever
    /// mapped bytes it is handed.
    pub proof fn lemma_lookups_agree(
        self,
        name: Seq<char>,
        r1: Result<TensorView, PackError>,
        r2: Result<TensorView, PackError>,
    )
        requires
            self.lookup_result(name, r1),
            self.lookup_result(name, r2),
        ensures
            r1 is Ok <==> r2 is Ok,
            r1 matches Err(e1) ==> r2 == Err::<TensorView, PackError>(e1),
            r1 matches Ok(v) ==> r2 matches Ok(w) && v.data@ == w.data@ && v.shape@ == w.shape@
                && v.dtype == w.dtype && v.quantization == w.quantization && v.quantization_type
                == w.quantization_type,
    {
    }

    /// Zero-copy view of the first tensor called `name`.
    pub fn get_tensor<'a>(&'a self, name: &str) -> (r: Result<TensorView<'a>, PackError>)
        requires
            self.lookup_fits(name@),
        ensures
            self.lookup_result(name@, r),
    {
        let i = match find_tensor(&self.manifest.tensors, name) {
            Some(i) => i,
            None => {
                return Err(PackError::TensorNotFound);
            },
        };
        let t = &self.manifest.tensors[i];
        let offset = t.offset as usize;
        let size = t.size_bytes as usize;
        if offset + size > self.weights.len() {
            return Err(PackError::OutOfBounds);
        }
        let shape = t.shape.clone();
        assert(shape@ =~= t.shape@);
        Ok(TensorView {
            data: vstd::slice::slice_subrange(self.weights.as_slice(), offset, offset + size),
            shape,
            dtype: t.dtype,
            quantization: t.quantization,
            quantization_type: t.quantization_type,
        })
    }

    /// Same as [`BrainPack::get_tensor`]; the mapped bytes are not consulted
    /// because the view borrows the in-memory weights.
    pub fn tensor_view<'a>(&'a self, name: &str, _mmap: &'a [u8]) -> (r: Result<
        TensorView<'a>,
        PackError,
    >)
        requires
            self.lookup_fits(name@),
        ensures
            self.lookup_result(name@, r),
    {
        self.get_tensor(name)
    }

    /// Length of the in-memory weights buffer, in bytes.
    pub fn weights_len(&self) -> (r: usize)
        ensures
            r == self.weights@.len(),
    {
        self.weights.len()
    }

    /// Names of the tensors, in manifest order.
    pub fn tensor_names(&self) -> (r: Vec<&str>)
        ensures
            r@.len() == self.manifest.tensors@.len(),
            forall|i: int|
                0 <= i < r@.len() ==> #[trigger] r@[i]@ == self.manifest.tensors@[i].name@,
    {
        let mut out: Vec<&str> = Vec::new();
        let mut i: usize = 0;
        while i < self.manifest.tensors.len()
            invariant
                i <= self.manifest.tensors@.len(),
                out@.len() == i,
                forall|k: int|
                    0 <= k < i ==> #[trigger] out@[k]@ == self.manifest.tensors@[k].name@,
            decreases self.manifest.tensors@.len() - i,
        {
            out.push(self.manifest.tensors[i].name.as_str());
            i = i + 1;
        }
        out
    }

    pub fn model_info(&self) -> (r: &ModelInfo)
        ensures
            *r == self.manifest.model,
    {
        &self.manifest.model
    }
}

} // verus!
