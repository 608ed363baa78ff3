use vstd::prelude::*;
use vstd::utf8::encode_utf8;
use crate::le_bytes::{
    le16, le32, le64, de16, de32, de64, le64_seq, le32_seq, de64_seq, de32_seq, lemma_le_lengths,
    lemma_le_roundtrip, lemma_le64_seq, lemma_le32_seq, lemma_de64_seq_le, lemma_de32_seq_le,
    push_u16, push_u32, push_u64, push_zeros, read_u16, read_u32, read_u64,
};

verus! {

/// Magic prefix of a `.brain` container.
pub const BRAIN_MAGIC: [u8; 8] = [0x42, 0x52, 0x41, 0x49, 0x4e, 0x2e, 0x31, 0x00];
/// Container format version written into manifests.
pub const BRAIN_VERSION: u32 = 1;
/// Alignment of the weights blob and of every streaming tensor payload.
pub const WEIGHTS_ALIGNMENT: u64 = 64;
/// Historical size constant of an index record.
pub const INDEX_ENTRY_SIZE: usize = 64;
/// Hard cap on the payload bytes of one streaming shard (2 GiB).
pub const SHARD_MAX_BYTES: u64 = 2147483648;
/// Number of streaming fragments of a sharded model.
pub const NUM_SHARDS: u16 = 15;
/// Magic prefix of a shard index file.
pub const SHARD_INDEX_MAGIC: [u8; 8] = [0x53, 0x48, 0x41, 0x52, 0x44, 0x2e, 0x31, 0x00];
/// Shard index format version.
pub const SHARD_INDEX_VERSION: u16 = 1;

/// Element type of a stored tensor.
#[derive(Debug, Clone, Copy, PartialEq, Eq, Structural)]
#[allow(non_camel_case_types)]
pub enum DataType {
    F32,
    F16,
    BF16,
    Q4_0,
    Q4KM,
    Q4KS,
    Q5_0,
    Q5_1,
    Q8_0,
    Q8K,
    I8,
    I16,
    I32,
    I64,
    U8,
    Bool,
    F8E4M3,
    F8E5M2,
}

impl DataType {
    /// Bytes per element (packed quantized types count one byte).
    pub open spec fn spec_size(self) -> nat {
        match self {
            DataType::F32 => 4,
            DataType::F16 | DataType::BF16 | DataType::I16 => 2,
            DataType::I32 | DataType::I64 => 4,
            _ => 1,
        }
    }

    /// Required start alignment of the tensor payload.
    pub open spec fn spec_alignment(self) -> nat {
        match self {
            DataType::F32 => 4,
            DataType::F16 | DataType::BF16 | DataType::I16 => 2,
            DataType::I32 | DataType::I64 => 4,
            DataType::I8 | DataType::U8 | DataType::Bool => 1,
            DataType::F8E4M3 | DataType::F8E5M2 => 1,
            _ => 64,
        }
    }

    pub fn size(&self) -> (r: usize)
        ensures
            r == self.spec_size(),
    {
        match self {
            DataType::F32 => 4,
            DataType::F16 | DataType::BF16 | DataType::I16 => 2,
            DataType::I8 | DataType::U8 | DataType::Bool => 1,
            DataType::I32 | DataType::I64 => 4,
            DataType::F8E4M3 | DataType::F8E5M2 => 1,
            DataType::Q4_0 | DataType::Q4KM | DataType::Q4KS => 1,
            DataType::Q5_0 | DataType::Q5_1 => 1,
            DataType::Q8_0 | DataType::Q8K => 1,
        }
    }

    pub fn alignment(&self) -> (r: u64)
        ensures
            r == self.spec_alignment(),
            1 <= r <= 64,
    {
        match self {
            DataType::F32 => 4,
            DataType::F16 | DataType::BF16 | DataType::I16 => 2,
            DataType::I32 | DataType::I64 => 4,
            DataType::I8 | DataType::U8 | DataType::Bool => 1,
            DataType::F8E4M3 | DataType::F8E5M2 => 1,
            _ => 64,
        }
    }
}


impl DataType {
    /// Numeric code of the type in index records.
    pub open spec fn spec_code(self) -> u32 {
        match self {
            DataType::F32 => 0,
            DataType::F16 => 1,
            DataType::BF16 => 2,
            DataType::Q4_0 => 3,
            DataType::Q4KM => 4,
            DataType::Q4KS => 5,
            DataType::Q5_0 => 6,
            DataType::Q5_1 => 7,
            DataType::Q8_0 => 8,
            DataType::Q8K => 9,
            DataType::I8 => 10,
            DataType::I16 => 11,
            DataType::I32 => 12,
            DataType::I64 => 13,
            DataType::U8 => 14,
            DataType::Bool => 15,
            DataType::F8E4M3 => 16,
            DataType::F8E5M2 => 17,
        }
    }

    pub fn code(&self) -> (r: u32)
        ensures
            r == self.spec_code(),
    {
        match self {
            DataType::F32 => 0,
            DataType::F16 => 1,
            DataType::BF16 => 2,
            DataType::Q4_0 => 3,
            DataType::Q4KM => 4,
            DataType::Q4KS => 5,
            DataType::Q5_0 => 6,
            DataType::Q5_1 => 7,
            DataType::Q8_0 => 8,
            DataType::Q8K => 9,
            DataType::I8 => 10,
            DataType::I16 => 11,
            DataType::I32 => 12,
            DataType::I64 => 13,
            DataType::U8 => 14,
            DataType::Bool => 15,
            DataType::F8E4M3 => 16,
            DataType::F8E5M2 => 17,
        }
    }
}

/// Quantization scheme of a stored tensor.
#[derive(Debug, Clone, Copy, PartialEq, Eq, Structural)]
#[allow(non_camel_case_types)]
pub enum QuantizationScheme {
    Unquantized,
    Q4_0,
    Q4KM,
    Q4KS,
    Q5_0,
    Q5_1,
    Q8_0,
    Q8K,
}

impl QuantizationScheme {
    /// Numeric code of the scheme in index records.
    pub open spec fn spec_code(self) -> u32 {
        match self {
            QuantizationScheme::Unquantized => 0,
            QuantizationScheme::Q4_0 => 1,
            QuantizationScheme::Q4KM => 2,
            QuantizationScheme::Q4KS => 3,
            QuantizationScheme::Q5_0 => 4,
            QuantizationScheme::Q5_1 => 5,
            QuantizationScheme::Q8_0 => 6,
            QuantizationScheme::Q8K => 7,
        }
    }

    pub fn code(&self) -> (r: u32)
        ensures
            r == self.spec_code(),
    {
        match self {
            QuantizationScheme::Unquantized => 0,
            QuantizationScheme::Q4_0 => 1,
            QuantizationScheme::Q4KM => 2,
            QuantizationScheme::Q4KS => 3,
            QuantizationScheme::Q5_0 => 4,
            QuantizationScheme::Q5_1 => 5,
            QuantizationScheme::Q8_0 => 6,
            QuantizationScheme::Q8K => 7,
        }
    }
}

/// Identity and size of a model.
#[derive(Debug, Clone)]
pub struct ModelInfo {
    pub name: String,
    pub architecture: String,
    pub parameter_count: u64,
    pub quantization: String,
    pub context_length: u32,
    pub vocab_size: u32,
}

/// Where the quantization tables of a tensor live in the weights blob.
#[derive(Debug, Clone, Copy)]
pub struct QuantizationParams {
    pub scales_offset: u64,
    pub scales_size: u64,
    pub zero_points_offset: u64,
    pub zero_points_size: u64,
    pub block_size: u32,
}

/// Manifest description of one tensor.
#[derive(Debug, Clone)]
pub struct TensorInfo {
    pub name: String,
    pub shape: Vec<u64>,
    pub dtype: DataType,
    pub offset: u64,
    pub size_bytes: u64,
    pub quantization: Option<QuantizationParams>,
    pub quantization_type: QuantizationScheme,
}

/// Provenance of a container.
#[derive(Debug, Clone)]
pub struct Metadata {
    pub created_epoch: u64,
    pub created_by: String,
    pub checksum: String,
    pub license: String,
    pub description: String,
}

/// The JSON manifest of a container.
#[derive(Debug, Clone)]
pub struct Manifest {
    pub version: u32,
    pub format: String,
    pub model: ModelInfo,
    pub tensors: Vec<TensorInfo>,
    pub metadata: Metadata,
}

/// Size in bytes of a [`ShardDesc`] record.
pub const SHARD_DESC_SIZE: usize = 64;

/// Size in bytes of a [`TensorIndexEntry`] record.
pub const TENSOR_INDEX_ENTRY_SIZE: usize = 144;

/// Copies a vector of exactly 64 bytes into an array.
fn to_array_64(v: &Vec<u8>) -> (r: [u8; 64])
    requires
        v@.len() == 64,
    ensures
        r@ == v@,
{
    let mut out = [0u8; 64];
    let mut i: usize = 0;
    while i < 64
        invariant
            v@.len() == 64,
            out@.len() == 64,
            i <= 64,
            forall|k: int| 0 <= k < i ==> out@[k] == v@[k],
        decreases 64 - i,
    {
        out[i] = v[i];
        i = i + 1;
    }
    assert(out@ =~= v@);
    out
}

/// Copies a vector of exactly 144 bytes into an array.
fn to_array_144(v: &Vec<u8>) -> (r: [u8; 144])
    requires
        v@.len() == 144,
    ensures
        r@ == v@,
{
    let mut out = [0u8; 144];
    let mut i: usize = 0;
    while i < 144
        invariant
            v@.len() == 144,
            out@.len() == 144,
            i <= 144,
            forall|k: int| 0 <= k < i ==> out@[k] == v@[k],
        decreases 144 - i,
    {
        out[i] = v[i];
        i = i + 1;
    }
    assert(out@ =~= v@);
    out
}

/// One record of the shard table: fixed 64 bytes on disk.
#[derive(Debug, Clone, Copy)]
pub struct ShardDesc {
    /// 0 for the static base shard, 1..=15 for streaming fragments.
    pub shard_id: u16,
    pub version: u16,
    pub byte_length: u64,
    pub tensor_count: u64,
    /// First tensor index (into the manifest's tensor list) owned by this shard.
    pub first_tensor: u64,
    pub reserved: [u64; 4],
}

impl ShardDesc {
    pub const SIZE: usize = 64;

    /// The seven 64-bit words that follow the two 16-bit fields.
    pub open spec fn words(self) -> Seq<u64> {
        seq![self.byte_length, self.tensor_count, self.first_tensor] + self.reserved@
    }

    /// On-disk encoding: ids, four bytes of padding, then the seven words.
    pub open spec fn spec_encode(self) -> Seq<u8> {
        le16(self.shard_id) + le16(self.version) + seq![0u8, 0u8, 0u8, 0u8] + le64_seq(self.words())
    }

    /// `self` is what decoding the 64-byte record `b` yields.
    pub open spec fn decodes_from(self, b: Seq<u8>) -> bool {
        &&& self.shard_id == de16(b.subrange(0, 2))
        &&& self.version == de16(b.subrange(2, 4))
        &&& self.words() == de64_seq(b.subrange(8, 64), 7)
    }

    pub fn to_bytes(&self) -> (r: [u8; 64])
        ensures
            r@ == self.spec_encode(),
    {
        proof {
            lemma_le_lengths();
            lemma_le64_seq(self.words());
        }
        let mut v: Vec<u8> = Vec::new();
        push_u16(&mut v, self.shard_id);
        push_u16(&mut v, self.version);
        push_zeros(&mut v, 4);
        let ghost head = v@;
        assert(head =~= le16(self.shard_id) + le16(self.version) + seq![0u8, 0u8, 0u8, 0u8]);
        push_u64(&mut v, self.byte_length);
        push_u64(&mut v, self.tensor_count);
        push_u64(&mut v, self.first_tensor);
        proof {
            let w3 = seq![self.byte_length, self.tensor_count, self.first_tensor];
            assert(self.words().subrange(0, 3) =~= w3);
            reveal_with_fuel(le64_seq, 4);
            assert(w3.drop_last().drop_last().drop_last() =~= Seq::<u64>::empty());
            assert(w3.drop_last().drop_last() =~= seq![self.byte_length]);
            assert(w3.drop_last() =~= seq![self.byte_length, self.tensor_count]);
            assert(le64_seq(w3) =~= le64(self.byte_length) + le64(self.tensor_count) + le64(
                self.first_tensor,
            ));
            assert(v@ =~= head + le64_seq(w3));
        }
        let reserved = self.reserved;
        let mut i: usize = 0;
        while i < 4
            invariant
                i <= 4,
                reserved@ == self.reserved@,
                v@ == head + le64_seq(self.words().subrange(0, 3 + i as int)),
            decreases 4 - i,
        {
            assert(self.words().subrange(0, 3 + i + 1 as int).drop_last() =~= self.words().subrange(
                0,
                3 + i as int,
            ));
            push_u64(&mut v, reserved[i]);
            i = i + 1;
        }
        assert(self.words().subrange(0, 7) =~= self.words());
        to_array_64(&v)
    }

    pub fn from_bytes(buf: &[u8; 64]) -> (r: Self)
        ensures
            r.decodes_from(buf@),
    {
        let s = buf.as_slice();
        let shard_id = read_u16(s, 0);
        let version = read_u16(s, 2);
        let byte_length = read_u64(s, 8);
        let tensor_count = read_u64(s, 16);
        let first_tensor = read_u64(s, 24);
        let mut reserved = [0u64; 4];
        let mut i: usize = 0;
        while i < 4
            invariant
                i <= 4,
                s@ == buf@,
                s@.len() == 64,
                reserved@.len() == 4,
                forall|k: int|
                    0 <= k < i ==> reserved@[k] == de64(s@.subrange(32 + 8 * k, 40 + 8 * k)),
            decreases 4 - i,
        {
            reserved[i] = read_u64(s, 32 + 8 * i);
            i = i + 1;
        }
        let r = ShardDesc { shard_id, version, byte_length, tensor_count, first_tensor, reserved };
        let ghost b = buf@.subrange(8, 64);
        assert forall|k: int| 0 <= k < 7 implies #[trigger] b.subrange(8 * k, 8 * k + 8)
            == buf@.subrange(8 + 8 * k, 16 + 8 * k) by {
            assert(b.subrange(8 * k, 8 * k + 8) =~= buf@.subrange(8 + 8 * k, 16 + 8 * k));
        }
        assert(r.words() =~= de64_seq(b, 7));
        r
    }
}


/// Decoding the encoding of a shard record gives the record back.
pub proof fn lemma_shard_desc_roundtrip(d: ShardDesc)
    ensures
        d.spec_encode().len() == 64,
        d.decodes_from(d.spec_encode()),
{
    lemma_le_lengths();
    lemma_le_roundtrip();
    lemma_le64_seq(d.words());
    let e = d.spec_encode();
    assert(e.subrange(0, 2) =~= le16(d.shard_id));
    assert(e.subrange(2, 4) =~= le16(d.version));
    assert(e.subrange(8, 64) =~= le64_seq(d.words()));
}

/// A 64-byte record whose padding is zero is the encoding of what it decodes to.
pub proof fn lemma_shard_desc_canonical(d: ShardDesc, b: Seq<u8>)
    requires
        b.len() == 64,
        b.subrange(4, 8) == seq![0u8, 0u8, 0u8, 0u8],
        d.decodes_from(b),
    ensures
        d.spec_encode() == b,
{
    lemma_le_lengths();
    lemma_le_roundtrip();
    lemma_de64_seq_le(b.subrange(8, 64), 7);
    assert(le16(d.shard_id) == b.subrange(0, 2));
    assert(le16(d.version) == b.subrange(2, 4));
    assert(b =~= b.subrange(0, 2) + b.subrange(2, 4) + b.subrange(4, 8) + b.subrange(8, 64));
}

/// One record of the tensor index: fixed 144 bytes on disk.
#[derive(Debug, Clone, Copy)]
pub struct TensorIndexEntry {
    pub name_offset: u64,
    pub name_length: u64,
    pub offset: u64,
    pub size_bytes: u64,
    pub ndim: u32,
    pub dtype: u32,
    pub quantization_type: u32,
    pub reserved: u32,
    pub shape: [u64; 8],
    pub quant_params_offset: u64,
    pub quant_params_size: u64,
    pub reserved2: [u64; 2],
}

impl TensorIndexEntry {
    pub const SIZE: usize = 144;

    /// The four leading 64-bit fields.
    pub open spec fn head(self) -> Seq<u64> {
        seq![self.name_offset, self.name_length, self.offset, self.size_bytes]
    }

    /// The four 32-bit fields.
    pub open spec fn mid(self) -> Seq<u32> {
        seq![self.ndim, self.dtype, self.quantization_type, self.reserved]
    }

    /// The twelve trailing 64-bit fields.
    pub open spec fn tail(self) -> Seq<u64> {
        self.shape@ + seq![self.quant_params_offset, self.quant_params_size] + self.reserved2@
    }

    /// On-disk encoding: little-endian fields in declaration order.
    pub open spec fn spec_encode(self) -> Seq<u8> {
        le64_seq(self.head()) + le32_seq(self.mid()) + le64_seq(self.tail())
    }

    /// `self` is what decoding the 144-byte record `b` yields.
    pub open spec fn decodes_from(self, b: Seq<u8>) -> bool {
        &&& self.head() == de64_seq(b.subrange(0, 32), 4)
        &&& self.mid() == de32_seq(b.subrange(32, 48), 4)
        &&& self.tail() == de64_seq(b.subrange(48, 144), 12)
    }

    pub fn to_bytes(&self) -> (r: [u8; 144])
        ensures
            r@ == self.spec_encode(),
    {
        let ghost h = self.head();
        let ghost m = self.mid();
        let ghost t = self.tail();
        let mut v: Vec<u8> = Vec::new();
        push_u64(&mut v, self.name_offset);
        push_u64(&mut v, self.name_length);
        push_u64(&mut v, self.offset);
        push_u64(&mut v, self.size_bytes);
        proof {
            reveal_with_fuel(le64_seq, 5);
            assert(h.drop_last().drop_last().drop_last().drop_last() =~= Seq::<u64>::empty());
            assert(h.drop_last().drop_last().drop_last() =~= seq![self.name_offset]);
            assert(h.drop_last().drop_last() =~= seq![self.name_offset, self.name_length]);
            assert(h.drop_last() =~= seq![self.name_offset, self.name_length, self.offset]);
            assert(v@ =~= le64_seq(h));
        }
        let ghost a = v@;
        push_u32(&mut v, self.ndim);
        push_u32(&mut v, self.dtype);
        push_u32(&mut v, self.quantization_type);
        push_u32(&mut v, self.reserved);
        proof {
            reveal_with_fuel(le32_seq, 5);
            assert(m.drop_last().drop_last().drop_last().drop_last() =~= Seq::<u32>::empty());
            assert(m.drop_last().drop_last().drop_last() =~= seq![self.ndim]);
            assert(m.drop_last().drop_last() =~= seq![self.ndim, self.dtype]);
            assert(m.drop_last() =~= seq![self.ndim, self.dtype, self.quantization_type]);
            assert(v@ =~= a + le32_seq(m));
        }
        let ghost b = v@;
        let shape = self.shape;
        let mut i: usize = 0;
        while i < 8
            invariant
                i <= 8,
                shape@ == self.shape@,
                t == self.tail(),
                v@ == b + le64_seq(t.subrange(0, i as int)),
            decreases 8 - i,
        {
            assert(t.subrange(0, i + 1 as int).drop_last() =~= t.subrange(0, i as int));
            push_u64(&mut v, shape[i]);
            i = i + 1;
        }
        assert(t.subrange(0, 9).drop_last() =~= t.subrange(0, 8));
        push_u64(&mut v, self.quant_params_offset);
        assert(t.subrange(0, 10).drop_last() =~= t.subrange(0, 9));
        push_u64(&mut v, self.quant_params_size);
        let reserved2 = self.reserved2;
        assert(t.subrange(0, 11).drop_last() =~= t.subrange(0, 10));
        push_u64(&mut v, reserved2[0]);
        assert(t.subrange(0, 12).drop_last() =~= t.subrange(0, 11));
        push_u64(&mut v, reserved2[1]);
        assert(t.subrange(0, 12) =~= t);
        proof {
            lemma_le64_seq(h);
            lemma_le32_seq(m);
            lemma_le64_seq(t);
        }
        to_array_144(&v)
    }

    pub fn from_bytes(buf: &[u8; 144]) -> (r: Self)
        ensures
            r.decodes_from(buf@),
    {
        let s = buf.as_slice();
        let name_offset = read_u64(s, 0);
        let name_length = read_u64(s, 8);
        let offset = read_u64(s, 16);
        let size_bytes = read_u64(s, 24);
        let ndim = read_u32(s, 32);
        let dtype = read_u32(s, 36);
        let quantization_type = read_u32(s, 40);
        let reserved = read_u32(s, 44);
        let mut shape = [0u64; 8];
        let mut i: usize = 0;
        while i < 8
            invariant
                i <= 8,
                s@ == buf@,
                s@.len() == 144,
                shape@.len() == 8,
                forall|k: int|
                    0 <= k < i ==> shape@[k] == de64(s@.subrange(48 + 8 * k, 56 + 8 * k)),
            decreases 8 - i,
        {
            shape[i] = read_u64(s, 48 + 8 * i);
            i = i + 1;
        }
        let quant_params_offset = read_u64(s, 112);
        let quant_params_size = read_u64(s, 120);
        let r0 = read_u64(s, 128);
        let r1 = read_u64(s, 136);
        let r = TensorIndexEntry {
            name_offset,
            name_length,
            offset,
            size_bytes,
            ndim,
            dtype,
            quantization_type,
            reserved,
            shape,
            quant_params_offset,
            quant_params_size,
            reserved2: [r0, r1],
        };
        let ghost bh = buf@.subrange(0, 32);
        let ghost bm = buf@.subrange(32, 48);
        let ghost bt = buf@.subrange(48, 144);
        assert forall|k: int| 0 <= k < 4 implies #[trigger] bh.subrange(8 * k, 8 * k + 8)
            == buf@.subrange(8 * k, 8 * k + 8) by {
            assert(bh.subrange(8 * k, 8 * k + 8) =~= buf@.subrange(8 * k, 8 * k + 8));
        }
        assert forall|k: int| 0 <= k < 4 implies #[trigger] bm.subrange(4 * k, 4 * k + 4)
            == buf@.subrange(32 + 4 * k, 36 + 4 * k) by {
            assert(bm.subrange(4 * k, 4 * k + 4) =~= buf@.subrange(32 + 4 * k, 36 + 4 * k));
        }
        assert forall|k: int| 0 <= k < 12 implies #[trigger] bt.subrange(8 * k, 8 * k + 8)
            == buf@.subrange(48 + 8 * k, 56 + 8 * k) by {
            assert(bt.subrange(8 * k, 8 * k + 8) =~= buf@.subrange(48 + 8 * k, 56 + 8 * k));
        }
        assert(r.head() =~= de64_seq(bh, 4));
        assert(r.mid() =~= de32_seq(bm, 4));
        assert(r.tail() =~= de64_seq(bt, 12));
        r
    }
}

/// Decoding the encoding of an index record gives the record back.
pub proof fn lemma_tensor_index_entry_roundtrip(e: TensorIndexEntry)
    ensures
        e.spec_encode().len() == 144,
        e.decodes_from(e.spec_encode()),
{
    lemma_le64_seq(e.head());
    lemma_le32_seq(e.mid());
    lemma_le64_seq(e.tail());
    let b = e.spec_encode();
    assert(b.subrange(0, 32) =~= le64_seq(e.head()));
    assert(b.subrange(32, 48) =~= le32_seq(e.mid()));
    assert(b.subrange(48, 144) =~= le64_seq(e.tail()));
}

/// Every 144-byte record is the encoding of what it decodes to.
pub proof fn lemma_tensor_index_entry_canonical(e: TensorIndexEntry, b: Seq<u8>)
    requires
        b.len() == 144,
        e.decodes_from(b),
    ensures
        e.spec_encode() == b,
{
    lemma_de64_seq_le(b.subrange(0, 32), 4);
    lemma_de32_seq_le(b.subrange(32, 48), 4);
    lemma_de64_seq_le(b.subrange(48, 144), 12);
    assert(b =~= b.subrange(0, 32) + b.subrange(32, 48) + b.subrange(48, 144));
}


impl TensorInfo {
    /// Byte length of the tensor's name in UTF-8.
    pub open spec fn spec_name_len(self) -> nat {
        encode_utf8(self.name@).len()
    }

    /// Offset of the quantization scales, 0 when the tensor is not quantized.
    pub open spec fn spec_scales_offset(self) -> u64 {
        match self.quantization {
            Some(q) => q.scales_offset,
            None => 0,
        }
    }

    /// Size of the quantization scales, 0 when the tensor is not quantized.
    pub open spec fn spec_scales_size(self) -> u64 {
        match self.quantization {
            Some(q) => q.scales_size,
            None => 0,
        }
    }
}

impl TensorInfo {
    /// Same description as `o`, field by field (the shape by its contents).
    pub open spec fn same_as(self, o: TensorInfo) -> bool {
        &&& self.name == o.name
        &&& self.shape@ == o.shape@
        &&& self.dtype == o.dtype
        &&& self.offset == o.offset
        &&& self.size_bytes == o.size_bytes
        &&& self.quantization == o.quantization
        &&& self.quantization_type == o.quantization_type
    }

    /// A copy of this description.
    pub fn copy_of(&self) -> (r: TensorInfo)
        ensures
            r.same_as(*self),
    {
        let shape = self.shape.clone();
        assert(shape@ =~= self.shape@);
        TensorInfo {
            name: self.name.clone(),
            shape,
            dtype: self.dtype,
            offset: self.offset,
            size_bytes: self.size_bytes,
            quantization: self.quantization,
            quantization_type: self.quantization_type,
        }
    }
}

impl ModelInfo {
    /// A copy of this model description.
    pub fn copy_of(&self) -> (r: ModelInfo)
        ensures
            r == *self,
    {
        ModelInfo {
            name: self.name.clone(),
            architecture: self.architecture.clone(),
            parameter_count: self.parameter_count,
            quantization: self.quantization.clone(),
            context_length: self.context_length,
            vocab_size: self.vocab_size,
        }
    }
}

impl Metadata {
    /// A copy of this metadata.
    pub fn copy_of(&self) -> (r: Metadata)
        ensures
            r == *self,
    {
        Metadata {
            created_epoch: self.created_epoch,
            created_by: self.created_by.clone(),
            checksum: self.checksum.clone(),
            license: self.license.clone(),
            description: self.description.clone(),
        }
    }
}

impl TensorIndexEntry {
    /// The index record describing `tensor`, whose name starts at `name_offset`
    /// of the name table. Only the first eight dimensions are recorded.
    pub open spec fn spec_from_tensor(self, tensor: TensorInfo, name_offset: u64) -> bool {
        &&& self.name_offset == name_offset
        &&& self.name_length == tensor.spec_name_len()
        &&& self.offset == tensor.offset
        &&& self.size_bytes == tensor.size_bytes
        &&& self.ndim == tensor.shape@.len() as u32
        &&& self.dtype == tensor.dtype.spec_code()
        &&& self.quantization_type == tensor.quantization_type.spec_code()
        &&& self.reserved == 0
        &&& forall|i: int|
            0 <= i < 8 ==> #[trigger] self.shape@[i] == (if i < tensor.shape@.len() {
                tensor.shape@[i]
            } else {
                0
            })
        &&& self.quant_params_offset == tensor.spec_scales_offset()
        &&& self.quant_params_size == tensor.spec_scales_size()
        &&& self.reserved2@ == seq![0u64, 0u64]
    }

    pub fn from_tensor(tensor: &TensorInfo, name_offset: u64) -> (r: Self)
        ensures
            r.spec_from_tensor(*tensor, name_offset),
    {
        let mut shape = [0u64; 8];
        let n = tensor.shape.len();
        let mut i: usize = 0;
        while i < n
            invariant
                n == tensor.shape@.len(),
                i <= n,
                shape@.len() == 8,
                forall|k: int|
                    0 <= k < 8 ==> #[trigger] shape@[k] == (if k < i && k < n {
                        tensor.shape@[k]
                    } else {
                        0
                    }),
            decreases n - i,
        {
            if i < 8 {
                shape[i] = tensor.shape[i];
            }
            i = i + 1;
        }
        let name_length = tensor.name.as_str().as_bytes().len() as u64;
        let (qpo, qps) = match &tensor.quantization {
            Some(q) => (q.scales_offset, q.scales_size),
            None => (0, 0),
        };
        let r = TensorIndexEntry {
            name_offset,
            name_length,
            offset: tensor.offset,
            size_bytes: tensor.size_bytes,
            ndim: n as u32,
            dtype: tensor.dtype.code(),
            quantization_type: tensor.quantization_type.code(),
            reserved: 0,
            shape,
            quant_params_offset: qpo,
            quant_params_size: qps,
            reserved2: [0, 0],
        };
        assert(r.name_length == tensor.spec_name_len());
        assert(r.ndim == tensor.shape@.len() as u32);
        assert(r.reserved2@ == seq![0u64, 0u64]);
        r
    }
}

/// One block of Q4_K weights: 256 elements packed into 256 bytes.
pub struct Q4KBlock {
    pub scales: [u8; 32],
    pub mins: [u8; 32],
    pub maxs: [u8; 32],
    pub weights: [u8; 128],
    /// Present in the Q4_K_M variant only.
    pub high_bits: [u8; 32],
}

impl Q4KBlock {
    /// Bytes per block.
    pub const SIZE: usize = 256;
    /// Elements per block.
    pub const ELEMENTS: usize = 256;
}

} // verus!
