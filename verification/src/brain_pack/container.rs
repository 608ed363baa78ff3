//! Byte layout of a `.brain` container.
//!
//! Layout: magic, manifest length (u64), manifest JSON, one zero byte, zero
//! padding to 8, one index record per tensor, zero padding to 64, weights.

use vstd::prelude::*;
use crate::le_bytes::{
    le32, le64, de64, le64_seq, le32_seq, lemma_le_lengths, lemma_le_roundtrip, lemma_le64_seq,
    lemma_le32_seq, push_u64, push_zeros, push_bytes, read_u64,
};
use crate::text::{utf8, str_eq, bytes_eq};
use crate::brain_pack::format::{TensorInfo, TensorIndexEntry, Manifest, BRAIN_MAGIC};
use crate::brain_pack::pack::{
    BrainPack, PackError, zeros, pad_len, checksum_text, weights_checksum,
};

verus! {

/// The first eight dimensions of a shape, zero-filled.
pub open spec fn shape8(shape: Seq<u64>) -> Seq<u64> {
    Seq::new(8, |i: int| if i < shape.len() { shape[i] } else { 0u64 })
}

/// Index record bytes for tensor `t` whose name starts at `name_offset`.
pub open spec fn entry_bytes(t: TensorInfo, name_offset: u64) -> Seq<u8> {
    le64_seq(seq![name_offset, t.spec_name_len() as u64, t.offset, t.size_bytes]) + le32_seq(
        seq![t.shape@.len() as u32, t.dtype.spec_code(), t.quantization_type.spec_code(), 0u32],
    ) + le64_seq(
        shape8(t.shape@) + seq![t.spec_scales_offset(), t.spec_scales_size(), 0u64, 0u64],
    )
}

/// Offset of tensor `i`'s name in the (NUL-separated) name table.
pub open spec fn name_offset(ts: Seq<TensorInfo>, i: nat) -> nat
    decreases i,
{
    if i == 0 {
        0
    } else {
        name_offset(ts, (i - 1) as nat) + ts[i - 1].spec_name_len() + 1
    }
}

/// Index records of the first `k` tensors.
pub open spec fn entries_bytes(ts: Seq<TensorInfo>, k: nat) -> Seq<u8>
    decreases k,
{
    if k == 0 {
        Seq::empty()
    } else {
        entries_bytes(ts, (k - 1) as nat) + entry_bytes(
            ts[k - 1],
            name_offset(ts, (k - 1) as nat) as u64,
        )
    }
}

/// Start of the index records for a manifest of `mlen` bytes.
pub open spec fn entries_start(mlen: nat) -> nat {
    17 + mlen + pad_len(17 + mlen, 8)
}

/// Start of the weights for a manifest of `mlen` bytes and `n` tensors.
pub open spec fn weights_start(mlen: nat, n: nat) -> nat {
    entries_start(mlen) + 144 * n + pad_len(entries_start(mlen) + 144 * n, 64)
}

/// The container bytes for manifest JSON `json`, tensors `ts`, weights `w`.
pub open spec fn container_bytes(json: Seq<u8>, ts: Seq<TensorInfo>, w: Seq<u8>) -> Seq<u8> {
    BRAIN_MAGIC@ + le64(json.len() as u64) + json + seq![0u8] + zeros(pad_len(17 + json.len(), 8))
        + entries_bytes(ts, ts.len()) + zeros(
        pad_len(entries_start(json.len()) + 144 * ts.len(), 64),
    ) + w
}

/// Manifest length field of a container.
pub open spec fn manifest_len_field(b: Seq<u8>) -> nat {
    de64(b.subrange(8, 16)) as nat
}

/// The first failure when reading a container's header, if any.
pub open spec fn header_error(b: Seq<u8>) -> Option<PackError> {
    if b.len() < 8 {
        Some(PackError::Truncated)
    } else if b.subrange(0, 8) != BRAIN_MAGIC@ {
        Some(PackError::BadMagic)
    } else if b.len() < 16 {
        Some(PackError::Truncated)
    } else if 17 + manifest_len_field(b) > b.len() {
        Some(PackError::Truncated)
    } else {
        None
    }
}

/// An index record produced by `from_tensor` encodes as `entry_bytes`.
pub proof fn lemma_entry_bytes(e: TensorIndexEntry, t: TensorInfo, o: u64)
    requires
        e.spec_from_tensor(t, o),
    ensures
        e.spec_encode() == entry_bytes(t, o),
        entry_bytes(t, o).len() == 144,
{
    assert(e.head() =~= seq![o, t.spec_name_len() as u64, t.offset, t.size_bytes]);
    assert(e.mid() =~= seq![
        t.shape@.len() as u32,
        t.dtype.spec_code(),
        t.quantization_type.spec_code(),
        0u32,
    ]);
    assert(e.shape@ =~= shape8(t.shape@));
    assert(e.tail() =~= shape8(t.shape@) + seq![
        t.spec_scales_offset(),
        t.spec_scales_size(),
        0u64,
        0u64,
    ]);
    lemma_le64_seq(e.head());
    lemma_le32_seq(e.mid());
    lemma_le64_seq(e.tail());
}

pub proof fn lemma_entries_len(ts: Seq<TensorInfo>, k: nat)
    ensures
        entries_bytes(ts, k).len() == 144 * k,
    decreases k,
{
    if k > 0 {
        lemma_entries_len(ts, (k - 1) as nat);
        let t = ts[k - 1];
        let o = name_offset(ts, (k - 1) as nat) as u64;
        lemma_le64_seq(seq![o, t.spec_name_len() as u64, t.offset, t.size_bytes]);
        lemma_le32_seq(seq![
            t.shape@.len() as u32,
            t.dtype.spec_code(),
            t.quantization_type.spec_code(),
            0u32,
        ]);
        lemma_le64_seq(
            shape8(t.shape@) + seq![t.spec_scales_offset(), t.spec_scales_size(), 0u64, 0u64],
        );
    }
}

impl BrainPack {
    /// Total length of the name table that the index records point into.
    pub open spec fn name_table_len(self) -> nat {
        name_offset(self.manifest.tensors@, self.manifest.tensors@.len())
    }

    /// The container bytes of this pack, given the JSON text of its manifest.
    pub fn encode_with_manifest(&self, manifest_json: &[u8]) -> (r: Vec<u8>)
        requires
            self.name_table_len() <= u64::MAX,
        ensures
            r@ == container_bytes(manifest_json@, self.manifest.tensors@, self.weights@),
    {
        let ghost ts = self.manifest.tensors@;
        let mut buf: Vec<u8> = Vec::new();
        push_bytes(&mut buf, BRAIN_MAGIC.as_slice());
        push_u64(&mut buf, manifest_json.len() as u64);
        push_bytes(&mut buf, manifest_json);
        buf.push(0u8);
        proof {
            lemma_le_lengths();
        }
        let pos = buf.len();
        let pad = (8 - pos % 8) % 8;
        push_zeros(&mut buf, pad);
        let ghost head = buf@;
        assert(head =~= BRAIN_MAGIC@ + le64(manifest_json@.len() as u64) + manifest_json@ + seq![
            0u8,
        ] + zeros(pad_len(17 + manifest_json@.len(), 8)));
        let mut off: u64 = 0;
        let mut i: usize = 0;
        while i < self.manifest.tensors.len()
            invariant
                ts == self.manifest.tensors@,
                i <= ts.len(),
                off == name_offset(ts, i as nat),
                name_offset(ts, ts.len()) <= u64::MAX,
                buf@ == head + entries_bytes(ts, i as nat),
            decreases ts.len() - i,
        {
            let t = &self.manifest.tensors[i];
            let e = TensorIndexEntry::from_tensor(t, off);
            proof {
                lemma_entry_bytes(e, *t, off);
                lemma_name_offset_mono(ts, (i + 1) as nat, ts.len());
            }
            let rec = e.to_bytes();
            push_bytes(&mut buf, rec.as_slice());
            let nlen = t.name.as_str().as_bytes().len() as u64;
            off = off + nlen + 1;
            i = i + 1;
        }
        proof {
            lemma_entries_len(ts, ts.len());
        }
        let pos2 = buf.len();
        let pad2 = (64 - pos2 % 64) % 64;
        push_zeros(&mut buf, pad2);
        push_bytes(&mut buf, self.weights.as_slice());
        buf
    }
}

/// Name offsets never decrease.
pub proof fn lemma_name_offset_mono(ts: Seq<TensorInfo>, i: nat, j: nat)
    requires
        i <= j,
    ensures
        name_offset(ts, i) <= name_offset(ts, j),
    decreases j - i,
{
    if i < j {
        lemma_name_offset_mono(ts, i, (j - 1) as nat);
    }
}

/// Reads a container's header: checks the magic and returns the length of
/// the manifest JSON, which is `bytes[16 .. 16 + len]`.
pub fn read_header(bytes: &[u8]) -> (r: Result<usize, PackError>)
    ensures
        match header_error(bytes@) {
            Some(e) => r == Err::<usize, PackError>(e),
            None => r == Ok::<usize, PackError>(manifest_len_field(bytes@) as usize),
        },
{
    if bytes.len() < 8 {
        return Err(PackError::Truncated);
    }
    let magic = vstd::slice::slice_subrange(bytes, 0, 8);
    if !bytes_eq(magic, BRAIN_MAGIC.as_slice()) {
        return Err(PackError::BadMagic);
    }
    if bytes.len() < 16 {
        return Err(PackError::Truncated);
    }
    let mlen = read_u64(bytes, 8);
    if bytes.len() < 17 || mlen > (bytes.len() - 17) as u64 {
        return Err(PackError::Truncated);
    }
    Ok(mlen as usize)
}

/// Strings are equal exactly when their UTF-8 encodings are.
pub proof fn lemma_utf8_injective(a: Seq<char>, b: Seq<char>)
    ensures
        (utf8(a) == utf8(b)) == (a == b),
{
    vstd::utf8::encode_utf8_decode_utf8(a);
    vstd::utf8::encode_utf8_decode_utf8(b);
}

impl BrainPack {
    /// Whether the index records of `n` tensors fit after a manifest of
    /// `mlen` bytes in a container of `len` bytes.
    pub open spec fn entries_fit(mlen: nat, n: nat, len: nat) -> bool {
        entries_start(mlen) + 144 * n <= len
    }

    /// The weights of container bytes whose index records fit.
    pub open spec fn stored_weights(b: Seq<u8>, manifest: Manifest) -> Seq<u8> {
        b.subrange(weights_start(manifest_len_field(b), manifest.tensors@.len()) as int, b.len() as int)
    }

    /// The container bytes hold their weights behind index records that fit,
    /// and the weights hash to the manifest's checksum.
    pub open spec fn parts_check(b: Seq<u8>, manifest: Manifest) -> Option<PackError> {
        if !Self::entries_fit(manifest_len_field(b), manifest.tensors@.len(), b.len()) {
            Some(PackError::Truncated)
        } else if checksum_text(Self::stored_weights(b, manifest)) != utf8(manifest.metadata.checksum@) {
            Some(PackError::ChecksumMismatch)
        } else {
            None
        }
    }

    /// What reassembling a pack from `b` and its parsed `manifest` returns.
    pub open spec fn parts_result(b: Seq<u8>, manifest: Manifest, r: Result<BrainPack, PackError>) -> bool {
        match Self::parts_check(b, manifest) {
            Some(e) => r == Err::<BrainPack, PackError>(e),
            None => r is Ok && r->Ok_0.manifest == manifest && r->Ok_0.weights@ == Self::stored_weights(
                b,
                manifest,
            ),
        }
    }

    /// Reassembles a pack from container bytes whose header reads and whose
    /// manifest JSON (`bytes[16 .. 16 + len]`) parsed as `manifest`: the
    /// index records must fit, and the weights after them must hash to the
    /// manifest's checksum.
    pub fn from_parts(bytes: &[u8], manifest: Manifest) -> (r: Result<BrainPack, PackError>)
        requires
            header_error(bytes@) is None,
            Self::entries_fit(manifest_len_field(bytes@), manifest.tensors@.len(), bytes@.len())
                ==> weights_start(manifest_len_field(bytes@), manifest.tensors@.len())
                <= bytes@.len(),
        ensures
            Self::parts_result(bytes@, manifest, r),
    {
        let ghost mlen = manifest_len_field(bytes@);
        let ghost n = manifest.tensors@.len();
        let ml64 = read_u64(bytes, 8);
        assert(ml64 == mlen);
        assert(17 + mlen <= bytes@.len());
        let blen = bytes.len();
        assert(ml64 <= blen);
        let ml = ml64 as usize;
        let count = manifest.tensors.len();
        let base = 17 + ml;
        let pad = (8 - base % 8) % 8;
        if pad > bytes.len() - base {
            return Err(PackError::Truncated);
        }
        let es = base + pad;
        if count > (bytes.len() - es) / 144 {
            assert(!Self::entries_fit(mlen, n, bytes@.len())) by (nonlinear_arith)
                requires
                    es == entries_start(mlen),
                    count == n,
                    es <= bytes@.len(),
                    count > (bytes@.len() - es) / 144,
            ;
            return Err(PackError::Truncated);
        }
        assert(Self::entries_fit(mlen, n, bytes@.len())) by (nonlinear_arith)
            requires
                es == entries_start(mlen),
                count == n,
                es <= bytes@.len(),
                count <= (bytes@.len() - es) / 144,
        ;
        let end = es + 144 * count;
        let ws = end + (64 - end % 64) % 64;
        let weights = vstd::slice::slice_to_vec(vstd::slice::slice_subrange(bytes, ws, bytes.len()));
        let computed = weights_checksum(weights.as_slice());
        let same = str_eq(computed.as_str(), manifest.metadata.checksum.as_str());
        proof {
            lemma_utf8_injective(computed@, manifest.metadata.checksum@);
        }
        if !same {
            return Err(PackError::ChecksumMismatch);
        }
        Ok(BrainPack { manifest, weights })
    }
}

/// What is written reads back: in the bytes of a container the header
/// reads, the manifest length field is the JSON's length, the JSON sits at
/// `16 .. 16 + len`, the index records fit, and the bytes after the weights
/// offset are exactly the weights blob.
pub proof fn lemma_container_roundtrip(json: Seq<u8>, ts: Seq<TensorInfo>, w: Seq<u8>)
    requires
        json.len() <= u64::MAX,
    ensures
        header_error(container_bytes(json, ts, w)) is None,
        manifest_len_field(container_bytes(json, ts, w)) == json.len(),
        container_bytes(json, ts, w).subrange(16, 16 + json.len() as int) == json,
        BrainPack::entries_fit(json.len(), ts.len(), container_bytes(json, ts, w).len()),
        weights_start(json.len(), ts.len()) <= container_bytes(json, ts, w).len(),
        container_bytes(json, ts, w).subrange(
            weights_start(json.len(), ts.len()) as int,
            container_bytes(json, ts, w).len() as int,
        ) == w,
{
    let b = container_bytes(json, ts, w);
    let l = json.len();
    lemma_le_lengths();
    lemma_le_roundtrip();
    lemma_entries_len(ts, ts.len());
    let p1 = pad_len(17 + l, 8);
    let p2 = pad_len(entries_start(l) + 144 * ts.len(), 64);
    let head = BRAIN_MAGIC@ + le64(l as u64) + json + seq![0u8] + zeros(p1);
    let ents = entries_bytes(ts, ts.len());
    assert(BRAIN_MAGIC@.len() == 8);
    assert(head.len() == entries_start(l));
    assert(b == head + ents + zeros(p2) + w);
    assert(b.len() == weights_start(l, ts.len()) + w.len());
    assert(b.subrange(0, 8) =~= BRAIN_MAGIC@);
    assert(b.subrange(8, 16) =~= le64(l as u64));
    assert(b.subrange(16, 16 + l as int) =~= json);
    assert(b.subrange(weights_start(l, ts.len()) as int, b.len() as int) =~= w);
}

impl BrainPack {
    /// The first failure when reading container bytes `b` whose manifest
    /// JSON parsed as `manifest`: the header, then the index records, then
    /// the checksum.
    pub open spec fn read_check(b: Seq<u8>, manifest: Manifest) -> Option<PackError> {
        match header_error(b) {
            Some(e) => Some(e),
            None => Self::parts_check(b, manifest),
        }
    }

    /// The weights start inside the bytes whenever the header reads and the
    /// index records fit (elsewhere slicing the weights would fail).
    pub open spec fn weights_in_bounds(b: Seq<u8>, manifest: Manifest) -> bool {
        header_error(b) is None && Self::entries_fit(manifest_len_field(b), manifest.tensors@.len(), b.len())
            ==> weights_start(manifest_len_field(b), manifest.tensors@.len()) <= b.len()
    }

    /// What reading a whole pack from `b` returns.
    pub open spec fn read_result(b: Seq<u8>, manifest: Manifest, r: Result<BrainPack, PackError>) -> bool {
        match header_error(b) {
            Some(e) => r == Err::<BrainPack, PackError>(e),
            None => Self::parts_result(b, manifest, r),
        }
    }

    /// What reading only the manifest of `b` returns.
    pub open spec fn manifest_read_result(b: Seq<u8>, manifest: Manifest, r: Result<Manifest, PackError>) -> bool {
        match Self::read_check(b, manifest) {
            Some(e) => r == Err::<Manifest, PackError>(e),
            None => r == Ok::<Manifest, PackError>(manifest),
        }
    }

    /// Reads a whole pack from container bytes whose manifest JSON parsed as
    /// `manifest`: the header, the index records and the checksum are
    /// checked in that order.
    pub fn read_parts(bytes: &[u8], manifest: Manifest) -> (r: Result<BrainPack, PackError>)
        requires
            Self::weights_in_bounds(bytes@, manifest),
        ensures
            Self::read_result(bytes@, manifest, r),
    {
        match read_header(bytes) {
            Err(e) => Err(e),
            Ok(_) => Self::from_parts(bytes, manifest),
        }
    }

    /// The manifest of a container, once the whole container checks out:
    /// the bytes read as [`BrainPack::read_parts`] reads them, with
    /// `manifest` parsed from their manifest JSON.
    pub fn manifest_from_bytes(bytes: &[u8], manifest: Manifest) -> (r: Result<Manifest, PackError>)
        requires
            Self::weights_in_bounds(bytes@, manifest),
        ensures
            Self::manifest_read_result(bytes@, manifest, r),
    {
        match Self::read_parts(bytes, manifest) {
            Ok(p) => Ok(p.manifest),
            Err(e) => Err(e),
        }
    }

    /// On every byte string, reading only the manifest agrees with reading
    /// the whole pack: both succeed or both fail with the same error, and
    /// the manifest is the pack's.
    pub proof fn lemma_manifest_read_agrees(
        b: Seq<u8>,
        manifest: Manifest,
        r1: Result<BrainPack, PackError>,
        r2: Result<Manifest, PackError>,
    )
        requires
            Self::read_result(b, manifest, r1),
            Self::manifest_read_result(b, manifest, r2),
        ensures
            r1 is Ok <==> r2 is Ok,
            r1 matches Ok(p) ==> r2 == Ok::<Manifest, PackError>(p.manifest),
            r1 matches Err(e) ==> r2 == Err::<Manifest, PackError>(e),
    {
    }
}

/// Writing a pack and reading it back gives the pack again: for a pack whose
/// checksum is that of its weights (as `build` makes it), the container
/// bytes with any manifest JSON that parses back to the pack's manifest
/// reassemble into a pack with that manifest and the same weights, and
/// reading only the manifest gives that manifest.
pub proof fn lemma_pack_roundtrip(
    p: BrainPack,
    json: Seq<u8>,
    r1: Result<BrainPack, PackError>,
    r2: Result<Manifest, PackError>,
)
    requires
        json.len() <= u64::MAX,
        utf8(p.manifest.metadata.checksum@) == checksum_text(p.weights@),
        BrainPack::read_result(container_bytes(json, p.manifest.tensors@, p.weights@), p.manifest, r1),
        BrainPack::manifest_read_result(container_bytes(json, p.manifest.tensors@, p.weights@), p.manifest, r2),
    ensures
        r1 matches Ok(q) && q.manifest == p.manifest && q.weights@ == p.weights@,
        r2 == Ok::<Manifest, PackError>(p.manifest),
{
    lemma_container_roundtrip(json, p.manifest.tensors@, p.weights@);
}

} // verus!
