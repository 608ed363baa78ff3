//! Mapped-memory views of a `.brain` container: tensor views with strides,
//! access hints, huge-page sizes, a shared memory region that receives an
//! encoded container, and the wide (UTF-16) strings of the Windows API.

use vstd::prelude::*;
use vstd::string::StrSliceExecFns;
use crate::brain_pack::format::{DataType, QuantizationParams};
use crate::brain_pack::pack::{BrainPack, PackError};
use crate::brain_pack::container::container_bytes;
use crate::brain_pack::safetensors::{shape_product, product_fits, dims_product};

verus! {

/// Zero-copy view of one tensor in mapped memory, with its strides.
#[derive(Debug, Clone)]
pub struct TensorView<'a> {
    pub name: String,
    pub data: &'a [u8],
    pub shape: Vec<u64>,
    pub dtype: DataType,
    pub quantization: Option<QuantizationParams>,
    pub strides: Vec<u64>,
}

/// The stride check walks the dimensions from the last to the first. At
/// step `t` it reads the dimension `d = shape[len - 1 - t]` and compares
/// `strides[len - 1 - d]` with the running product of the dimensions seen
/// so far. `None` stands for a step that cannot be taken: `d` is not below
/// the rank, the stride index is out of range, or the product leaves 64 bits.
pub open spec fn stride_walk(shape: Seq<u64>, strides: Seq<u64>, t: nat, expected: int) -> Option<
    bool,
>
    decreases shape.len() - t,
{
    if t >= shape.len() {
        Some(true)
    } else {
        let d = shape[shape.len() - 1 - t];
        let idx = shape.len() - 1 - d;
        if idx < 0 || idx >= strides.len() {
            None
        } else if strides[idx] != expected {
            Some(false)
        } else if expected * d > u64::MAX {
            None
        } else {
            stride_walk(shape, strides, t + 1, expected * d)
        }
    }
}

impl<'a> TensorView<'a> {
    /// Number of elements: the product of the dimensions.
    pub fn num_elements(&self) -> (r: u64)
        requires
            product_fits(self.shape@),
        ensures
            r == shape_product(self.shape@),
    {
        dims_product(&self.shape)
    }

    /// Length of the mapped bytes.
    pub fn size_bytes(&self) -> (r: usize)
        ensures
            r == self.data@.len(),
    {
        self.data.len()
    }

    /// The stride check of [`stride_walk`], from the first step with a
    /// running product of 1.
    pub fn is_contiguous(&self) -> (r: bool)
        requires
            stride_walk(self.shape@, self.strides@, 0, 1) is Some,
        ensures
            Some(r) == stride_walk(self.shape@, self.strides@, 0, 1),
    {
        let n = self.shape.len();
        let mut expected: u64 = 1;
        let mut t: usize = 0;
        while t < n
            invariant
                n == self.shape@.len(),
                t <= n,
                stride_walk(self.shape@, self.strides@, 0, 1) == stride_walk(
                    self.shape@,
                    self.strides@,
                    t as nat,
                    expected as int,
                ),
                stride_walk(self.shape@, self.strides@, t as nat, expected as int) is Some,
            decreases n - t,
        {
            let d = self.shape[n - 1 - t];
            let idx = n - 1 - d as usize;
            if self.strides[idx] != expected {
                return false;
            }
            expected = expected * d;
            t = t + 1;
        }
        true
    }
}

/// Access pattern hints for mapped memory.
#[derive(Debug, Clone, Copy, PartialEq, Eq, Structural)]
pub enum MemoryAdvice {
    Sequential,
    Random,
    WillNeed,
    DontNeed,
    Free,
}

/// Huge page sizes for mappings backed by huge pages.
#[derive(Debug, Clone, Copy, PartialEq, Eq, Structural)]
pub enum HugePageSize {
    Size2MB,
    Size1GB,
}

impl HugePageSize {
    /// The mapping flag that selects this page size (`MAP_HUGE_2MB`,
    /// `MAP_HUGE_1GB`).
    pub fn flag(&self) -> (r: i32)
        ensures
            r == (match *self {
                HugePageSize::Size2MB => 0x40000i32,
                HugePageSize::Size1GB => 0x80000i32,
            }),
    {
        match self {
            HugePageSize::Size2MB => 0x40000,
            HugePageSize::Size1GB => 0x80000,
        }
    }
}

/// A memory region shared between processes, of fixed size, that a
/// container is written into.
pub struct SharedMappedBrain {
    region: Vec<u8>,
    shm_name: String,
}

impl SharedMappedBrain {
    /// Current contents of the region.
    pub closed spec fn contents(&self) -> Seq<u8> {
        self.region@
    }

    /// Name of the shared memory object.
    pub closed spec fn name(&self) -> Seq<char> {
        self.shm_name@
    }

    /// A zero-filled region of `size` bytes under the name `shm_name`.
    pub fn new(shm_name: String, size: usize) -> (r: Self)
        ensures
            r.contents() == Seq::new(size as nat, |i: int| 0u8),
            r.name() == shm_name@,
    {
        let mut region: Vec<u8> = Vec::new();
        let mut i: usize = 0;
        while i < size
            invariant
                i <= size,
                region@ == Seq::new(i as nat, |k: int| 0u8),
            decreases size - i,
        {
            region.push(0u8);
            i = i + 1;
        }
        SharedMappedBrain { region, shm_name }
    }

    pub fn size(&self) -> (r: usize)
        ensures
            r == self.contents().len(),
    {
        self.region.len()
    }

    pub fn as_slice(&self) -> (r: &[u8])
        ensures
            r@ == self.contents(),
    {
        self.region.as_slice()
    }

    /// Writes the container bytes of `pack` (with `manifest_json` as its
    /// manifest text) to the start of the region. Fails, and leaves the
    /// region as it was, when they do not fit.
    pub fn write_brain(&mut self, pack: &BrainPack, manifest_json: &[u8]) -> (r: Result<(), PackError>)
        requires
            pack.name_table_len() <= u64::MAX,
        ensures
            ({
                let data = container_bytes(manifest_json@, pack.manifest.tensors@, pack.weights@);
                &&& final(self).name() == old(self).name()
                &&& r is Err <==> data.len() > old(self).contents().len()
                &&& r is Err ==> r == Err::<(), PackError>(PackError::RegionTooSmall)
                    && final(self).contents() == old(self).contents()
                &&& r is Ok ==> final(self).contents() == data + old(self).contents().skip(
                    data.len() as int,
                )
            }),
    {
        let data = pack.encode_with_manifest(manifest_json);
        if data.len() > self.region.len() {
            return Err(PackError::RegionTooSmall);
        }
        let ghost before = self.region@;
        let mut i: usize = 0;
        while i < data.len()
            invariant
                i <= data@.len(),
                data@.len() <= before.len(),
                self.region@.len() == before.len(),
                forall|k: int| 0 <= k < i ==> self.region@[k] == data@[k],
                forall|k: int| i <= k < before.len() ==> self.region@[k] == before[k],
                self.shm_name == old(self).shm_name,
            decreases data@.len() - i,
        {
            self.region.set(i, data[i]);
            i = i + 1;
        }
        assert(self.region@ =~= data@ + before.skip(data@.len() as int));
        Ok(())
    }
}

/// UTF-16 code units of one character.
pub open spec fn utf16_of(c: char) -> Seq<u16> {
    let v = c as int;
    if v < 0x10000 {
        seq![v as u16]
    } else {
        let w = v - 0x10000;
        seq![(0xd800 + w / 1024) as u16, (0xdc00 + w % 1024) as u16]
    }
}

/// UTF-16 code units of a string.
pub open spec fn utf16(s: Seq<char>) -> Seq<u16>
    decreases s.len(),
{
    if s.len() == 0 {
        Seq::empty()
    } else {
        utf16(s.drop_last()) + utf16_of(s.last())
    }
}

/// The UTF-16 form of `s` followed by a terminating zero, as the wide-string
/// parameters of the Windows API expect.
pub fn to_wide_string(s: &str) -> (r: Vec<u16>)
    ensures
        r@ == utf16(s@).push(0u16),
{
    let n = s.unicode_len();
    let mut out: Vec<u16> = Vec::new();
    let mut i: usize = 0;
    while i < n
        invariant
            n == s@.len(),
            i <= n,
            out@ == utf16(s@.subrange(0, i as int)),
        decreases n - i,
    {
        let c = s.get_char(i);
        let v = c as u32;
        let ghost pre = s@.subrange(0, i as int);
        assert(s@.subrange(0, i + 1).drop_last() =~= pre);
        if v < 0x10000 {
            out.push(v as u16);
        } else {
            let w = v - 0x10000;
            out.push((0xd800 + w / 1024) as u16);
            out.push((0xdc00 + w % 1024) as u16);
        }
        assert(out@ =~= utf16(s@.subrange(0, i + 1)));
        i = i + 1;
    }
    assert(s@.subrange(0, n as int) =~= s@);
    out.push(0u16);
    out
}

/// What a memory backend reports of a mapped container.
pub trait WindowsMemoryOps {
    fn mapped_view_size(&self) -> usize;

    fn tensors(&self) -> Vec<&str>;

    fn weights_byte_len(&self) -> usize;
}

/// A container read from a mapped file of `file_size` bytes.
pub struct MappedBrain {
    pub pack: BrainPack,
    pub file_size: usize,
}

impl WindowsMemoryOps for MappedBrain {
    fn mapped_view_size(&self) -> (r: usize)
        ensures
            r == self.file_size,
    {
        self.file_size
    }

    fn tensors(&self) -> (r: Vec<&str>)
        ensures
            r@.len() == self.pack.manifest.tensors@.len(),
            forall|i: int|
                0 <= i < r@.len() ==> #[trigger] r@[i]@ == self.pack.manifest.tensors@[i].name@,
    {
        self.pack.tensor_names()
    }

    fn weights_byte_len(&self) -> (r: usize)
        ensures
            r == self.pack.weights@.len(),
    {
        self.pack.weights_len()
    }
}

} // verus!
