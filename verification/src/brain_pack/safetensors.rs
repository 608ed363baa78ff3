//! Reading `.safetensors` files: header framing, tensor byte ranges, integer
//! payload decoding, and conversion of tensor descriptions.
//!
//! A file is a little-endian `u64` header length, the JSON header, padding
//! to 8 bytes and the data section.

use vstd::prelude::*;
use vstd::string::StringExecFns;
use vstd::utf8::valid_utf8;
use crate::le_bytes::{de32, de64, read_u32, read_u64};
use crate::text::{str_eq, str_contains, has_infix, utf8};
use crate::brain_pack::format::{
    DataType, QuantizationScheme, QuantizationParams, ModelInfo, TensorInfo,
};

verus! {

/// Element type of a safetensors tensor.
#[derive(Debug, Clone, Copy, PartialEq, Eq, Structural)]
pub enum SafetensorsDtype {
    F64,
    F32,
    F16,
    BF16,
    I64,
    I32,
    I16,
    I8,
    U8,
    Bool,
    F8E4M3,
    F8E5M2,
}

impl SafetensorsDtype {
    /// The dtype a header string names (upper or lower case spelling).
    pub open spec fn parse(s: Seq<char>) -> Option<SafetensorsDtype> {
        if s == "F64"@ || s == "f64"@ {
            Some(SafetensorsDtype::F64)
        } else if s == "F32"@ || s == "f32"@ {
            Some(SafetensorsDtype::F32)
        } else if s == "F16"@ || s == "f16"@ {
            Some(SafetensorsDtype::F16)
        } else if s == "BF16"@ || s == "bf16"@ {
            Some(SafetensorsDtype::BF16)
        } else if s == "I64"@ || s == "i64"@ {
            Some(SafetensorsDtype::I64)
        } else if s == "I32"@ || s == "i32"@ {
            Some(SafetensorsDtype::I32)
        } else if s == "I16"@ || s == "i16"@ {
            Some(SafetensorsDtype::I16)
        } else if s == "I8"@ || s == "i8"@ {
            Some(SafetensorsDtype::I8)
        } else if s == "U8"@ || s == "u8"@ {
            Some(SafetensorsDtype::U8)
        } else if s == "BOOL"@ || s == "bool"@ {
            Some(SafetensorsDtype::Bool)
        } else if s == "F8_E4M3"@ || s == "f8_e4m3"@ {
            Some(SafetensorsDtype::F8E4M3)
        } else if s == "F8_E5M2"@ || s == "f8_e5m2"@ {
            Some(SafetensorsDtype::F8E5M2)
        } else {
            None
        }
    }

    pub fn from_str(s: &str) -> (r: Option<SafetensorsDtype>)
        ensures
            r == Self::parse(s@),
    {
        if str_eq(s, "F64") || str_eq(s, "f64") {
            Some(SafetensorsDtype::F64)
        } else if str_eq(s, "F32") || str_eq(s, "f32") {
            Some(SafetensorsDtype::F32)
        } else if str_eq(s, "F16") || str_eq(s, "f16") {
            Some(SafetensorsDtype::F16)
        } else if str_eq(s, "BF16") || str_eq(s, "bf16") {
            Some(SafetensorsDtype::BF16)
        } else if str_eq(s, "I64") || str_eq(s, "i64") {
            Some(SafetensorsDtype::I64)
        } else if str_eq(s, "I32") || str_eq(s, "i32") {
            Some(SafetensorsDtype::I32)
        } else if str_eq(s, "I16") || str_eq(s, "i16") {
            Some(SafetensorsDtype::I16)
        } else if str_eq(s, "I8") || str_eq(s, "i8") {
            Some(SafetensorsDtype::I8)
        } else if str_eq(s, "U8") || str_eq(s, "u8") {
            Some(SafetensorsDtype::U8)
        } else if str_eq(s, "BOOL") || str_eq(s, "bool") {
            Some(SafetensorsDtype::Bool)
        } else if str_eq(s, "F8_E4M3") || str_eq(s, "f8_e4m3") {
            Some(SafetensorsDtype::F8E4M3)
        } else if str_eq(s, "F8_E5M2") || str_eq(s, "f8_e5m2") {
            Some(SafetensorsDtype::F8E5M2)
        } else {
            None
        }
    }

    /// Bytes per element, as the safetensors format defines them.
    pub open spec fn spec_size(self) -> nat {
        match self {
            SafetensorsDtype::F64 | SafetensorsDtype::I64 => 8,
            SafetensorsDtype::F32 | SafetensorsDtype::I32 => 4,
            SafetensorsDtype::F16 | SafetensorsDtype::BF16 | SafetensorsDtype::I16 => 2,
            SafetensorsDtype::I8 | SafetensorsDtype::U8 | SafetensorsDtype::Bool
            | SafetensorsDtype::F8E4M3 | SafetensorsDtype::F8E5M2 => 1,
        }
    }

    pub fn size_bytes(&self) -> (r: usize)
        ensures
            r == self.spec_size(),
    {
        match self {
            SafetensorsDtype::F64 | SafetensorsDtype::I64 => 8,
            SafetensorsDtype::F32 | SafetensorsDtype::I32 => 4,
            SafetensorsDtype::F16 | SafetensorsDtype::BF16 | SafetensorsDtype::I16 => 2,
            SafetensorsDtype::I8 | SafetensorsDtype::U8 | SafetensorsDtype::Bool
            | SafetensorsDtype::F8E4M3 | SafetensorsDtype::F8E5M2 => 1,
        }
    }

    /// Alignment of the element type: its size.
    pub fn alignment(&self) -> (r: usize)
        ensures
            r == self.spec_size(),
    {
        self.size_bytes()
    }
}

/// Description of one tensor in a safetensors header.
#[derive(Debug, Clone)]
pub struct SafetensorsTensorInfo {
    pub dtype: String,
    pub shape: Vec<u64>,
    /// `[begin, end)` relative to the start of the data section.
    pub data_offsets: [u64; 2],
}

/// A parsed safetensors header: tensor descriptions by name (no name twice)
/// and the optional `__metadata__` string table.
#[derive(Debug, Clone)]
pub struct SafetensorsHeader {
    pub tensors: Vec<(String, SafetensorsTensorInfo)>,
    pub metadata: Option<Vec<(String, String)>>,
}

/// Why reading a safetensors file failed.
#[derive(Debug, Clone, Copy, PartialEq, Eq, Structural)]
pub enum SafetensorsError {
    /// Fewer than eight bytes.
    FileTooSmall,
    /// The declared header runs past the end of the file.
    HeaderTruncated,
    /// The header bytes are not UTF-8.
    HeaderNotUtf8,
    /// No tensor of that name.
    TensorNotFound,
    /// A tensor's data runs past the end of the file.
    DataOutOfRange,
    /// The dtype string names no known dtype.
    UnknownDtype,
    /// The dtype cannot be converted as asked.
    UnsupportedDtype,
}

/// Header length field of a safetensors file.
pub open spec fn header_len_field(b: Seq<u8>) -> nat {
    de64(b.subrange(0, 8)) as nat
}

/// `x` rounded up to a multiple of 8.
pub open spec fn round_up8(x: nat) -> nat {
    ((x + 7) / 8 * 8) as nat
}

/// Checks the framing of a safetensors file and returns the header length
/// (the JSON is `bytes[8 .. 8 + len]`) and where the data section starts.
pub fn header_bounds(bytes: &[u8]) -> (r: Result<(usize, usize), SafetensorsError>)
    requires
        bytes@.len() + 16 <= usize::MAX,
    ensures
        bytes@.len() < 8 ==> r == Err::<(usize, usize), SafetensorsError>(
            SafetensorsError::FileTooSmall,
        ),
        bytes@.len() >= 8 && 8 + header_len_field(bytes@) > bytes@.len() ==> r == Err::<
            (usize, usize),
            SafetensorsError,
        >(SafetensorsError::HeaderTruncated),
        bytes@.len() >= 8 && 8 + header_len_field(bytes@) <= bytes@.len() ==> {
            let h = header_len_field(bytes@);
            if valid_utf8(bytes@.subrange(8, 8 + h as int)) {
                r == Ok::<(usize, usize), SafetensorsError>((h as usize, round_up8(8 + h) as usize))
            } else {
                r == Err::<(usize, usize), SafetensorsError>(SafetensorsError::HeaderNotUtf8)
            }
        },
{
    let blen = bytes.len();
    if blen < 8 {
        return Err(SafetensorsError::FileTooSmall);
    }
    let hs = read_u64(bytes, 0);
    if hs > (blen - 8) as u64 {
        return Err(SafetensorsError::HeaderTruncated);
    }
    let h = hs as usize;
    let json = vstd::slice::slice_subrange(bytes, 8, 8 + h);
    if crate::text::string_from_utf8(vstd::slice::slice_to_vec(json)).is_none() {
        return Err(SafetensorsError::HeaderNotUtf8);
    }
    let start = 8 + h;
    let aligned = (start + 7) / 8 * 8;
    Ok((h, aligned))
}

/// Position of the tensor called `name` among `entries`.
pub open spec fn entry_named(entries: Seq<(String, SafetensorsTensorInfo)>, name: Seq<char>) -> Option<
    int,
> {
    if exists|i: int| 0 <= i < entries.len() && #[trigger] entries[i].0@ == name {
        Some(choose|i: int| 0 <= i < entries.len() && #[trigger] entries[i].0@ == name)
    } else {
        None
    }
}

impl SafetensorsHeader {
    /// No tensor name occurs twice.
    pub open spec fn well_formed(self) -> bool {
        forall|i: int, j: int|
            0 <= i < j < self.tensors@.len() ==> #[trigger] self.tensors@[i].0@
                != #[trigger] self.tensors@[j].0@
    }

    /// The description of the tensor called `name`.
    pub fn tensor_info(&self, name: &str) -> (r: Option<&SafetensorsTensorInfo>)
        requires
            self.well_formed(),
        ensures
            match entry_named(self.tensors@, name@) {
                Some(i) => r == Some(&self.tensors@[i].1),
                None => r is None,
            },
    {
        let mut i: usize = 0;
        while i < self.tensors.len()
            invariant
                self.well_formed(),
                i <= self.tensors@.len(),
                forall|j: int| 0 <= j < i ==> #[trigger] self.tensors@[j].0@ != name@,
            decreases self.tensors@.len() - i,
        {
            if str_eq(self.tensors[i].0.as_str(), name) {
                proof {
                    let k = choose|k: int|
                        0 <= k < self.tensors@.len() && #[trigger] self.tensors@[k].0@ == name@;
                    if k != i {
                        if k < i {
                            assert(self.tensors@[k].0@ != name@);
                        } else {
                            assert(self.tensors@[i as int].0@ != self.tensors@[k].0@);
                        }
                    }
                }
                return Some(&self.tensors[i].1);
            }
            i = i + 1;
        }
        None
    }

    /// All tensor names, in header order.
    pub fn tensor_names(&self) -> (r: Vec<&String>)
        ensures
            r@.len() == self.tensors@.len(),
            forall|i: int| 0 <= i < r@.len() ==> *r@[i] == self.tensors@[i].0,
    {
        let mut out: Vec<&String> = Vec::new();
        let mut i: usize = 0;
        while i < self.tensors.len()
            invariant
                i <= self.tensors@.len(),
                out@.len() == i,
                forall|k: int| 0 <= k < i ==> *out@[k] == self.tensors@[k].0,
            decreases self.tensors@.len() - i,
        {
            out.push(&self.tensors[i].0);
            i = i + 1;
        }
        out
    }
}

/// A safetensors file whose header was read: the header, and where the data
/// section starts and ends in the file's bytes.
pub struct SafetensorsReader {
    pub header: SafetensorsHeader,
    pub data_start: usize,
    pub data_end: usize,
}

/// Integers of a tensor payload read as `i32`: `I32` elements as they are,
/// `I64` elements truncated. `None` for other dtypes with a non-empty payload.
pub open spec fn payload_i32(dtype: SafetensorsDtype, data: Seq<u8>) -> Option<Seq<i32>> {
    let n = data.len() / dtype.spec_size();
    if n == 0 {
        Some(Seq::empty())
    } else {
        match dtype {
            SafetensorsDtype::I32 => Some(
                Seq::new(n, |k: int| de32(data.subrange(4 * k, 4 * k + 4)) as i32),
            ),
            SafetensorsDtype::I64 => Some(
                Seq::new(n, |k: int| de64(data.subrange(8 * k, 8 * k + 8)) as i32),
            ),
            _ => None,
        }
    }
}

/// Integers of a tensor payload read as `i64`: `I64` elements as they are,
/// `I32` elements sign-extended. `None` for other dtypes with a non-empty
/// payload.
pub open spec fn payload_i64(dtype: SafetensorsDtype, data: Seq<u8>) -> Option<Seq<i64>> {
    let n = data.len() / dtype.spec_size();
    if n == 0 {
        Some(Seq::empty())
    } else {
        match dtype {
            SafetensorsDtype::I64 => Some(
                Seq::new(n, |k: int| de64(data.subrange(8 * k, 8 * k + 8)) as i64),
            ),
            SafetensorsDtype::I32 => Some(
                Seq::new(n, |k: int| (de32(data.subrange(4 * k, 4 * k + 4)) as i32) as i64),
            ),
            _ => None,
        }
    }
}

impl SafetensorsReader {
    pub fn header(&self) -> (r: &SafetensorsHeader)
        ensures
            r == &self.header,
    {
        &self.header
    }

    /// The file bytes of the tensor's data: `[data_start + begin, data_start + end)`.
    pub open spec fn data_range(self, info: SafetensorsTensorInfo) -> (int, int) {
        (self.data_start + info.data_offsets[0], self.data_start + info.data_offsets[1])
    }

    /// Reading the tensor's data cannot overflow or slice backwards.
    pub open spec fn range_ok(self, info: SafetensorsTensorInfo, len: nat) -> bool {
        &&& self.data_range(info).1 <= usize::MAX
        &&& self.data_range(info).0 <= usize::MAX
        &&& (self.data_range(info).1 <= len ==> self.data_range(info).0 <= self.data_range(info).1)
    }

    /// The raw bytes of the tensor called `name` in the file's bytes.
    pub fn tensor_data<'a>(&self, bytes: &'a [u8], name: &str) -> (r: Result<&'a [u8], SafetensorsError>)
        requires
            self.header.well_formed(),
            entry_named(self.header.tensors@, name@) matches Some(i) ==> self.range_ok(
                self.header.tensors@[i].1,
                bytes@.len(),
            ),
        ensures
            match entry_named(self.header.tensors@, name@) {
                None => r == Err::<&[u8], SafetensorsError>(SafetensorsError::TensorNotFound),
                Some(i) => {
                    let (b, e) = self.data_range(self.header.tensors@[i].1);
                    if e > bytes@.len() {
                        r == Err::<&[u8], SafetensorsError>(SafetensorsError::DataOutOfRange)
                    } else {
                        r matches Ok(d) && d@ == bytes@.subrange(b, e)
                    }
                },
            },
    {
        let info = match self.header.tensor_info(name) {
            Some(i) => i,
            None => {
                return Err(SafetensorsError::TensorNotFound);
            },
        };
        let begin = self.data_start + info.data_offsets[0] as usize;
        let end = self.data_start + info.data_offsets[1] as usize;
        if end > bytes.len() {
            return Err(SafetensorsError::DataOutOfRange);
        }
        Ok(vstd::slice::slice_subrange(bytes, begin, end))
    }

    /// The tensor's shape, if there is a tensor of that name.
    pub fn tensor_shape(&self, name: &str) -> (r: Option<Vec<u64>>)
        requires
            self.header.well_formed(),
        ensures
            match entry_named(self.header.tensors@, name@) {
                Some(i) => r matches Some(s) && s@ == self.header.tensors@[i].1.shape@,
                None => r is None,
            },
    {
        match self.header.tensor_info(name) {
            Some(i) => Some(i.shape.clone()),
            None => None,
        }
    }

    /// The tensor's dtype, if there is a tensor of that name with a known dtype.
    pub fn tensor_dtype(&self, name: &str) -> (r: Option<SafetensorsDtype>)
        requires
            self.header.well_formed(),
        ensures
            match entry_named(self.header.tensors@, name@) {
                Some(i) => r == SafetensorsDtype::parse(self.header.tensors@[i].1.dtype@),
                None => r is None,
            },
    {
        match self.header.tensor_info(name) {
            Some(i) => SafetensorsDtype::from_str(i.dtype.as_str()),
            None => None,
        }
    }

    /// Size of the data section.
    pub fn data_size(&self) -> (r: u64)
        requires
            self.data_start <= self.data_end,
        ensures
            r == self.data_end - self.data_start,
    {
        (self.data_end - self.data_start) as u64
    }

    /// Failure of an integer read of the tensor called `name`, if any.
    pub open spec fn int_read_error(self, bytes: Seq<u8>, name: Seq<char>) -> Option<SafetensorsError> {
        match entry_named(self.header.tensors@, name) {
            None => Some(SafetensorsError::TensorNotFound),
            Some(i) => match SafetensorsDtype::parse(self.header.tensors@[i].1.dtype@) {
                None => Some(SafetensorsError::UnknownDtype),
                Some(_) => if self.data_range(self.header.tensors@[i].1).1 > bytes.len() {
                    Some(SafetensorsError::DataOutOfRange)
                } else {
                    None
                },
            },
        }
    }

    /// The payload bytes of the tensor called `name` (when it can be read).
    pub open spec fn payload_of(self, bytes: Seq<u8>, name: Seq<char>) -> Seq<u8> {
        let i = entry_named(self.header.tensors@, name)->Some_0;
        bytes.subrange(
            self.data_range(self.header.tensors@[i].1).0,
            self.data_range(self.header.tensors@[i].1).1,
        )
    }

    /// The dtype of the tensor called `name` (when it is known).
    pub open spec fn dtype_of(self, name: Seq<char>) -> SafetensorsDtype {
        SafetensorsDtype::parse(
            self.header.tensors@[entry_named(self.header.tensors@, name)->Some_0].1.dtype@,
        )->Some_0
    }

    /// The tensor's elements as `i32`.
    pub fn tensor_data_i32(&self, bytes: &[u8], name: &str) -> (r: Result<Vec<i32>, SafetensorsError>)
        requires
            self.header.well_formed(),
            entry_named(self.header.tensors@, name@) matches Some(i) ==> self.range_ok(
                self.header.tensors@[i].1,
                bytes@.len(),
            ),
        ensures
            match self.int_read_error(bytes@, name@) {
                Some(e) => r == Err::<Vec<i32>, SafetensorsError>(e),
                None => match payload_i32(self.dtype_of(name@), self.payload_of(bytes@, name@)) {
                    Some(v) => r matches Ok(out) && out@ == v,
                    None => r == Err::<Vec<i32>, SafetensorsError>(SafetensorsError::UnsupportedDtype),
                },
            },
    {
        let info = match self.header.tensor_info(name) {
            Some(i) => i,
            None => {
                return Err(SafetensorsError::TensorNotFound);
            },
        };
        let dtype = match SafetensorsDtype::from_str(info.dtype.as_str()) {
            Some(d) => d,
            None => {
                return Err(SafetensorsError::UnknownDtype);
            },
        };
        let data = match self.tensor_data(bytes, name) {
            Ok(d) => d,
            Err(e) => {
                return Err(e);
            },
        };
        let size = dtype.size_bytes();
        let dlen = data.len();
        let n = dlen / size;
        assert(data@ == self.payload_of(bytes@, name@));
        assert(dtype == self.dtype_of(name@));
        let ghost spec_n = data@.len() / dtype.spec_size();
        let mut out: Vec<i32> = Vec::new();
        let mut k: usize = 0;
        while k < n
            invariant
                n == spec_n,
                dlen == data@.len(),
                data@ == self.payload_of(bytes@, name@),
                dtype == self.dtype_of(name@),
                self.int_read_error(bytes@, name@) is None,
                spec_n == data@.len() / dtype.spec_size(),
                size == dtype.spec_size(),
                n == data@.len() as int / size as int,
                k <= n,
                out@.len() == k,
                dtype == SafetensorsDtype::I32 || dtype == SafetensorsDtype::I64 || k == 0,
                dtype == SafetensorsDtype::I32 ==> forall|j: int|
                    0 <= j < k ==> #[trigger] out@[j] == de32(data@.subrange(4 * j, 4 * j + 4)) as i32,
                dtype == SafetensorsDtype::I64 ==> forall|j: int|
                    0 <= j < k ==> #[trigger] out@[j] == de64(data@.subrange(8 * j, 8 * j + 8)) as i32,
            decreases n - k,
        {
            assert(k * size + size <= data@.len()) by (nonlinear_arith)
                requires
                    k < n,
                    n == data@.len() as int / size as int,
                    size > 0,
            ;
            match dtype {
                SafetensorsDtype::I32 => {
                    let v = read_u32(data, 4 * k);
                    out.push(v as i32);
                },
                SafetensorsDtype::I64 => {
                    let v = read_u64(data, 8 * k);
                    out.push(v as i32);
                },
                _ => {
                    return Err(SafetensorsError::UnsupportedDtype);
                },
            }
            k = k + 1;
        }
        proof {
            match dtype {
                SafetensorsDtype::I32 => {
                    assert(out@ =~= Seq::new(
                        spec_n,
                        |j: int| de32(data@.subrange(4 * j, 4 * j + 4)) as i32,
                    ));
                },
                SafetensorsDtype::I64 => {
                    assert(out@ =~= Seq::new(
                        spec_n,
                        |j: int| de64(data@.subrange(8 * j, 8 * j + 8)) as i32,
                    ));
                },
                _ => {
                    assert(out@ =~= Seq::<i32>::empty());
                },
            }
        }
        Ok(out)
    }

    /// The tensor's elements as `i64`.
    pub fn tensor_data_i64(&self, bytes: &[u8], name: &str) -> (r: Result<Vec<i64>, SafetensorsError>)
        requires
            self.header.well_formed(),
            entry_named(self.header.tensors@, name@) matches Some(i) ==> self.range_ok(
                self.header.tensors@[i].1,
                bytes@.len(),
            ),
        ensures
            match self.int_read_error(bytes@, name@) {
                Some(e) => r == Err::<Vec<i64>, SafetensorsError>(e),
                None => match payload_i64(self.dtype_of(name@), self.payload_of(bytes@, name@)) {
                    Some(v) => r matches Ok(out) && out@ == v,
                    None => r == Err::<Vec<i64>, SafetensorsError>(SafetensorsError::UnsupportedDtype),
                },
            },
    {
        let info = match self.header.tensor_info(name) {
            Some(i) => i,
            None => {
                return Err(SafetensorsError::TensorNotFound);
            },
        };
        let dtype = match SafetensorsDtype::from_str(info.dtype.as_str()) {
            Some(d) => d,
            None => {
                return Err(SafetensorsError::UnknownDtype);
            },
        };
        let data = match self.tensor_data(bytes, name) {
            Ok(d) => d,
            Err(e) => {
                return Err(e);
            },
        };
        let size = dtype.size_bytes();
        let dlen = data.len();
        let n = dlen / size;
        assert(data@ == self.payload_of(bytes@, name@));
        assert(dtype == self.dtype_of(name@));
        let ghost spec_n = data@.len() / dtype.spec_size();
        let mut out: Vec<i64> = Vec::new();
        let mut k: usize = 0;
        while k < n
            invariant
                n == spec_n,
                dlen == data@.len(),
                data@ == self.payload_of(bytes@, name@),
                dtype == self.dtype_of(name@),
                self.int_read_error(bytes@, name@) is None,
                spec_n == data@.len() / dtype.spec_size(),
                size == dtype.spec_size(),
                n == data@.len() as int / size as int,
                k <= n,
                out@.len() == k,
                dtype == SafetensorsDtype::I32 || dtype == SafetensorsDtype::I64 || k == 0,
                dtype == SafetensorsDtype::I32 ==> forall|j: int|
                    0 <= j < k ==> #[trigger] out@[j] == (de32(data@.subrange(4 * j, 4 * j + 4)) as i32) as i64,
                dtype == SafetensorsDtype::I64 ==> forall|j: int|
                    0 <= j < k ==> #[trigger] out@[j] == de64(data@.subrange(8 * j, 8 * j + 8)) as i64,
            decreases n - k,
        {
            assert(k * size + size <= data@.len()) by (nonlinear_arith)
                requires
                    k < n,
                    n == data@.len() as int / size as int,
                    size > 0,
            ;
            match dtype {
                SafetensorsDtype::I32 => {
                    let v = read_u32(data, 4 * k);
                    let w = v as i32;
                    out.push(w as i64);
                },
                SafetensorsDtype::I64 => {
                    let v = read_u64(data, 8 * k);
                    out.push(v as i64);
                },
                _ => {
                    return Err(SafetensorsError::UnsupportedDtype);
                },
            }
            k = k + 1;
        }
        proof {
            match dtype {
                SafetensorsDtype::I32 => {
                    assert(out@ =~= Seq::new(
                        spec_n,
                        |j: int| (de32(data@.subrange(4 * j, 4 * j + 4)) as i32) as i64,
                    ));
                },
                SafetensorsDtype::I64 => {
                    assert(out@ =~= Seq::new(
                        spec_n,
                        |j: int| de64(data@.subrange(8 * j, 8 * j + 8)) as i64,
                    ));
                },
                _ => {
                    assert(out@ =~= Seq::<i64>::empty());
                },
            }
        }
        Ok(out)
    }
}

/// Product of the dimensions of `shape`, multiplied from the front.
pub open spec fn shape_product(shape: Seq<u64>) -> int
    decreases shape.len(),
{
    if shape.len() == 0 {
        1
    } else {
        shape_product(shape.drop_last()) * shape.last()
    }
}

/// Every running product of the dimensions fits in 64 bits.
pub open spec fn product_fits(shape: Seq<u64>) -> bool {
    forall|k: int| 0 <= k <= shape.len() ==> #[trigger] shape_product(shape.subrange(0, k)) <= u64::MAX
}

proof fn lemma_product_nonneg(shape: Seq<u64>)
    ensures
        shape_product(shape) >= 0,
    decreases shape.len(),
{
    if shape.len() > 0 {
        lemma_product_nonneg(shape.drop_last());
        vstd::arithmetic::mul::lemma_mul_nonnegative(shape_product(shape.drop_last()), shape.last() as int);
    }
}

/// Product of the dimensions.
pub(crate) fn dims_product(shape: &Vec<u64>) -> (r: u64)
    requires
        product_fits(shape@),
    ensures
        r == shape_product(shape@),
{
    let mut p: u64 = 1;
    let mut i: usize = 0;
    proof {
        assert(shape@.subrange(0, 0) =~= Seq::<u64>::empty());
    }
    while i < shape.len()
        invariant
            i <= shape@.len(),
            product_fits(shape@),
            p == shape_product(shape@.subrange(0, i as int)),
        decreases shape@.len() - i,
    {
        let ghost pre = shape@.subrange(0, i as int);
        let ghost next = shape@.subrange(0, i + 1);
        assert(next.drop_last() =~= pre);
        assert(shape_product(next) <= u64::MAX);
        proof {
            lemma_product_nonneg(pre);
        }
        p = p * shape[i];
        i = i + 1;
    }
    assert(shape@.subrange(0, shape@.len() as int) =~= shape@);
    p
}

/// Payload bytes of a tensor in a packed container: its element count times
/// the width of its dtype.
pub open spec fn entry_bytes(e: (String, SafetensorsTensorInfo)) -> int {
    shape_product(e.1.shape@) * SafetensorsDtype::parse(e.1.dtype@)->Some_0.spec_size()
}

/// Payload bytes of the first `k` tensors, packed one after another.
pub open spec fn packed_prefix(es: Seq<(String, SafetensorsTensorInfo)>, k: nat) -> int
    decreases k,
{
    if k == 0 {
        0
    } else {
        packed_prefix(es, (k - 1) as nat) + entry_bytes(es[k - 1])
    }
}

/// Every tensor of the header has a known dtype and a shape whose running
/// products fit, and their packed payloads fit in 64 bits.
pub open spec fn packable(es: Seq<(String, SafetensorsTensorInfo)>) -> bool {
    &&& forall|i: int| 0 <= i < es.len() ==> #[trigger] SafetensorsDtype::parse(es[i].1.dtype@) is Some
    &&& forall|i: int| 0 <= i < es.len() ==> product_fits(#[trigger] es[i].1.shape@)
    &&& forall|k: int| 0 <= k <= es.len() ==> #[trigger] packed_prefix(es, k as nat) <= u64::MAX
}

/// Where each tensor's payload starts when the tensors of a header are
/// packed one after another, in header order, from offset 0.
pub fn packed_offsets(header: &SafetensorsHeader) -> (r: Vec<u64>)
    requires
        packable(header.tensors@),
    ensures
        r@.len() == header.tensors@.len(),
        forall|k: int| 0 <= k < r@.len() ==> #[trigger] r@[k] == packed_prefix(header.tensors@, k as nat),
{
    let es = &header.tensors;
    let mut out: Vec<u64> = Vec::new();
    let mut offset: u64 = 0;
    let mut i: usize = 0;
    while i < es.len()
        invariant
            packable(es@),
            i <= es@.len(),
            out@.len() == i,
            offset == packed_prefix(es@, i as nat),
            forall|k: int| 0 <= k < i ==> #[trigger] out@[k] == packed_prefix(es@, k as nat),
        decreases es@.len() - i,
    {
        out.push(offset);
        let info = &es[i].1;
        assert(product_fits(es@[i as int].1.shape@));
        let count = dims_product(&info.shape);
        let dtype = match SafetensorsDtype::from_str(info.dtype.as_str()) {
            Some(d) => d,
            None => {
                assert(SafetensorsDtype::parse(es@[i as int].1.dtype@) is Some);
                return out;
            },
        };
        let width = dtype.size_bytes() as u64;
        proof {
            lemma_product_nonneg(es@[i as int].1.shape@);
            assert(packed_prefix(es@, (i + 1) as nat) <= u64::MAX);
            assert(packed_prefix(es@, (i + 1) as nat) == offset + count * width);
            vstd::arithmetic::mul::lemma_mul_nonnegative(count as int, width as int);
        }
        offset = offset + count * width;
        i = i + 1;
    }
    out
}

/// The container dtype of a safetensors dtype, where there is one.
pub open spec fn brain_dtype(d: SafetensorsDtype) -> Option<DataType> {
    match d {
        SafetensorsDtype::F32 => Some(DataType::F32),
        SafetensorsDtype::F16 => Some(DataType::F16),
        SafetensorsDtype::BF16 => Some(DataType::BF16),
        SafetensorsDtype::I32 => Some(DataType::I32),
        SafetensorsDtype::I64 => Some(DataType::I64),
        SafetensorsDtype::I8 => Some(DataType::I8),
        SafetensorsDtype::U8 => Some(DataType::U8),
        SafetensorsDtype::Bool => Some(DataType::Bool),
        SafetensorsDtype::F8E4M3 => Some(DataType::F8E4M3),
        SafetensorsDtype::F8E5M2 => Some(DataType::F8E5M2),
        _ => None,
    }
}

/// The container description of a safetensors tensor stored at `offset`:
/// same name and shape, the matching dtype, the payload size from the shape,
/// and no quantization scheme.
pub fn tensor_info_to_brain(
    name: &str,
    st_info: &SafetensorsTensorInfo,
    offset: u64,
    quantization: Option<QuantizationParams>,
) -> (r: Result<TensorInfo, SafetensorsError>)
    requires
        product_fits(st_info.shape@),
        SafetensorsDtype::parse(st_info.dtype@) matches Some(d) ==> shape_product(st_info.shape@)
            * d.spec_size() <= u64::MAX,
    ensures
        match SafetensorsDtype::parse(st_info.dtype@) {
            None => r == Err::<TensorInfo, SafetensorsError>(SafetensorsError::UnknownDtype),
            Some(d) => match brain_dtype(d) {
                None => r == Err::<TensorInfo, SafetensorsError>(SafetensorsError::UnsupportedDtype),
                Some(bd) => r matches Ok(t) && t.name@ == name@ && t.shape@ == st_info.shape@
                    && t.dtype == bd && t.offset == offset && t.size_bytes == shape_product(
                    st_info.shape@,
                ) * d.spec_size() && t.quantization == quantization && t.quantization_type
                    == QuantizationScheme::Unquantized,
            },
        },
{
    let dtype = match SafetensorsDtype::from_str(st_info.dtype.as_str()) {
        Some(d) => d,
        None => {
            return Err(SafetensorsError::UnknownDtype);
        },
    };
    let bd = match dtype {
        SafetensorsDtype::F32 => DataType::F32,
        SafetensorsDtype::F16 => DataType::F16,
        SafetensorsDtype::BF16 => DataType::BF16,
        SafetensorsDtype::I32 => DataType::I32,
        SafetensorsDtype::I64 => DataType::I64,
        SafetensorsDtype::I8 => DataType::I8,
        SafetensorsDtype::U8 => DataType::U8,
        SafetensorsDtype::Bool => DataType::Bool,
        SafetensorsDtype::F8E4M3 => DataType::F8E4M3,
        SafetensorsDtype::F8E5M2 => DataType::F8E5M2,
        _ => {
            return Err(SafetensorsError::UnsupportedDtype);
        },
    };
    let count = dims_product(&st_info.shape);
    let size_bytes = count * dtype.size_bytes() as u64;
    let shape = st_info.shape.clone();
    assert(shape@ =~= st_info.shape@);
    Ok(
        TensorInfo {
            name: String::from_str(name),
            shape,
            dtype: bd,
            offset,
            size_bytes,
            quantization,
            quantization_type: QuantizationScheme::Unquantized,
        },
    )
}

/// The entry's name contains `pat`.
pub open spec fn name_has(e: (String, SafetensorsTensorInfo), pat: Seq<char>) -> bool {
    has_infix(utf8(e.0@), utf8(pat))
}

/// Some entry's name contains `pat`.
pub open spec fn any_name_has(es: Seq<(String, SafetensorsTensorInfo)>, pat: Seq<char>) -> bool {
    exists|i: int| 0 <= i < es.len() && #[trigger] name_has(es[i], pat)
}

/// Whether some entry's name contains `pat`.
fn some_name_has(es: &Vec<(String, SafetensorsTensorInfo)>, pat: &str) -> (r: bool)
    ensures
        r == any_name_has(es@, pat@),
{
    let mut i: usize = 0;
    while i < es.len()
        invariant
            i <= es@.len(),
            forall|k: int| 0 <= k < i ==> !#[trigger] name_has(es@[k], pat@),
        decreases es@.len() - i,
    {
        if str_contains(es[i].0.as_str(), pat) {
            assert(name_has(es@[i as int], pat@));
            return true;
        }
        i = i + 1;
    }
    false
}

/// Architecture guessed from tensor names: `llama` with attention, MLP and
/// embedding tensors, `transformer` with attention only, else `unknown`.
pub open spec fn architecture_of(es: Seq<(String, SafetensorsTensorInfo)>) -> Seq<char> {
    let attn = any_name_has(es, "attn"@) || any_name_has(es, "attention"@);
    let mlp = any_name_has(es, "mlp"@) || any_name_has(es, "feed_forward"@);
    let embed = any_name_has(es, "embed"@);
    if attn && mlp && embed {
        "llama"@
    } else if attn {
        "transformer"@
    } else {
        "unknown"@
    }
}

fn infer_architecture(es: &Vec<(String, SafetensorsTensorInfo)>) -> (r: String)
    ensures
        r@ == architecture_of(es@),
{
    let attn = some_name_has(es, "attn") || some_name_has(es, "attention");
    let mlp = some_name_has(es, "mlp") || some_name_has(es, "feed_forward");
    let embed = some_name_has(es, "embed");
    if attn && mlp && embed {
        String::from_str("llama")
    } else if attn {
        String::from_str("transformer")
    } else {
        String::from_str("unknown")
    }
}

/// Entry that gives the vocabulary size: a 2-D embedding (`embed`, `wte`)
/// or `lm_head` tensor.
pub open spec fn vocab_entry(e: (String, SafetensorsTensorInfo)) -> bool {
    ||| (name_has(e, "embed"@) || name_has(e, "wte"@)) && e.1.shape@.len() == 2
    ||| name_has(e, "lm_head"@) && e.1.shape@.len() == 2
}

/// Vocabulary size from the first vocabulary entry at or after `i`, else 32000.
pub open spec fn vocab_from(es: Seq<(String, SafetensorsTensorInfo)>, i: int) -> u32
    decreases es.len() - i,
{
    if i < 0 || i >= es.len() {
        32000
    } else if vocab_entry(es[i]) {
        es[i].1.shape@[0] as u32
    } else {
        vocab_from(es, i + 1)
    }
}

fn infer_vocab_size(es: &Vec<(String, SafetensorsTensorInfo)>) -> (r: u32)
    ensures
        r == vocab_from(es@, 0),
{
    let mut i: usize = 0;
    while i < es.len()
        invariant
            i <= es@.len(),
            vocab_from(es@, 0) == vocab_from(es@, i as int),
        decreases es@.len() - i,
    {
        let n = es[i].0.as_str();
        let two = es[i].1.shape.len() == 2;
        if (str_contains(n, "embed") || str_contains(n, "wte")) && two {
            return es[i].1.shape[0] as u32;
        }
        if str_contains(n, "lm_head") && two {
            return es[i].1.shape[0] as u32;
        }
        i = i + 1;
    }
    32000
}

/// Entry that gives the context length: a positional embedding tensor.
pub open spec fn context_entry(e: (String, SafetensorsTensorInfo)) -> bool {
    (name_has(e, "pos_embed"@) || name_has(e, "position_emb"@)) && e.1.shape@.len() >= 1
}

/// Context length from the first positional embedding at or after `i`, else 4096.
pub open spec fn context_from(es: Seq<(String, SafetensorsTensorInfo)>, i: int) -> u32
    decreases es.len() - i,
{
    if i < 0 || i >= es.len() {
        4096
    } else if context_entry(es[i]) {
        es[i].1.shape@[0] as u32
    } else {
        context_from(es, i + 1)
    }
}

fn infer_context_length(es: &Vec<(String, SafetensorsTensorInfo)>) -> (r: u32)
    ensures
        r == context_from(es@, 0),
{
    let mut i: usize = 0;
    while i < es.len()
        invariant
            i <= es@.len(),
            context_from(es@, 0) == context_from(es@, i as int),
        decreases es@.len() - i,
    {
        let n = es[i].0.as_str();
        if (str_contains(n, "pos_embed") || str_contains(n, "position_emb")) && es[i].1.shape.len()
            >= 1 {
            return es[i].1.shape[0] as u32;
        }
        i = i + 1;
    }
    4096
}

/// Entry that gives the hidden size: a 2-D query, key or value projection.
pub open spec fn hidden_entry(e: (String, SafetensorsTensorInfo)) -> bool {
    (name_has(e, "q_proj"@) || name_has(e, "k_proj"@) || name_has(e, "v_proj"@))
        && e.1.shape@.len() == 2
}

/// Hidden size from the first projection at or after `i`, else 4096.
pub open spec fn hidden_from(es: Seq<(String, SafetensorsTensorInfo)>, i: int) -> u32
    decreases es.len() - i,
{
    if i < 0 || i >= es.len() {
        4096
    } else if hidden_entry(es[i]) {
        es[i].1.shape@[0] as u32
    } else {
        hidden_from(es, i + 1)
    }
}

/// Hidden size guessed from the attention projections.
pub fn infer_hidden_size(es: &Vec<(String, SafetensorsTensorInfo)>) -> (r: u32)
    ensures
        r == hidden_from(es@, 0),
{
    let mut i: usize = 0;
    while i < es.len()
        invariant
            i <= es@.len(),
            hidden_from(es@, 0) == hidden_from(es@, i as int),
        decreases es@.len() - i,
    {
        let n = es[i].0.as_str();
        if (str_contains(n, "q_proj") || str_contains(n, "k_proj") || str_contains(n, "v_proj"))
            && es[i].1.shape.len() == 2 {
            return es[i].1.shape[0] as u32;
        }
        i = i + 1;
    }
    4096
}

/// Attention head count guessed from the hidden size: head dimension 128
/// when it divides the hidden size, else 64.
pub fn infer_num_heads(es: &Vec<(String, SafetensorsTensorInfo)>) -> (r: u32)
    ensures
        r == (if hidden_from(es@, 0) % 128 == 0 {
            hidden_from(es@, 0) / 128
        } else {
            hidden_from(es@, 0) / 64
        }),
{
    let hidden = infer_hidden_size(es);
    if hidden % 128 == 0 {
        hidden / 128
    } else {
        hidden / 64
    }
}

/// Total parameter count of the first `k` entries.
pub open spec fn params_prefix(es: Seq<(String, SafetensorsTensorInfo)>, k: nat) -> int
    decreases k,
{
    if k == 0 {
        0
    } else {
        params_prefix(es, (k - 1) as nat) + shape_product(es[k - 1].1.shape@)
    }
}

/// The value stored under `key` in a string table, first match.
pub open spec fn table_get(m: Seq<(String, String)>, key: Seq<char>, i: int) -> Option<Seq<char>>
    decreases m.len() - i,
{
    if i < 0 || i >= m.len() {
        None
    } else if m[i].0@ == key {
        Some(m[i].1@)
    } else {
        table_get(m, key, i + 1)
    }
}

/// Model name from the header metadata, or `safetensors-model`.
pub open spec fn model_name_of(h: SafetensorsHeader) -> Seq<char> {
    match h.metadata {
        Some(m) => match table_get(m@, "model_name"@, 0) {
            Some(v) => v,
            None => "safetensors-model"@,
        },
        None => "safetensors-model"@,
    }
}

/// Model description of a safetensors header: name from the metadata,
/// architecture and sizes guessed from tensor names and shapes, and the
/// total parameter count.
pub fn build_model_info(header: &SafetensorsHeader) -> (r: ModelInfo)
    requires
        forall|i: int|
            0 <= i < header.tensors@.len() ==> product_fits(#[trigger] header.tensors@[i].1.shape@),
        params_prefix(header.tensors@, header.tensors@.len()) <= u64::MAX,
    ensures
        r.name@ == model_name_of(*header),
        r.architecture@ == architecture_of(header.tensors@),
        r.parameter_count == params_prefix(header.tensors@, header.tensors@.len()),
        r.quantization@ == "none"@,
        r.context_length == context_from(header.tensors@, 0),
        r.vocab_size == vocab_from(header.tensors@, 0),
{
    let es = &header.tensors;
    let mut total: u64 = 0;
    let mut i: usize = 0;
    while i < es.len()
        invariant
            i <= es@.len(),
            forall|k: int| 0 <= k < es@.len() ==> product_fits(#[trigger] es@[k].1.shape@),
            params_prefix(es@, es@.len()) <= u64::MAX,
            total == params_prefix(es@, i as nat),
        decreases es@.len() - i,
    {
        proof {
            lemma_params_mono(es@, (i + 1) as nat, es@.len());
        }
        let p = dims_product(&es[i].1.shape);
        total = total + p;
        i = i + 1;
    }
    let name = match &header.metadata {
        Some(m) => match table_lookup(m, "model_name") {
            Some(v) => v,
            None => String::from_str("safetensors-model"),
        },
        None => String::from_str("safetensors-model"),
    };
    ModelInfo {
        name,
        architecture: infer_architecture(es),
        parameter_count: total,
        quantization: String::from_str("none"),
        context_length: infer_context_length(es),
        vocab_size: infer_vocab_size(es),
    }
}

proof fn lemma_params_mono(es: Seq<(String, SafetensorsTensorInfo)>, i: nat, j: nat)
    requires
        i <= j,
    ensures
        params_prefix(es, i) <= params_prefix(es, j),
    decreases j - i,
{
    if i < j {
        lemma_params_mono(es, i, (j - 1) as nat);
        lemma_product_nonneg(es[j - 1].1.shape@);
    }
}

fn table_lookup(m: &Vec<(String, String)>, key: &str) -> (r: Option<String>)
    ensures
        match table_get(m@, key@, 0) {
            Some(v) => r matches Some(s) && s@ == v,
            None => r is None,
        },
{
    let mut i: usize = 0;
    while i < m.len()
        invariant
            i <= m@.len(),
            table_get(m@, key@, 0) == table_get(m@, key@, i as int),
        decreases m@.len() - i,
    {
        if str_eq(m[i].0.as_str(), key) {
            return Some(m[i].1.clone());
        }
        i = i + 1;
    }
    None
}

/// The entry's name has one of the vocabulary patterns (`embed`, `wte`,
/// `lm_head`) and its shape has two dimensions.
pub open spec fn vocab_shaped(e: (String, SafetensorsTensorInfo)) -> bool {
    &&& has_infix(utf8(e.0@), utf8("embed"@)) || has_infix(utf8(e.0@), utf8("wte"@)) || has_infix(
        utf8(e.0@),
        utf8("lm_head"@),
    )
    &&& e.1.shape@.len() == 2
}

/// The vocabulary size is the number of rows (the first dimension) of the
/// first two-dimensional embedding or output-head tensor, whichever kind
/// comes first; without one it is 32000.
pub proof fn lemma_vocab_size_rows(es: Seq<(String, SafetensorsTensorInfo)>, j: int)
    requires
        0 <= j < es.len(),
        vocab_shaped(es[j]),
        forall|k: int| 0 <= k < j ==> !#[trigger] vocab_shaped(es[k]),
    ensures
        vocab_from(es, 0) == es[j].1.shape@[0] as u32,
{
    lemma_vocab_from_rows(es, 0, j);
}

proof fn lemma_vocab_from_rows(es: Seq<(String, SafetensorsTensorInfo)>, i: int, j: int)
    requires
        0 <= i <= j < es.len(),
        vocab_shaped(es[j]),
        forall|k: int| 0 <= k < j ==> !#[trigger] vocab_shaped(es[k]),
    ensures
        vocab_from(es, i) == es[j].1.shape@[0] as u32,
    decreases j - i,
{
    if i < j {
        assert(!vocab_shaped(es[i]));
        lemma_vocab_from_rows(es, i + 1, j);
    }
}

/// Without a two-dimensional embedding or output-head tensor the
/// vocabulary size is 32000.
pub proof fn lemma_vocab_size_default(es: Seq<(String, SafetensorsTensorInfo)>)
    requires
        forall|k: int| 0 <= k < es.len() ==> !#[trigger] vocab_shaped(es[k]),
    ensures
        vocab_from(es, 0) == 32000,
{
    lemma_vocab_default_from(es, 0);
}

proof fn lemma_vocab_default_from(es: Seq<(String, SafetensorsTensorInfo)>, i: int)
    requires
        0 <= i,
        forall|k: int| 0 <= k < es.len() ==> !#[trigger] vocab_shaped(es[k]),
    ensures
        vocab_from(es, i) == 32000,
    decreases es.len() - i,
{
    if i < es.len() {
        assert(!vocab_shaped(es[i]));
        lemma_vocab_default_from(es, i + 1);
    }
}

} // verus!
