//! Descriptions of the compute devices the engine can run on.

use vstd::prelude::*;

verus! {

/// SIMD instruction set of a CPU, by vector width.
#[derive(Debug, Clone, Copy, PartialEq, Eq, Structural)]
pub enum SimdLevel {
    Scalar,
    /// ARM64 NEON, 128-bit.
    Neon,
    /// x86 AVX2, 256-bit.
    Avx2,
    /// x86 AVX-512, 512-bit.
    Avx512,
}

impl SimdLevel {
    pub open spec fn spec_name(self) -> Seq<char> {
        match self {
            SimdLevel::Scalar => "scalar"@,
            SimdLevel::Neon => "neon"@,
            SimdLevel::Avx2 => "avx2"@,
            SimdLevel::Avx512 => "avx512"@,
        }
    }

    pub fn name(&self) -> (r: &'static str)
        ensures
            r@ == self.spec_name(),
    {
        match self {
            SimdLevel::Scalar => "scalar",
            SimdLevel::Neon => "neon",
            SimdLevel::Avx2 => "avx2",
            SimdLevel::Avx512 => "avx512",
        }
    }

    /// Half-precision lanes per vector register.
    pub fn vector_width(&self) -> (r: usize)
        ensures
            r == (match *self {
                SimdLevel::Scalar => 1usize,
                SimdLevel::Neon => 8,
                SimdLevel::Avx2 => 16,
                SimdLevel::Avx512 => 32,
            }),
    {
        match self {
            SimdLevel::Scalar => 1,
            SimdLevel::Neon => 8,
            SimdLevel::Avx2 => 16,
            SimdLevel::Avx512 => 32,
        }
    }
}

/// Properties of an AMD GPU under ROCm.
#[derive(Debug)]
pub struct RocmDevice {
    pub device_id: i32,
    pub name: String,
    pub compute_capability: (i32, i32),
    pub total_memory: u64,
    pub multiprocessor_count: i32,
    /// 64 on AMD hardware.
    pub warp_size: i32,
}

} // verus!
