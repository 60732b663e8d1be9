//! The instruction sets the encoders know of, and the choice among them.

use vstd::prelude::*;

verus! {

/// The instruction sets an encoder variant can be written for.
#[derive(Debug, Clone, Copy, PartialEq, Eq, Structural)]
pub enum SimdLevel {
    Scalar,
    Sse2,
    Sse41,
    Avx2,
    Avx512,
    Neon,
}

/// The processor families that are told apart.
#[derive(Debug, Clone, Copy, PartialEq, Eq, Structural)]
pub enum CpuArch {
    X86_64,
    Aarch64,
    Other,
}

/// What a processor reports about itself: its family and the instruction
/// sets it has.
#[derive(Debug, Clone, Copy, PartialEq, Eq)]
pub struct CpuFeatures {
    pub arch: CpuArch,
    pub avx512f: bool,
    pub avx512bw: bool,
    pub avx2: bool,
    pub sse41: bool,
    pub sse2: bool,
    pub neon: bool,
}

/// The best level a processor supports. On x86-64: AVX-512 (with both its
/// foundation and byte-and-word parts), else AVX2, else SSE4.1, else SSE2.
/// On AArch64: NEON. Otherwise, and on any other family, scalar code.
pub open spec fn simd_level_spec(features: CpuFeatures) -> SimdLevel {
    match features.arch {
        CpuArch::X86_64 => if features.avx512f && features.avx512bw {
            SimdLevel::Avx512
        } else if features.avx2 {
            SimdLevel::Avx2
        } else if features.sse41 {
            SimdLevel::Sse41
        } else if features.sse2 {
            SimdLevel::Sse2
        } else {
            SimdLevel::Scalar
        },
        CpuArch::Aarch64 => if features.neon {
            SimdLevel::Neon
        } else {
            SimdLevel::Scalar
        },
        CpuArch::Other => SimdLevel::Scalar,
    }
}

/// Picks the best level that the reported features support.
pub fn detect_simd_level(features: &CpuFeatures) -> (level: SimdLevel)
    ensures
        level == simd_level_spec(*features),
{
    match features.arch {
        CpuArch::X86_64 => {
            if features.avx512f && features.avx512bw {
                SimdLevel::Avx512
            } else if features.avx2 {
                SimdLevel::Avx2
            } else if features.sse41 {
                SimdLevel::Sse41
            } else if features.sse2 {
                SimdLevel::Sse2
            } else {
                SimdLevel::Scalar
            }
        },
        CpuArch::Aarch64 => {
            if features.neon {
                SimdLevel::Neon
            } else {
                SimdLevel::Scalar
            }
        },
        CpuArch::Other => SimdLevel::Scalar,
    }
}

/// The name of a level as it is shown to people.
pub open spec fn simd_level_name_spec(level: SimdLevel) -> Seq<char> {
    match level {
        SimdLevel::Scalar => "Scalar"@,
        SimdLevel::Sse2 => "SSE2"@,
        SimdLevel::Sse41 => "SSE4.1"@,
        SimdLevel::Avx2 => "AVX2"@,
        SimdLevel::Avx512 => "AVX-512"@,
        SimdLevel::Neon => "NEON"@,
    }
}

/// The name of a level as it is shown to people.
pub fn simd_level_name(level: SimdLevel) -> (name: &'static str)
    ensures
        name@ == simd_level_name_spec(level),
{
    match level {
        SimdLevel::Scalar => "Scalar",
        SimdLevel::Sse2 => "SSE2",
        SimdLevel::Sse41 => "SSE4.1",
        SimdLevel::Avx2 => "AVX2",
        SimdLevel::Avx512 => "AVX-512",
        SimdLevel::Neon => "NEON",
    }
}

} // verus!
