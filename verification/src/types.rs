//! The closed set of scan value kinds and the filter kinds of the scan
//! engine.  Float values travel through the library as their raw IEEE-754
//! bit patterns, so that every comparison the engine makes stays on plain
//! integers; the front end converts between floats and bits at its edge.

use vstd::prelude::*;

use crate::codec::{
    i32_to_le_bytes, i64_to_le_bytes, twos_complement32, twos_complement64, u32_le_bytes,
    u32_to_le_bytes, u64_le_bytes, u64_to_le_bytes,
};

verus! {

/// One narrowing pass over the working set.  `Range` carries the raw bit
/// patterns of its two 64-bit float bounds, compared inclusively.
#[derive(Clone, Copy, PartialEq, Eq, Structural, Debug)]
pub enum SearchFilter {
    Exact,
    Changed,
    Unchanged,
    Increased,
    Decreased,
    Range(u64, u64),
}

/// A fixed-width value a search can look for, reduced to its raw
/// little-endian byte representation before matching.
#[derive(Clone, Copy, PartialEq, Eq, Structural, Debug)]
pub enum ScanValue {
    I32(i32),
    I64(i64),
    U32(u32),
    U64(u64),
    F32Bits(u32),
    F64Bits(u64),
}

/// The raw little-endian bytes a scan value is reduced to.
pub open spec fn scan_value_bytes(v: ScanValue) -> Seq<u8> {
    match v {
        ScanValue::I32(x) => u32_le_bytes(twos_complement32(x) as u32),
        ScanValue::I64(x) => u64_le_bytes(twos_complement64(x) as u64),
        ScanValue::U32(x) => u32_le_bytes(x),
        ScanValue::U64(x) => u64_le_bytes(x),
        ScanValue::F32Bits(x) => u32_le_bytes(x),
        ScanValue::F64Bits(x) => u64_le_bytes(x),
    }
}

impl ScanValue {
    /// Reduces the value to the bytes it occupies in target memory.
    pub fn to_le_bytes(&self) -> (r: Vec<u8>)
        ensures
            r@ == scan_value_bytes(*self),
            1 <= r@.len() <= 8,
    {
        match self {
            ScanValue::I32(x) => i32_to_le_bytes(*x),
            ScanValue::I64(x) => i64_to_le_bytes(*x),
            ScanValue::U32(x) => u32_to_le_bytes(*x),
            ScanValue::U64(x) => u64_to_le_bytes(*x),
            ScanValue::F32Bits(x) => u32_to_le_bytes(*x),
            ScanValue::F64Bits(x) => u64_to_le_bytes(*x),
        }
    }
}

} // verus!
