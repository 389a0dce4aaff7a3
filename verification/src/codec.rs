//! Byte-level value handling: lexicographic comparison of raw byte buffers,
//! little-endian encodings of the fixed-width scan value types, and the
//! total-order key under which stored 64-bit float bit patterns are compared
//! by the range filter.

use vstd::prelude::*;

verus! {

/// Three-way outcome of comparing two raw byte buffers.
#[derive(Clone, Copy, PartialEq, Eq, Structural, Debug)]
pub enum ByteCmp {
    Less,
    Equal,
    Greater,
}

/// Lexicographic comparison of raw byte sequences: the first differing byte
/// decides; a proper prefix orders before the longer sequence.
pub open spec fn lex_cmp_spec(a: Seq<u8>, b: Seq<u8>) -> ByteCmp
    decreases a.len(),
{
    if a.len() == 0 && b.len() == 0 {
        ByteCmp::Equal
    } else if a.len() == 0 {
        ByteCmp::Less
    } else if b.len() == 0 {
        ByteCmp::Greater
    } else if a[0] < b[0] {
        ByteCmp::Less
    } else if a[0] > b[0] {
        ByteCmp::Greater
    } else {
        lex_cmp_spec(a.skip(1), b.skip(1))
    }
}

/// Compares two byte buffers in raw lexicographic order.
pub fn lex_cmp(a: &Vec<u8>, b: &Vec<u8>) -> (r: ByteCmp)
    ensures
        r == lex_cmp_spec(a@, b@),
{
    let mut i: usize = 0;
    proof {
        assert(a@.skip(0) =~= a@);
        assert(b@.skip(0) =~= b@);
    }
    loop
        invariant
            i <= a@.len(),
            i <= b@.len(),
            lex_cmp_spec(a@, b@) == lex_cmp_spec(a@.skip(i as int), b@.skip(i as int)),
        decreases a@.len() - i,
    {
        if i == a.len() && i == b.len() {
            return ByteCmp::Equal;
        }
        if i == a.len() {
            return ByteCmp::Less;
        }
        if i == b.len() {
            return ByteCmp::Greater;
        }
        if a[i] < b[i] {
            return ByteCmp::Less;
        }
        if a[i] > b[i] {
            return ByteCmp::Greater;
        }
        proof {
            assert(a@.skip(i as int).skip(1) =~= a@.skip(i + 1));
            assert(b@.skip(i as int).skip(1) =~= b@.skip(i + 1));
        }
        i = i + 1;
    }
}

/// The little-endian bytes of a 32-bit value.
pub open spec fn u32_le_bytes(v: u32) -> Seq<u8> {
    seq![
        (v % 0x100) as u8,
        ((v / 0x100) % 0x100) as u8,
        ((v / 0x1_0000) % 0x100) as u8,
        ((v / 0x100_0000) % 0x100) as u8,
    ]
}

/// The little-endian bytes of a 64-bit value.
pub open spec fn u64_le_bytes(v: u64) -> Seq<u8> {
    seq![
        (v % 0x100) as u8,
        ((v / 0x100) % 0x100) as u8,
        ((v / 0x1_0000) % 0x100) as u8,
        ((v / 0x100_0000) % 0x100) as u8,
        ((v / 0x1_0000_0000) % 0x100) as u8,
        ((v / 0x100_0000_0000) % 0x100) as u8,
        ((v / 0x1_0000_0000_0000) % 0x100) as u8,
        ((v / 0x100_0000_0000_0000) % 0x100) as u8,
    ]
}

/// The 64-bit value read little-endian from 8 bytes.
pub open spec fn u64_from_le_bytes_spec(s: Seq<u8>) -> int
    recommends
        s.len() == 8,
{
    s[0] + s[1] * 0x100 + s[2] * 0x1_0000 + s[3] * 0x100_0000 + s[4] * 0x1_0000_0000 + s[5]
        * 0x100_0000_0000 + s[6] * 0x1_0000_0000_0000 + s[7] * 0x100_0000_0000_0000
}

/// The two's-complement value of a 32-bit signed integer.
pub open spec fn twos_complement32(v: i32) -> int {
    if v >= 0 {
        v as int
    } else {
        v as int + 0x1_0000_0000
    }
}

/// The two's-complement value of a 64-bit signed integer.
pub open spec fn twos_complement64(v: i64) -> int {
    if v >= 0 {
        v as int
    } else {
        v as int + 0x1_0000_0000_0000_0000
    }
}

pub fn u32_to_le_bytes(v: u32) -> (r: Vec<u8>)
    ensures
        r@ == u32_le_bytes(v),
{
    let mut r: Vec<u8> = Vec::new();
    r.push((v % 0x100) as u8);
    r.push(((v / 0x100) % 0x100) as u8);
    r.push(((v / 0x1_0000) % 0x100) as u8);
    r.push(((v / 0x100_0000) % 0x100) as u8);
    proof {
        assert(r@ =~= u32_le_bytes(v));
    }
    r
}

pub fn u64_to_le_bytes(v: u64) -> (r: Vec<u8>)
    ensures
        r@ == u64_le_bytes(v),
{
    let mut r: Vec<u8> = Vec::new();
    r.push((v % 0x100) as u8);
    r.push(((v / 0x100) % 0x100) as u8);
    r.push(((v / 0x1_0000) % 0x100) as u8);
    r.push(((v / 0x100_0000) % 0x100) as u8);
    r.push(((v / 0x1_0000_0000) % 0x100) as u8);
    r.push(((v / 0x100_0000_0000) % 0x100) as u8);
    r.push(((v / 0x1_0000_0000_0000) % 0x100) as u8);
    r.push(((v / 0x100_0000_0000_0000) % 0x100) as u8);
    proof {
        assert(r@ =~= u64_le_bytes(v));
    }
    r
}

pub fn i32_to_le_bytes(v: i32) -> (r: Vec<u8>)
    ensures
        r@ == u32_le_bytes(twos_complement32(v) as u32),
{
    let w: i64 = v as i64;
    let u: u32 = if w < 0 {
        (w + 0x1_0000_0000) as u32
    } else {
        w as u32
    };
    assert(u == twos_complement32(v));
    u32_to_le_bytes(u)
}

pub fn i64_to_le_bytes(v: i64) -> (r: Vec<u8>)
    ensures
        r@ == u64_le_bytes(twos_complement64(v) as u64),
{
    let u: u64 = if v < 0 {
        let m: u64 = ((-(v + 1)) as u64);
        u64::MAX - m
    } else {
        v as u64
    };
    assert(u == twos_complement64(v));
    u64_to_le_bytes(u)
}

/// Reads a 64-bit value little-endian from an 8-byte buffer.
pub fn u64_from_le_bytes(b: &Vec<u8>) -> (r: u64)
    requires
        b@.len() == 8,
    ensures
        r == u64_from_le_bytes_spec(b@),
{
    b[0] as u64 + b[1] as u64 * 0x100 + b[2] as u64 * 0x1_0000 + b[3] as u64 * 0x100_0000 + b[4]
        as u64 * 0x1_0000_0000 + b[5] as u64 * 0x100_0000_0000 + b[6] as u64 * 0x1_0000_0000_0000
        + b[7] as u64 * 0x100_0000_0000_0000
}

/// Whether two byte buffers hold exactly the same bytes.
pub fn vec_eq(a: &Vec<u8>, b: &Vec<u8>) -> (r: bool)
    ensures
        r == (a@ == b@),
{
    if a.len() != b.len() {
        return false;
    }
    let mut i: usize = 0;
    while i < a.len()
        invariant
            i <= a@.len(),
            a@.len() == b@.len(),
            forall|k: int| 0 <= k < i ==> a@[k] == b@[k],
        decreases a@.len() - i,
    {
        if a[i] != b[i] {
            return false;
        }
        i = i + 1;
    }
    proof {
        assert(a@ =~= b@);
    }
    true
}

/// Appends every byte of `src` to `dst`.
pub fn push_all(dst: &mut Vec<u8>, src: &Vec<u8>)
    ensures
        final(dst)@ == old(dst)@ + src@,
{
    let mut k: usize = 0;
    while k < src.len()
        invariant
            k <= src@.len(),
            dst@ == old(dst)@ + src@.take(k as int),
        decreases src@.len() - k,
    {
        dst.push(src[k]);
        proof {
            assert(old(dst)@ + src@.take(k + 1) =~= (old(dst)@ + src@.take(k as int)).push(
                src@[k as int],
            ));
        }
        k = k + 1;
    }
    proof {
        assert(src@.take(src@.len() as int) =~= src@);
    }
}

/// Copies the byte range `[from, to)` of `src` into a fresh buffer.
pub fn copy_range(src: &Vec<u8>, from: usize, to: usize) -> (r: Vec<u8>)
    requires
        from <= to <= src@.len(),
    ensures
        r@ == src@.subrange(from as int, to as int),
{
    let mut r: Vec<u8> = Vec::new();
    let mut k: usize = from;
    while k < to
        invariant
            from <= k <= to <= src@.len(),
            r@ == src@.subrange(from as int, k as int),
        decreases to - k,
    {
        r.push(src[k]);
        proof {
            assert(src@.subrange(from as int, k + 1) =~= src@.subrange(from as int, k as int).push(
                src@[k as int],
            ));
        }
        k = k + 1;
    }
    r
}

/// Total-order key of a 64-bit float bit pattern: for two patterns that are
/// not NaN, unsigned comparison of the keys agrees with the numeric order of
/// the floats they encode, and the two zero encodings share one key.
pub open spec fn f64_order_key_spec(bits: u64) -> u64 {
    if bits == 0x8000_0000_0000_0000 {
        0x8000_0000_0000_0000
    } else if bits >= 0x8000_0000_0000_0000 {
        !bits
    } else {
        (bits + 0x8000_0000_0000_0000) as u64
    }
}

pub fn f64_order_key(bits: u64) -> (r: u64)
    ensures
        r == f64_order_key_spec(bits),
{
    if bits == 0x8000_0000_0000_0000 {
        0x8000_0000_0000_0000
    } else if bits >= 0x8000_0000_0000_0000 {
        !bits
    } else {
        bits + 0x8000_0000_0000_0000
    }
}

} // verus!
