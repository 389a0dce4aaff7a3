//! The positioned read/write channel into the target's address space.
//!
//! `MemoryChannel` is the in-memory byte store the engine and the tests drive:
//! one contiguous backed range of absolute addresses.  A session against a
//! live process uses the same contracts with the backing bytes behind a file
//! handle, outside the library.

use vstd::prelude::*;

verus! {

/// Why a positioned read or write could not be completed in full.
#[derive(Clone, Copy, PartialEq, Eq, Structural, Debug)]
pub enum MemError {
    /// Some byte of the requested range lies outside the backed range.
    OutOfRange,
}

/// A positioned byte channel over one contiguous range of a target address
/// space: `data[i]` backs absolute address `base + i`.
pub struct MemoryChannel {
    pub base: u64,
    pub data: Vec<u8>,
}

/// `s` with `bytes` overwriting the range starting at offset `off`.
pub open spec fn store_bytes(s: Seq<u8>, off: int, bytes: Seq<u8>) -> Seq<u8> {
    s.take(off) + bytes + s.skip(off + bytes.len())
}

impl MemoryChannel {
    /// Every absolute address of the backed range fits in a `u64`.
    pub open spec fn wf(self) -> bool {
        self.base + self.data@.len() <= u64::MAX + 1
    }

    /// Whether `[address, address + size)` lies inside the backed range.
    pub open spec fn in_range(self, address: u64, size: nat) -> bool {
        self.base <= address && address + size <= self.base + self.data@.len()
    }

    /// What a positioned read of `size` bytes at `address` observes:
    /// the exact bytes when the whole range is backed, nothing otherwise
    /// (short reads are errors, not partial successes).
    pub open spec fn read_spec(self, address: u64, size: nat) -> Option<Seq<u8>> {
        if self.in_range(address, size) {
            Some(self.data@.subrange(address - self.base, address - self.base + size))
        } else {
            None
        }
    }

    pub fn new(base: u64, data: Vec<u8>) -> (r: MemoryChannel)
        requires
            base + data@.len() <= u64::MAX + 1,
        ensures
            r.wf(),
            r.base == base,
            r.data@ == data@,
    {
        MemoryChannel { base, data }
    }

    /// Positioned read: returns exactly `size` bytes at `address`, or
    /// `OutOfRange` when the range is not fully backed.
    pub fn read_at(&self, address: u64, size: usize) -> (r: Result<Vec<u8>, MemError>)
        requires
            self.wf(),
        ensures
            match r {
                Ok(v) => self.read_spec(address, size as nat) == Some(v@),
                Err(e) => e == MemError::OutOfRange && self.read_spec(address, size as nat) is None,
            },
    {
        if address < self.base {
            return Err(MemError::OutOfRange);
        }
        let off64: u64 = address - self.base;
        if off64 > self.data.len() as u64 {
            return Err(MemError::OutOfRange);
        }
        let off: usize = off64 as usize;
        assert(off == off64);
        if size > self.data.len() - off {
            return Err(MemError::OutOfRange);
        }
        let mut out: Vec<u8> = Vec::new();
        let mut k: usize = 0;
        while k < size
            invariant
                self.wf(),
                off + size <= self.data@.len(),
                off + size <= usize::MAX,
                k <= size,
                out@ == self.data@.subrange(off as int, off + k),
            decreases size - k,
        {
            out.push(self.data[off + k]);
            assert(out@ == self.data@.subrange(off as int, off + k + 1));
            k = k + 1;
        }
        assert(self.in_range(address, size as nat));
        Ok(out)
    }

    /// Positioned write: overwrites `bytes.len()` bytes at `address` and is
    /// observable by every subsequent read, or fails with `OutOfRange`
    /// leaving the store unchanged.
    pub fn write_at(&mut self, address: u64, bytes: &Vec<u8>) -> (r: Result<(), MemError>)
        requires
            old(self).wf(),
        ensures
            final(self).wf(),
            final(self).base == old(self).base,
            final(self).data@.len() == old(self).data@.len(),
            match r {
                Ok(()) => old(self).in_range(address, bytes@.len())
                    && final(self).data@ == store_bytes(
                        old(self).data@,
                        address - old(self).base,
                        bytes@,
                    ),
                Err(e) => e == MemError::OutOfRange
                    && !old(self).in_range(address, bytes@.len())
                    && final(self).data@ == old(self).data@,
            },
    {
        if address < self.base {
            return Err(MemError::OutOfRange);
        }
        let off64: u64 = address - self.base;
        if off64 > self.data.len() as u64 {
            return Err(MemError::OutOfRange);
        }
        let off: usize = off64 as usize;
        assert(off == off64);
        if bytes.len() > self.data.len() - off {
            return Err(MemError::OutOfRange);
        }
        let n: usize = self.data.len();
        let mut updated: Vec<u8> = Vec::new();
        let mut i: usize = 0;
        while i < n
            invariant
                off + bytes@.len() <= n,
                n == self.data@.len(),
                i <= n,
                updated@.len() == i as int,
                forall|j: int| 0 <= j < i ==> updated@[j] == (
                    if off <= j < off + bytes@.len() {
                        bytes@[j - off]
                    } else {
                        self.data@[j]
                    }
                ),
            decreases n - i,
        {
            if i >= off && i < off + bytes.len() {
                updated.push(bytes[i - off]);
            } else {
                updated.push(self.data[i]);
            }
            i = i + 1;
        }
        proof {
            assert(updated@ =~= store_bytes(self.data@, off as int, bytes@));
        }
        self.data = updated;
        assert(self.in_range(address, bytes@.len()));
        Ok(())
    }
}

/// Law: after a successful positioned write of `bytes` at `address`, a read
/// of `bytes.len()` bytes at `address` observes exactly `bytes` (absent any
/// intervening mutation of the store).
pub proof fn lemma_write_read_round_trip(
    before: MemoryChannel,
    after: MemoryChannel,
    address: u64,
    bytes: Seq<u8>,
)
    requires
        before.wf(),
        before.in_range(address, bytes.len()),
        after.base == before.base,
        after.data@ == store_bytes(before.data@, address - before.base, bytes),
    ensures
        after.read_spec(address, bytes.len()) == Some(bytes),
{
    let off = address - before.base;
    assert(after.data@.len() == before.data@.len());
    assert(after.in_range(address, bytes.len()));
    assert(after.data@.subrange(off, off + bytes.len()) =~= bytes);
}

} // verus!
