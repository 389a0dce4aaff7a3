//! Sliding-window pattern matching over region bytes, and the whole-scan
//! semantics: every readable region within the size ceiling is read in
//! full through the channel and searched; a region that cannot be read
//! contributes nothing and never aborts the scan.

use vstd::prelude::*;

use crate::channel::MemoryChannel;
use crate::process::ProcessMemory;
use crate::region::{region_views, RegionModel};
use crate::types::{scan_value_bytes, ScanValue};

verus! {

/// Whether `pat` occurs in `data` at offset `i`.
pub open spec fn pattern_at(data: Seq<u8>, pat: Seq<u8>, i: int) -> bool {
    0 <= i && i + pat.len() <= data.len() && data.subrange(i, i + pat.len()) == pat
}

/// The absolute addresses of every occurrence of `pat` in `data` at offset
/// `i` or beyond, ascending, one per matching offset (overlaps included).
pub open spec fn match_addrs_from(base: u64, data: Seq<u8>, pat: Seq<u8>, i: int) -> Seq<u64>
    decreases data.len() + 1 - i,
{
    if i < 0 || i + pat.len() > data.len() {
        Seq::empty()
    } else {
        let rest = match_addrs_from(base, data, pat, i + 1);
        if pattern_at(data, pat, i) {
            seq![(base + i) as u64] + rest
        } else {
            rest
        }
    }
}

/// The absolute addresses of every occurrence of `pat` in `data`, where
/// `data[0]` sits at absolute address `base`.
pub open spec fn match_addrs(base: u64, data: Seq<u8>, pat: Seq<u8>) -> Seq<u64> {
    match_addrs_from(base, data, pat, 0)
}

/// Whether a scan reads a region at all: readable, well formed, and within
/// the per-region size ceiling.
pub open spec fn region_scannable(m: RegionModel, max_bytes: u64) -> bool {
    m.permissions.read && m.start < m.end && m.end - m.start <= max_bytes
}

/// The matches one region contributes to a scan: none unless the region is
/// scannable and its full range can be read through the channel.
pub open spec fn region_matches(
    ch: MemoryChannel,
    m: RegionModel,
    pat: Seq<u8>,
    max_bytes: u64,
) -> Seq<u64> {
    if region_scannable(m, max_bytes) {
        match ch.read_spec(m.start, (m.end - m.start) as nat) {
            Some(data) => match_addrs(m.start, data, pat),
            None => Seq::empty(),
        }
    } else {
        Seq::empty()
    }
}

/// All matches of a scan over the region list: region order first, then
/// ascending offset.
pub open spec fn scan_matches(
    ch: MemoryChannel,
    regions: Seq<RegionModel>,
    pat: Seq<u8>,
    max_bytes: u64,
) -> Seq<u64>
    decreases regions.len(),
{
    if regions.len() == 0 {
        Seq::empty()
    } else {
        scan_matches(ch, regions.drop_last(), pat, max_bytes) + region_matches(
            ch,
            regions.last(),
            pat,
            max_bytes,
        )
    }
}

fn bytes_eq_at(data: &Vec<u8>, off: usize, pat: &Vec<u8>) -> (r: bool)
    requires
        off + pat@.len() <= data@.len(),
    ensures
        r == (data@.subrange(off as int, off + pat@.len()) == pat@),
{
    let dn: usize = data.len();
    let mut k: usize = 0;
    while k < pat.len()
        invariant
            k <= pat@.len(),
            off + pat@.len() <= data@.len(),
            dn == data@.len(),
            forall|j: int| 0 <= j < k ==> data@[off + j] == pat@[j],
        decreases pat@.len() - k,
    {
        if data[off + k] != pat[k] {
            assert(data@.subrange(off as int, off + pat@.len())[k as int] != pat@[k as int]);
            return false;
        }
        k = k + 1;
    }
    proof {
        assert(data@.subrange(off as int, off + pat@.len()) =~= pat@);
    }
    true
}

/// Finds every occurrence of `pattern` in `data`, reported as absolute
/// addresses, ascending; overlapping occurrences all count.
pub fn search_in_region(start: u64, data: &Vec<u8>, pattern: &Vec<u8>) -> (r: Vec<u64>)
    requires
        pattern@.len() >= 1,
        start + data@.len() <= u64::MAX + 1,
    ensures
        r@ == match_addrs(start, data@, pattern@),
{
    let mut r: Vec<u64> = Vec::new();
    if pattern.len() > data.len() {
        return r;
    }
    let last_off: usize = data.len() - pattern.len();
    let mut i: usize = 0;
    while i <= last_off
        invariant
            i <= last_off + 1,
            last_off == data@.len() - pattern@.len(),
            data@.len() <= usize::MAX,
            pattern@.len() >= 1,
            start + data@.len() <= u64::MAX + 1,
            match_addrs(start, data@, pattern@) == r@ + match_addrs_from(
                start,
                data@,
                pattern@,
                i as int,
            ),
        decreases last_off + 1 - i,
    {
        if bytes_eq_at(data, i, pattern) {
            proof {
                assert(pattern_at(data@, pattern@, i as int));
                assert(match_addrs_from(start, data@, pattern@, i as int) == seq![
                    (start + i) as u64,
                ] + match_addrs_from(start, data@, pattern@, i + 1));
                assert(r@.push((start + i) as u64) + match_addrs_from(start, data@, pattern@, i + 1)
                    =~= r@ + match_addrs_from(start, data@, pattern@, i as int));
            }
            r.push(start + i as u64);
        } else {
            proof {
                assert(!pattern_at(data@, pattern@, i as int));
            }
        }
        i = i + 1;
    }
    r
}

/// Runs one pattern scan over every region of the attached process: each
/// readable region within the ceiling is read in full and searched; a
/// region that cannot be read is skipped, never fatal.
pub fn search_pattern(process: &ProcessMemory, pattern: &Vec<u8>) -> (r: Vec<u64>)
    requires
        pattern@.len() >= 1,
        process.wf(),
    ensures
        r@ == scan_matches(
            process.mem,
            region_views(process.regions@),
            pattern@,
            process.max_region_bytes,
        ),
{
    let mut r: Vec<u64> = Vec::new();
    let n: usize = process.regions.len();
    let mut j: usize = 0;
    proof {
        assert(region_views(process.regions@).take(0) =~= Seq::<RegionModel>::empty());
    }
    while j < n
        invariant
            j <= n,
            n == process.regions@.len(),
            pattern@.len() >= 1,
            process.wf(),
            r@ == scan_matches(
                process.mem,
                region_views(process.regions@).take(j as int),
                pattern@,
                process.max_region_bytes,
            ),
        decreases n - j,
    {
        let ghost rv = region_views(process.regions@);
        proof {
            assert(rv.take(j + 1).drop_last() =~= rv.take(j as int));
            assert(rv.take(j + 1).last() == process.regions@[j as int]@);
        }
        let region = &process.regions[j];
        let readable = region.permissions.read;
        let start = region.start;
        let end = region.end;
        if readable && start < end && end - start <= process.max_region_bytes {
            let size: usize = (end - start) as usize;
            assert(size == end - start);
            match process.mem.read_at(start, size) {
                Ok(data) => {
                    let matches = search_in_region(start, &data, pattern);
                    let mut k: usize = 0;
                    while k < matches.len()
                        invariant
                            k <= matches@.len(),
                            r@ == scan_matches(
                                process.mem,
                                region_views(process.regions@).take(j as int),
                                pattern@,
                                process.max_region_bytes,
                            ) + matches@.take(k as int),
                        decreases matches@.len() - k,
                    {
                        r.push(matches[k]);
                        proof {
                            assert(matches@.take(k + 1) =~= matches@.take(k as int).push(
                                matches@[k as int],
                            ));
                        }
                        k = k + 1;
                    }
                    proof {
                        assert(matches@.take(matches@.len() as int) =~= matches@);
                        assert(region_matches(
                            process.mem,
                            rv[j as int],
                            pattern@,
                            process.max_region_bytes,
                        ) == matches@);
                    }
                },
                Err(_) => {
                    proof {
                        assert(region_matches(
                            process.mem,
                            rv[j as int],
                            pattern@,
                            process.max_region_bytes,
                        ) =~= Seq::<u64>::empty());
                        assert(r@ + Seq::<u64>::empty() =~= r@);
                    }
                },
            }
        } else {
            proof {
                assert(!region_scannable(rv[j as int], process.max_region_bytes));
                assert(r@ + Seq::<u64>::empty() =~= r@);
            }
        }
        j = j + 1;
    }
    proof {
        assert(region_views(process.regions@).take(n as int) =~= region_views(process.regions@));
    }
    r
}

/// Searches for a fixed-width value: the value is reduced to its raw
/// little-endian bytes and handed to the pattern scan.
pub fn search_value(process: &ProcessMemory, value: ScanValue) -> (r: Vec<u64>)
    requires
        process.wf(),
    ensures
        r@ == scan_matches(
            process.mem,
            region_views(process.regions@),
            scan_value_bytes(value),
            process.max_region_bytes,
        ),
{
    let bytes = value.to_le_bytes();
    search_pattern(process, &bytes)
}

} // verus!
