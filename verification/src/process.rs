//! The session handle for one attached process: its region snapshot, the
//! channel into its memory, the working set of candidate addresses with the
//! byte snapshot last observed at each, and the bookmark list.

use vstd::prelude::*;

use crate::channel::{MemError, MemoryChannel};
use crate::codec::{f64_order_key, f64_order_key_spec, lex_cmp, u64_from_le_bytes, vec_eq};
use crate::codec::{copy_range, lex_cmp_spec, u64_from_le_bytes_spec, ByteCmp};
use crate::region::{region_views, MemoryRegion};
use crate::search;
use crate::types::{scan_value_bytes, ScanValue, SearchFilter};

verus! {

/// The default per-region scan ceiling: 100 MiB.
pub const DEFAULT_REGION_CEILING: u64 = 104857600;

/// The models of the working-set entries: address and last-observed bytes.
pub open spec fn results_view(rs: Seq<(u64, Vec<u8>)>) -> Seq<(u64, Seq<u8>)> {
    rs.map_values(|p: (u64, Vec<u8>)| (p.0, p.1@))
}

/// The addresses of the working-set entries, in order.
pub open spec fn addrs_of(rs: Seq<(u64, Seq<u8>)>) -> Seq<u64> {
    rs.map_values(|p: (u64, Seq<u8>)| p.0)
}

/// Each address paired with one snapshot.
pub open spec fn paired_with(addrs: Seq<u64>, snap: Seq<u8>) -> Seq<(u64, Seq<u8>)> {
    addrs.map_values(|a: u64| (a, snap))
}

pub open spec fn opt_view(v: Option<Vec<u8>>) -> Option<Seq<u8>> {
    match v {
        Some(b) => Some(b@),
        None => None,
    }
}

/// Whether a filter pass keeps an address, given the snapshot stored for it
/// and the bytes just re-read at it.  `Increased` and `Decreased` compare
/// the raw byte sequences lexicographically; `Range` reinterprets exactly
/// eight bytes as a 64-bit float bit pattern and compares total-order keys
/// inclusively.
pub open spec fn keep_spec(
    filter: SearchFilter,
    value: Option<Seq<u8>>,
    snap: Seq<u8>,
    fresh: Seq<u8>,
) -> bool {
    match filter {
        SearchFilter::Exact => value is Some && fresh == value->0,
        SearchFilter::Changed => fresh != snap,
        SearchFilter::Unchanged => fresh == snap,
        SearchFilter::Increased => lex_cmp_spec(fresh, snap) == ByteCmp::Greater,
        SearchFilter::Decreased => lex_cmp_spec(fresh, snap) == ByteCmp::Less,
        SearchFilter::Range(lo, hi) => fresh.len() == 8 && f64_order_key_spec(lo)
            <= f64_order_key_spec(u64_from_le_bytes_spec(fresh) as u64) && f64_order_key_spec(
            u64_from_le_bytes_spec(fresh) as u64,
        ) <= f64_order_key_spec(hi),
    }
}

/// One filter pass over the working set: each address is re-read at its
/// snapshot's length; an unreadable address is dropped, a kept address is
/// re-recorded with the bytes just read.
pub open spec fn filter_spec(
    ch: MemoryChannel,
    results: Seq<(u64, Seq<u8>)>,
    filter: SearchFilter,
    value: Option<Seq<u8>>,
) -> Seq<(u64, Seq<u8>)>
    decreases results.len(),
{
    if results.len() == 0 {
        Seq::empty()
    } else {
        let rest = filter_spec(ch, results.drop_last(), filter, value);
        let p = results.last();
        match ch.read_spec(p.0, p.1.len()) {
            Some(fresh) => if keep_spec(filter, value, p.1, fresh) {
                rest + seq![(p.0, fresh)]
            } else {
                rest
            },
            None => rest,
        }
    }
}

/// Decides one filter outcome for one address, from the snapshot stored
/// for it and the bytes just re-read at it.
pub fn keep_decision(
    filter: SearchFilter,
    value: &Option<Vec<u8>>,
    snap: &Vec<u8>,
    fresh: &Vec<u8>,
) -> (r: bool)
    ensures
        r == keep_spec(filter, opt_view(*value), snap@, fresh@),
{
    match filter {
        SearchFilter::Exact => match value {
            Some(v) => vec_eq(fresh, v),
            None => false,
        },
        SearchFilter::Changed => !vec_eq(fresh, snap),
        SearchFilter::Unchanged => vec_eq(fresh, snap),
        SearchFilter::Increased => lex_cmp(fresh, snap) == ByteCmp::Greater,
        SearchFilter::Decreased => lex_cmp(fresh, snap) == ByteCmp::Less,
        SearchFilter::Range(lo, hi) => {
            if fresh.len() == 8 {
                let key = f64_order_key(u64_from_le_bytes(fresh));
                f64_order_key(lo) <= key && key <= f64_order_key(hi)
            } else {
                false
            }
        },
    }
}

/// The session handle: owns the channel into the target's memory, the
/// region snapshot taken at attach time, the working set of the active
/// scan, and the saved-address bookmarks.
pub struct ProcessMemory {
    pub pid: u32,
    pub mem: MemoryChannel,
    pub regions: Vec<MemoryRegion>,
    pub search_results: Vec<(u64, Vec<u8>)>,
    pub saved_addresses: Vec<(u64, String)>,
    pub max_region_bytes: u64,
}

impl ProcessMemory {
    pub open spec fn wf(self) -> bool {
        self.mem.wf() && self.max_region_bytes <= usize::MAX
    }

    /// Attaches a session: the channel and the region snapshot are taken as
    /// given, the working set and the bookmarks start empty, and the scan
    /// ceiling starts at its default.
    pub fn new(pid: u32, regions: Vec<MemoryRegion>, mem: MemoryChannel) -> (r: ProcessMemory)
        requires
            mem.wf(),
        ensures
            r.wf(),
            r.pid == pid,
            r.mem == mem,
            r.regions == regions,
            r.search_results@ == Seq::<(u64, Vec<u8>)>::empty(),
            r.saved_addresses@ == Seq::<(u64, String)>::empty(),
            r.max_region_bytes == DEFAULT_REGION_CEILING,
    {
        ProcessMemory {
            pid,
            mem,
            regions,
            search_results: Vec::new(),
            saved_addresses: Vec::new(),
            max_region_bytes: DEFAULT_REGION_CEILING,
        }
    }

    /// Adjusts the per-region scan ceiling.
    pub fn set_region_ceiling(&mut self, max_bytes: u64)
        requires
            old(self).wf(),
            max_bytes <= usize::MAX,
        ensures
            *final(self) == (ProcessMemory { max_region_bytes: max_bytes, ..*old(self) }),
            final(self).wf(),
    {
        self.max_region_bytes = max_bytes;
    }

    /// Positioned read of exactly `size` bytes at `address`.
    pub fn read_memory(&mut self, address: u64, size: usize) -> (r: Result<Vec<u8>, MemError>)
        requires
            old(self).wf(),
        ensures
            *final(self) == *old(self),
            match r {
                Ok(v) => old(self).mem.read_spec(address, size as nat) == Some(v@),
                Err(e) => e == MemError::OutOfRange && old(self).mem.read_spec(
                    address,
                    size as nat,
                ) is None,
            },
    {
        self.mem.read_at(address, size)
    }

    /// Positioned write of `data` at `address`, observable by every
    /// subsequent read; only the backing bytes change.
    pub fn write_memory(&mut self, address: u64, data: &Vec<u8>) -> (r: Result<(), MemError>)
        requires
            old(self).wf(),
        ensures
            final(self).wf(),
            final(self).pid == old(self).pid,
            final(self).regions == old(self).regions,
            final(self).search_results == old(self).search_results,
            final(self).saved_addresses == old(self).saved_addresses,
            final(self).max_region_bytes == old(self).max_region_bytes,
            final(self).mem.base == old(self).mem.base,
            final(self).mem.data@.len() == old(self).mem.data@.len(),
            match r {
                Ok(()) => old(self).mem.in_range(address, data@.len()) && final(self).mem.data@
                    == crate::channel::store_bytes(
                    old(self).mem.data@,
                    address - old(self).mem.base,
                    data@,
                ),
                Err(e) => e == MemError::OutOfRange && !old(self).mem.in_range(
                    address,
                    data@.len(),
                ) && final(self).mem.data@ == old(self).mem.data@,
            },
    {
        self.mem.write_at(address, data)
    }

    /// Runs an initial pattern search and makes its matches the new working
    /// set, each recorded with the pattern itself as its snapshot.
    pub fn search_pattern(&mut self, pattern: &Vec<u8>) -> (r: Vec<u64>)
        requires
            old(self).wf(),
            pattern@.len() >= 1,
        ensures
            final(self).wf(),
            final(self).pid == old(self).pid,
            final(self).mem == old(self).mem,
            final(self).regions == old(self).regions,
            final(self).saved_addresses == old(self).saved_addresses,
            final(self).max_region_bytes == old(self).max_region_bytes,
            r@ == search::scan_matches(
                old(self).mem,
                region_views(old(self).regions@),
                pattern@,
                old(self).max_region_bytes,
            ),
            results_view(final(self).search_results@) == paired_with(r@, pattern@),
    {
        let matches = search::search_pattern(self, pattern);
        let mut results: Vec<(u64, Vec<u8>)> = Vec::new();
        let mut k: usize = 0;
        proof {
            assert(results_view(results@) =~= paired_with(matches@.take(0), pattern@));
        }
        while k < matches.len()
            invariant
                k <= matches@.len(),
                results_view(results@) == paired_with(matches@.take(k as int), pattern@),
            decreases matches@.len() - k,
        {
            let snap = copy_range(pattern, 0, pattern.len());
            proof {
                assert(snap@ =~= pattern@);
                assert(results_view(results@.push((matches@[k as int], snap))) =~= results_view(
                    results@,
                ).push((matches@[k as int], pattern@)));
                assert(paired_with(matches@.take(k + 1), pattern@) =~= paired_with(
                    matches@.take(k as int),
                    pattern@,
                ).push((matches@[k as int], pattern@)));
            }
            results.push((matches[k], snap));
            k = k + 1;
        }
        proof {
            assert(matches@.take(matches@.len() as int) =~= matches@);
        }
        self.search_results = results;
        matches
    }

    /// Runs an initial typed-value search: the value is reduced to its raw
    /// little-endian bytes and dispatched into the pattern search.
    pub fn search_value(&mut self, value: ScanValue) -> (r: Vec<u64>)
        requires
            old(self).wf(),
        ensures
            final(self).wf(),
            final(self).pid == old(self).pid,
            final(self).mem == old(self).mem,
            final(self).regions == old(self).regions,
            final(self).saved_addresses == old(self).saved_addresses,
            final(self).max_region_bytes == old(self).max_region_bytes,
            r@ == search::scan_matches(
                old(self).mem,
                region_views(old(self).regions@),
                scan_value_bytes(value),
                old(self).max_region_bytes,
            ),
            results_view(final(self).search_results@) == paired_with(r@, scan_value_bytes(value)),
    {
        let bytes = value.to_le_bytes();
        self.search_pattern(&bytes)
    }

    /// One filter pass: re-reads every working-set address at its
    /// snapshot's length, drops what can no longer be read or what the
    /// filter rejects, and re-records every kept address with the bytes
    /// just read.  Returns the kept addresses, in working-set order.
    pub fn filter_results(&mut self, filter: SearchFilter, value: Option<Vec<u8>>) -> (r: Vec<u64>)
        requires
            old(self).wf(),
        ensures
            final(self).wf(),
            final(self).pid == old(self).pid,
            final(self).mem == old(self).mem,
            final(self).regions == old(self).regions,
            final(self).saved_addresses == old(self).saved_addresses,
            final(self).max_region_bytes == old(self).max_region_bytes,
            results_view(final(self).search_results@) == filter_spec(
                old(self).mem,
                results_view(old(self).search_results@),
                filter,
                opt_view(value),
            ),
            r@ == addrs_of(results_view(final(self).search_results@)),
            final(self).search_results@.len() <= old(self).search_results@.len(),
    {
        let n: usize = self.search_results.len();
        let mut kept: Vec<(u64, Vec<u8>)> = Vec::new();
        let mut addrs: Vec<u64> = Vec::new();
        let mut i: usize = 0;
        proof {
            assert(results_view(self.search_results@).take(0)
                =~= Seq::<(u64, Seq<u8>)>::empty());
        }
        while i < n
            invariant
                i <= n,
                n == self.search_results@.len(),
                *self == *old(self),
                self.wf(),
                kept@.len() <= i,
                results_view(kept@) == filter_spec(
                    self.mem,
                    results_view(self.search_results@).take(i as int),
                    filter,
                    opt_view(value),
                ),
                addrs@ == addrs_of(results_view(kept@)),
            decreases n - i,
        {
            let ghost rv = results_view(self.search_results@);
            proof {
                assert(rv.take(i + 1).drop_last() =~= rv.take(i as int));
                assert(rv.take(i + 1).last() == rv[i as int]);
                assert(rv[i as int] == (
                    self.search_results@[i as int].0,
                    self.search_results@[i as int].1@,
                ));
            }
            let addr: u64 = self.search_results[i].0;
            let size: usize = self.search_results[i].1.len();
            match self.mem.read_at(addr, size) {
                Ok(fresh) => {
                    let keep: bool = keep_decision(filter, &value, &self.search_results[i].1, &fresh);
                    assert(keep == keep_spec(filter, opt_view(value), rv[i as int].1, fresh@));
                    if keep {
                        proof {
                            assert(results_view(kept@.push((addr, fresh))) =~= results_view(kept@)
                                .push((addr, fresh@)));
                            assert(filter_spec(self.mem, rv.take(i as int), filter, opt_view(value))
                                + seq![(addr, fresh@)] =~= filter_spec(
                                self.mem,
                                rv.take(i as int),
                                filter,
                                opt_view(value),
                            ).push((addr, fresh@)));
                            assert(addrs_of(results_view(kept@).push((addr, fresh@)))
                                =~= addrs_of(results_view(kept@)).push(addr));
                        }
                        addrs.push(addr);
                        kept.push((addr, fresh));
                    }
                },
                Err(_) => {},
            }
            i = i + 1;
        }
        proof {
            assert(results_view(self.search_results@).take(n as int) =~= results_view(
                self.search_results@,
            ));
        }
        self.search_results = kept;
        addrs
    }

    /// Appends a bookmark, unconditionally: no duplicate check, no check
    /// against the working set, and filter passes never touch it.
    pub fn save_address(&mut self, address: u64, description: String)
        requires
            old(self).wf(),
        ensures
            final(self).wf(),
            final(self).pid == old(self).pid,
            final(self).mem == old(self).mem,
            final(self).regions == old(self).regions,
            final(self).search_results == old(self).search_results,
            final(self).max_region_bytes == old(self).max_region_bytes,
            final(self).saved_addresses@ == old(self).saved_addresses@.push(
                (address, description),
            ),
    {
        self.saved_addresses.push((address, description));
    }

    /// The bookmarks, in the order they were saved.
    pub fn get_saved_addresses(&self) -> (r: &Vec<(u64, String)>)
        ensures
            r@ == self.saved_addresses@,
    {
        &self.saved_addresses
    }
}

/// Law: a filter pass never grows the working set.
pub proof fn lemma_filter_monotonic_narrowing(
    ch: MemoryChannel,
    results: Seq<(u64, Seq<u8>)>,
    filter: SearchFilter,
    value: Option<Seq<u8>>,
)
    ensures
        filter_spec(ch, results, filter, value).len() <= results.len(),
    decreases results.len(),
{
    if results.len() > 0 {
        lemma_filter_monotonic_narrowing(ch, results.drop_last(), filter, value);
    }
}

/// Law: with no intervening mutation of the store, applying the
/// `Unchanged` filter twice in a row yields exactly the working set of a
/// single pass, addresses and snapshots alike.
pub proof fn lemma_unchanged_idempotent(
    ch: MemoryChannel,
    results: Seq<(u64, Seq<u8>)>,
    v1: Option<Seq<u8>>,
    v2: Option<Seq<u8>>,
)
    ensures
        filter_spec(
            ch,
            filter_spec(ch, results, SearchFilter::Unchanged, v1),
            SearchFilter::Unchanged,
            v2,
        ) == filter_spec(ch, results, SearchFilter::Unchanged, v1),
    decreases results.len(),
{
    let f = SearchFilter::Unchanged;
    if results.len() == 0 {
        assert(filter_spec(ch, filter_spec(ch, results, f, v1), f, v2) =~= filter_spec(
            ch,
            results,
            f,
            v1,
        ));
    } else {
        let rest = results.drop_last();
        lemma_unchanged_idempotent(ch, rest, v1, v2);
        let p = results.last();
        let inner_rest = filter_spec(ch, rest, f, v1);
        let inner = filter_spec(ch, results, f, v1);
        match ch.read_spec(p.0, p.1.len()) {
            Some(fresh) => {
                if keep_spec(f, v1, p.1, fresh) {
                    assert(fresh == p.1);
                    assert(inner == inner_rest + seq![(p.0, fresh)]);
                    assert(inner.drop_last() =~= inner_rest);
                    assert(inner.last() == (p.0, fresh));
                    assert(ch.read_spec(p.0, fresh.len()) == Some(fresh));
                    assert(filter_spec(ch, inner, f, v2) == filter_spec(ch, inner_rest, f, v2)
                        + seq![(p.0, fresh)]);
                } else {
                    assert(inner =~= inner_rest);
                }
            },
            None => {
                assert(inner =~= inner_rest);
            },
        }
    }
}

} // verus!
