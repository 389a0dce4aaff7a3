use memscan::channel::MemoryChannel;
use memscan::process::ProcessMemory;
use memscan::region::{MemoryRegion, Permissions};
use memscan::types::{ScanValue, SearchFilter};

fn rw_region(start: u64, end: u64) -> MemoryRegion {
    MemoryRegion {
        start,
        end,
        permissions: Permissions { read: true, write: true, execute: false, shared: false },
        pathname: Vec::new(),
    }
}

fn session_with(base: u64, data: Vec<u8>) -> ProcessMemory {
    let end = base + data.len() as u64;
    let mem = MemoryChannel::new(base, data);
    ProcessMemory::new(1, vec![rw_region(base, end)], mem)
}

#[test]
fn typed_search_then_changed_then_decreased() {
    let mut data = vec![0u8; 16];
    data[0] = 100;
    let mut pm = session_with(0x2000, data);

    let matches = pm.search_value(ScanValue::I32(100));
    assert_eq!(matches, vec![0x2000]);
    assert_eq!(pm.search_results[0].1, vec![100u8, 0, 0, 0]);

    pm.write_memory(0x2000, &ScanValue::I32(105).to_le_bytes()).unwrap();
    let kept = pm.filter_results(SearchFilter::Changed, None);
    assert_eq!(kept, vec![0x2000]);
    assert_eq!(pm.search_results[0].1, vec![105u8, 0, 0, 0]);

    pm.write_memory(0x2000, &ScanValue::I32(103).to_le_bytes()).unwrap();
    let kept = pm.filter_results(SearchFilter::Decreased, None);
    assert_eq!(kept, vec![0x2000]);
    assert_eq!(pm.search_results[0].1, vec![103u8, 0, 0, 0]);

    let kept = pm.filter_results(SearchFilter::Decreased, None);
    assert!(kept.is_empty());
    assert!(pm.search_results.is_empty());
}

#[test]
fn range_filter_keeps_only_values_inside() {
    let mut data = Vec::new();
    data.extend_from_slice(&50.0f64.to_le_bytes());
    data.extend_from_slice(&150.0f64.to_le_bytes());
    data.extend_from_slice(&250.0f64.to_le_bytes());
    let mut pm = session_with(0x3000, data);
    pm.search_results = vec![
        (0x3000, vec![0u8; 8]),
        (0x3008, vec![0u8; 8]),
        (0x3010, vec![0u8; 8]),
    ];
    let kept = pm.filter_results(
        SearchFilter::Range(100.0f64.to_bits(), 200.0f64.to_bits()),
        None,
    );
    assert_eq!(kept, vec![0x3008]);
    assert_eq!(pm.search_results.len(), 1);
    assert_eq!(pm.search_results[0].1, 150.0f64.to_le_bytes().to_vec());
}

#[test]
fn range_bounds_are_inclusive() {
    let mut data = Vec::new();
    data.extend_from_slice(&100.0f64.to_le_bytes());
    data.extend_from_slice(&200.0f64.to_le_bytes());
    let mut pm = session_with(0x100, data);
    pm.search_results = vec![(0x100, vec![0u8; 8]), (0x108, vec![0u8; 8])];
    let kept = pm.filter_results(
        SearchFilter::Range(100.0f64.to_bits(), 200.0f64.to_bits()),
        None,
    );
    assert_eq!(kept, vec![0x100, 0x108]);
}

#[test]
fn range_filter_handles_negative_values() {
    let mut data = Vec::new();
    data.extend_from_slice(&(-5.0f64).to_le_bytes());
    data.extend_from_slice(&(-50.0f64).to_le_bytes());
    data.extend_from_slice(&5.0f64.to_le_bytes());
    let mut pm = session_with(0x400, data);
    pm.search_results = vec![
        (0x400, vec![0u8; 8]),
        (0x408, vec![0u8; 8]),
        (0x410, vec![0u8; 8]),
    ];
    let kept = pm.filter_results(
        SearchFilter::Range((-10.0f64).to_bits(), 10.0f64.to_bits()),
        None,
    );
    assert_eq!(kept, vec![0x400, 0x410]);
}

#[test]
fn range_filter_drops_wrong_width_snapshots() {
    let mut pm = session_with(0x500, vec![1u8, 2, 3, 4]);
    pm.search_results = vec![(0x500, vec![0u8; 4])];
    let kept = pm.filter_results(SearchFilter::Range(0, 0x7FF0000000000000), None);
    assert!(kept.is_empty());
}

#[test]
fn unchanged_filter_applied_twice_is_idempotent() {
    let data = vec![1u8, 2, 3, 4, 5, 6, 7, 8];
    let mut pm = session_with(0x700, data);
    pm.search_results = vec![
        (0x700, vec![1u8, 2]),
        (0x702, vec![9u8, 9]),
        (0x704, vec![5u8, 6]),
    ];
    let first = pm.filter_results(SearchFilter::Unchanged, None);
    let snaps_first = pm.search_results.clone();
    let second = pm.filter_results(SearchFilter::Unchanged, None);
    assert_eq!(first, vec![0x700, 0x704]);
    assert_eq!(second, first);
    assert_eq!(pm.search_results, snaps_first);
}

#[test]
fn every_filter_pass_narrows_or_keeps_size() {
    let data = vec![1u8, 2, 3, 4];
    let filters = [
        SearchFilter::Exact,
        SearchFilter::Changed,
        SearchFilter::Unchanged,
        SearchFilter::Increased,
        SearchFilter::Decreased,
        SearchFilter::Range(0.0f64.to_bits(), 1.0f64.to_bits()),
    ];
    for f in filters {
        let mut pm = session_with(0x800, data.clone());
        pm.search_results = vec![
            (0x800, vec![1u8]),
            (0x801, vec![0u8]),
            (0x900, vec![1u8]),
        ];
        let before = pm.search_results.len();
        let kept = pm.filter_results(f, Some(vec![2u8]));
        assert!(kept.len() <= before);
        assert_eq!(kept.len(), pm.search_results.len());
    }
}

#[test]
fn exact_filter_compares_against_supplied_value() {
    let data = vec![10u8, 20, 10, 30];
    let mut pm = session_with(0xA00, data);
    pm.search_results = vec![
        (0xA00, vec![0u8]),
        (0xA01, vec![0u8]),
        (0xA02, vec![0u8]),
        (0xA03, vec![0u8]),
    ];
    let kept = pm.filter_results(SearchFilter::Exact, Some(vec![10u8]));
    assert_eq!(kept, vec![0xA00, 0xA02]);
}

#[test]
fn exact_filter_without_value_keeps_nothing() {
    let mut pm = session_with(0xB00, vec![1u8, 2]);
    pm.search_results = vec![(0xB00, vec![1u8])];
    let kept = pm.filter_results(SearchFilter::Exact, None);
    assert!(kept.is_empty());
}

#[test]
fn changed_and_unchanged_partition_the_set() {
    let data = vec![1u8, 9];
    let mut pm = session_with(0xC00, data.clone());
    pm.search_results = vec![(0xC00, vec![1u8]), (0xC01, vec![2u8])];
    let kept = pm.filter_results(SearchFilter::Unchanged, None);
    assert_eq!(kept, vec![0xC00]);

    let mut pm2 = session_with(0xC00, data);
    pm2.search_results = vec![(0xC00, vec![1u8]), (0xC01, vec![2u8])];
    let kept2 = pm2.filter_results(SearchFilter::Changed, None);
    assert_eq!(kept2, vec![0xC01]);
    assert_eq!(pm2.search_results[0].1, vec![9u8]);
}

#[test]
fn increased_and_decreased_compare_raw_bytes_lexicographically() {
    let data = vec![0u8, 1, 2, 1];
    let mut pm = session_with(0xD00, data);
    pm.search_results = vec![
        (0xD00, vec![1u8, 0]),
        (0xD02, vec![1u8, 0]),
    ];
    let kept = pm.filter_results(SearchFilter::Increased, None);
    assert_eq!(kept, vec![0xD02]);

    let mut pm2 = session_with(0xD00, vec![0u8, 1, 2, 1]);
    pm2.search_results = vec![
        (0xD00, vec![1u8, 0]),
        (0xD02, vec![1u8, 0]),
    ];
    let kept2 = pm2.filter_results(SearchFilter::Decreased, None);
    assert_eq!(kept2, vec![0xD00]);
}

#[test]
fn unreadable_address_is_dropped_not_fatal() {
    let mut pm = session_with(0xE00, vec![4u8, 4]);
    pm.search_results = vec![
        (0xE00, vec![4u8]),
        (0xFFFF, vec![4u8]),
        (0xE01, vec![4u8]),
    ];
    let kept = pm.filter_results(SearchFilter::Unchanged, None);
    assert_eq!(kept, vec![0xE00, 0xE01]);
}

#[test]
fn filter_rereads_at_snapshot_length() {
    let mut pm = session_with(0xF00, vec![1u8, 2, 3, 4]);
    pm.search_results = vec![(0xF02, vec![0u8, 0, 0])];
    let kept = pm.filter_results(SearchFilter::Unchanged, None);
    assert!(kept.is_empty());
    assert!(pm.search_results.is_empty());

    let mut pm2 = session_with(0xF00, vec![1u8, 2, 3, 4]);
    pm2.search_results = vec![(0xF02, vec![3u8, 4])];
    let kept2 = pm2.filter_results(SearchFilter::Unchanged, None);
    assert_eq!(kept2, vec![0xF02]);
}
