use memscan::channel::MemoryChannel;
use memscan::process::ProcessMemory;
use memscan::region::{MemoryRegion, Permissions};
use memscan::types::ScanValue;

fn perms(read: bool, write: bool) -> Permissions {
    Permissions { read, write, execute: false, shared: false }
}

fn region(start: u64, end: u64, read: bool) -> MemoryRegion {
    MemoryRegion { start, end, permissions: perms(read, true), pathname: Vec::new() }
}

#[test]
fn pattern_search_finds_offset_in_region() {
    let mut data = vec![0u8; 16];
    data[4] = 0xDE;
    data[5] = 0xAD;
    data[6] = 0xBE;
    data[7] = 0xEF;
    let mem = MemoryChannel::new(0x1000, data);
    let regions = vec![region(0x1000, 0x1010, true)];
    let mut pm = ProcessMemory::new(1, regions, mem);
    let matches = pm.search_pattern(&vec![0xDE, 0xAD, 0xBE, 0xEF]);
    assert_eq!(matches, vec![0x1004]);
}

#[test]
fn search_records_pattern_as_snapshot() {
    let mem = MemoryChannel::new(0x1000, vec![5u8, 5, 5, 5]);
    let mut pm = ProcessMemory::new(1, vec![region(0x1000, 0x1004, true)], mem);
    let matches = pm.search_pattern(&vec![5u8, 5]);
    assert_eq!(matches, vec![0x1000, 0x1001, 0x1002]);
    assert_eq!(pm.search_results.len(), 3);
    for (addr, snap) in &pm.search_results {
        assert!(matches.contains(addr));
        assert_eq!(snap, &vec![5u8, 5]);
    }
}

#[test]
fn unreadable_region_contributes_no_matches() {
    let mut data = vec![0u8; 32];
    data[2] = 0xCA;
    data[3] = 0xFE;
    data[18] = 0xCA;
    data[19] = 0xFE;
    let mem = MemoryChannel::new(0x1000, data);
    let regions = vec![
        region(0x1000, 0x1010, false),
        region(0x1010, 0x1020, true),
    ];
    let mut pm = ProcessMemory::new(1, regions, mem);
    let matches = pm.search_pattern(&vec![0xCA, 0xFE]);
    assert_eq!(matches, vec![0x1012]);
}

#[test]
fn overlapping_occurrences_all_count() {
    let mem = MemoryChannel::new(0x100, vec![b'a', b'a', b'a']);
    let mut pm = ProcessMemory::new(1, vec![region(0x100, 0x103, true)], mem);
    let matches = pm.search_pattern(&vec![b'a', b'a']);
    assert_eq!(matches, vec![0x100, 0x101]);
}

#[test]
fn matches_come_in_region_order_then_ascending_offset() {
    let mut data = vec![0u8; 32];
    data[0] = 7;
    data[8] = 7;
    data[16] = 7;
    let mem = MemoryChannel::new(0x1000, data);
    let regions = vec![
        region(0x1010, 0x1020, true),
        region(0x1000, 0x1010, true),
    ];
    let mut pm = ProcessMemory::new(1, regions, mem);
    let matches = pm.search_pattern(&vec![7u8]);
    assert_eq!(matches, vec![0x1010, 0x1000, 0x1008]);
}

#[test]
fn unbacked_region_is_skipped_without_failing() {
    let mem = MemoryChannel::new(0x1000, vec![3u8, 3]);
    let regions = vec![
        region(0x9000, 0x9010, true),
        region(0x1000, 0x1002, true),
    ];
    let mut pm = ProcessMemory::new(1, regions, mem);
    let matches = pm.search_pattern(&vec![3u8]);
    assert_eq!(matches, vec![0x1000, 0x1001]);
}

#[test]
fn region_over_ceiling_is_skipped() {
    let data = vec![1u8; 32];
    let mem = MemoryChannel::new(0x1000, data);
    let regions = vec![region(0x1000, 0x1020, true)];
    let mut pm = ProcessMemory::new(1, regions, mem);
    pm.set_region_ceiling(16);
    assert_eq!(pm.search_pattern(&vec![1u8, 1]).len(), 0);
    pm.set_region_ceiling(32);
    assert_eq!(pm.search_pattern(&vec![1u8, 1]).len(), 31);
}

#[test]
fn pattern_longer_than_region_finds_nothing() {
    let mem = MemoryChannel::new(0x1000, vec![1u8, 2]);
    let mut pm = ProcessMemory::new(1, vec![region(0x1000, 0x1002, true)], mem);
    assert_eq!(pm.search_pattern(&vec![1u8, 2, 3]).len(), 0);
}

#[test]
fn typed_search_reduces_to_little_endian_bytes() {
    let mut data = vec![0u8; 16];
    data[8] = 100;
    let mem = MemoryChannel::new(0x2000, data);
    let mut pm = ProcessMemory::new(1, vec![region(0x2000, 0x2010, true)], mem);
    let matches = pm.search_value(ScanValue::I32(100));
    assert_eq!(matches, vec![0x2008]);
    assert_eq!(pm.search_results[0].1, vec![100u8, 0, 0, 0]);
}

#[test]
fn typed_search_u64() {
    let value: u64 = 0x0102030405060708;
    let mut data = vec![0xFFu8; 24];
    for (i, b) in value.to_le_bytes().iter().enumerate() {
        data[8 + i] = *b;
    }
    let mem = MemoryChannel::new(0x3000, data);
    let mut pm = ProcessMemory::new(1, vec![region(0x3000, 0x3018, true)], mem);
    assert_eq!(pm.search_value(ScanValue::U64(value)), vec![0x3008]);
}

#[test]
fn new_session_starts_empty() {
    let mem = MemoryChannel::new(0, Vec::new());
    let pm = ProcessMemory::new(42, Vec::new(), mem);
    assert_eq!(pm.pid, 42);
    assert!(pm.search_results.is_empty());
    assert!(pm.get_saved_addresses().is_empty());
    assert_eq!(pm.max_region_bytes, 100 * 1024 * 1024);
}

#[test]
fn bookmarks_append_unconditionally_and_survive_filters() {
    let mem = MemoryChannel::new(0x1000, vec![1u8; 8]);
    let mut pm = ProcessMemory::new(1, vec![region(0x1000, 0x1008, true)], mem);
    pm.save_address(0x1000, "health".to_string());
    pm.save_address(0x1000, "health".to_string());
    pm.save_address(0x2000, "gold".to_string());
    pm.search_pattern(&vec![1u8]);
    pm.filter_results(memscan::types::SearchFilter::Changed, None);
    let saved = pm.get_saved_addresses();
    assert_eq!(saved.len(), 3);
    assert_eq!(saved[0], (0x1000, "health".to_string()));
    assert_eq!(saved[1], (0x1000, "health".to_string()));
    assert_eq!(saved[2], (0x2000, "gold".to_string()));
}

#[test]
fn read_and_write_through_session() {
    let mem = MemoryChannel::new(0x1000, vec![0u8; 8]);
    let mut pm = ProcessMemory::new(1, Vec::new(), mem);
    pm.write_memory(0x1002, &vec![9u8, 8]).unwrap();
    assert_eq!(pm.read_memory(0x1002, 2).unwrap(), vec![9, 8]);
    assert!(pm.read_memory(0x0, 1).is_err());
    assert!(pm.write_memory(0x100A, &vec![1u8]).is_err());
}
