use memscan::memory::{Memory, RegionInfo, MEM_COMMIT, PAGE_EXECUTE_READ, PAGE_EXECUTE_READWRITE, PAGE_READONLY, PAGE_READWRITE};
use memscan::scan::{AobScan, ScanStep};

fn region(base: usize, size: usize, state: u32, protect: u32) -> RegionInfo {
    RegionInfo { base_address: base, region_size: size, state, protect }
}

/// Runs a scan over a fake address space made of regions and their bytes
/// (`None` when a read fails).
fn run(mut scan: AobScan, regions: &[(RegionInfo, Option<Vec<u8>>)]) -> (Vec<usize>, usize) {
    let mut queries = 0;
    loop {
        match scan.next_step() {
            ScanStep::QueryRegion { address } => {
                queries += 1;
                let found = regions.iter().find(|(r, _)| r.base_address >= address || (r.base_address <= address && address < r.base_address + r.region_size));
                scan.on_region(found.map(|(r, _)| *r));
            }
            ScanStep::ReadRegion { base, size } => {
                let (r, bytes) = regions.iter().find(|(r, _)| r.base_address == base).unwrap();
                assert_eq!(r.region_size, size);
                scan.on_read(bytes.as_deref());
            }
            ScanStep::Finished => break,
        }
    }
    (scan.into_results(), queries)
}

#[test]
fn memory_new_keeps_handle_and_base() {
    let m = Memory::new(0x44, 0x7FF6_0000_0000);
    assert_eq!(m.process_handle(), 0x44);
    assert_eq!(m.module_base(), 0x7FF6_0000_0000);
}

#[test]
fn string_to_pattern_gives_utf8_bytes() {
    let m = Memory::new(1, 2);
    assert_eq!(m.string_to_pattern("RenderJob(EarlyRendering;"), b"RenderJob(EarlyRendering;".to_vec());
    assert_eq!(m.string_to_pattern("é"), vec![0xC3, 0xA9]);
    assert_eq!(m.string_to_pattern(""), Vec::<u8>::new());
}

#[test]
fn scannable_regions() {
    assert!(region(0, 1, MEM_COMMIT, PAGE_READONLY).is_scannable());
    assert!(region(0, 1, MEM_COMMIT, PAGE_READWRITE).is_scannable());
    assert!(region(0, 1, MEM_COMMIT, PAGE_EXECUTE_READ).is_scannable());
    assert!(region(0, 1, MEM_COMMIT, PAGE_EXECUTE_READWRITE).is_scannable());
    assert!(!region(0, 1, 0x2000, PAGE_READWRITE).is_scannable());
    assert!(!region(0, 1, MEM_COMMIT, 0x01).is_scannable());
    assert!(!region(0, 1, MEM_COMMIT, 0x104).is_scannable());
}

#[test]
fn empty_pattern_finds_nothing_without_querying() {
    let m = Memory::new(1, 0);
    let scan = m.aob_scan("", true, 0);
    assert_eq!(scan.next_step(), ScanStep::Finished);
    assert_eq!(scan.into_results(), Vec::<usize>::new());
}

#[test]
fn scan_starts_at_address_zero() {
    let scan = AobScan::new(b"ab".to_vec(), true, 0);
    assert_eq!(scan.next_step(), ScanStep::QueryRegion { address: 0 });
}

#[test]
fn single_result_stops_at_first_match() {
    let m = Memory::new(1, 0);
    let regions = vec![
        (region(0x1000, 8, MEM_COMMIT, PAGE_READWRITE), Some(b"xxabxxab".to_vec())),
        (region(0x2000, 8, MEM_COMMIT, PAGE_READWRITE), Some(b"abababab".to_vec())),
    ];
    let (found, queries) = run(m.aob_scan("ab", false, 1), &regions);
    assert_eq!(found, vec![0x1002]);
    assert_eq!(queries, 1);
}

#[test]
fn multiple_results_over_regions_in_order() {
    let regions = vec![
        (region(0x1000, 8, MEM_COMMIT, PAGE_READWRITE), Some(b"xxabxxab".to_vec())),
        (region(0x1008, 8, 0x2000, PAGE_READWRITE), Some(b"abababab".to_vec())),
        (region(0x2000, 4, MEM_COMMIT, PAGE_READONLY), Some(b"abzz".to_vec())),
    ];
    let (found, _) = run(AobScan::new(b"ab".to_vec(), true, 0), &regions);
    assert_eq!(found, vec![0x1002, 0x1006, 0x2000]);
}

#[test]
fn stop_at_value_caps_results() {
    let regions = vec![
        (region(0x1000, 8, MEM_COMMIT, PAGE_READWRITE), Some(b"abababab".to_vec())),
        (region(0x2000, 4, MEM_COMMIT, PAGE_READONLY), Some(b"abzz".to_vec())),
    ];
    let (found, queries) = run(AobScan::new(b"ab".to_vec(), true, 3), &regions);
    assert_eq!(found, vec![0x1000, 0x1002, 0x1004]);
    assert_eq!(queries, 1);
}

#[test]
fn zero_bytes_after_the_first_are_wildcards() {
    let regions = vec![(region(0x1000, 8, MEM_COMMIT, PAGE_READWRITE), Some(vec![1, 9, 3, 1, 7, 3, 1, 2]))];
    let (found, _) = run(AobScan::new(vec![1, 0, 3], true, 0), &regions);
    assert_eq!(found, vec![0x1000, 0x1003]);
}

#[test]
fn a_leading_zero_byte_must_match_exactly() {
    let regions = vec![(region(0x1000, 6, MEM_COMMIT, PAGE_READWRITE), Some(vec![5, 2, 0, 2, 0, 2]))];
    let (found, _) = run(AobScan::new(vec![0, 2], true, 0), &regions);
    assert_eq!(found, vec![0x1002, 0x1004]);
}

#[test]
fn failed_or_short_reads_are_skipped() {
    let regions = vec![
        (region(0x1000, 8, MEM_COMMIT, PAGE_READWRITE), None),
        (region(0x2000, 8, MEM_COMMIT, PAGE_READWRITE), Some(b"a".to_vec())),
        (region(0x3000, 8, MEM_COMMIT, PAGE_READWRITE), Some(b"zzab".to_vec())),
    ];
    let (found, _) = run(AobScan::new(b"ab".to_vec(), true, 0), &regions);
    assert_eq!(found, vec![0x3002]);
}

#[test]
fn match_at_the_very_end_of_a_region_is_found() {
    let regions = vec![(region(0x1000, 5, MEM_COMMIT, PAGE_READWRITE), Some(b"xxxab".to_vec()))];
    let (found, _) = run(AobScan::new(b"ab".to_vec(), true, 0), &regions);
    assert_eq!(found, vec![0x1003]);
}

#[test]
fn skipped_region_moves_query_past_it() {
    let mut scan = AobScan::new(b"ab".to_vec(), true, 0);
    scan.on_region(Some(region(0x1000, 0x500, 0x10000, PAGE_READONLY)));
    assert_eq!(scan.next_step(), ScanStep::QueryRegion { address: 0x1500 });
    scan.on_region(Some(region(0x1500, 0x100, MEM_COMMIT, PAGE_READONLY)));
    assert_eq!(scan.next_step(), ScanStep::ReadRegion { base: 0x1500, size: 0x100 });
    scan.on_read(None);
    assert_eq!(scan.next_step(), ScanStep::QueryRegion { address: 0x1600 });
    scan.on_region(None);
    assert_eq!(scan.next_step(), ScanStep::Finished);
    assert!(scan.results().is_empty());
}

#[test]
fn capped_scans_return_a_prefix_of_the_full_scan() {
    let regions = vec![
        (region(0x1000, 8, MEM_COMMIT, PAGE_READWRITE), Some(b"xxabxxab".to_vec())),
        (region(0x1008, 8, 0x2000, PAGE_READWRITE), Some(b"abababab".to_vec())),
        (region(0x2000, 6, MEM_COMMIT, PAGE_READONLY), Some(b"ababzz".to_vec())),
    ];
    let (full, _) = run(AobScan::new(b"ab".to_vec(), true, 0), &regions);
    assert_eq!(full, vec![0x1002, 0x1006, 0x2000, 0x2002]);
    for stop in 0..6usize {
        let (single, _) = run(AobScan::new(b"ab".to_vec(), false, stop), &regions);
        assert_eq!(single, full[..1].to_vec());
        if stop > 0 {
            let (some, _) = run(AobScan::new(b"ab".to_vec(), true, stop), &regions);
            assert_eq!(some, full[..stop.min(full.len())].to_vec());
        }
    }
}

#[test]
fn capped_scan_of_memory_without_matches_is_empty() {
    let regions = vec![(region(0x1000, 8, MEM_COMMIT, PAGE_READWRITE), Some(b"xxxxxxxx".to_vec()))];
    let (single, _) = run(AobScan::new(b"ab".to_vec(), false, 3), &regions);
    assert!(single.is_empty());
}
