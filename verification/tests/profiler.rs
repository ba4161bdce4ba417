use unkai::{BumpAllocator, Layout, UnkaiGlobalAlloc};

#[test]
fn single_sampled_allocation_reported() {
    let mut p = UnkaiGlobalAlloc::new(BumpAllocator::new(), 1, 0, 5, 0);
    let layout = Layout { size: 4096, align: 8 };
    p.allocate(layout).unwrap();
    let report = p.report_addr();
    assert_eq!(report.len(), 1);
    assert_eq!(report[0].1, 4096);
    assert!(report[0].0.len() <= 5);
}

#[test]
fn threshold_bypasses_tracking() {
    let mut p = UnkaiGlobalAlloc::new(BumpAllocator::new(), 1, 0, 5, 4096);
    let layout = Layout { size: 4096, align: 8 };
    let addr = p.allocate(layout).unwrap();
    p.deallocate(addr, layout);
    assert_eq!(p.report_addr().len(), 0);
}

#[test]
fn unsampled_address_not_tracked() {
    // The pass-through allocator hands out address 8, whose word index 1 is
    // not a multiple of 1000.
    let mut p = UnkaiGlobalAlloc::new(BumpAllocator::new(), 1000, 0, 5, 0);
    p.allocate(Layout { size: 64, align: 8 }).unwrap();
    assert_eq!(p.report_addr().len(), 0);
}

#[test]
fn sampling_boundary_on_second_block() {
    // Addresses 8 then 16: word indices 1 and 2, so with rate 2 only the
    // second allocation is sampled.
    let mut p = UnkaiGlobalAlloc::new(BumpAllocator::new(), 2, 0, 5, 0);
    let first = p.allocate(Layout { size: 8, align: 8 }).unwrap();
    assert_eq!(first, 8);
    let second = p.allocate(Layout { size: 64, align: 8 }).unwrap();
    assert_eq!(second, 16);
    let report = p.report_addr();
    assert_eq!(report.len(), 1);
    assert_eq!(report[0].1, 64);
}

#[test]
fn matched_dealloc_returns_entry_to_zero() {
    // With no frames kept, every signature is the empty one, so the
    // deallocation matches the allocation's entry exactly.
    let mut p = UnkaiGlobalAlloc::new(BumpAllocator::new(), 1, 0, 0, 0);
    let layout = Layout { size: 4096, align: 8 };
    let addr = p.allocate(layout).unwrap();
    let mid = p.report_addr();
    assert_eq!(mid.len(), 1);
    assert_eq!(mid[0].0.len(), 0);
    assert_eq!(mid[0].1, 4096);
    p.deallocate(addr, layout);
    let after = p.report_addr();
    assert_eq!(after.len(), 1);
    assert_eq!(after[0].1, 0);
}

#[test]
fn debit_without_entry_is_dropped() {
    let mut p = UnkaiGlobalAlloc::new(BumpAllocator::new(), 1, 0, 5, 0);
    p.deallocate(8, Layout { size: 64, align: 8 });
    assert_eq!(p.report_addr().len(), 0);
}

#[test]
fn symbol_report_carries_counts() {
    let mut p = UnkaiGlobalAlloc::new(BumpAllocator::new(), 1, 0, 5, 0);
    p.allocate(Layout { size: 4096, align: 8 }).unwrap();
    let report = p.report_symbol();
    assert_eq!(report.len(), 1);
    assert_eq!(report[0].1, 4096);
}

#[test]
fn drain_totals_preserved() {
    // Whether or not the two call sites fold into one signature, the
    // drained counts total the bytes charged, and both reports agree.
    let mut p = UnkaiGlobalAlloc::new(BumpAllocator::new(), 1, 0, 5, 0);
    p.allocate(Layout { size: 100, align: 8 }).unwrap();
    p.allocate(Layout { size: 300, align: 8 }).unwrap();
    let by_addr = p.report_addr();
    let by_symbol = p.report_symbol();
    assert_eq!(by_addr.iter().map(|e| e.1).sum::<isize>(), 400);
    assert_eq!(by_symbol.iter().map(|e| e.1).sum::<isize>(), 400);
    assert_eq!(by_addr.len(), by_symbol.len());
}

#[test]
fn reports_leave_table_as_it_was() {
    let mut p = UnkaiGlobalAlloc::new(BumpAllocator::new(), 1, 0, 5, 0);
    p.allocate(Layout { size: 2048, align: 8 }).unwrap();
    let first = p.report_addr();
    let second = p.report_addr();
    assert_eq!(first.len(), 1);
    assert_eq!(second.len(), 1);
    assert_eq!(first[0].1, second[0].1);
    assert_eq!(first[0].0, second[0].0);
}
