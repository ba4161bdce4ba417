use unkai::{AllocError, BumpAllocator, CallSite, Layout, RawAllocator, Unkai, UnkaiGlobal};

struct FailingAllocator;

impl RawAllocator for FailingAllocator {
    fn allocate(&mut self, _layout: Layout) -> Result<usize, AllocError> {
        Err(AllocError)
    }

    fn deallocate(&mut self, _addr: usize, _layout: Layout) {}
}

fn site(line: u32) -> CallSite {
    CallSite { file: String::from("tests/tracker.rs"), line, column: 1 }
}

#[test]
fn usage_accounting_sequence() {
    let mut t = Unkai::new(BumpAllocator::new(), site(18));
    let a = t.allocate(Layout { size: 100, align: 8 }).unwrap();
    let _b = t.allocate(Layout { size: 200, align: 8 }).unwrap();
    assert_eq!(t.report_usage(), 300);
    t.deallocate(a, Layout { size: 100, align: 8 });
    assert_eq!(t.report_usage(), 200);
    let _c = t.allocate(Layout { size: 50, align: 1 }).unwrap();
    assert_eq!(t.report_usage(), 250);
}

#[test]
fn pass_through_usage_roundtrip() {
    let mut t = Unkai::new(BumpAllocator::new(), site(31));
    let layout = Layout { size: 80000, align: 8 };
    let addr = t.allocate(layout).unwrap();
    assert_eq!(t.report_usage(), 80000);
    t.deallocate(addr, layout);
    assert_eq!(t.report_usage(), 0);
}

#[test]
fn report_caller_returns_site() {
    let t = Unkai::new(BumpAllocator::new(), site(41));
    let caller = t.report_caller();
    assert_eq!(caller.file, "tests/tracker.rs");
    assert_eq!(caller.line, 41);
    assert_eq!(caller.column, 1);
}

#[test]
fn default_tracker_is_empty() {
    let t: UnkaiGlobal = Default::default();
    assert_eq!(t.report_usage(), 0);
    assert_eq!(t.report_caller().file, "");
    assert_eq!(t.report_caller().line, 0);
}

#[test]
fn failed_allocation_leaves_usage_untouched() {
    let mut t = Unkai::new(FailingAllocator, site(59));
    let r = t.allocate(Layout { size: 4096, align: 8 });
    assert_eq!(r, Err(AllocError));
    assert_eq!(t.report_usage(), 0);
}

#[test]
fn bump_allocator_hands_out_increasing_addresses() {
    let mut b = BumpAllocator::new();
    let first = b.bump_allocate(Layout { size: 16, align: 1 }).unwrap();
    let second = b.bump_allocate(Layout { size: 24, align: 1 }).unwrap();
    assert_eq!(first, 8);
    assert_eq!(second, 24);
}

#[test]
fn bump_allocator_fails_when_address_space_ends() {
    let mut b = BumpAllocator::new();
    let huge = Layout { size: isize::MAX as usize, align: 1 };
    assert_eq!(b.bump_allocate(huge), Ok(8));
    assert_eq!(b.bump_allocate(huge), Err(AllocError));
}

#[test]
fn paired_usage_stays_nonnegative() {
    let mut t = Unkai::new(BumpAllocator::new(), site(85));
    let small = Layout { size: 100, align: 8 };
    let large = Layout { size: 300, align: 8 };
    let a = t.allocate(small).unwrap();
    assert!(t.report_usage() >= 0);
    let b = t.allocate(large).unwrap();
    assert!(t.report_usage() >= 0);
    t.deallocate(a, small);
    assert!(t.report_usage() >= 0);
    t.deallocate(b, large);
    assert_eq!(t.report_usage(), 0);
}

#[test]
fn deallocate_can_drive_usage_negative() {
    let mut t = Unkai::new(BumpAllocator::new(), site(85));
    t.deallocate(8, Layout { size: 64, align: 8 });
    assert_eq!(t.report_usage(), -64);
}
