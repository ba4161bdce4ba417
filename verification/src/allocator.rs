//! Per-handle usage tracker: a decorator around an inner allocator that
//! keeps an exact signed count of the bytes that flowed through one handle.

use vstd::prelude::*;

verus! {

/// A memory request: byte size and alignment, as handed to an allocator.
#[derive(Clone, Copy, PartialEq, Eq, Structural, Debug)]
pub struct Layout {
    pub size: usize,
    pub align: usize,
}

impl Layout {
    /// A layout is well formed when its size fits in a signed machine word
    /// (no real allocation request is larger) and its alignment is at
    /// least one.
    pub open spec fn wf(&self) -> bool {
        &&& self.size as int <= isize::MAX as int
        &&& self.align >= 1
    }
}

/// Failure token returned by an allocator that could not serve a request.
#[derive(Clone, Copy, PartialEq, Eq, Structural, Debug)]
pub struct AllocError;

/// The construction site of a tracker handle: a file name with a line and
/// column, fixed for the handle's lifetime.
#[derive(Debug)]
pub struct CallSite {
    pub file: String,
    pub line: u32,
    pub column: u32,
}

/// The capability an inner allocator supplies: serve a memory request with
/// the address of a fresh block, or report failure, and take a block back.
///
/// Implementations decide which requests succeed; the trackers in this
/// crate never depend on that choice and pass every outcome through
/// untouched.
pub trait RawAllocator {
    /// Serve `layout`, returning the address of the new block on success.
    fn allocate(&mut self, layout: Layout) -> (r: Result<usize, AllocError>)
        requires
            layout.wf(),
    ;

    /// Take back the block at `addr` that was returned for `layout`.
    fn deallocate(&mut self, addr: usize, layout: Layout)
        requires
            layout.wf(),
    ;
}

/// A pass-through inner allocator: hands out addresses from a growing
/// cursor and performs no real memory management. It serves as the plain
/// inner allocator for tests and for trackers built by `default`.
pub struct BumpAllocator {
    next: usize,
}

impl BumpAllocator {
    /// The address the next successful request will receive.
    pub closed spec fn spec_next(&self) -> usize {
        self.next
    }

    /// A fresh cursor, starting above the null page.
    pub fn new() -> (r: Self)
        ensures
            r.spec_next() == 8usize,
    {
        BumpAllocator { next: 8 }
    }

    /// Serve a request from the cursor: the current cursor is the block's
    /// address, and the cursor advances by the requested size. A request
    /// that would move the cursor past the address space fails and leaves
    /// the cursor alone.
    pub fn bump_allocate(&mut self, layout: Layout) -> (r: Result<usize, AllocError>)
        ensures
            old(self).spec_next() + layout.size <= usize::MAX ==> {
                &&& r == Ok::<usize, AllocError>(old(self).spec_next())
                &&& final(self).spec_next() == old(self).spec_next() + layout.size
            },
            old(self).spec_next() + layout.size > usize::MAX ==> {
                &&& r == Err::<usize, AllocError>(AllocError)
                &&& final(self).spec_next() == old(self).spec_next()
            },
    {
        if self.next <= usize::MAX - layout.size {
            let addr = self.next;
            self.next = self.next + layout.size;
            Ok(addr)
        } else {
            Err(AllocError)
        }
    }
}

impl RawAllocator for BumpAllocator {
    fn allocate(&mut self, layout: Layout) -> (r: Result<usize, AllocError>) {
        self.bump_allocate(layout)
    }

    fn deallocate(&mut self, addr: usize, layout: Layout) {
    }
}

/// Per-handle usage tracker: wraps an inner allocator and keeps a signed
/// net count of the bytes allocated through this handle, together with the
/// handle's construction site.
pub struct Unkai<A> where A: RawAllocator {
    caller: CallSite,
    usage: isize,
    alloc: A,
}

/// A tracker over the plain pass-through allocator.
pub type UnkaiGlobal = Unkai<BumpAllocator>;

impl<A> Unkai<A> where A: RawAllocator {
    /// The net bytes currently charged to this handle.
    pub closed spec fn spec_usage(&self) -> int {
        self.usage as int
    }

    /// The construction site recorded when the handle was created.
    pub closed spec fn spec_caller(&self) -> CallSite {
        self.caller
    }

    /// Create a tracker over `alloc`, recording `caller` as the
    /// construction site; the net usage starts at zero.
    pub fn new(alloc: A, caller: CallSite) -> (r: Self)
        ensures
            r.spec_usage() == 0,
            r.spec_caller() == caller,
    {
        Unkai { caller, usage: 0, alloc }
    }

    /// Current net usage in bytes: every successful allocation through
    /// this handle added its size, every deallocation subtracted it.
    pub fn report_usage(&self) -> (r: isize)
        ensures
            r as int == self.spec_usage(),
    {
        self.usage
    }

    /// Where this handle was constructed.
    pub fn report_caller(&self) -> (r: &CallSite)
        ensures
            *r == self.spec_caller(),
    {
        &self.caller
    }

    /// Serve `layout` through the inner allocator. On success the net
    /// usage grows by `layout.size`; a failure is returned untouched and
    /// leaves the usage unchanged. The construction site never changes.
    pub fn allocate(&mut self, layout: Layout) -> (r: Result<usize, AllocError>)
        requires
            layout.wf(),
            old(self).spec_usage() + layout.size <= isize::MAX as int,
        ensures
            final(self).spec_caller() == old(self).spec_caller(),
            r is Ok ==> final(self).spec_usage() == old(self).spec_usage() + layout.size,
            r is Err ==> final(self).spec_usage() == old(self).spec_usage(),
    {
        let r = self.alloc.allocate(layout);
        match r {
            Ok(addr) => {
                self.usage = self.usage + layout.size as isize;
                Ok(addr)
            },
            Err(e) => Err(e),
        }
    }

    /// Subtract `layout.size` from the net usage, then hand the block at
    /// `addr` back to the inner allocator.
    pub fn deallocate(&mut self, addr: usize, layout: Layout)
        requires
            layout.wf(),
            old(self).spec_usage() - layout.size >= isize::MIN as int,
        ensures
            final(self).spec_caller() == old(self).spec_caller(),
            final(self).spec_usage() == old(self).spec_usage() - layout.size,
    {
        self.usage = self.usage - layout.size as isize;
        self.alloc.deallocate(addr, layout);
    }
}

impl Default for Unkai<BumpAllocator> {
    /// A tracker over a fresh pass-through allocator, with an unnamed
    /// construction site and zero usage.
    fn default() -> (r: Self)
        ensures
            r.spec_usage() == 0,
            r.spec_caller().file@ == Seq::<char>::empty(),
            r.spec_caller().line == 0,
            r.spec_caller().column == 0,
    {
        Unkai::new(
            BumpAllocator::new(),
            CallSite { file: String::new(), line: 0, column: 0 },
        )
    }
}

/// One step of tracker activity: a successful allocation or a
/// deallocation of a given byte size.
pub enum UsageEvent {
    Allocated(usize),
    Freed(usize),
}

/// Net usage after replaying `events` from a starting count, moving step
/// by step exactly as `allocate` moves the count on success and
/// `deallocate` moves it on every call.
pub open spec fn usage_after(start: int, events: Seq<UsageEvent>) -> int
    decreases events.len(),
{
    if events.len() == 0 {
        start
    } else {
        let before = usage_after(start, events.drop_last());
        match events.last() {
            UsageEvent::Allocated(s) => before + s,
            UsageEvent::Freed(s) => before - s,
        }
    }
}

/// Total bytes of the allocations in `events`.
pub open spec fn total_allocated(events: Seq<UsageEvent>) -> int
    decreases events.len(),
{
    if events.len() == 0 {
        0
    } else {
        total_allocated(events.drop_last()) + match events.last() {
            UsageEvent::Allocated(s) => s as int,
            UsageEvent::Freed(_) => 0,
        }
    }
}

/// Total bytes of the deallocations in `events`.
pub open spec fn total_freed(events: Seq<UsageEvent>) -> int
    decreases events.len(),
{
    if events.len() == 0 {
        0
    } else {
        total_freed(events.drop_last()) + match events.last() {
            UsageEvent::Allocated(_) => 0,
            UsageEvent::Freed(s) => s as int,
        }
    }
}

/// Accounting law for the per-handle tracker: after any sequence of
/// successful allocations and deallocations, the net usage equals the
/// starting count plus all bytes allocated minus all bytes freed.
pub proof fn lemma_usage_accounting(start: int, events: Seq<UsageEvent>)
    ensures
        usage_after(start, events) == start + total_allocated(events) - total_freed(events),
    decreases events.len(),
{
    if events.len() > 0 {
        lemma_usage_accounting(start, events.drop_last());
    }
}

/// No prefix of `events` frees more bytes than were allocated before it.
/// Correct pairing guarantees this: when every deallocation returns, with
/// its layout, a block that a prior successful allocation through the same
/// counter handed out, and no block is returned twice, a prefix can only
/// free bytes it has already counted.
pub open spec fn never_overdrawn(events: Seq<UsageEvent>) -> bool {
    forall|n: int|
        0 <= n <= events.len() ==> total_freed(#[trigger] events.take(n)) <= total_allocated(
            events.take(n),
        )
}

/// Non-negativity law for the per-handle tracker: under correct pairing
/// the net usage never drops below its starting count at any point of the
/// activity, so a tracker that started at zero never reports a negative
/// usage. A negative count can arise only from unpaired deallocations.
pub proof fn lemma_paired_usage_nonnegative(start: int, events: Seq<UsageEvent>)
    requires
        never_overdrawn(events),
    ensures
        usage_after(start, events) >= start,
        forall|n: int|
            0 <= n <= events.len() ==> usage_after(start, #[trigger] events.take(n)) >= start,
{
    assert forall|n: int|
        0 <= n <= events.len() implies usage_after(start, #[trigger] events.take(n)) >= start by {
        lemma_usage_accounting(start, events.take(n));
    }
    assert(events.take(events.len() as int) =~= events);
    assert(usage_after(start, events.take(events.len() as int)) >= start);
}

} // verus!
