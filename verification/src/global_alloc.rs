//! Global sampling profiler allocator: wraps a process-wide allocator, and
//! on each call above a size threshold decides by address whether to
//! sample, captures a bounded stack signature, and charges the signed byte
//! delta to that signature in a concurrent aggregation table.

use core::sync::atomic::AtomicIsize;
use core::sync::atomic::Ordering;
use dashmap::DashMap;
use std::collections::hash_map::RandomState;
use vstd::prelude::*;

use crate::allocator::AllocError;
use crate::allocator::Layout;
use crate::allocator::RawAllocator;
use crate::trace::partial_trace;
use crate::trace::resolve_symbol;

verus! {

#[verifier::external_type_specification]
#[verifier::external_body]
#[verifier::reject_recursive_types(K)]
#[verifier::reject_recursive_types(V)]
#[verifier::reject_recursive_types(S)]
pub struct ExDashMap<K, V, S = RandomState>(DashMap<K, V, S>);

/// The contents of an aggregation table: a net byte count for each stack
/// signature that has been charged.
pub uninterp spec fn table_model(m: DashMap<Vec<usize>, AtomicIsize>) -> Map<Seq<usize>, int>;

/// An aggregation table with nothing charged yet.
pub open spec fn empty_table() -> Map<Seq<usize>, int> {
    Map::empty()
}

/// Relies on dashmap::DashMap::new: creates an empty map.
#[verifier::external_body]
fn table_new() -> (m: DashMap<Vec<usize>, AtomicIsize>)
    ensures
        table_model(m) == empty_table(),
{
    DashMap::new()
}

/// How a sampled allocation of `size` bytes moves the table at signature
/// `sig`: the entry exists afterwards, every other entry is untouched,
/// and unless its counter would leave the signed machine range, the entry
/// grows by exactly `size` (a fresh entry starts at `size`).
pub open spec fn credited(
    pre: Map<Seq<usize>, int>,
    post: Map<Seq<usize>, int>,
    sig: Seq<usize>,
    size: int,
) -> bool {
    &&& post.dom() == pre.dom().insert(sig)
    &&& (!pre.dom().contains(sig) ==> post == pre.insert(sig, size))
    &&& (pre.dom().contains(sig) && pre[sig] + size <= isize::MAX as int ==> post == pre.insert(
        sig,
        pre[sig] + size,
    ))
    &&& (forall|k: Seq<usize>|
        k != sig && pre.dom().contains(k) ==> post[k] == pre[k])
}

/// How a sampled deallocation of `size` bytes moves the table at
/// signature `sig`: an existing entry shrinks by exactly `size` (unless
/// its counter would leave the signed machine range), an absent one is
/// not created and the debit is dropped; no other entry moves.
pub open spec fn debited(
    pre: Map<Seq<usize>, int>,
    post: Map<Seq<usize>, int>,
    sig: Seq<usize>,
    size: int,
) -> bool {
    &&& post.dom() == pre.dom()
    &&& (!pre.dom().contains(sig) ==> post == pre)
    &&& (pre.dom().contains(sig) && pre[sig] - size >= isize::MIN as int ==> post == pre.insert(
        sig,
        pre[sig] - size,
    ))
    &&& (forall|k: Seq<usize>|
        k != sig && pre.dom().contains(k) ==> post[k] == pre[k])
}

/// A sampled allocation of `size` bytes was charged to some captured
/// signature of at most `fetch` frames.
pub open spec fn charged(
    pre: Map<Seq<usize>, int>,
    post: Map<Seq<usize>, int>,
    fetch: usize,
    size: int,
) -> bool {
    exists|sig: Seq<usize>| sig.len() <= fetch && credited(pre, post, sig, size)
}

/// A sampled deallocation of `size` bytes was debited against some
/// captured signature of at most `fetch` frames.
pub open spec fn discharged(
    pre: Map<Seq<usize>, int>,
    post: Map<Seq<usize>, int>,
    fetch: usize,
    size: int,
) -> bool {
    exists|sig: Seq<usize>| sig.len() <= fetch && debited(pre, post, sig, size)
}

/// The reported pairs enumerate the table exactly: `sigs` lists each of
/// the table's keys once, and the i-th pair's count is the net byte count
/// the table holds for `sigs[i]`.
pub open spec fn enumerates_table(
    table: Map<Seq<usize>, int>,
    sigs: Seq<Seq<usize>>,
    counts: Seq<(String, isize)>,
) -> bool {
    &&& sigs.len() == counts.len()
    &&& (forall|i: int, j: int| 0 <= i < j < sigs.len() ==> sigs[i] != sigs[j])
    &&& (forall|i: int|
        0 <= i < sigs.len() ==> table.contains_pair(#[trigger] sigs[i], counts[i].1 as int))
    &&& (forall|k: Seq<usize>|
        #[trigger] table.dom().contains(k) ==> exists|i: int| 0 <= i < sigs.len() && sigs[i] == k)
}

/// Some listing of the table's distinct keys matches the reported counts
/// one to one: each entry's net byte count is carried by exactly one pair.
pub open spec fn enumerated(table: Map<Seq<usize>, int>, counts: Seq<(String, isize)>) -> bool {
    exists|sigs: Seq<Seq<usize>>| enumerates_table(table, sigs, counts)
}

/// Relies on dashmap::DashMap::entry, dashmap's Entry::or_default and
/// AtomicIsize::fetch_add: creates the entry for `key` at zero when it is
/// absent, then adds `delta` to its counter (wrapping at the range ends).
#[verifier::external_body]
fn table_add(m: &mut DashMap<Vec<usize>, AtomicIsize>, key: &Vec<usize>, delta: usize)
    requires
        delta as int <= isize::MAX as int,
    ensures
        credited(table_model(*old(m)), table_model(*final(m)), key@, delta as int),
{
    m.entry(key.clone()).or_default().fetch_add(delta as isize, Ordering::Relaxed);
}

/// Relies on dashmap::DashMap::get and AtomicIsize::fetch_sub: when an
/// entry for `key` exists, its counter drops by `delta` (wrapping at the
/// range ends); an absent key leaves the table untouched.
#[verifier::external_body]
fn table_sub_if_present(m: &mut DashMap<Vec<usize>, AtomicIsize>, key: &Vec<usize>, delta: usize)
    requires
        delta as int <= isize::MAX as int,
    ensures
        debited(table_model(*old(m)), table_model(*final(m)), key@, delta as int),
{
    if let Some(counter) = m.get(key) {
        counter.fetch_sub(delta as isize, Ordering::Relaxed);
    }
}

/// Relies on dashmap::DashMap::iter, dashmap's RefMulti::key and
/// RefMulti::value, and AtomicIsize::load: yields each entry of the table
/// exactly once, in an unspecified order.
#[verifier::external_body]
fn table_pairs(m: &DashMap<Vec<usize>, AtomicIsize>) -> (r: Vec<(Vec<usize>, isize)>)
    ensures
        r@.len() == table_model(*m).dom().len(),
        forall|i: int|
            0 <= i < r@.len() ==> table_model(*m).contains_pair(#[trigger] r@[i].0@, r@[i].1 as int),
        forall|i: int, j: int| 0 <= i < j < r@.len() ==> r@[i].0@ != r@[j].0@,
        forall|k: Seq<usize>|
            #[trigger] table_model(*m).dom().contains(k) ==> exists|i: int|
                0 <= i < r@.len() && r@[i].0@ == k,
{
    m.iter().map(|item| (item.key().clone(), item.value().load(Ordering::Relaxed))).collect()
}

/// Address-derived sampling predicate: an allocation at `addr` is sampled
/// iff the word-aligned address is a multiple of `rate`.
pub open spec fn spec_sampling(addr: usize, rate: usize) -> bool
    recommends
        rate >= 1,
{
    ((addr as int) / 8) % (rate as int) == 0
}

/// Decide whether the allocation that produced `addr` is sampled.
///
/// The decision is a pure function of `addr` and `rate`: repeated calls
/// on the same inputs always agree.
pub fn sampling(addr: usize, rate: usize) -> (r: bool)
    requires
        rate >= 1,
    ensures
        r == spec_sampling(addr, rate),
{
    proof {
        assert(addr >> 3 == addr / 8) by (bit_vector);
    }
    (addr >> 3) % rate == 0
}

/// Purity law for the sampling decision: it depends on the address and
/// the rate alone, so any two results obtained for the same inputs agree.
pub proof fn lemma_sampling_deterministic(addr: usize, rate: usize, r1: bool, r2: bool)
    requires
        r1 == spec_sampling(addr, rate),
        r2 == spec_sampling(addr, rate),
    ensures
        r1 == r2,
{
}

/// The reentrancy guard's states: idle, or a capture in flight.
#[derive(Clone, Copy, PartialEq, Eq, Structural, Debug)]
pub enum GuardState {
    Idle,
    Capturing,
}

/// Global sampling profiler allocator. Wraps an inner allocator; its
/// configuration is fixed at construction.
pub struct UnkaiGlobalAlloc<A> where A: RawAllocator {
    alloc: A,
    frame_counter: DashMap<Vec<usize>, AtomicIsize>,
    guard: GuardState,
    sample_rate: usize,
    skip_stack: usize,
    fetch_stack: usize,
    capture_threshold: usize,
}

impl<A> UnkaiGlobalAlloc<A> where A: RawAllocator {
    /// The aggregation table's contents.
    pub closed spec fn spec_table(&self) -> Map<Seq<usize>, int> {
        table_model(self.frame_counter)
    }

    /// The reentrancy guard's state.
    pub closed spec fn spec_guard(&self) -> GuardState {
        self.guard
    }

    /// One in `spec_rate()` word-aligned addresses is sampled.
    pub closed spec fn spec_rate(&self) -> usize {
        self.sample_rate
    }

    /// Innermost frames discarded from every captured stack.
    pub closed spec fn spec_skip(&self) -> usize {
        self.skip_stack
    }

    /// Most frames kept in a captured stack.
    pub closed spec fn spec_fetch(&self) -> usize {
        self.fetch_stack
    }

    /// Calls of this size or smaller bypass tracking entirely.
    pub closed spec fn spec_threshold(&self) -> usize {
        self.capture_threshold
    }

    /// The construction-time configuration, which never changes.
    pub open spec fn same_config(pre: Self, post: Self) -> bool {
        &&& post.spec_rate() == pre.spec_rate()
        &&& post.spec_skip() == pre.spec_skip()
        &&& post.spec_fetch() == pre.spec_fetch()
        &&& post.spec_threshold() == pre.spec_threshold()
    }

    /// A profiler is well formed when its rate is usable, its stack
    /// window fits the machine, and no capture is in flight.
    pub open spec fn wf(&self) -> bool {
        &&& self.spec_rate() >= 1
        &&& self.spec_skip() + self.spec_fetch() <= usize::MAX
        &&& self.spec_guard() is Idle
    }

    /// Build a profiler over `alloc` with the given configuration: a
    /// sampling rate (at least one), the number of innermost stack frames
    /// to skip, the most frames to keep, and the size threshold under
    /// which calls are not tracked. The table starts empty and the guard
    /// idle.
    pub fn new(
        alloc: A,
        sample_rate: usize,
        skip_stack: usize,
        fetch_stack: usize,
        capture_threshold: usize,
    ) -> (r: Self)
        requires
            sample_rate >= 1,
            skip_stack + fetch_stack <= usize::MAX,
        ensures
            r.wf(),
            r.spec_rate() == sample_rate,
            r.spec_skip() == skip_stack,
            r.spec_fetch() == fetch_stack,
            r.spec_threshold() == capture_threshold,
            r.spec_table() == empty_table(),
    {
        UnkaiGlobalAlloc {
            alloc,
            frame_counter: table_new(),
            guard: GuardState::Idle,
            sample_rate,
            skip_stack,
            fetch_stack,
            capture_threshold,
        }
    }

    /// Attempt the guard's idle-to-capturing transition; it succeeds
    /// exactly when the guard is idle, and failure changes nothing.
    fn try_acquire_guard(&mut self) -> (r: bool)
        ensures
            Self::same_config(*old(self), *final(self)),
            final(self).spec_table() == old(self).spec_table(),
            r == (old(self).spec_guard() is Idle),
            r ==> final(self).spec_guard() is Capturing,
            !r ==> final(self).spec_guard() == old(self).spec_guard(),
    {
        match self.guard {
            GuardState::Idle => {
                self.guard = GuardState::Capturing;
                true
            },
            GuardState::Capturing => false,
        }
    }

    /// The guard's unconditional transition back to idle.
    fn release_guard(&mut self)
        ensures
            Self::same_config(*old(self), *final(self)),
            final(self).spec_table() == old(self).spec_table(),
            final(self).spec_guard() is Idle,
    {
        self.guard = GuardState::Idle;
    }

    /// Serve `layout` through the inner allocator and, aside, account the
    /// allocation: a failure, or a size at or under the threshold, leaves
    /// the table untouched; otherwise, when the returned address is
    /// sampled, the allocation's bytes are charged to a captured stack
    /// signature of at most `spec_fetch()` frames. The guard is released
    /// before returning, whatever happens.
    pub fn allocate(&mut self, layout: Layout) -> (r: Result<usize, AllocError>)
        requires
            old(self).wf(),
            layout.wf(),
        ensures
            final(self).wf(),
            Self::same_config(*old(self), *final(self)),
            r is Err ==> final(self).spec_table() == old(self).spec_table(),
            layout.size <= old(self).spec_threshold() ==> final(self).spec_table() == old(
                self,
            ).spec_table(),
            r matches Ok(addr) && layout.size > old(self).spec_threshold() && !spec_sampling(
                addr,
                old(self).spec_rate(),
            ) ==> final(self).spec_table() == old(self).spec_table(),
            r matches Ok(addr) && layout.size > old(self).spec_threshold() && spec_sampling(
                addr,
                old(self).spec_rate(),
            ) ==> charged(
                old(self).spec_table(),
                final(self).spec_table(),
                old(self).spec_fetch(),
                layout.size as int,
            ),
    {
        let r = self.alloc.allocate(layout);
        let addr = match r {
            Ok(a) => a,
            Err(e) => {
                return Err(e);
            },
        };
        if layout.size <= self.capture_threshold {
            return Ok(addr);
        }
        let acquired = self.try_acquire_guard();
        if acquired {
            if sampling(addr, self.sample_rate) {
                let frames = partial_trace(self.skip_stack, self.fetch_stack);
                table_add(&mut self.frame_counter, &frames, layout.size);
                self.release_guard();
                proof {
                    assert(frames@.len() <= old(self).spec_fetch() && credited(
                        old(self).spec_table(),
                        self.spec_table(),
                        frames@,
                        layout.size as int,
                    ));
                    assert(charged(
                        old(self).spec_table(),
                        self.spec_table(),
                        old(self).spec_fetch(),
                        layout.size as int,
                    ));
                }
            } else {
                self.release_guard();
            }
        }
        Ok(addr)
    }

    /// Give the block at `addr` back through the inner allocator and,
    /// aside, account the deallocation: a size at or under the threshold,
    /// or an unsampled address, leaves the table untouched; otherwise the
    /// bytes are debited against a captured stack signature, and a debit
    /// against a signature the table does not hold is dropped. No entry
    /// is ever created here.
    pub fn deallocate(&mut self, addr: usize, layout: Layout)
        requires
            old(self).wf(),
            layout.wf(),
        ensures
            final(self).wf(),
            Self::same_config(*old(self), *final(self)),
            final(self).spec_table().dom() == old(self).spec_table().dom(),
            layout.size <= old(self).spec_threshold() ==> final(self).spec_table() == old(
                self,
            ).spec_table(),
            layout.size > old(self).spec_threshold() && !spec_sampling(
                addr,
                old(self).spec_rate(),
            ) ==> final(self).spec_table() == old(self).spec_table(),
            layout.size > old(self).spec_threshold() && spec_sampling(
                addr,
                old(self).spec_rate(),
            ) ==> discharged(
                old(self).spec_table(),
                final(self).spec_table(),
                old(self).spec_fetch(),
                layout.size as int,
            ),
    {
        if layout.size <= self.capture_threshold {
            self.alloc.deallocate(addr, layout);
            return;
        }
        if sampling(addr, self.sample_rate) {
            let frames = partial_trace(self.skip_stack, self.fetch_stack);
            table_sub_if_present(&mut self.frame_counter, &frames, layout.size);
            self.alloc.deallocate(addr, layout);
            proof {
                assert(frames@.len() <= old(self).spec_fetch() && debited(
                    old(self).spec_table(),
                    self.spec_table(),
                    frames@,
                    layout.size as int,
                ));
                assert(discharged(
                    old(self).spec_table(),
                    self.spec_table(),
                    old(self).spec_fetch(),
                    layout.size as int,
                ));
            }
        } else {
            self.alloc.deallocate(addr, layout);
        }
    }

    /// Drain the table into (stack signature, net bytes) pairs. New
    /// sample capture is paused for the drain; the pairs hold each entry
    /// of the table exactly once, in no promised order, and the table is
    /// left as it was.
    pub fn report_addr(&mut self) -> (r: Vec<(Vec<usize>, isize)>)
        requires
            old(self).wf(),
        ensures
            final(self).wf(),
            Self::same_config(*old(self), *final(self)),
            final(self).spec_table() == old(self).spec_table(),
            r@.len() == old(self).spec_table().dom().len(),
            forall|i: int|
                0 <= i < r@.len() ==> old(self).spec_table().contains_pair(
                    #[trigger] r@[i].0@,
                    r@[i].1 as int,
                ),
            forall|i: int, j: int| 0 <= i < j < r@.len() ==> r@[i].0@ != r@[j].0@,
            forall|k: Seq<usize>|
                #[trigger] old(self).spec_table().dom().contains(k) ==> exists|i: int|
                    0 <= i < r@.len() && r@[i].0@ == k,
    {
        self.guard = GuardState::Capturing;
        let r = table_pairs(&self.frame_counter);
        self.guard = GuardState::Idle;
        r
    }

    /// Drain the table, resolving each signature's instruction pointers
    /// into a block of "file:line @ name" text. Each pair carries the net
    /// byte count of one table entry, and the table is left as it was.
    pub fn report_symbol(&mut self) -> (r: Vec<(String, isize)>)
        requires
            old(self).wf(),
        ensures
            final(self).wf(),
            Self::same_config(*old(self), *final(self)),
            final(self).spec_table() == old(self).spec_table(),
            r@.len() == old(self).spec_table().dom().len(),
            enumerated(old(self).spec_table(), r@),
    {
        self.guard = GuardState::Capturing;
        let pairs = table_pairs(&self.frame_counter);
        let mut out: Vec<(String, isize)> = Vec::new();
        let mut idx: usize = 0;
        while idx < pairs.len()
            invariant
                idx <= pairs@.len(),
                out@.len() == idx,
                forall|i: int| 0 <= i < out@.len() ==> #[trigger] out@[i].1 == pairs@[i].1,
            decreases pairs@.len() - idx,
        {
            let entry = &pairs[idx];
            let mut stack = String::new();
            let mut j: usize = 0;
            while j < entry.0.len()
                decreases entry.0@.len() - j,
            {
                resolve_symbol(entry.0[j], &mut stack);
                j = j + 1;
            }
            let count = entry.1;
            out.push((stack, count));
            idx = idx + 1;
        }
        self.guard = GuardState::Idle;
        proof {
            assert(table_model(self.frame_counter) == old(self).spec_table());
            let sigs = pairs@.map_values(|p: (Vec<usize>, isize)| p.0@);
            assert(forall|i: int| 0 <= i < sigs.len() ==> #[trigger] sigs[i] == pairs@[i].0@);
            assert forall|i: int| 0 <= i < sigs.len() implies old(self).spec_table().contains_pair(
                #[trigger] sigs[i],
                out@[i].1 as int,
            ) by {
                assert(table_model(self.frame_counter).contains_pair(
                    pairs@[i].0@,
                    pairs@[i].1 as int,
                ));
                assert(out@[i].1 == pairs@[i].1);
            }
            assert forall|k: Seq<usize>|
                #[trigger] old(self).spec_table().dom().contains(k) implies exists|i: int|
                0 <= i < sigs.len() && sigs[i] == k by {
                let i = choose|i: int| 0 <= i < pairs@.len() && pairs@[i].0@ == k;
                assert(0 <= i < sigs.len() && sigs[i] == k);
            }
            assert(enumerates_table(old(self).spec_table(), sigs, out@));
            assert(enumerated(old(self).spec_table(), out@));
        }
        out
    }
}

/// First-capture law: a charge against an empty table creates exactly one
/// entry, whose value equals the allocation's size.
pub proof fn lemma_first_charge_single_entry(post: Map<Seq<usize>, int>, fetch: usize, size: usize)
    requires
        charged(empty_table(), post, fetch, size as int),
    ensures
        exists|sig: Seq<usize>|
            sig.len() <= fetch && post == empty_table().insert(sig, size as int),
{
    let sig = choose|sig: Seq<usize>|
        sig.len() <= fetch && credited(empty_table(), post, sig, size as int);
    assert(!empty_table().dom().contains(sig));
    assert(sig.len() <= fetch && post == empty_table().insert(sig, size as int));
}

/// Round-trip law for a single sample: against an empty table, a sampled
/// allocation of `size` bytes creates exactly one entry, holding `size`;
/// a matching deallocation against the same signature brings that entry
/// back to zero, and creates nothing.
pub proof fn lemma_sampled_pair_returns_to_zero(
    pre: Map<Seq<usize>, int>,
    mid: Map<Seq<usize>, int>,
    post: Map<Seq<usize>, int>,
    sig: Seq<usize>,
    size: usize,
)
    requires
        pre == empty_table(),
        size as int <= isize::MAX as int,
        credited(pre, mid, sig, size as int),
        debited(mid, post, sig, size as int),
    ensures
        mid == empty_table().insert(sig, size as int),
        post == empty_table().insert(sig, size as int).insert(sig, 0),
        post.dom() == Set::<Seq<usize>>::empty().insert(sig),
        post[sig] == 0,
{
    assert(!pre.dom().contains(sig));
    assert(mid == pre.insert(sig, size as int));
    assert(mid.dom().contains(sig));
    assert(mid[sig] == size as int);
    assert(post == mid.insert(sig, mid[sig] - size as int));
    assert(post == empty_table().insert(sig, size as int).insert(sig, 0));
    assert(post.dom() =~= Set::<Seq<usize>>::empty().insert(sig));
}

} // verus!
