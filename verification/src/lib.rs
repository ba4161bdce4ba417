//! Allocation instrumentation: a per-handle usage tracker that counts the
//! net bytes flowing through one allocator handle, and a global sampling
//! profiler that attributes net allocated bytes to call-stack signatures.

pub mod allocator;
pub mod global_alloc;
pub mod trace;

pub use allocator::{AllocError, BumpAllocator, CallSite, Layout, RawAllocator, Unkai, UnkaiGlobal};
pub use global_alloc::{sampling, GuardState, UnkaiGlobalAlloc};
