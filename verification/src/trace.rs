//! Bounded stack capture: collect instruction pointers from the live call
//! stack and select the window a profiler configuration asks for.

use std::fmt::Write;
use vstd::prelude::*;

verus! {

/// Append `ip` to `buf` while the buffer holds fewer than `limit` entries,
/// and report whether there is room for more afterwards.
pub(crate) fn push_within(buf: &mut Vec<usize>, ip: usize, limit: usize) -> (more: bool)
    ensures
        old(buf)@.len() < limit ==> final(buf)@ == old(buf)@.push(ip),
        old(buf)@.len() >= limit ==> final(buf)@ == old(buf)@,
        more == (final(buf)@.len() < limit),
{
    if buf.len() < limit {
        buf.push(ip);
    }
    buf.len() < limit
}

/// Relies on backtrace::trace: walks the live call stack outward from this
/// call and hands each frame's instruction pointer to the visitor, in
/// order, until the visitor declines more. Which pointers come back
/// depends on the machine state, so only the bound is stated.
#[verifier::external_body]
pub(crate) fn raw_trace_ips(limit: usize) -> (r: Vec<usize>)
    ensures
        r@.len() <= limit,
{
    let mut res: Vec<usize> = Vec::new();
    backtrace::trace(|frame| push_within(&mut res, frame.ip() as usize, limit));
    res
}

/// The window of `ips` that a profiler keeps: drop the `skip` innermost
/// entries, then take at most `fetch` of what remains, in order.
pub fn select_frames(ips: &Vec<usize>, skip: usize, fetch: usize) -> (r: Vec<usize>)
    requires
        skip + fetch <= usize::MAX,
    ensures
        r@ == ips@.subrange(
            if skip < ips@.len() { skip as int } else { ips@.len() as int },
            if skip + fetch < ips@.len() { skip + fetch } else { ips@.len() as int },
        ),
        r@.len() <= fetch,
{
    let len = ips.len();
    let lo = if skip < len { skip } else { len };
    let hi = if skip + fetch < len { skip + fetch } else { len };
    let mut r: Vec<usize> = Vec::new();
    let mut i = lo;
    while i < hi
        invariant
            lo <= i <= hi <= len,
            len == ips@.len(),
            r@ == ips@.subrange(lo as int, i as int),
        decreases hi - i,
    {
        let ip = ips[i];
        r.push(ip);
        proof {
            assert(r@ =~= ips@.subrange(lo as int, i + 1));
        }
        i = i + 1;
    }
    r
}

/// Capture a bounded stack signature from the live call stack: skip the
/// `skip` innermost frames, then keep at most `fetch` instruction
/// pointers. Fewer available frames than asked for yield a shorter
/// signature, which is used as it is.
pub fn partial_trace(skip: usize, fetch: usize) -> (r: Vec<usize>)
    requires
        skip + fetch <= usize::MAX,
    ensures
        r@.len() <= fetch,
{
    let ips = raw_trace_ips(skip + fetch);
    select_frames(&ips, skip, fetch)
}

/// Relies on backtrace::resolve: appends to `out` one "file:line @ name"
/// line for each symbol known at instruction pointer `ip`. What is known
/// depends on the machine, so only growth is stated.
#[verifier::external_body]
pub(crate) fn resolve_symbol(ip: usize, out: &mut String)
    ensures
        final(out)@.len() >= old(out)@.len(),
{
    backtrace::resolve(ip as _, |symbol| {
        if let Some(file_name) = symbol.filename() {
            let _ = write!(out, "{}", file_name.display());
        }
        if let Some(line_num) = symbol.lineno() {
            let _ = write!(out, ":{:?}", line_num);
        }
        if let Some(name) = symbol.name() {
            let _ = write!(out, " @ {:?}", name);
        }
        let _ = writeln!(out);
    });
}

} // verus!
