//! Queries that only the collector framework can answer.
use vstd::prelude::*;
use crate::heap::in_heap;

verus! {

/// Relies on `mmtk::memory_manager::is_mmtk_object`: whether the framework
/// has an object starting at a word-aligned address. Its documentation asks
/// callers to check the alignment first. The answer depends on the
/// framework's state at the time of the call, so nothing is stated of it.
#[verifier::external_body]
fn framework_is_object(addr: usize) -> (r: bool)
    requires
        addr % 8 == 0,
{
    mmtk::memory_manager::is_mmtk_object(mmtk::util::Address::ZERO + addr)
}

/// Whether a word met during a scan is taken as an object: it lies in the
/// heap `[start, end)`, is word-aligned, and the framework has an object there.
/// Words outside the heap or unaligned are never taken, and are not shown to
/// the framework.
pub fn admits_object(start: usize, end: usize, addr: usize) -> (r: bool)
    ensures
        r ==> in_heap(start, end, addr) && addr % 8 == 0,
        !in_heap(start, end, addr) || addr % 8 != 0 ==> !r,
{
    if start <= addr && addr < end && addr % 8 == 0 {
        framework_is_object(addr)
    } else {
        false
    }
}

} // verus!
