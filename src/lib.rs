//! Reconstructs the heap and the call stack of a traced process from a stream
//! of execution events: branches, memory accesses, mapped regions and calls
//! into allocator-like functions.

pub mod arch;
pub mod backtrace;
pub mod context;
pub mod endian;
pub mod heap;
pub mod loader;
pub mod maps;
pub mod sinks;
pub mod symbols;
pub mod text;
pub mod tracer;
pub mod variables;

use vstd::prelude::*;

verus! {

/// Which memory accesses the host reports: all of them (a target that
/// pushes return addresses on the stack needs the writes too).
pub fn hook_mem(_pc: u64, _write: bool, _size: usize) -> (r: bool)
    ensures
        r,
{
    true
}

} // verus!
