//! The allocation correlator and the memory access router.

use std::collections::HashMap;
use multimap::MultiMap;
use vstd::prelude::*;
use crate::heap::{Heap, MemRegion, hex_digit_count, hex_padded, metric_entropy_of, push_hex, resized};
use vstd::string::*;
use crate::maps::{
    allocation_entries, allocation_firsts, allocation_get_vec, allocation_insert,
    allocation_remove, appended, new_allocation_map, new_pending_map, pending_entries,
    pending_get_vec, pending_insert, pending_remove,
};
use crate::sinks::{AllocationSink, SinkAction, requested_size};

verus! {

/// A start or end address that is not known yet.
pub type Address = Option<u64>;

/// One heap allocation. `start` and `end` are set once its call has returned.
#[derive(Copy, Clone, Debug)]
pub struct Allocation {
    pub id: u64,
    pub pc: u64,
    pub start: Address,
    pub end: Address,
    pub size: usize,
}

/// An address as `0x` and its hexadecimal digits, or `[none]` when unknown.
pub open spec fn addr_text(a: Address) -> Seq<char> {
    match a {
        Some(v) => "0x"@ + hex_padded(v as nat, 1),
        None => "[none]"@,
    }
}

fn push_addr(out: &mut String, a: Address)
    ensures
        final(out)@ == old(out)@ + addr_text(a),
{
    match a {
        Some(v) => {
            out.append("0x");
            let digits = hex_digit_count(v);
            push_hex(out, v, digits);
        },
        None => out.append("[none]"),
    }
}

impl Allocation {
    /// The allocation's bounds, as `[0x2000-0x2010]`.
    pub fn describe(&self) -> (r: String)
        ensures
            r@ == "["@ + addr_text(self.start) + "-"@ + addr_text(self.end) + "]"@,
    {
        let mut out = String::new();
        out.append("[");
        push_addr(&mut out, self.start);
        out.append("-");
        push_addr(&mut out, self.end);
        out.append("]");
        proof {
            assert(out@ =~= "["@ + addr_text(self.start) + "-"@ + addr_text(self.end) + "]"@);
        }
        out
    }

    /// Whether `region` fully contains the allocation.
    pub open spec fn spec_in_range(self, region: MemRegion) -> bool {
        match (self.start, self.end) {
            (Some(start), Some(end)) => start >= region.start && end <= region.end,
            _ => false,
        }
    }

    /// Whether `addr` lies within the allocation.
    pub open spec fn spec_contains(self, addr: u64) -> bool {
        match (self.start, self.end) {
            (Some(start), Some(end)) => start <= addr && addr < end,
            _ => false,
        }
    }

    /// Checks if the allocation falls within `region`.
    pub fn in_range(&self, region: &MemRegion) -> (r: bool)
        ensures
            r == self.spec_in_range(*region),
    {
        match (self.start, self.end) {
            (Some(start), Some(end)) => start >= region.start && end <= region.end,
            _ => false,
        }
    }

    /// Checks if `addr` falls within the allocation.
    pub fn contains_address(&self, addr: u64) -> (r: bool)
        ensures
            r == self.spec_contains(addr),
    {
        match (self.start, self.end) {
            (Some(start), Some(end)) => addr >= start && addr < end,
            _ => false,
        }
    }
}

/// A call waiting for its return: the allocation it will make and its action.
#[derive(Copy, Clone, Debug)]
pub struct AllocMeta {
    pub alloc: Allocation,
    pub operation: SinkAction,
}

/// The latest change to the allocation state.
#[derive(Clone, Debug)]
pub struct AllocLatest {
    pub start: u64,
    pub allocation: Vec<Allocation>,
    pub operation: SinkAction,
}

/// Whether a memory access reads or writes.
#[derive(Copy, Clone, Debug, PartialEq, Eq, Structural)]
pub enum MemoryOperation {
    Read,
    Write,
}

impl MemoryOperation {
    pub fn as_str(&self) -> (r: &str)
        ensures
            r@ == (match self {
                MemoryOperation::Read => "READ"@,
                MemoryOperation::Write => "WRITE"@,
            }),
    {
        match self {
            MemoryOperation::Read => "READ",
            MemoryOperation::Write => "WRITE",
        }
    }
}

/// A memory access: the address, the allocation it falls in, whether it reads
/// or writes, its size and the instruction that made it.
#[derive(Copy, Clone, Debug)]
pub struct MemoryAccess {
    pub address: Address,
    pub allocation: Option<Allocation>,
    pub operation: MemoryOperation,
    pub size: u8,
    pub pc: u64,
}

/// A memory access as the host reports it.
#[derive(Copy, Clone, Debug)]
pub struct SimpleAccess {
    pub pc: u64,
    pub address: u64,
    pub size: u8,
    pub value: u64,
    pub op: MemoryOperation,
}

/// The registers of a call or a return that the tracer reads.
#[derive(Copy, Clone, Debug)]
pub struct RegState {
    pub pc: u64,
    pub arg0: u64,
    pub arg1: u64,
    pub arg2: u64,
    pub arg3: u64,
    pub ret_addr: u64,
    pub ret_val: u64,
    pub sp: u64,
}

/// An event that leaves the model inconsistent with the trace: processing
/// of that event must stop.
#[derive(Copy, Clone, Debug, PartialEq, Eq, Structural)]
pub enum TraceFault {
    /// A call of a sink whose action is not modelled (`ReAllocate`, `Unk`).
    UnsupportedSink,
    /// A sink with more arguments than the registers carry.
    MalformedSink,
    /// A requested size that does not fit in a `usize`.
    SizeOverflow,
    /// An allocation that would end past the address space.
    AddressOverflow,
    /// A first `sbrk` that does not return a page-aligned address.
    UnalignedSbrk,
    /// A heap too large to be held in memory.
    RegionTooLarge,
    /// An `sbrk` whose new end lies below the heap's start.
    SbrkBelowHeap,
    /// A write into an allocation while no heap is known.
    NoHeapForWrite,
    /// A write that is not contained in the heap's bounds.
    WriteOutOfBounds,
    /// A fingerprinted variable that would lie below address zero.
    StackUnderflow,
    /// An allocation call after every id has been handed out.
    IdsExhausted,
}

/// The allocation state of one traced process.
#[derive(Debug)]
pub struct TracerState {
    pub heap: Option<Heap>,
    pub allocations: MultiMap<u64, Allocation>,
    pub active_returns: MultiMap<u64, AllocMeta>,
    pub mappings: Vec<MemRegion>,
    pub output: Vec<String>,
    pub last_update: Option<AllocLatest>,
    pub big_endian: bool,
    pub bitness: u8,
    /// The id that the next pending allocation receives.
    pub next_id: u64,
}

/// The values at one key of a multimap are there (a key is never left empty).
pub open spec fn non_empty<V>(s: Seq<V>) -> bool {
    s.len() > 0
}

/// Every call waiting at one return address allocates or grows the heap,
/// and has an id below `next` (the id that the next call receives).
pub open spec fn pending_ok(s: Seq<AllocMeta>, next: u64) -> bool {
    &&& s.len() > 0
    &&& forall|i: int|
        0 <= i < s.len() ==> ((#[trigger] s[i]).operation == SinkAction::Allocate
            || s[i].operation == SinkAction::Sbrk) && s[i].alloc.id < next
}

/// The oldest call in `s`: the first one with the lowest id.
pub open spec fn oldest(s: Seq<AllocMeta>) -> AllocMeta {
    s[min_id_index(s)]
}

/// The index of the oldest call in `s`: the first one with the lowest id.
pub open spec fn min_id_index(s: Seq<AllocMeta>) -> int
    decreases s.len(),
{
    if s.len() <= 1 {
        0
    } else {
        let j = min_id_index(s.drop_last());
        if s.last().alloc.id < s[j].alloc.id {
            s.len() - 1
        } else {
            j
        }
    }
}

/// `m` after the oldest call waiting at `pc` is taken out.
pub open spec fn without_oldest(m: Map<u64, Seq<AllocMeta>>, pc: u64) -> Map<u64, Seq<AllocMeta>> {
    let rest = m[pc].remove(min_id_index(m[pc]));
    if rest.len() == 0 {
        m.remove(pc)
    } else {
        m.insert(pc, rest)
    }
}

/// `m` with `s` at `k`, or `m` itself when `s` is empty.
pub open spec fn put_non_empty(m: Map<u64, Seq<AllocMeta>>, k: u64, s: Seq<AllocMeta>) -> Map<
    u64,
    Seq<AllocMeta>,
> {
    if s.len() == 0 {
        m
    } else {
        m.insert(k, s)
    }
}

/// The first `j` values of `s`, without the one at `skip`.
pub open spec fn kept(s: Seq<AllocMeta>, skip: int, j: int) -> Seq<AllocMeta> {
    if skip < j {
        s.take(j).remove(skip)
    } else {
        s.take(j)
    }
}

proof fn lemma_min_id_index_bound(s: Seq<AllocMeta>)
    requires
        s.len() > 0,
    ensures
        0 <= min_id_index(s) < s.len(),
    decreases s.len(),
{
    if s.len() > 1 {
        lemma_min_id_index_bound(s.drop_last());
    }
}

/// The position of the oldest call in `v`: the first one with the lowest id.
fn oldest_index(v: &Vec<AllocMeta>) -> (r: usize)
    requires
        v@.len() > 0,
    ensures
        r == min_id_index(v@),
        r < v@.len(),
{
    let n = v.len();
    let mut best: usize = 0;
    let mut i: usize = 1;
    while i < n
        invariant
            n == v@.len(),
            n > 0,
            1 <= i <= n,
            best < i,
            best == min_id_index(v@.take(i as int)),
        decreases n - i,
    {
        proof {
            assert(v@.take(i + 1).drop_last() =~= v@.take(i as int));
        }
        if v[i].alloc.id < v[best].alloc.id {
            best = i;
        }
        i = i + 1;
    }
    proof {
        assert(v@.take(n as int) =~= v@);
    }
    best
}

/// Takes the oldest call waiting at `pc` out of the pending returns: the one
/// with the lowest id, the first such if several share it. The key goes when
/// no call is left at it.
pub fn remove_from_returns(active_returns: &mut MultiMap<u64, AllocMeta>, pc: u64)
    requires
        pending_entries(*old(active_returns)).contains_key(pc),
        pending_entries(*old(active_returns))[pc].len() > 0,
    ensures
        pending_entries(*final(active_returns)) == without_oldest(
            pending_entries(*old(active_returns)),
            pc,
        ),
{
    let ghost before = pending_entries(*active_returns);
    let v = match pending_remove(active_returns, pc) {
        Some(v) => v,
        None => return ,
    };
    let n = v.len();
    let best = oldest_index(&v);
    proof {
        lemma_min_id_index_bound(v@);
    }
    let ghost base = pending_entries(*active_returns);
    assert(base == before.remove(pc));
    let mut j: usize = 0;
    while j < n
        invariant
            n == v@.len(),
            best < n,
            j <= n,
            !base.contains_key(pc),
            pending_entries(*active_returns) == put_non_empty(base, pc, kept(v@, best as int, j as int)),
        decreases n - j,
    {
        let ghost k0 = kept(v@, best as int, j as int);
        if j != best {
            proof {
                assert(kept(v@, best as int, j + 1) =~= k0.push(v@[j as int]));
            }
            pending_insert(active_returns, pc, v[j]);
            proof {
                if k0.len() == 0 {
                    assert(Seq::<AllocMeta>::empty().push(v@[j as int]) =~= k0.push(v@[j as int]));
                } else {
                    assert(base.insert(pc, k0).insert(pc, k0.push(v@[j as int])) =~= base.insert(
                        pc,
                        k0.push(v@[j as int]),
                    ));
                }
            }
        } else {
            proof {
                assert(kept(v@, best as int, j + 1) =~= k0);
            }
        }
        j = j + 1;
    }
    proof {
        assert(kept(v@, best as int, n as int) =~= v@.remove(best as int));
        let rest = v@.remove(best as int);
        if rest.len() != 0 {
            assert(base.insert(pc, rest) =~= before.insert(pc, rest));
        }
    }
}


/// The watched functions of one traced program, by address.
pub struct TidTracerCtx {
    pub sinks: HashMap<u64, AllocationSink>,
    pub big_endian: bool,
}

/// Whether the first allocation at `k` contains `addr`.
pub open spec fn first_contains(allocs: Map<u64, Seq<Allocation>>, k: u64, addr: u64) -> bool {
    allocs.contains_key(k) && allocs[k].len() > 0 && allocs[k][0].spec_contains(addr)
}

/// Whether a committed allocation (the first one at its start) contains `addr`.
pub open spec fn in_some_allocation(allocs: Map<u64, Seq<Allocation>>, addr: u64) -> bool {
    exists|k: u64| #[trigger] first_contains(allocs, k, addr)
}

/// The pending entry that a call of `sink` with registers `state` creates.
pub open spec fn pending_call(sink: AllocationSink, state: RegState, id: u64) -> AllocMeta {
    AllocMeta {
        alloc: Allocation {
            id,
            pc: state.ret_addr,
            start: None,
            end: None,
            size: requested_size(sink.args@, state) as usize,
        },
        operation: sink.operation,
    }
}

impl TracerState {
    /// An empty state for a process with the given byte order and word width.
    pub fn new(big_endian: bool, bitness: u8) -> (r: TracerState)
        ensures
            r.wf(),
            r.heap is None,
            no_entries_allocs(r.allocs()),
            no_entries_pending(r.pending()),
            r.mappings@.len() == 0,
            r.last_update is None,
            r.big_endian == big_endian,
            r.bitness == bitness,
    {
        TracerState {
            heap: None,
            allocations: new_allocation_map(),
            active_returns: new_pending_map(),
            mappings: Vec::new(),
            output: Vec::new(),
            last_update: None,
            big_endian,
            bitness,
            next_id: 0,
        }
    }

    /// The committed allocations, by start address.
    pub open spec fn allocs(&self) -> Map<u64, Seq<Allocation>> {
        allocation_entries(self.allocations)
    }

    /// The calls waiting for their return, by return address.
    pub open spec fn pending(&self) -> Map<u64, Seq<AllocMeta>> {
        pending_entries(self.active_returns)
    }

    /// The heap, if any, is well formed; no key is left without values; every
    /// pending call allocates or grows the heap and has an id below `next_id`.
    pub open spec fn wf(&self) -> bool {
        &&& (self.heap matches Some(h) ==> h.wf())
        &&& forall|k: u64| #[trigger] self.allocs().contains_key(k) ==> non_empty(self.allocs()[k])
        &&& forall|k: u64| #[trigger] self.pending().contains_key(k) ==> pending_ok(self.pending()[k], self.next_id)
    }

    /// All but the heap is as in `old`.
    pub open spec fn same_but_heap(&self, old: &TracerState) -> bool {
        &&& self.allocations == old.allocations
        &&& self.active_returns == old.active_returns
        &&& self.mappings == old.mappings
        &&& self.output == old.output
        &&& self.last_update == old.last_update
        &&& self.big_endian == old.big_endian
        &&& self.bitness == old.bitness
        &&& self.next_id == old.next_id
    }

    /// The heap, the mapped regions and the process's word format are as in `old`.
    pub open spec fn keeps_memory(&self, old: &TracerState) -> bool {
        &&& self.heap == old.heap
        &&& self.mappings == old.mappings
        &&& self.output == old.output
        &&& self.big_endian == old.big_endian
        &&& self.bitness == old.bitness
    }
}

/// No start address holds an allocation.
pub open spec fn no_entries_allocs(m: Map<u64, Seq<Allocation>>) -> bool {
    m == Map::<u64, Seq<Allocation>>::empty()
}

/// No return address has a call waiting.
pub open spec fn no_entries_pending(m: Map<u64, Seq<AllocMeta>>) -> bool {
    m == Map::<u64, Seq<AllocMeta>>::empty()
}

/// The allocation that a return completes: the pending allocation with its
/// bounds set from `start`.
pub open spec fn completed(meta: AllocMeta, start: u64) -> Allocation {
    Allocation {
        id: meta.alloc.id,
        pc: meta.alloc.pc,
        start: Some(start),
        end: Some((start + meta.alloc.size) as u64),
        size: meta.alloc.size,
    }
}

/// The last of `regions` that holds `a`.
pub open spec fn last_holding(regions: Seq<MemRegion>, a: Allocation) -> Option<MemRegion>
    decreases regions.len(),
{
    if regions.len() == 0 {
        None
    } else if a.spec_in_range(regions.last()) {
        Some(regions.last())
    } else {
        last_holding(regions.drop_last(), a)
    }
}

/// `h` is a well-formed, zero-filled heap over `region` with the given
/// format, whose entropy is zero.
pub open spec fn fresh_heap(h: Heap, region: MemRegion, big_endian: bool, bitness: u8) -> bool {
    &&& h.wf()
    &&& h.mem_region == region
    &&& h.big_endian == big_endian
    &&& h.bitness == bitness
    &&& h.memory@ == Seq::new((region.end - region.start) as nat, |i: int| 0u8)
    &&& h.entropy == 0
}

/// The parts of the state that a return never changes are as in `old`.
pub open spec fn keeps_setup(new: TracerState, old: TracerState) -> bool {
    &&& new.mappings == old.mappings
    &&& new.output == old.output
    &&& new.big_endian == old.big_endian
    &&& new.bitness == old.bitness
    &&& new.next_id == old.next_id
}

/// What a return at `pc` with return value `start` does when the oldest
/// call waiting there is an allocation: a null pointer changes nothing; any
/// other commits the allocation at `start`, adopts as heap the last mapped
/// region holding it if there is no heap yet, and drops the oldest call.
pub open spec fn allocate_return(
    old: TracerState,
    new: TracerState,
    pc: u64,
    start: u64,
    r: Result<bool, TraceFault>,
) -> bool {
    let meta = oldest(old.pending()[pc]);
    if start == 0 {
        r == Ok::<bool, TraceFault>(false) && new == old
    } else if start + meta.alloc.size > u64::MAX {
        r == Err::<bool, TraceFault>(TraceFault::AddressOverflow) && new == old
    } else {
        let a = completed(meta, start);
        let region = if old.heap is None {
            last_holding(old.mappings@, a)
        } else {
            None
        };
        if region matches Some(m) && m.end - m.start > usize::MAX {
            r == Err::<bool, TraceFault>(TraceFault::RegionTooLarge) && new == old
        } else {
            &&& r == Ok::<bool, TraceFault>(true)
            &&& new.allocs() == appended(old.allocs(), start, a)
            &&& new.pending() == without_oldest(old.pending(), pc)
            &&& match region {
                Some(m) => new.heap matches Some(h) && fresh_heap(h, m, old.big_endian, old.bitness),
                None => new.heap == old.heap,
            }
            &&& new.last_update matches Some(lu) && lu.start == start && lu.operation
                == SinkAction::Allocate && lu.allocation@ == new.allocs()[start]
            &&& keeps_setup(new, old)
        }
    }
}

/// What a return at `pc` with return value `old_end` does when the oldest
/// call waiting there is an `sbrk`: `-1` changes nothing; otherwise the heap
/// is created over `[old_end, old_end + size)` (which must start on a page),
/// or its end moves to `old_end + size`, and the oldest call is dropped.
pub open spec fn sbrk_return(
    old: TracerState,
    new: TracerState,
    pc: u64,
    old_end: u64,
    r: Result<bool, TraceFault>,
) -> bool {
    let meta = oldest(old.pending()[pc]);
    let end = (old_end + meta.alloc.size) as u64;
    let grown = {
        &&& r == Ok::<bool, TraceFault>(true)
        &&& new.allocs() == old.allocs()
        &&& new.pending() == without_oldest(old.pending(), pc)
        &&& new.last_update matches Some(lu) && lu.start == old_end && lu.operation == SinkAction::Sbrk
            && lu.allocation@ == seq![completed(meta, old_end)]
        &&& keeps_setup(new, old)
    };
    if old_end == u64::MAX {
        r == Ok::<bool, TraceFault>(false) && new == old
    } else if old_end + meta.alloc.size > u64::MAX {
        r == Err::<bool, TraceFault>(TraceFault::AddressOverflow) && new == old
    } else {
        match old.heap {
            None => if old_end % 4096 != 0 {
                r == Err::<bool, TraceFault>(TraceFault::UnalignedSbrk) && new == old
            } else {
                &&& grown
                &&& new.heap matches Some(h) && fresh_heap(
                    h,
                    MemRegion { start: old_end, end },
                    old.big_endian,
                    old.bitness,
                )
            },
            Some(h) => if end < h.mem_region.start {
                r == Err::<bool, TraceFault>(TraceFault::SbrkBelowHeap) && new == old
            } else if end - h.mem_region.start > usize::MAX {
                r == Err::<bool, TraceFault>(TraceFault::RegionTooLarge) && new == old
            } else {
                &&& grown
                &&& new.heap matches Some(h2) && h2.wf() && h2.mem_region == MemRegion {
                    start: h.mem_region.start,
                    end,
                } && h2.big_endian == h.big_endian && h2.bitness == h.bitness && h2.memory@
                    == resized(h.memory@, (end - h.mem_region.start) as nat)
            },
        }
    }
}

/// Whether an access is a write that the heap must mirror: a recorded write
/// into a committed allocation, or into the heap's bounds.
pub open spec fn routes_write(st: TracerState, access: SimpleAccess, mirror: bool) -> bool {
    &&& mirror
    &&& access.op == MemoryOperation::Write
    &&& (in_some_allocation(st.allocs(), access.address) || (st.heap matches Some(h)
        && h.mem_region.start <= access.address && access.address < h.mem_region.end))
}

/// What a memory access does (see `process_memory_access`).
pub open spec fn access_effect(
    old: TracerState,
    new: TracerState,
    access: SimpleAccess,
    mirror: bool,
    r: Result<(), TraceFault>,
) -> bool {
    if !routes_write(old, access, mirror) {
        r == Ok::<(), TraceFault>(()) && new == old
    } else {
        match old.heap {
            None => r == Err::<(), TraceFault>(TraceFault::NoHeapForWrite) && new == old,
            Some(h) => if h.holds_range(access.address as int, access.size as int) {
                &&& r == Ok::<(), TraceFault>(())
                &&& new.same_but_heap(&old)
                &&& new.heap matches Some(h2) && h2.mem_region == h.mem_region
                    && h2.big_endian == h.big_endian && h2.bitness == h.bitness
                    && h2.memory@ == h.written(access.value, access.size as u64, access.address)
            } else {
                r == Err::<(), TraceFault>(TraceFault::WriteOutOfBounds) && new == old
            },
        }
    }
}

/// What a call of `sink` with registers `state` does (see `process_sink_call_action`).
pub open spec fn call_effect(
    old: TracerState,
    new: TracerState,
    sink: AllocationSink,
    state: RegState,
    r: Result<bool, TraceFault>,
) -> bool {
    match sink.operation {
        SinkAction::Allocate | SinkAction::Sbrk => {
            if sink.args@.len() > 4 {
                r == Err::<bool, TraceFault>(TraceFault::MalformedSink) && new == old
            } else if requested_size(sink.args@, state) > usize::MAX {
                r == Err::<bool, TraceFault>(TraceFault::SizeOverflow) && new == old
            } else if old.next_id == u64::MAX {
                r == Err::<bool, TraceFault>(TraceFault::IdsExhausted) && new == old
            } else {
                &&& r == Ok::<bool, TraceFault>(true)
                &&& new.keeps_memory(&old)
                &&& new.allocations == old.allocations
                &&& new.last_update == old.last_update
                &&& new.pending() == appended(
                    old.pending(),
                    state.ret_addr,
                    pending_call(sink, state, old.next_id),
                )
                &&& new.next_id == (old.next_id + 1) as u64
            }
        },
        SinkAction::Free => {
            &&& r == Ok::<bool, TraceFault>(old.allocs().contains_key(state.arg0))
            &&& new.keeps_memory(&old)
            &&& new.active_returns == old.active_returns
            &&& new.next_id == old.next_id
            &&& if old.allocs().contains_key(state.arg0) {
                &&& new.allocs() == old.allocs().remove(state.arg0)
                &&& new.last_update matches Some(lu)
                    && lu.start == state.arg0
                    && lu.operation == SinkAction::Free
                    && lu.allocation@ == old.allocs()[state.arg0]
            } else {
                &&& new.allocs() == old.allocs()
                &&& new.last_update == old.last_update
            }
        },
        SinkAction::ReAllocate | SinkAction::Unk => {
            r == Err::<bool, TraceFault>(TraceFault::UnsupportedSink) && new == old
        },
        SinkAction::Main | SinkAction::Log => {
            r == Ok::<bool, TraceFault>(false) && new == old
        },
    }
}

/// What an instruction at `state.pc` does when it may be the return of
/// pending calls: nothing when no call waits there; else the oldest one's
/// allocation is completed from the return value.
pub open spec fn return_effect(
    old: TracerState,
    new: TracerState,
    state: RegState,
    r: Result<bool, TraceFault>,
) -> bool {
    if !old.pending().contains_key(state.pc) {
        r == Ok::<bool, TraceFault>(false) && new == old
    } else if oldest(old.pending()[state.pc]).operation == SinkAction::Allocate {
        allocate_return(old, new, state.pc, state.ret_val, r)
    } else {
        sbrk_return(old, new, state.pc, state.ret_val, r)
    }
}

proof fn lemma_without_oldest_keeps_ok(m: Map<u64, Seq<AllocMeta>>, pc: u64, next: u64)
    requires
        m.contains_key(pc),
        forall|k: u64| #[trigger] m.contains_key(k) ==> pending_ok(m[k], next),
    ensures
        forall|k: u64| #[trigger]
            without_oldest(m, pc).contains_key(k) ==> pending_ok(without_oldest(m, pc)[k], next),
{
    let s = m[pc];
    assert(pending_ok(s, next));
    lemma_min_id_index_bound(s);
    let idx = min_id_index(s);
    let rest = s.remove(idx);
    assert forall|i: int| 0 <= i < rest.len() implies ((#[trigger] rest[i]).operation
        == SinkAction::Allocate || rest[i].operation == SinkAction::Sbrk) && rest[i].alloc.id < next by {
        if i < idx {
            assert(rest[i] == s[i]);
        } else {
            assert(rest[i] == s[i + 1]);
        }
    }
    let w = without_oldest(m, pc);
    assert forall|k: u64| #[trigger] w.contains_key(k) implies pending_ok(w[k], next) by {
        if k != pc {
            assert(m.contains_key(k));
        }
    }
}

/// The last of `mappings` that holds `a`.
fn find_region(mappings: &Vec<MemRegion>, a: &Allocation) -> (r: Option<MemRegion>)
    ensures
        r == last_holding(mappings@, *a),
        r matches Some(m) ==> a.spec_in_range(m),
{
    let n = mappings.len();
    let mut found: Option<MemRegion> = None;
    let mut i: usize = 0;
    while i < n
        invariant
            n == mappings@.len(),
            i <= n,
            found == last_holding(mappings@.take(i as int), *a),
            found matches Some(m) ==> a.spec_in_range(m),
        decreases n - i,
    {
        proof {
            assert(mappings@.take(i + 1).drop_last() =~= mappings@.take(i as int));
        }
        if a.in_range(&mappings[i]) {
            found = Some(mappings[i]);
        }
        i = i + 1;
    }
    proof {
        assert(mappings@.take(n as int) =~= mappings@);
    }
    found
}

/// A call that requests some bytes, answered at its return address by a
/// non-null pointer `p`, commits the allocation `[p, p + size)`; answered
/// by null, it commits nothing and reports failure.
pub proof fn lemma_allocate_then_return(
    s0: TracerState,
    s1: TracerState,
    s2: TracerState,
    sink: AllocationSink,
    call: RegState,
    ret: RegState,
    r1: Result<bool, TraceFault>,
    r2: Result<bool, TraceFault>,
)
    requires
        s0.wf(),
        s0.heap is Some,
        s0.next_id < u64::MAX,
        !s0.pending().contains_key(call.ret_addr),
        sink.operation == SinkAction::Allocate,
        sink.args@.len() <= 4,
        requested_size(sink.args@, call) <= usize::MAX,
        ret.pc == call.ret_addr,
        ret.ret_val + requested_size(sink.args@, call) <= u64::MAX,
        call_effect(s0, s1, sink, call, r1),
        return_effect(s1, s2, ret, r2),
    ensures
        r1 == Ok::<bool, TraceFault>(true),
        ret.ret_val == 0 ==> r2 == Ok::<bool, TraceFault>(false) && s2 == s1,
        ret.ret_val != 0 ==> {
            &&& r2 == Ok::<bool, TraceFault>(true)
            &&& s2.allocs().contains_key(ret.ret_val)
            &&& s2.allocs()[ret.ret_val].last().start == Some(ret.ret_val)
            &&& s2.allocs()[ret.ret_val].last().end == Some(
                (ret.ret_val + requested_size(sink.args@, call)) as u64,
            )
            &&& !s2.pending().contains_key(call.ret_addr)
        },
{
    let meta = pending_call(sink, call, s0.next_id);
    assert(s1.pending()[call.ret_addr] == seq![meta]);
    assert(min_id_index(seq![meta]) == 0);
    assert(s1.pending()[call.ret_addr].remove(0) =~= Seq::<AllocMeta>::empty());
}

/// Freeing a committed allocation's start removes it; freeing the same
/// pointer again finds nothing and reports it untracked.
pub proof fn lemma_free_twice(
    s0: TracerState,
    s1: TracerState,
    s2: TracerState,
    sink: AllocationSink,
    call: RegState,
    r1: Result<bool, TraceFault>,
    r2: Result<bool, TraceFault>,
)
    requires
        sink.operation == SinkAction::Free,
        s0.allocs().contains_key(call.arg0),
        call_effect(s0, s1, sink, call, r1),
        call_effect(s1, s2, sink, call, r2),
    ensures
        r1 == Ok::<bool, TraceFault>(true),
        !s1.allocs().contains_key(call.arg0),
        r2 == Ok::<bool, TraceFault>(false),
        s2.allocs() == s1.allocs(),
{
}

/// Growing the heap with `sbrk` keeps every byte written before, fills the
/// new part with zeros, moves the end to the old end plus the requested size,
/// and recomputes the entropy over the grown buffer.
pub proof fn lemma_sbrk_growth_keeps_bytes(
    old: TracerState,
    new: TracerState,
    state: RegState,
    r: Result<bool, TraceFault>,
)
    requires
        old.wf(),
        old.pending().contains_key(state.pc),
        oldest(old.pending()[state.pc]).operation == SinkAction::Sbrk,
        old.heap is Some,
        state.ret_val != u64::MAX,
        state.ret_val + oldest(old.pending()[state.pc]).alloc.size <= u64::MAX,
        state.ret_val + oldest(old.pending()[state.pc]).alloc.size >= old.heap->0.mem_region.end,
        state.ret_val + oldest(old.pending()[state.pc]).alloc.size - old.heap->0.mem_region.start
            <= usize::MAX,
        return_effect(old, new, state, r),
    ensures
        r == Ok::<bool, TraceFault>(true),
        ({
            let h = old.heap->0;
            let end = state.ret_val + oldest(old.pending()[state.pc]).alloc.size;
            new.heap matches Some(h2) && h2.mem_region.start == h.mem_region.start
                && h2.mem_region.end == end && h2.memory@.len() == end - h.mem_region.start
                && h2.memory@.subrange(0, h.memory@.len() as int) == h.memory@ && (forall|i: int|
                h.memory@.len() <= i < h2.memory@.len() ==> h2.memory@[i] == 0u8)
                && h2.entropy == metric_entropy_of(h2.memory@)
        }),
{
    let h = old.heap->0;
    assert(h.wf());
    let h2 = new.heap->0;
    assert(h2.memory@.subrange(0, h.memory@.len() as int) =~= h.memory@);
}

/// The allocation state of one process, as one unit.
#[derive(Debug)]
pub struct PidTracerCtx(pub TracerState);

impl PidTracerCtx {
    pub open spec fn wf(&self) -> bool {
        self.0.wf()
    }

    /// A free: removes every allocation that starts at the pointer argument.
    fn sink_free_call(&mut self, state: &RegState) -> (r: bool)
        requires
            old(self).wf(),
        ensures
            final(self).wf(),
            final(self).0.keeps_memory(&old(self).0),
            final(self).0.active_returns == old(self).0.active_returns,
            final(self).0.next_id == old(self).0.next_id,
            r == old(self).0.allocs().contains_key(state.arg0),
            r ==> {
                &&& final(self).0.allocs() == old(self).0.allocs().remove(state.arg0)
                &&& final(self).0.last_update matches Some(lu)
                    && lu.start == state.arg0
                    && lu.operation == SinkAction::Free
                    && lu.allocation@ == old(self).0.allocs()[state.arg0]
            },
            !r ==> final(self).0.allocs() == old(self).0.allocs() && final(self).0.last_update
                == old(self).0.last_update,
    {
        let addr: u64 = state.arg0;
        let ghost before = self.0.allocs();
        match allocation_remove(&mut self.0.allocations, addr) {
            Some(allocs) => {
                self.0.last_update = Some(
                    AllocLatest { allocation: allocs, start: addr, operation: SinkAction::Free },
                );
                proof {
                    let now = self.0.allocs();
                    assert forall|k: u64| #[trigger] now.contains_key(k) implies non_empty(now[k]) by {
                        assert(before.contains_key(k));
                    }
                    assert(self.0.pending() == old(self).0.pending());
                }
                true
            },
            None => {
                proof {
                    assert(self.0.allocs() == before);
                    assert(self.0.pending() == old(self).0.pending());
                }
                false
            },
        }
    }

    /// An allocation or `sbrk` call: records a pending entry keyed by the
    /// call's return address, holding the requested size.
    fn sink_alloc_call(&mut self, sink: &AllocationSink, state: &RegState) -> (r: bool)
        requires
            old(self).wf(),
            sink.operation == SinkAction::Allocate || sink.operation == SinkAction::Sbrk,
            sink.args@.len() <= 4,
            requested_size(sink.args@, *state) <= usize::MAX,
            old(self).0.next_id < u64::MAX,
        ensures
            final(self).wf(),
            r,
            final(self).0.keeps_memory(&old(self).0),
            final(self).0.allocations == old(self).0.allocations,
            final(self).0.last_update == old(self).0.last_update,
            final(self).0.pending() == appended(
                old(self).0.pending(),
                state.ret_addr,
                pending_call(*sink, *state, old(self).0.next_id),
            ),
            final(self).0.next_id == (old(self).0.next_id + 1) as u64,
    {
        let ret = state.ret_addr;
        let alloc_size = sink.get_allocation_size(state);
        let alloc = Allocation { id: self.0.next_id, pc: ret, start: None, end: None, size: alloc_size };
        let meta = AllocMeta { alloc, operation: sink.operation };
        pending_insert(&mut self.0.active_returns, ret, meta);
        self.0.next_id = self.0.next_id + 1;
        proof {
            let p = self.0.pending();
            let q = old(self).0.pending();
            let next = self.0.next_id;
            let prev_next = old(self).0.next_id;
            assert(self.0.allocs() == old(self).0.allocs());
            assert forall|k: u64| #[trigger] p.contains_key(k) implies pending_ok(p[k], next) by {
                if k == ret {
                    let prev = if q.contains_key(k) { q[k] } else { Seq::<AllocMeta>::empty() };
                    if q.contains_key(k) {
                        assert(pending_ok(q[k], prev_next));
                    }
                    let s = p[k];
                    assert(s == prev.push(meta));
                    assert forall|i: int| 0 <= i < s.len() implies ((#[trigger] s[i]).operation
                        == SinkAction::Allocate || s[i].operation == SinkAction::Sbrk) && s[i].alloc.id < next by {
                        if i < s.len() - 1 {
                            assert(s[i] == prev[i]);
                        }
                    }
                } else {
                    assert(q.contains_key(k));
                    assert(pending_ok(q[k], prev_next));
                    assert(p[k] == q[k]);
                }
            }
        }
        true
    }

    /// Handles a call of a watched function. An allocation or `sbrk` call
    /// records a pending entry and gives `Ok(true)`; a free removes the
    /// allocations at its pointer and tells whether there were any; entry
    /// into `main` or a logging function changes nothing and gives `Ok(false)`.
    pub fn process_sink_call_action(&mut self, sink: &AllocationSink, state: &RegState) -> (r: Result<bool, TraceFault>)
        requires
            old(self).wf(),
        ensures
            final(self).wf(),
            call_effect(old(self).0, final(self).0, *sink, *state, r),
    {
        match sink.operation {
            SinkAction::Allocate | SinkAction::Sbrk => {
                if sink.args.len() > 4 {
                    return Err(TraceFault::MalformedSink);
                }
                if !sink.size_fits(state) {
                    return Err(TraceFault::SizeOverflow);
                }
                if self.0.next_id == u64::MAX {
                    return Err(TraceFault::IdsExhausted);
                }
                Ok(self.sink_alloc_call(sink, state))
            },
            SinkAction::Free => Ok(self.sink_free_call(state)),
            SinkAction::ReAllocate | SinkAction::Unk => Err(TraceFault::UnsupportedSink),
            SinkAction::Main | SinkAction::Log => Ok(false),
        }
    }

    /// Whether a return at `state.pc` completes a pending allocation call
    /// with a non-null pointer.
    pub fn is_matched_return(&self, state: &RegState) -> (r: bool)
        ensures
            r == (self.0.pending().contains_key(state.pc) && self.0.pending()[state.pc].len() > 0
                && oldest(self.0.pending()[state.pc]).operation == SinkAction::Allocate
                && state.ret_val != 0),
    {
        match self.oldest_pending(state.pc) {
            Some(meta) => match meta.operation {
                SinkAction::Allocate => state.ret_val != 0,
                _ => false,
            },
            None => false,
        }
    }

    /// The oldest call waiting for a return at `pc`, if any.
    pub fn oldest_pending(&self, pc: u64) -> (r: Option<AllocMeta>)
        ensures
            r == (if self.0.pending().contains_key(pc) && self.0.pending()[pc].len() > 0 {
                Some(oldest(self.0.pending()[pc]))
            } else {
                None
            }),
    {
        match pending_get_vec(&self.0.active_returns, pc) {
            Some(v) => {
                if v.len() == 0 {
                    None
                } else {
                    let i = oldest_index(&v);
                    Some(v[i])
                }
            },
            None => None,
        }
    }

    /// Some committed allocation containing `addr`, the first one at its start.
    pub fn find_allocation(&self, addr: u64) -> (r: Option<Allocation>)
        requires
            self.wf(),
        ensures
            r is Some <==> in_some_allocation(self.0.allocs(), addr),
            r matches Some(a) ==> a.spec_contains(addr),
    {
        let firsts = allocation_firsts(&self.0.allocations);
        let ghost allocs = self.0.allocs();
        let n = firsts.len();
        let mut found: Option<Allocation> = None;
        let mut i: usize = 0;
        while i < n
            invariant
                n == firsts@.len(),
                i <= n,
                allocs == self.0.allocs(),
                forall|j: int|
                    0 <= j < firsts@.len() ==> {
                        let (k, a) = #[trigger] firsts@[j];
                        &&& allocs.contains_key(k)
                        &&& allocs[k].len() > 0
                        &&& a == allocs[k][0]
                    },
                found is Some <==> exists|j: int| 0 <= j < i && (#[trigger] firsts@[j]).1.spec_contains(addr),
                found matches Some(a) ==> a.spec_contains(addr),
            decreases n - i,
        {
            let (_, a) = firsts[i];
            if a.contains_address(addr) {
                found = Some(a);
            }
            i = i + 1;
        }
        proof {
            if found is Some {
                let j = choose|j: int| 0 <= j < n && (#[trigger] firsts@[j]).1.spec_contains(addr);
                assert(first_contains(allocs, firsts@[j].0, addr));
            }
            if in_some_allocation(allocs, addr) {
                let k = choose|k: u64| #[trigger] first_contains(allocs, k, addr);
                assert(allocs.contains_key(k));
                let j = choose|j: int| 0 <= j < firsts@.len() && #[trigger] firsts@[j].0 == k;
                assert(firsts@[j].1.spec_contains(addr));
            }
        }
        found
    }

    /// Routes a memory access. A write (when `mirror` is set) that falls in a
    /// committed allocation, or else within the heap's bounds, is written to
    /// the heap; anything else leaves the state as it is. A routed write with
    /// no heap, or one that does not fit in the heap, is a fault.
    pub fn process_memory_access(&mut self, access: &SimpleAccess, mirror: bool) -> (r: Result<(), TraceFault>)
        requires
            old(self).wf(),
        ensures
            final(self).wf(),
            access_effect(old(self).0, final(self).0, *access, mirror, r),
    {
        let found = self.find_allocation(access.address);
        let is_write = mirror && match access.op {
            MemoryOperation::Write => true,
            MemoryOperation::Read => false,
        };
        if !is_write {
            return Ok(());
        }
        match &mut self.0.heap {
            Some(heap) => {
                let in_heap = access.address >= heap.start() && access.address < heap.end();
                if found.is_none() && !in_heap {
                    return Ok(());
                }
                if access.address < heap.start() || access.address > heap.end() || access.size as u64
                    > heap.end() - access.address {
                    return Err(TraceFault::WriteOutOfBounds);
                }
                heap.update(access.value, access.size as u64, access.address);
                proof {
                    assert(self.0.allocs() == old(self).0.allocs());
                    assert(self.0.pending() == old(self).0.pending());
                }
                Ok(())
            },
            None => {
                if found.is_some() {
                    Err(TraceFault::NoHeapForWrite)
                } else {
                    Ok(())
                }
            },
        }
    }

    /// A return into a pending allocation call: commits the allocation.
    fn return_allocate(&mut self, meta: AllocMeta, state: &RegState) -> (r: Result<bool, TraceFault>)
        requires
            old(self).wf(),
            old(self).0.pending().contains_key(state.pc),
            meta == oldest(old(self).0.pending()[state.pc]),
            meta.operation == SinkAction::Allocate,
        ensures
            final(self).wf(),
            allocate_return(old(self).0, final(self).0, state.pc, state.ret_val, r),
    {
        let start: u64 = state.ret_val;
        if start == 0 {
            return Ok(false);
        }
        if meta.alloc.size as u64 > u64::MAX - start {
            return Err(TraceFault::AddressOverflow);
        }
        let end = start + meta.alloc.size as u64;
        let alloc = Allocation {
            id: meta.alloc.id,
            pc: meta.alloc.pc,
            start: Some(start),
            end: Some(end),
            size: meta.alloc.size,
        };
        if self.0.heap.is_none() {
            match find_region(&self.0.mappings, &alloc) {
                Some(m) => {
                    if m.end - m.start > usize::MAX as u64 {
                        return Err(TraceFault::RegionTooLarge);
                    }
                    self.0.heap = Some(Heap::zeroed(m, self.0.big_endian, self.0.bitness));
                },
                None => {},
            }
        }
        proof {
            assert(pending_ok(old(self).0.pending()[state.pc], old(self).0.next_id));
            lemma_without_oldest_keeps_ok(old(self).0.pending(), state.pc, old(self).0.next_id);
            assert(self.0.pending() == old(self).0.pending());
            assert(self.0.allocs() == old(self).0.allocs());
        }
        allocation_insert(&mut self.0.allocations, start, alloc);
        remove_from_returns(&mut self.0.active_returns, state.pc);
        let v = match allocation_get_vec(&self.0.allocations, start) {
            Some(v) => v,
            None => Vec::new(),
        };
        self.0.last_update = Some(
            AllocLatest { start, operation: SinkAction::Allocate, allocation: v },
        );
        proof {
            let now = self.0.allocs();
            let before = old(self).0.allocs();
            assert forall|k: u64| #[trigger] now.contains_key(k) implies non_empty(now[k]) by {
                if k != start {
                    assert(before.contains_key(k));
                }
            }
        }
        Ok(true)
    }

    /// A return into a pending `sbrk` call: creates or grows the heap.
    fn return_sbrk(&mut self, meta: AllocMeta, state: &RegState) -> (r: Result<bool, TraceFault>)
        requires
            old(self).wf(),
            old(self).0.pending().contains_key(state.pc),
            meta == oldest(old(self).0.pending()[state.pc]),
            meta.operation == SinkAction::Sbrk,
        ensures
            final(self).wf(),
            sbrk_return(old(self).0, final(self).0, state.pc, state.ret_val, r),
    {
        let old_end: u64 = state.ret_val;
        if old_end == u64::MAX {
            return Ok(false);
        }
        if meta.alloc.size as u64 > u64::MAX - old_end {
            return Err(TraceFault::AddressOverflow);
        }
        let end = old_end + meta.alloc.size as u64;
        let alloc = Allocation {
            id: meta.alloc.id,
            pc: meta.alloc.pc,
            start: Some(old_end),
            end: Some(end),
            size: meta.alloc.size,
        };
        if self.0.heap.is_none() {
            if old_end % 4096 != 0 {
                return Err(TraceFault::UnalignedSbrk);
            }
            let region = MemRegion { start: old_end, end };
            self.0.heap = Some(Heap::zeroed(region, self.0.big_endian, self.0.bitness));
        } else {
            match &mut self.0.heap {
                Some(h) => {
                    if end < h.start() {
                        return Err(TraceFault::SbrkBelowHeap);
                    }
                    if end - h.start() > usize::MAX as u64 {
                        return Err(TraceFault::RegionTooLarge);
                    }
                    h.set_end(end);
                },
                None => {},
            }
        }
        proof {
            assert(pending_ok(old(self).0.pending()[state.pc], old(self).0.next_id));
            lemma_without_oldest_keeps_ok(old(self).0.pending(), state.pc, old(self).0.next_id);
            assert(self.0.pending() == old(self).0.pending());
            assert(self.0.allocs() == old(self).0.allocs());
        }
        remove_from_returns(&mut self.0.active_returns, state.pc);
        let mut v: Vec<Allocation> = Vec::new();
        v.push(alloc);
        self.0.last_update = Some(
            AllocLatest { start: old_end, operation: SinkAction::Sbrk, allocation: v },
        );
        proof {
            assert(v@ =~= seq![completed(meta, old_end)]);
            assert(self.0.allocs() == old(self).0.allocs());
        }
        Ok(true)
    }

    /// Handles an instruction that may be the return of a pending call: when
    /// calls wait at `state.pc`, the oldest one's allocation is completed from
    /// the return value (see `allocate_return` and `sbrk_return`). Gives
    /// whether an allocation was committed or the heap grew.
    pub fn process_sink_return_action(&mut self, state: &RegState) -> (r: Result<bool, TraceFault>)
        requires
            old(self).wf(),
        ensures
            final(self).wf(),
            return_effect(old(self).0, final(self).0, *state, r),
    {
        let meta = match self.oldest_pending(state.pc) {
            Some(meta) => meta,
            None => {
                proof {
                    if self.0.pending().contains_key(state.pc) {
                        assert(pending_ok(self.0.pending()[state.pc], self.0.next_id));
                    }
                }
                return Ok(false);
            },
        };
        proof {
            assert(pending_ok(self.0.pending()[state.pc], self.0.next_id));
            lemma_min_id_index_bound(self.0.pending()[state.pc]);
        }
        match meta.operation {
            SinkAction::Allocate => self.return_allocate(meta, state),
            _ => {
                assert(meta.operation == SinkAction::Sbrk);
                self.return_sbrk(meta, state)
            },
        }
    }

    /// Records a mapped region, where a later allocation may find its heap.
    pub fn process_mmap(&mut self, region: &MemRegion)
        requires
            old(self).wf(),
        ensures
            final(self).wf(),
            final(self).0.mappings@ == old(self).0.mappings@.push(*region),
            final(self).0.heap == old(self).0.heap,
            final(self).0.output == old(self).0.output,
            final(self).0.big_endian == old(self).0.big_endian,
            final(self).0.bitness == old(self).0.bitness,
            final(self).0.allocations == old(self).0.allocations,
            final(self).0.active_returns == old(self).0.active_returns,
            final(self).0.last_update == old(self).0.last_update,
            final(self).0.next_id == old(self).0.next_id,
    {
        self.0.mappings.push(*region);
        proof {
            assert(self.0.allocs() == old(self).0.allocs());
            assert(self.0.pending() == old(self).0.pending());
        }
    }
}

} // verus!
