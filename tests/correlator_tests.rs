use cannoli_client::heap::MemRegion;
use cannoli_client::sinks::{AllocationSink, SinkAction, VarType};
use cannoli_client::tracer::{
    remove_from_returns, AllocMeta, Allocation, MemoryOperation, PidTracerCtx, RegState,
    SimpleAccess, TraceFault, TracerState,
};
use multimap::MultiMap;

fn sink(operation: SinkAction, args: Vec<VarType>) -> AllocationSink {
    AllocationSink {
        address: 0x400100,
        operation,
        args,
        names: vec!["sink".to_string()],
        returns: VarType::Pointer,
    }
}

fn malloc() -> AllocationSink {
    sink(SinkAction::Allocate, vec![VarType::Size])
}

fn call(arg0: u64, ret_addr: u64) -> RegState {
    RegState { pc: 0x400100, arg0, arg1: 0, arg2: 0, arg3: 0, ret_addr, ret_val: 0, sp: 0 }
}

fn ret(pc: u64, ret_val: u64) -> RegState {
    RegState { pc, arg0: 0, arg1: 0, arg2: 0, arg3: 0, ret_addr: 0, ret_val, sp: 0 }
}

fn fresh() -> PidTracerCtx {
    PidTracerCtx(TracerState::new(false, 32))
}

#[test]
fn allocation_commits_on_return() {
    let mut pid = fresh();
    assert_eq!(pid.process_sink_call_action(&malloc(), &call(0x10, 0x400200)), Ok(true));
    assert!(pid.is_matched_return(&ret(0x400200, 0x2000)));
    assert_eq!(pid.process_sink_return_action(&ret(0x400200, 0x2000)), Ok(true));
    let committed = pid.0.allocations.get_vec(&0x2000).unwrap();
    assert_eq!(committed.len(), 1);
    assert_eq!(committed[0].start, Some(0x2000));
    assert_eq!(committed[0].end, Some(0x2010));
    assert_eq!(committed[0].size, 0x10);
    assert!(pid.0.active_returns.get(&0x400200).is_none());
    let latest = pid.0.last_update.as_ref().unwrap();
    assert_eq!(latest.start, 0x2000);
    assert!(matches!(latest.operation, SinkAction::Allocate));
    assert_eq!(latest.allocation.len(), 1);
}

#[test]
fn null_return_commits_nothing() {
    let mut pid = fresh();
    assert_eq!(pid.process_sink_call_action(&malloc(), &call(0x10, 0x400200)), Ok(true));
    assert!(!pid.is_matched_return(&ret(0x400200, 0)));
    assert_eq!(pid.process_sink_return_action(&ret(0x400200, 0)), Ok(false));
    assert!(pid.0.allocations.is_empty());
    assert!(pid.0.last_update.is_none());
}

#[test]
fn return_elsewhere_is_no_match() {
    let mut pid = fresh();
    pid.process_sink_call_action(&malloc(), &call(0x10, 0x400200)).unwrap();
    assert_eq!(pid.process_sink_return_action(&ret(0x400204, 0x2000)), Ok(false));
    assert!(pid.0.allocations.is_empty());
}

#[test]
fn free_round_trip() {
    let mut pid = fresh();
    pid.process_sink_call_action(&malloc(), &call(0x10, 0x400200)).unwrap();
    pid.process_sink_return_action(&ret(0x400200, 0x2000)).unwrap();
    let free = sink(SinkAction::Free, vec![VarType::Pointer]);
    assert_eq!(pid.process_sink_call_action(&free, &call(0x2000, 0x400300)), Ok(true));
    assert!(pid.0.allocations.get(&0x2000).is_none());
    let latest = pid.0.last_update.as_ref().unwrap();
    assert!(matches!(latest.operation, SinkAction::Free));
    assert_eq!(latest.start, 0x2000);
    // the second free is of an untracked pointer
    assert_eq!(pid.process_sink_call_action(&free, &call(0x2000, 0x400300)), Ok(false));
}

#[test]
fn calloc_requests_size_times_count() {
    let calloc = sink(SinkAction::Allocate, vec![VarType::Size, VarType::Num]);
    let regs = RegState { pc: 0, arg0: 0x10, arg1: 3, arg2: 0, arg3: 0, ret_addr: 0x500, ret_val: 0, sp: 0 };
    assert_eq!(calloc.get_allocation_size(&regs), 0x30);
    let mut pid = fresh();
    pid.process_sink_call_action(&calloc, &regs).unwrap();
    assert_eq!(pid.0.active_returns.get(&0x500).unwrap().alloc.size, 0x30);
}

#[test]
fn size_without_size_argument_is_zero() {
    let s = sink(SinkAction::Allocate, vec![VarType::Pointer]);
    assert_eq!(s.get_allocation_size(&call(0x99, 0)), 0);
}

#[test]
fn first_allocation_adopts_mapped_region() {
    let mut pid = fresh();
    pid.process_mmap(&MemRegion { start: 0x1000, end: 0x2000 });
    pid.process_mmap(&MemRegion { start: 0x10000, end: 0x10040 });
    pid.process_sink_call_action(&malloc(), &call(0x10, 0x400200)).unwrap();
    pid.process_sink_return_action(&ret(0x400200, 0x10008)).unwrap();
    let heap = pid.0.heap.as_ref().unwrap();
    assert_eq!(heap.mem_region.start, 0x10000);
    assert_eq!(heap.mem_region.end, 0x10040);
    assert_eq!(heap.memory, vec![0u8; 0x40]);
    // a write into the allocation lands in the heap
    let w = SimpleAccess { pc: 1, address: 0x10008, size: 2, value: 0xbeef, op: MemoryOperation::Write };
    assert_eq!(pid.process_memory_access(&w, true), Ok(()));
    assert_eq!(pid.0.heap.as_ref().unwrap().memory[8..10], [0xef, 0xbe]);
}

#[test]
fn allocation_without_region_leaves_no_heap() {
    let mut pid = fresh();
    pid.process_sink_call_action(&malloc(), &call(0x10, 0x400200)).unwrap();
    assert_eq!(pid.process_sink_return_action(&ret(0x400200, 0x2000)), Ok(true));
    assert!(pid.0.heap.is_none());
    let w = SimpleAccess { pc: 1, address: 0x2004, size: 4, value: 1, op: MemoryOperation::Write };
    assert_eq!(pid.process_memory_access(&w, true), Err(TraceFault::NoHeapForWrite));
}

#[test]
fn first_sbrk_creates_heap() {
    let mut pid = fresh();
    let sbrk = sink(SinkAction::Sbrk, vec![VarType::Size]);
    pid.process_sink_call_action(&sbrk, &call(0x20, 0x400400)).unwrap();
    assert_eq!(pid.process_sink_return_action(&ret(0x400400, 0xa8000)), Ok(true));
    let heap = pid.0.heap.as_ref().unwrap();
    assert_eq!((heap.mem_region.start, heap.mem_region.end), (0xa8000, 0xa8020));
    assert_eq!(heap.memory.len(), 0x20);
    assert!(matches!(pid.0.last_update.as_ref().unwrap().operation, SinkAction::Sbrk));
}

#[test]
fn failed_sbrk_changes_nothing() {
    let mut pid = fresh();
    let sbrk = sink(SinkAction::Sbrk, vec![VarType::Size]);
    pid.process_sink_call_action(&sbrk, &call(0x20, 0x400400)).unwrap();
    assert_eq!(pid.process_sink_return_action(&ret(0x400400, u64::MAX)), Ok(false));
    assert!(pid.0.heap.is_none());
}

#[test]
fn unaligned_first_sbrk_is_fault() {
    let mut pid = fresh();
    let sbrk = sink(SinkAction::Sbrk, vec![VarType::Size]);
    pid.process_sink_call_action(&sbrk, &call(0x20, 0x400400)).unwrap();
    assert_eq!(pid.process_sink_return_action(&ret(0x400400, 0xa8010)), Err(TraceFault::UnalignedSbrk));
    assert!(pid.0.heap.is_none());
}

#[test]
fn sbrk_below_heap_is_fault() {
    let mut pid = fresh();
    let sbrk = sink(SinkAction::Sbrk, vec![VarType::Size]);
    pid.process_sink_call_action(&sbrk, &call(0x20, 0x400400)).unwrap();
    pid.process_sink_return_action(&ret(0x400400, 0xa8000)).unwrap();
    pid.process_sink_call_action(&sbrk, &call(0x10, 0x400400)).unwrap();
    assert_eq!(pid.process_sink_return_action(&ret(0x400400, 0x1000)), Err(TraceFault::SbrkBelowHeap));
}

#[test]
fn allocation_past_address_space_is_fault() {
    let mut pid = fresh();
    pid.process_sink_call_action(&malloc(), &call(0x10, 0x400200)).unwrap();
    assert_eq!(
        pid.process_sink_return_action(&ret(0x400200, u64::MAX - 4)),
        Err(TraceFault::AddressOverflow)
    );
}

#[test]
fn unsupported_sinks_are_faults() {
    let mut pid = fresh();
    let realloc = sink(SinkAction::ReAllocate, vec![VarType::Pointer, VarType::Size]);
    assert_eq!(pid.process_sink_call_action(&realloc, &call(0, 0)), Err(TraceFault::UnsupportedSink));
    let unk = sink(SinkAction::Unk, vec![]);
    assert_eq!(pid.process_sink_call_action(&unk, &call(0, 0)), Err(TraceFault::UnsupportedSink));
    let wide = sink(SinkAction::Allocate, vec![VarType::Size; 5]);
    assert_eq!(pid.process_sink_call_action(&wide, &call(0, 0)), Err(TraceFault::MalformedSink));
    let huge = sink(SinkAction::Allocate, vec![VarType::Size, VarType::Num]);
    let regs = RegState { pc: 0, arg0: 1 << 63, arg1: 4, arg2: 0, arg3: 0, ret_addr: 0, ret_val: 0, sp: 0 };
    assert_eq!(pid.process_sink_call_action(&huge, &regs), Err(TraceFault::SizeOverflow));
    assert!(pid.0.active_returns.is_empty());
}

#[test]
fn marker_sinks_change_nothing() {
    let mut pid = fresh();
    assert_eq!(pid.process_sink_call_action(&sink(SinkAction::Main, vec![]), &call(0, 0)), Ok(false));
    assert_eq!(pid.process_sink_call_action(&sink(SinkAction::Log, vec![]), &call(0, 0)), Ok(false));
    assert!(pid.0.active_returns.is_empty());
}

#[test]
fn colliding_returns_take_oldest_first() {
    let mut pid = fresh();
    pid.process_sink_call_action(&malloc(), &call(0x10, 0x400200)).unwrap();
    pid.process_sink_call_action(&malloc(), &call(0x20, 0x400200)).unwrap();
    assert_eq!(pid.0.active_returns.get_vec(&0x400200).unwrap().len(), 2);
    pid.process_sink_return_action(&ret(0x400200, 0x3000)).unwrap();
    assert_eq!(pid.0.allocations.get(&0x3000).unwrap().size, 0x10);
    let left = pid.0.active_returns.get_vec(&0x400200).unwrap();
    assert_eq!(left.len(), 1);
    assert_eq!(left[0].alloc.size, 0x20);
}

fn meta(id: u64) -> AllocMeta {
    AllocMeta {
        alloc: Allocation { id, pc: 0, start: None, end: None, size: id as usize },
        operation: SinkAction::Allocate,
    }
}

#[test]
fn remove_from_returns_drops_lowest_id() {
    let mut m: MultiMap<u64, AllocMeta> = MultiMap::new();
    m.insert(7, meta(5));
    m.insert(7, meta(2));
    m.insert(7, meta(9));
    m.insert(7, meta(2));
    remove_from_returns(&mut m, 7);
    let ids: Vec<u64> = m.get_vec(&7).unwrap().iter().map(|x| x.alloc.id).collect();
    assert_eq!(ids, vec![5, 9, 2]);
    let mut single: MultiMap<u64, AllocMeta> = MultiMap::new();
    single.insert(3, meta(1));
    remove_from_returns(&mut single, 3);
    assert!(single.get_vec(&3).is_none());
}

#[test]
fn allocation_bounds_checks() {
    let a = Allocation { id: 0, pc: 0, start: Some(0x100), end: Some(0x110), size: 0x10 };
    assert!(a.contains_address(0x100));
    assert!(a.contains_address(0x10f));
    assert!(!a.contains_address(0x110));
    assert!(a.in_range(&MemRegion { start: 0x100, end: 0x111 }));
    assert!(a.in_range(&MemRegion { start: 0x100, end: 0x110 }));
    assert!(!a.in_range(&MemRegion { start: 0x100, end: 0x10f }));
    assert!(!a.in_range(&MemRegion { start: 0x101, end: 0x200 }));
    let pending = Allocation { id: 0, pc: 0, start: None, end: None, size: 0x10 };
    assert!(!pending.contains_address(0x100));
}

#[test]
fn operation_names() {
    assert_eq!(MemoryOperation::Read.as_str(), "READ");
    assert_eq!(MemoryOperation::Write.as_str(), "WRITE");
}

#[test]
fn region_ending_with_allocation_is_adopted() {
    let mut pid = fresh();
    pid.process_mmap(&MemRegion { start: 0x1000, end: 0x2010 });
    pid.process_sink_call_action(&malloc(), &call(0x10, 0x400200)).unwrap();
    assert_eq!(pid.process_sink_return_action(&ret(0x400200, 0x2000)), Ok(true));
    let heap = pid.0.heap.as_ref().unwrap();
    assert_eq!((heap.mem_region.start, heap.mem_region.end), (0x1000, 0x2010));
    assert_eq!(heap.entropy, 0);
}

#[test]
fn return_completes_lowest_id_even_when_not_first() {
    let mut state = TracerState::new(false, 32);
    state.heap = Some(cannoli_client::heap::Heap::zeroed(MemRegion { start: 0x3000, end: 0x4000 }, false, 32));
    let newer = AllocMeta {
        alloc: Allocation { id: 9, pc: 0x400200, start: None, end: None, size: 0x40 },
        operation: SinkAction::Allocate,
    };
    let older = AllocMeta {
        alloc: Allocation { id: 2, pc: 0x400200, start: None, end: None, size: 0x10 },
        operation: SinkAction::Allocate,
    };
    state.active_returns.insert(0x400200, newer);
    state.active_returns.insert(0x400200, older);
    state.next_id = 10;
    let mut pid = PidTracerCtx(state);
    assert_eq!(pid.oldest_pending(0x400200).unwrap().alloc.id, 2);
    assert_eq!(pid.process_sink_return_action(&ret(0x400200, 0x3000)), Ok(true));
    let committed = pid.0.allocations.get(&0x3000).unwrap();
    assert_eq!(committed.id, 2);
    assert_eq!(committed.end, Some(0x3010));
    let left = pid.0.active_returns.get_vec(&0x400200).unwrap();
    assert_eq!(left.len(), 1);
    assert_eq!(left[0].alloc.id, 9);
}

#[test]
fn calls_stop_when_ids_run_out() {
    let mut state = TracerState::new(false, 32);
    state.next_id = u64::MAX;
    let mut pid = PidTracerCtx(state);
    assert_eq!(pid.process_sink_call_action(&malloc(), &call(0x10, 0x400200)), Err(TraceFault::IdsExhausted));
    assert!(pid.0.active_returns.is_empty());
}

#[test]
fn new_calls_get_increasing_ids() {
    let mut pid = fresh();
    pid.process_sink_call_action(&malloc(), &call(0x10, 0x400200)).unwrap();
    pid.process_sink_call_action(&malloc(), &call(0x20, 0x400300)).unwrap();
    let a = pid.0.active_returns.get(&0x400200).unwrap().alloc.id;
    let b = pid.0.active_returns.get(&0x400300).unwrap().alloc.id;
    assert!(a < b);
    assert!(b < pid.0.next_id);
}
