use cannoli_client::heap::{Heap, MemRegion};
use cannoli_client::sinks::{AllocationSink, SinkAction, VarType};
use cannoli_client::tracer::{
    MemoryOperation, PidTracerCtx, RegState, SimpleAccess, TraceFault, TracerState,
};
use multimap::MultiMap;

fn state_with_heap(big_endian: bool, bitness: u8) -> PidTracerCtx {
    PidTracerCtx(TracerState {
        heap: Some(Heap {
            mem_region: MemRegion { start: 0xa8000, end: 0xa8010 },
            memory: vec![0; 0x10],
            big_endian,
            bitness,
            entropy: 0,
        }),
        allocations: MultiMap::new(),
        active_returns: MultiMap::new(),
        mappings: Vec::new(),
        output: Vec::new(),
        last_update: None,
        big_endian,
        bitness,
        next_id: 0,
    })
}

fn write(address: u64, size: u8, value: u64) -> SimpleAccess {
    SimpleAccess { pc: 0x1000, address, size, value, op: MemoryOperation::Write }
}

fn heap_write_32_le() {
    let mut pid = state_with_heap(false, 32);
    pid.process_memory_access(&write(0xa8000, 4, 0x41424344), true).unwrap();
    assert_eq!(
        pid.0.heap.as_ref().unwrap().memory,
        [0x44, 0x43, 0x42, 0x41, 0, 0, 0, 0, 0, 0, 0, 0, 0, 0, 0, 0]
    );
    let disp = format!("{}", pid.0.heap.as_ref().unwrap().hexdump());
    assert_eq!(disp, "0x000a8000: 41424344 00000000 00000000 00000000\n");
}

fn heap_write_64_le() {
    let mut pid = state_with_heap(false, 64);
    pid.process_memory_access(&write(0xa8000, 8, 0x4142434445), true).unwrap();
    assert_eq!(
        pid.0.heap.as_ref().unwrap().memory,
        [0x45, 0x44, 0x43, 0x42, 0x41, 0, 0, 0, 0, 0, 0, 0, 0, 0, 0, 0]
    );
    let disp = format!("{}", pid.0.heap.as_ref().unwrap().hexdump());
    assert_eq!(disp, "0x00000000000a8000: 0000004142434445 0000000000000000\n");
}

fn heap_write_32_be() {
    let mut pid = state_with_heap(true, 32);
    pid.process_memory_access(&write(0xa8000, 4, 0x41424344), true).unwrap();
    assert_eq!(
        pid.0.heap.as_ref().unwrap().memory,
        [0x41, 0x42, 0x43, 0x44, 0, 0, 0, 0, 0, 0, 0, 0, 0, 0, 0, 0]
    );
    let disp = format!("{}", pid.0.heap.as_ref().unwrap().hexdump());
    assert_eq!(disp, "0x000a8000: 41424344 00000000 00000000 00000000\n");
}

fn heap_write_64_be() {
    let mut pid = state_with_heap(true, 64);
    pid.process_memory_access(&write(0xa8000, 8, 0x4142434445), true).unwrap();
    assert_eq!(
        pid.0.heap.as_ref().unwrap().memory,
        [0, 0, 0, 0x41, 0x42, 0x43, 0x44, 0x45, 0, 0, 0, 0, 0, 0, 0, 0]
    );
    let disp = format!("{}", pid.0.heap.as_ref().unwrap().hexdump());
    assert_eq!(disp, "0x00000000000a8000: 0000004142434445 0000000000000000\n");
}

fn sbrk_sink() -> AllocationSink {
    AllocationSink {
        address: 0xcafebabe,
        operation: SinkAction::Sbrk,
        args: vec![VarType::Size; 1],
        names: vec!["__sbrk".to_string(); 1],
        returns: VarType::Pointer,
    }
}

fn regs(pc: u64, arg0: u64, ret_addr: u64, ret_val: u64) -> RegState {
    RegState { pc, arg0, arg1: 0, arg2: 0, arg3: 0, ret_addr, ret_val, sp: 0 }
}

fn sbrk_growth() {
    let mut pid = state_with_heap(false, 32);
    pid.process_memory_access(&write(0xa8000, 4, 0x41424344), true).unwrap();

    // sbrk(0x10)
    assert_eq!(pid.process_sink_call_action(&sbrk_sink(), &regs(0xcafebabe, 0x10, 0xdeadbeef, 0)), Ok(true));
    // it returns the previous end of the heap
    assert_eq!(pid.process_sink_return_action(&regs(0xdeadbeef, 0, 0, 0xa8010)), Ok(true));

    assert_eq!(
        pid.0.heap.as_ref().unwrap().memory,
        [
            0x44, 0x43, 0x42, 0x41, 0, 0, 0, 0, 0, 0, 0, 0, 0, 0, 0, 0, 0, 0, 0, 0, 0, 0, 0, 0, 0,
            0, 0, 0, 0, 0, 0, 0
        ]
    );
    let disp = format!("{}", pid.0.heap.as_ref().unwrap().hexdump());
    assert_eq!(
        disp,
        "0x000a8000: 41424344 00000000 00000000 00000000\n\
         0x000a8010: 00000000 00000000 00000000 00000000\n"
    );
    assert_eq!(pid.0.heap.as_ref().unwrap().mem_region.end, 0xa8020);
}

#[test]
fn test_heap() {
    heap_write_32_le();
    heap_write_64_le();
    heap_write_32_be();
    heap_write_64_be();
    sbrk_growth();
}

#[test]
fn sbrk_growth_keeps_written_bytes() {
    sbrk_growth();
}

#[test]
fn write_reads_back_in_either_order() {
    for &big_endian in &[false, true] {
        for &(size, value) in &[(1u8, 0xabu64), (2, 0xbeef), (4, 0xdeadbeef), (8, 0x0123456789abcdef)] {
            let mut pid = state_with_heap(big_endian, 32);
            pid.process_memory_access(&write(0xa8004, size, value), true).unwrap();
            let mem = &pid.0.heap.as_ref().unwrap().memory;
            let bytes = &mem[4..4 + size as usize];
            let mut read: u64 = 0;
            if big_endian {
                for b in bytes.iter() {
                    read = (read << 8) | *b as u64;
                }
            } else {
                for b in bytes.iter().rev() {
                    read = (read << 8) | *b as u64;
                }
            }
            assert_eq!(read, value);
            assert_eq!(mem[..4], [0, 0, 0, 0]);
        }
    }
}

#[test]
fn entropy_is_metric_entropy_of_contents() {
    let mut a = state_with_heap(false, 32);
    a.process_memory_access(&write(0xa8000, 4, 0x41424344), true).unwrap();
    a.process_memory_access(&write(0xa8008, 2, 0x9999), true).unwrap();
    let mut b = state_with_heap(false, 32);
    b.process_memory_access(&write(0xa8008, 2, 0x9999), true).unwrap();
    b.process_memory_access(&write(0xa8000, 4, 0x41424344), true).unwrap();
    let ha = a.0.heap.as_ref().unwrap();
    let hb = b.0.heap.as_ref().unwrap();
    assert_eq!(ha.memory, hb.memory);
    assert_eq!(ha.entropy, hb.entropy);
    let expected: f32 = entropy::metric_entropy(&ha.memory);
    assert_eq!(f32::from_bits(ha.entropy), expected);
    assert!(f32::from_bits(ha.entropy) > 0.0);
}

#[test]
fn read_does_not_change_heap() {
    let mut pid = state_with_heap(false, 32);
    let access = SimpleAccess { pc: 1, address: 0xa8000, size: 4, value: 7, op: MemoryOperation::Read };
    assert_eq!(pid.process_memory_access(&access, true), Ok(()));
    assert_eq!(pid.0.heap.as_ref().unwrap().memory, vec![0u8; 16]);
}

#[test]
fn write_not_mirrored_when_recording_is_off() {
    let mut pid = state_with_heap(false, 32);
    assert_eq!(pid.process_memory_access(&write(0xa8000, 4, 7), false), Ok(()));
    assert_eq!(pid.0.heap.as_ref().unwrap().memory, vec![0u8; 16]);
}

#[test]
fn write_outside_model_is_ignored() {
    let mut pid = state_with_heap(false, 32);
    assert_eq!(pid.process_memory_access(&write(0x1000, 4, 7), true), Ok(()));
    assert_eq!(pid.0.heap.as_ref().unwrap().memory, vec![0u8; 16]);
}

#[test]
fn write_straddling_heap_end_is_fault() {
    let mut pid = state_with_heap(false, 32);
    assert_eq!(pid.process_memory_access(&write(0xa800e, 4, 7), true), Err(TraceFault::WriteOutOfBounds));
    assert_eq!(pid.0.heap.as_ref().unwrap().memory, vec![0u8; 16]);
}

#[test]
fn hexdump_of_two_byte_words() {
    let mut pid = state_with_heap(false, 16);
    pid.process_memory_access(&write(0xa8000, 4, 0x41424344), true).unwrap();
    assert_eq!(
        pid.0.heap.as_ref().unwrap().hexdump(),
        "0x000a8000: 4344 4142 0000 0000 0000 0000 0000 0000\n"
    );
}

#[test]
fn zeroed_heap_has_zero_entropy() {
    let h = Heap::zeroed(MemRegion { start: 0x1000, end: 0x1020 }, false, 32);
    assert_eq!(h.memory, vec![0u8; 0x20]);
    assert_eq!(h.entropy, 0);
    assert_eq!(h.start(), 0x1000);
    assert_eq!(h.end(), 0x1020);
}

#[test]
fn set_end_grows_and_cuts() {
    let mut h = Heap::zeroed(MemRegion { start: 0x1000, end: 0x1004 }, false, 32);
    h.update(0x01020304, 4, 0x1000);
    h.set_end(0x1008);
    assert_eq!(h.memory, vec![4, 3, 2, 1, 0, 0, 0, 0]);
    h.set_end(0x1002);
    assert_eq!(h.memory, vec![4, 3]);
    assert_eq!(h.mem_region.end, 0x1002);
}

#[test]
fn big_endian_dump_with_three_byte_words() {
    let mut pid = state_with_heap(true, 24);
    pid.process_memory_access(&write(0xa8000, 4, 0x41424344), true).unwrap();
    assert_eq!(
        pid.0.heap.as_ref().unwrap().hexdump(),
        "0x000a8000: 414243 440000 000000 000000 000000 00\n"
    );
}
