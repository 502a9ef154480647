use cannoli_client::arch::{get_mips_reg_le, get_return_addr_le, MipsReg};
use cannoli_client::backtrace::{BacktraceState, PidBacktraceCtx};
use cannoli_client::context::{frame_event, read_accesses, PidContext, Trace};
use cannoli_client::sinks::{AllocationSink, SinkAction, VarType};
use cannoli_client::symbols::{SymOff, TidContext};
use cannoli_client::text::contains_str;
use cannoli_client::tracer::{MemoryOperation, RegState, SimpleAccess, TidTracerCtx, TraceFault};
use cannoli_client::variables::{DataType, Fingerprint, PidVariableCtx};
use std::collections::HashMap;

fn table(symbols: Vec<(u64, &'static str)>) -> TidContext {
    TidContext {
        symbols,
        tracer_ctx: TidTracerCtx { sinks: HashMap::new(), big_endian: false },
        bitness: 32,
    }
}

#[test]
fn nearest_symbol_resolution() {
    let tid = table(vec![(0x400, "main"), (0x420, "helper")]);
    let r = tid.resolve(0x415);
    assert_eq!((r.symbol, r.offset, r.addr), ("main", 0x15, 0x415));
    let r = tid.resolve(0x3ff);
    assert_eq!((r.symbol, r.offset), ("<unknown>", 0x3ff));
    let r = tid.resolve(0x420);
    assert_eq!((r.symbol, r.offset), ("helper", 0));
    assert!(r.is_entry());
    let r = tid.resolve(0x9999);
    assert_eq!((r.symbol, r.offset), ("helper", 0x9999 - 0x420));
    let empty = table(vec![]);
    assert_eq!(empty.resolve(5).symbol, "<unknown>");
}

fn sym(addr: u64, symbol: &'static str, offset: u64) -> SymOff {
    SymOff { addr, symbol, offset }
}

#[test]
fn call_stack_depths_stay_equal() {
    let mut bt = PidBacktraceCtx(BacktraceState::default());
    // taken branch into f (entry), its return address 0x1004
    let events = [
        (sym(0x1000, "caller", 0), 0, true),
        (sym(0x2000, "f", 0), 0x1004, true),
        (sym(0x2010, "f", 0x10), 0x1004, true),
        (sym(0x3000, "g", 0), 0x2014, true),
        (sym(0x2014, "f", 0x14), 0x2014, true),
        (sym(0x1004, "caller", 4), 0x2014, false),
    ];
    let mut depths = Vec::new();
    for (pc, ra, taken) in events.iter() {
        bt.on_branch(*pc, *ra, *taken);
        assert_eq!(bt.0.backtrace.len(), bt.0.return_stack.len());
        depths.push(bt.0.backtrace.len());
    }
    assert_eq!(depths, vec![0, 1, 1, 2, 1, 0]);
    assert!(!bt.is_branch());
}

#[test]
fn backtrace_stack_operations() {
    let mut bt = PidBacktraceCtx(BacktraceState::default());
    bt.push_backtrace("main", 0x400);
    bt.push_return_stack(0x1234);
    assert!(bt.is_return(0x1234));
    assert!(bt.is_unlinked_branch(0x1234));
    assert!(!bt.is_return(0x1230));
    assert_eq!(bt.pop_backtrace(), Some(("main", 0x400)));
    assert_eq!(bt.pop_return_stack(), Some(0x1234));
    assert_eq!(bt.pop_backtrace(), None);
    assert_eq!(bt.pop_return_stack(), None);
    bt.set_branch_flag();
    assert!(bt.is_branch());
    bt.unset_branch_flag();
    assert!(!bt.is_branch());
}

#[test]
fn register_blob_decoding() {
    let mut regs = vec![0u8; 128];
    regs[31 * 4..32 * 4].copy_from_slice(&0x00400abcu32.to_le_bytes());
    regs[4 * 4..5 * 4].copy_from_slice(&0x10u32.to_le_bytes());
    regs[2 * 4..3 * 4].copy_from_slice(&0xdeadbeefu32.to_le_bytes());
    regs[29 * 4..30 * 4].copy_from_slice(&0x7fff0000u32.to_le_bytes());
    assert_eq!(get_return_addr_le(&regs), 0x00400abc);
    assert_eq!(get_mips_reg_le(&regs, MipsReg::A0), 0x10);
    let state = RegState::new(0x400100, &regs);
    assert_eq!(state.pc, 0x400100);
    assert_eq!(state.arg0, 0x10);
    assert_eq!(state.ret_addr, 0x00400abc);
    assert_eq!(state.ret_val, 0xdeadbeef);
    assert_eq!(state.sp, 0x7fff0000);
    assert_eq!(MipsReg::from_index(29), MipsReg::SP);
    assert_eq!(MipsReg::RA.index(), 31);
}

#[test]
fn log_frame_layout() {
    let frame = frame_event(b"{}\n");
    assert_eq!(frame, vec![0x81, 0xb0, 0xaf, 0x36, 3, 0, 0, 0, b'{', b'}', b'\n']);
}

#[test]
fn read_syscall_becomes_word_writes() {
    let data = [1u8, 2, 3, 4, 5, 6];
    let w = read_accesses(0x8000, 6, &data);
    assert_eq!(w.len(), 2);
    assert_eq!((w[0].address, w[0].value, w[0].size), (0x8000, 0x04030201, 4));
    assert_eq!((w[1].address, w[1].value, w[1].size), (0x8004, 0x0605, 4));
    assert!(matches!(w[1].op, MemoryOperation::Write));
    assert_eq!(read_accesses(0x8000, 0, &data).len(), 0);
}

#[test]
fn substring_search() {
    assert!(contains_str("__libc_malloc", "libc_malloc"));
    assert!(!contains_str("free", "libc_free"));
    assert!(contains_str("abc", ""));
}

#[test]
fn catalog_from_symbols() {
    let mut sinks: HashMap<u64, AllocationSink> = HashMap::new();
    AllocationSink::add_new_from_sym(&mut sinks, "__libc_malloc", 0x100);
    AllocationSink::add_new_from_sym(&mut sinks, "malloc", 0x100);
    AllocationSink::add_new_from_sym(&mut sinks, "__libc_calloc", 0x200);
    AllocationSink::add_new_from_sym(&mut sinks, "__sbrk", 0x300);
    AllocationSink::add_new_from_sym(&mut sinks, "memcpy", 0x400);
    AllocationSink::add_new_from_sym(&mut sinks, "fgets", 0x500);
    assert_eq!(sinks.len(), 4);
    let m = &sinks[&0x100];
    assert!(matches!(m.operation, SinkAction::Allocate));
    assert_eq!(m.names, vec!["__libc_malloc".to_string()]);
    assert!(matches!(sinks[&0x200].args[..], [VarType::Size, VarType::Num]));
    assert!(matches!(sinks[&0x300].operation, SinkAction::Sbrk));
    assert!(matches!(sinks[&0x500].operation, SinkAction::Log));
    AllocationSink::add_new_from_sym(&mut sinks, "__libc_malloc_impl", 0x100);
    assert_eq!(sinks[&0x100].names, vec!["__libc_malloc".to_string(), "__libc_malloc_impl".to_string()]);
}

#[test]
fn names_from_definitions() {
    assert!(matches!(SinkAction::_from_string("Allocate".to_string()), SinkAction::Allocate));
    assert!(matches!(SinkAction::_from_string("Free".to_string()), SinkAction::Free));
    assert!(matches!(SinkAction::_from_string("Sbrk".to_string()), SinkAction::Unk));
    assert!(matches!(VarType::_from_string("Num".to_string()), VarType::Num));
    assert!(matches!(VarType::_from_string("size".to_string()), VarType::Unk));
}

fn fingerprints() -> Vec<Fingerprint> {
    vec![
        Fingerprint {
            func_addr: 0x400ecc,
            stack_offset: 0x14,
            data_type: DataType::Ptr { addr: 0, val: 0, data: Vec::new() },
        },
        Fingerprint { func_addr: 0x400ecc, stack_offset: 0x10, data_type: DataType::Int { addr: 0, val: 0 } },
    ]
}

#[test]
fn fingerprinted_variables_follow_writes() {
    let mut vars = PidVariableCtx::new(fingerprints());
    assert!(vars.is_fingerprinted(0x400ecc));
    assert!(!vars.is_fingerprinted(0x400ed0));
    assert_eq!(vars.fingerprint(0x400ecc, 0x7fff0100), Ok(()));
    assert!(matches!(vars.0.vars.get(&0x7fff00ec), Some(DataType::Ptr { val: 0, .. })));
    assert!(matches!(vars.0.vars.get(&0x7fff00f0), Some(DataType::Int { val: 0xffffffff, .. })));
    let w = SimpleAccess { pc: 0, address: 0x7fff00f0, size: 4, value: 42, op: MemoryOperation::Write };
    vars.process_memory_access(&w);
    assert!(matches!(vars.0.vars.get(&0x7fff00f0), Some(DataType::Int { val: 42, .. })));
    assert_eq!(vars.fingerprint(0x400ecc, 0x8), Err(TraceFault::StackUnderflow));
}

#[test]
fn events_drive_the_process_state() {
    let tid = table(vec![(0x400000, "main"), (0x400100, "malloc")]);
    let mut ctx = PidContext::new(false, 32, Vec::new());
    let state = RegState { pc: 0x400100, arg0: 0x10, arg1: 0, arg2: 0, arg3: 0, ret_addr: 0x400020, ret_val: 0, sp: 0 };
    let malloc = AllocationSink {
        address: 0x400100,
        operation: SinkAction::Allocate,
        args: vec![VarType::Size],
        names: vec!["malloc".to_string()],
        returns: VarType::Pointer,
    };
    assert_eq!(ctx.trace_event(&tid, &Trace::Mmap(cannoli_client::heap::MemRegion { start: 0x10000, end: 0x20000 })), Ok(false));
    // branch and link into malloc
    let br = Trace::Branch { branch: true, pc: sym(0x400018, "main", 0x18), ra: 0x400020, state };
    assert_eq!(ctx.trace_event(&tid, &br), Ok(false));
    let entry = Trace::Branch { branch: false, pc: sym(0x400100, "malloc", 0), ra: 0x400020, state };
    assert_eq!(ctx.trace_event(&tid, &entry), Ok(false));
    assert_eq!(ctx.1.0.backtrace.len(), 1);
    assert_eq!(ctx.trace_event(&tid, &Trace::SinkHit(malloc, state)), Ok(false));
    // malloc returns 0x10010 to 0x400020
    let jr = Trace::Branch { branch: true, pc: sym(0x400180, "malloc", 0x80), ra: 0x400020, state };
    assert_eq!(ctx.trace_event(&tid, &jr), Ok(false));
    let back = RegState { pc: 0x400020, arg0: 0, arg1: 0, arg2: 0, arg3: 0, ret_addr: 0, ret_val: 0x10010, sp: 0 };
    let at_ret = Trace::Branch { branch: false, pc: sym(0x400020, "main", 0x20), ra: 0, state: back };
    assert_eq!(ctx.trace_event(&tid, &at_ret), Ok(false));
    assert_eq!(ctx.1.0.backtrace.len(), 0);
    assert_eq!(ctx.0.0.allocations.get(&0x10010).unwrap().end, Some(0x10020));
    assert!(ctx.0.0.heap.is_some());
    let w = SimpleAccess { pc: 0, address: 0x10010, size: 4, value: 0x41414141, op: MemoryOperation::Write };
    assert_eq!(ctx.trace_event(&tid, &Trace::MemAccess(w)), Ok(false));
    assert_eq!(ctx.0.0.heap.as_ref().unwrap().memory[0x10..0x14], [0x41; 4]);
    let log = AllocationSink {
        address: 0x400200,
        operation: SinkAction::Log,
        args: vec![VarType::Size],
        names: vec!["menu".to_string()],
        returns: VarType::Pointer,
    };
    assert_eq!(ctx.trace_event(&tid, &Trace::SinkHit(log, state)), Ok(true));
    assert!(ctx.should_log());
}
