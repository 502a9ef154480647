//! One traced process as a whole: events are applied in order to its
//! allocation state and its call stack, and log frames are built for it.

use vstd::prelude::*;
use crate::backtrace::{BacktraceState, CallStack, PidBacktraceCtx, branch_step};
use crate::endian::{le_bytes, le_value, pow256, lemma_div_pow256_step};
use crate::heap::MemRegion;
use crate::sinks::{AllocationSink, SinkAction};
use crate::symbols::{SymOff, TidContext, resolves, sorted_by_addr};
use crate::variables::{Fingerprint, PidVariableCtx, started, view_vars};
use crate::tracer::{
    MemoryOperation, PidTracerCtx, no_entries_allocs, no_entries_pending, RegState, SimpleAccess, TraceFault, TracerState, access_effect,
    call_effect, return_effect,
};

verus! {

/// The value that opens every log frame.
pub const POISON: u32 = 0x36afb081;

/// One event of the trace, as the host reports it.
pub enum Trace {
    /// A branch instruction at `pc` (resolved), with the link register `ra`.
    Branch { branch: bool, pc: SymOff, ra: u64, state: RegState },
    /// A memory access.
    MemAccess(SimpleAccess),
    /// A newly mapped region.
    Mmap(MemRegion),
    /// Entry into a watched function.
    SinkHit(AllocationSink, RegState),
}

/// Whether the latest change was only a growth of the heap, which is not logged.
pub open spec fn latest_is_sbrk(st: TracerState) -> bool {
    st.last_update matches Some(lu) && lu.operation == SinkAction::Sbrk
}

/// A log frame: the magic value and the payload's length, both as 4
/// little-endian bytes, then the payload.
pub open spec fn frame_spec(payload: Seq<u8>) -> Seq<u8> {
    le_bytes(POISON as nat, 4) + le_bytes(payload.len(), 4) + payload
}

/// Appends the 4 bytes of `v`, least significant first.
fn push_le_u32(out: &mut Vec<u8>, v: u32)
    ensures
        final(out)@ == old(out)@ + le_bytes(v as nat, 4),
{
    let ghost before = out@;
    let mut x: u32 = v;
    let mut i: usize = 0;
    assert(pow256(0) == 1);
    assert(v as nat / 1 == v as nat) by (nonlinear_arith);
    while i < 4
        invariant
            i <= 4,
            x as nat == v as nat / pow256(i as nat),
            out@ == before + le_bytes(v as nat, i as nat),
        decreases 4 - i,
    {
        out.push((x % 256) as u8);
        proof {
            lemma_div_pow256_step(v as nat, i as nat);
            assert(le_bytes(v as nat, (i + 1) as nat) =~= le_bytes(v as nat, i as nat).push(
                (x % 256) as u8,
            ));
        }
        x = x / 256;
        i = i + 1;
    }
}

/// Builds the log frame for a payload.
pub fn frame_event(payload: &[u8]) -> (r: Vec<u8>)
    requires
        payload@.len() <= u32::MAX,
    ensures
        r@ == frame_spec(payload@),
{
    let mut out: Vec<u8> = Vec::new();
    push_le_u32(&mut out, POISON);
    push_le_u32(&mut out, payload.len() as u32);
    let ghost head = out@;
    let n = payload.len();
    let mut i: usize = 0;
    while i < n
        invariant
            n == payload@.len(),
            i <= n,
            out@ == head + payload@.take(i as int),
        decreases n - i,
    {
        out.push(payload[i]);
        proof {
            assert(payload@.take(i + 1) =~= payload@.take(i as int).push(payload@[i as int]));
        }
        i = i + 1;
    }
    assert(payload@.take(n as int) =~= payload@);
    out
}

/// The value of word `i` of the bytes that a read returned: four bytes
/// least significant first, the last word cut at `size` (the missing bytes
/// count as zero).
pub open spec fn read_word(data: Seq<u8>, size: nat, i: nat) -> nat {
    le_value(
        data.subrange(
            4 * i as int,
            if 4 * i + 4 <= size {
                (4 * i + 4) as int
            } else {
                size as int
            },
        ),
    )
}

proof fn lemma_le_value_bound(s: Seq<u8>)
    ensures
        le_value(s) < pow256(s.len()),
    decreases s.len(),
{
    if s.len() > 0 {
        lemma_le_value_bound(s.drop_last());
        let p = pow256((s.len() - 1) as nat);
        assert(le_value(s) <= p - 1 + p * 255) by (nonlinear_arith)
            requires
                le_value(s) == le_value(s.drop_last()) + p * (s.last() as nat),
                le_value(s.drop_last()) < p,
                s.last() <= 255,
        ;
    }
}

/// The little-endian value of `data[from..to]` (at most 4 bytes).
fn word_value(data: &[u8], from: usize, to: usize) -> (r: u64)
    requires
        from <= to <= data@.len(),
        to - from <= 4,
    ensures
        r == le_value(data@.subrange(from as int, to as int)),
{
    let ghost s = data@.subrange(from as int, to as int);
    let mut v: u64 = 0;
    let mut mult: u64 = 1;
    let mut k: usize = 0;
    while k < to - from
        invariant
            from <= to <= data@.len(),
            to - from <= 4,
            s == data@.subrange(from as int, to as int),
            k <= to - from,
            mult == pow256(k as nat),
            v == le_value(s.take(k as int)),
        decreases to - from - k,
    {
        let b = data[from + k] as u64;
        proof {
            assert(s.take(k + 1).drop_last() =~= s.take(k as int));
            lemma_le_value_bound(s.take(k as int));
            reveal_with_fuel(pow256, 5);
            assert(k == 0 || k == 1 || k == 2 || k == 3);
            assert(mult <= 16777216);
            assert(v + mult * b <= mult - 1 + mult * 255) by (nonlinear_arith)
                requires
                    v < mult,
                    b <= 255,
            ;
        }
        v = v + mult * b;
        mult = mult * 256;
        k = k + 1;
    }
    assert(s.take((to - from) as int) =~= s);
    v
}

/// The writes that a `read` of `read_size` bytes into `addr` makes: one
/// 4-byte write per word of the data, the last word padded with zeros.
pub fn read_accesses(addr: u64, read_size: usize, data: &[u8]) -> (r: Vec<SimpleAccess>)
    requires
        read_size <= data@.len(),
        addr + read_size <= u64::MAX,
    ensures
        r@.len() == (read_size + 3) / 4,
        forall|i: int|
            0 <= i < r@.len() ==> {
                let a = #[trigger] r@[i];
                &&& a.pc == 0
                &&& a.address == addr + 4 * i
                &&& a.size == 4
                &&& a.value == read_word(data@, read_size as nat, i as nat)
                &&& a.op == MemoryOperation::Write
            },
{
    let mut out: Vec<SimpleAccess> = Vec::new();
    let words = read_size / 4 + if read_size % 4 == 0 { 0 } else { 1 };
    let mut i: usize = 0;
    while i < words
        invariant
            read_size <= data@.len(),
            addr + read_size <= u64::MAX,
            words == (read_size + 3) / 4,
            i <= words,
            out@.len() == i,
            forall|j: int|
                0 <= j < i ==> {
                    let a = #[trigger] out@[j];
                    &&& a.pc == 0
                    &&& a.address == addr + 4 * j
                    &&& a.size == 4
                    &&& a.value == read_word(data@, read_size as nat, j as nat)
                    &&& a.op == MemoryOperation::Write
                },
        decreases words - i,
    {
        assert(4 * i < read_size) by (nonlinear_arith)
            requires
                i < words,
                words == read_size / 4 + if read_size % 4 == 0 { 0int } else { 1int },
        ;
        let from = 4 * i;
        let to = if read_size - from >= 4 { from + 4 } else { read_size };
        let value = word_value(data, from, to);
        out.push(SimpleAccess {
            pc: 0,
            address: addr + from as u64,
            size: 4,
            value,
            op: MemoryOperation::Write,
        });
        i = i + 1;
    }
    out
}

proof fn lemma_no_match_starts_nothing(
    vars: Map<u64, Seq<crate::variables::VarView>>,
    fps: Seq<Fingerprint>,
    pc: u64,
    sp: u64,
)
    requires
        forall|i: int| 0 <= i < fps.len() ==> (#[trigger] fps[i]).func_addr != pc,
    ensures
        started(vars, fps, pc, sp) == vars,
    decreases fps.len(),
{
    if fps.len() > 0 {
        lemma_no_match_starts_nothing(vars, fps.drop_last(), pc, sp);
    }
}

/// The state of one traced process: its allocations, its call stack and its
/// followed stack variables.
pub struct PidContext(pub PidTracerCtx, pub PidBacktraceCtx, pub PidVariableCtx);

impl PidContext {
    /// A process that has not run yet.
    pub fn new(big_endian: bool, bitness: u8, fingerprints: Vec<Fingerprint>) -> (r: PidContext)
        requires
            forall|i: int| 0 <= i < fingerprints@.len() ==> !(#[trigger] fingerprints@[i].data_type is Bool),
        ensures
            r.wf(),
            r.2.0.fingerprints == fingerprints,
            r.2.vars() == Map::<u64, Seq<crate::variables::DataType>>::empty(),
            r.0.0.heap is None,
            no_entries_allocs(r.0.0.allocs()),
            no_entries_pending(r.0.0.pending()),
            r.0.0.mappings@.len() == 0,
            r.0.0.last_update is None,
            r.0.0.big_endian == big_endian,
            r.0.0.bitness == bitness,
            r.1.0@.frames.len() == 0,
            r.1.0@.returns.len() == 0,
            !r.1.0@.armed,
    {
        PidContext(
            PidTracerCtx(TracerState::new(big_endian, bitness)),
            PidBacktraceCtx(<BacktraceState as Default>::default()),
            PidVariableCtx::new(fingerprints),
        )
    }

    pub open spec fn wf(&self) -> bool {
        self.0.wf() && self.2.wf()
    }

    /// Whether a log frame is due after a call of a logging function: not
    /// when the latest change was only a growth of the heap.
    pub fn should_log(&self) -> (r: bool)
        ensures
            r == !latest_is_sbrk(self.0.0),
    {
        match &self.0.0.last_update {
            Some(lu) => match lu.operation {
                SinkAction::Sbrk => false,
                _ => true,
            },
            None => true,
        }
    }

    /// Applies one event. On a branch, when the previous instruction was a
    /// taken branch, a pending call returning here is completed first, then
    /// the call stack is updated; a memory access is routed to the heap; a
    /// mapped region is recorded; a watched call is correlated. Gives
    /// `Ok(true)` when a log frame is due (a logging function was entered).
    pub fn trace_event(&mut self, tid: &TidContext, ev: &Trace) -> (r: Result<bool, TraceFault>)
        requires
            old(self).wf(),
            sorted_by_addr(tid.symbols@),
        ensures
            final(self).wf(),
            match *ev {
                Trace::Branch { branch, pc, ra, state } => final(self).2 == old(self).2 && if old(self).1.0@.armed {
                    exists|rr: Result<bool, TraceFault>|
                        #[trigger] return_effect(old(self).0.0, final(self).0.0, state, rr) && match rr {
                            Err(e) => r == Err::<bool, TraceFault>(e) && final(self).1.0@ == old(self).1.0@,
                            Ok(_) => r == Ok::<bool, TraceFault>(false) && exists|s: SymOff|
                                #[trigger] resolves(tid.symbols@, pc.addr, s) && final(self).1.0@
                                    == branch_step(old(self).1.0@, s, ra, branch),
                        }
                } else {
                    &&& r == Ok::<bool, TraceFault>(false)
                    &&& final(self).0 == old(self).0
                    &&& final(self).1.0@ == (CallStack { armed: branch, ..old(self).1.0@ })
                },
                Trace::MemAccess(access) => {
                    &&& final(self).1.0@ == old(self).1.0@
                    &&& exists|rr: Result<(), TraceFault>|
                        #[trigger] access_effect(old(self).0.0, final(self).0.0, access, true, rr)
                            && match rr {
                            Err(e) => r == Err::<bool, TraceFault>(e) && final(self).2 == old(self).2,
                            Ok(_) => {
                                &&& r == Ok::<bool, TraceFault>(false)
                                &&& final(self).2.0.fingerprints == old(self).2.0.fingerprints
                                &&& final(self).2.vars() == PidVariableCtx::after_write(
                                    old(self).2.vars(),
                                    access.address,
                                    access.value,
                                )
                            },
                        }
                },
                Trace::Mmap(region) => {
                    &&& r == Ok::<bool, TraceFault>(false)
                    &&& final(self).2 == old(self).2
                    &&& final(self).1.0@ == old(self).1.0@
                    &&& final(self).0.0.mappings@ == old(self).0.0.mappings@.push(region)
                    &&& final(self).0.0.heap == old(self).0.0.heap
                    &&& final(self).0.0.output == old(self).0.0.output
                    &&& final(self).0.0.big_endian == old(self).0.0.big_endian
                    &&& final(self).0.0.bitness == old(self).0.0.bitness
                    &&& final(self).0.0.allocations == old(self).0.0.allocations
                    &&& final(self).0.0.active_returns == old(self).0.0.active_returns
                    &&& final(self).0.0.last_update == old(self).0.0.last_update
                    &&& final(self).0.0.next_id == old(self).0.0.next_id
                },
                Trace::SinkHit(sink, state) => {
                    &&& final(self).1.0@ == old(self).1.0@
                    &&& exists|rr: Result<bool, TraceFault>|
                        #[trigger] call_effect(old(self).0.0, final(self).0.0, sink, state, rr)
                            && match rr {
                            Err(e) => r == Err::<bool, TraceFault>(e) && final(self).2 == old(self).2,
                            Ok(_) => if sink.operation == SinkAction::Main {
                                &&& final(self).2.0.fingerprints == old(self).2.0.fingerprints
                                &&& if old(self).2.underflows(state.pc, state.sp) {
                                    r == Err::<bool, TraceFault>(TraceFault::StackUnderflow)
                                        && final(self).2.vars() == old(self).2.vars()
                                } else {
                                    r == Ok::<bool, TraceFault>(false) && view_vars(final(self).2.vars())
                                        == started(
                                        view_vars(old(self).2.vars()),
                                        old(self).2.0.fingerprints@,
                                        state.pc,
                                        state.sp,
                                    )
                                }
                            } else {
                                &&& final(self).2 == old(self).2
                                &&& r == Ok::<bool, TraceFault>(
                                    sink.operation == SinkAction::Log && !latest_is_sbrk(final(self).0.0),
                                )
                            },
                        }
                },
            },
    {
        match ev {
            Trace::Branch { branch, pc, ra, state } => {
                if self.1.is_branch() {
                    let rr = self.0.process_sink_return_action(state);
                    match rr {
                        Err(e) => {
                            return Err(e);
                        },
                        Ok(_) => {},
                    }
                    let sym = tid.resolve(pc.addr());
                    self.1.on_branch(sym, *ra, *branch);
                } else {
                    self.1.on_branch(*pc, *ra, *branch);
                }
                Ok(false)
            },
            Trace::MemAccess(access) => {
                match self.0.process_memory_access(access, true) {
                    Err(e) => Err(e),
                    Ok(_) => {
                        self.2.process_memory_access(access);
                        Ok(false)
                    },
                }
            },
            Trace::Mmap(region) => {
                self.0.process_mmap(region);
                Ok(false)
            },
            Trace::SinkHit(sink, state) => {
                match self.0.process_sink_call_action(sink, state) {
                    Err(e) => Err(e),
                    Ok(_) => {
                        match sink.operation {
                            SinkAction::Main => {
                                if self.2.is_fingerprinted(state.pc) {
                                    match self.2.fingerprint(state.pc, state.sp) {
                                        Err(e) => {
                                            return Err(e);
                                        },
                                        Ok(_) => {},
                                    }
                                } else {
                                    proof {
                                        lemma_no_match_starts_nothing(
                                            view_vars(self.2.vars()),
                                            self.2.0.fingerprints@,
                                            state.pc,
                                            state.sp,
                                        );
                                    }
                                }
                                Ok(false)
                            },
                            SinkAction::Log => Ok(self.should_log()),
                            _ => Ok(false),
                        }
                    },
                }
            },
        }
    }
}

} // verus!
