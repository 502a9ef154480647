//! The sink catalog: which watched functions carry allocation semantics, and
//! how their arguments are read.

use std::collections::HashMap;
use vstd::prelude::*;
use vstd::string::*;
use crate::text::{contains_str, has_infix, same_str};
use crate::tracer::RegState;

verus! {

broadcast use vstd::std_specs::hash::group_hash_axioms;

/// What a watched function does to the allocation state.
#[derive(Copy, Clone, Debug, PartialEq, Eq, Structural)]
pub enum SinkAction {
    Allocate,
    ReAllocate,
    Sbrk,
    Free,
    Unk,
    Main,
    Log,
}

/// The meaning of one argument or of the return value of a watched function.
#[derive(Copy, Clone, Debug, PartialEq, Eq, Structural)]
pub enum VarType {
    Pointer,
    Size,
    Num,
    Void,
    Unk,
}

/// The action that a sink definition names.
pub open spec fn action_named(t: Seq<char>) -> SinkAction {
    if t == "Allocate"@ {
        SinkAction::Allocate
    } else if t == "ReAllocate"@ {
        SinkAction::ReAllocate
    } else if t == "Free"@ {
        SinkAction::Free
    } else if t == "Main"@ {
        SinkAction::Main
    } else if t == "Log"@ {
        SinkAction::Log
    } else {
        SinkAction::Unk
    }
}

/// The argument type that a sink definition names.
pub open spec fn var_type_named(t: Seq<char>) -> VarType {
    if t == "Pointer"@ {
        VarType::Pointer
    } else if t == "Size"@ {
        VarType::Size
    } else if t == "Num"@ {
        VarType::Num
    } else if t == "Void"@ {
        VarType::Void
    } else {
        VarType::Unk
    }
}

impl SinkAction {
    /// Reads an action from its name; unknown names give `Unk`.
    pub fn _from_string(t: String) -> (r: SinkAction)
        ensures
            r == action_named(t@),
    {
        let s = t.as_str();
        if same_str(s, "Allocate") {
            SinkAction::Allocate
        } else if same_str(s, "ReAllocate") {
            SinkAction::ReAllocate
        } else if same_str(s, "Free") {
            SinkAction::Free
        } else if same_str(s, "Main") {
            SinkAction::Main
        } else if same_str(s, "Log") {
            SinkAction::Log
        } else {
            SinkAction::Unk
        }
    }
}

impl VarType {
    /// Reads an argument type from its name; unknown names give `Unk`.
    pub fn _from_string(t: String) -> (r: VarType)
        ensures
            r == var_type_named(t@),
    {
        let s = t.as_str();
        if same_str(s, "Pointer") {
            VarType::Pointer
        } else if same_str(s, "Size") {
            VarType::Size
        } else if same_str(s, "Num") {
            VarType::Num
        } else if same_str(s, "Void") {
            VarType::Void
        } else {
            VarType::Unk
        }
    }
}

/// A watched function: its address, its action, the meaning of its arguments
/// in order, the names it is known by, and the meaning of its return value.
#[derive(Clone, Debug)]
pub struct AllocationSink {
    pub address: u64,
    pub operation: SinkAction,
    pub args: Vec<VarType>,
    pub names: Vec<String>,
    pub returns: VarType,
}

/// The action, argument types and return type of the sink that a symbol
/// name stands for, decided by the first of these fragments that it holds.
pub open spec fn sink_kind(sym: Seq<char>) -> Option<(SinkAction, Seq<VarType>, VarType)> {
    if has_infix(sym, "libc_malloc"@) {
        Some((SinkAction::Allocate, seq![VarType::Size], VarType::Pointer))
    } else if has_infix(sym, "libc_calloc"@) {
        Some((SinkAction::Allocate, seq![VarType::Size, VarType::Num], VarType::Pointer))
    } else if has_infix(sym, "libc_free"@) {
        Some((SinkAction::Free, seq![VarType::Pointer], VarType::Void))
    } else if has_infix(sym, "sbrk"@) {
        Some((SinkAction::Sbrk, seq![VarType::Size], VarType::Pointer))
    } else if has_infix(sym, "main"@) {
        Some((SinkAction::Main, seq![VarType::Size], VarType::Pointer))
    } else if has_infix(sym, "menu"@) || has_infix(sym, "fgets"@) || has_infix(sym, "fscanf"@) {
        Some((SinkAction::Log, seq![VarType::Size], VarType::Pointer))
    } else {
        None
    }
}

/// Argument `i` (0 to 3) of a call, as the registers hold it.
pub open spec fn reg_arg(state: RegState, i: int) -> u64 {
    if i == 0 {
        state.arg0
    } else if i == 1 {
        state.arg1
    } else if i == 2 {
        state.arg2
    } else {
        state.arg3
    }
}

/// The value of the last argument typed `Size`, or 0.
pub open spec fn size_arg(args: Seq<VarType>, state: RegState) -> nat
    decreases args.len(),
{
    if args.len() == 0 {
        0
    } else if args.last() == VarType::Size {
        reg_arg(state, args.len() - 1) as nat
    } else {
        size_arg(args.drop_last(), state)
    }
}

/// The value of the last argument typed `Num`, or 1.
pub open spec fn count_arg(args: Seq<VarType>, state: RegState) -> nat
    decreases args.len(),
{
    if args.len() == 0 {
        1
    } else if args.last() == VarType::Num {
        reg_arg(state, args.len() - 1) as nat
    } else {
        count_arg(args.drop_last(), state)
    }
}

/// The number of bytes that a call requests: its size times its count.
pub open spec fn requested_size(args: Seq<VarType>, state: RegState) -> nat {
    size_arg(args, state) * count_arg(args, state)
}

proof fn lemma_product_fits_u128(a: u64, b: u64)
    ensures
        a as int * b as int <= u128::MAX,
{
    assert(a as int * b as int <= 0xffff_ffff_ffff_ffff * 0xffff_ffff_ffff_ffff) by (nonlinear_arith)
        requires
            a <= 0xffff_ffff_ffff_ffffu64,
            b <= 0xffff_ffff_ffff_ffffu64,
    ;
}

impl AllocationSink {
    /// The names that `sinks` already knows for `addr`.
    pub open spec fn known_names(sinks: Map<u64, AllocationSink>, addr: u64) -> Seq<Seq<char>> {
        if sinks.contains_key(addr) {
            sinks[addr].names.deep_view()
        } else {
            Seq::empty()
        }
    }

    /// Adds or refreshes the sink at `addr` if the symbol name `sym` is one
    /// that the catalog watches; the sink keeps the names it had and gains `sym`.
    pub fn add_new_from_sym(sinks: &mut HashMap<u64, AllocationSink>, sym: &'static str, addr: u64)
        ensures
            match sink_kind(sym@) {
                None => final(sinks)@ == old(sinks)@,
                Some(kind) => {
                    &&& final(sinks)@.dom() == old(sinks)@.dom().insert(addr)
                    &&& forall|k: u64| k != addr && old(sinks)@.contains_key(k)
                        ==> #[trigger] final(sinks)@[k] == old(sinks)@[k]
                    &&& final(sinks)@[addr].address == addr
                    &&& final(sinks)@[addr].operation == kind.0
                    &&& final(sinks)@[addr].args@ == kind.1
                    &&& final(sinks)@[addr].returns == kind.2
                    &&& final(sinks)@[addr].names.deep_view()
                        == Self::known_names(old(sinks)@, addr).push(sym@)
                },
            },
    {
        let mut names: Vec<String> = match sinks.get(&addr) {
            Some(s) => s.names.clone(),
            None => Vec::new(),
        };
        assert(names.deep_view() =~= Self::known_names(old(sinks)@, addr));

        let info: Option<(SinkAction, Vec<VarType>, VarType)> = if contains_str(sym, "libc_malloc") {
            Some((SinkAction::Allocate, vec![VarType::Size], VarType::Pointer))
        } else if contains_str(sym, "libc_calloc") {
            Some((SinkAction::Allocate, vec![VarType::Size, VarType::Num], VarType::Pointer))
        } else if contains_str(sym, "libc_free") {
            Some((SinkAction::Free, vec![VarType::Pointer], VarType::Void))
        } else if contains_str(sym, "sbrk") {
            Some((SinkAction::Sbrk, vec![VarType::Size], VarType::Pointer))
        } else if contains_str(sym, "main") {
            Some((SinkAction::Main, vec![VarType::Size], VarType::Pointer))
        } else if contains_str(sym, "menu") {
            Some((SinkAction::Log, vec![VarType::Size], VarType::Pointer))
        } else if contains_str(sym, "fgets") {
            Some((SinkAction::Log, vec![VarType::Size], VarType::Pointer))
        } else if contains_str(sym, "fscanf") {
            Some((SinkAction::Log, vec![VarType::Size], VarType::Pointer))
        } else {
            None
        };

        match info {
            None => {},
            Some((operation, args, ret_type)) => {
                names.push(<String as StringExecFns>::from_str(sym));
                let sink = AllocationSink { address: addr, operation, args, names, returns: ret_type };
                assert(sink.names.deep_view() =~= Self::known_names(old(sinks)@, addr).push(sym@));
                sinks.insert(addr, sink);
            },
        }
    }

    /// The registered size and count of a call, read from its arguments.
    fn size_and_count(&self, state: &RegState) -> (r: (u64, u64))
        requires
            self.args@.len() <= 4,
        ensures
            r.0 == size_arg(self.args@, *state),
            r.1 == count_arg(self.args@, *state),
    {
        let mut size: u64 = 0;
        let mut num: u64 = 1;
        let emu_args: [u64; 4] = [state.arg0, state.arg1, state.arg2, state.arg3];
        let n = self.args.len();
        let mut i: usize = 0;
        while i < n
            invariant
                n == self.args@.len(),
                n <= 4,
                i <= n,
                emu_args@ == seq![state.arg0, state.arg1, state.arg2, state.arg3],
                size == size_arg(self.args@.take(i as int), *state),
                num == count_arg(self.args@.take(i as int), *state),
            decreases n - i,
        {
            proof {
                assert(self.args@.take(i + 1).drop_last() =~= self.args@.take(i as int));
            }
            match self.args[i] {
                VarType::Size => size = emu_args[i],
                VarType::Num => num = emu_args[i],
                _ => {},
            }
            i = i + 1;
        }
        assert(self.args@.take(n as int) =~= self.args@);
        (size, num)
    }

    /// Whether the size that a call requests can be held in a `usize`.
    pub fn size_fits(&self, state: &RegState) -> (r: bool)
        requires
            self.args@.len() <= 4,
        ensures
            r == (requested_size(self.args@, *state) <= usize::MAX),
    {
        let (size, num) = self.size_and_count(state);
        proof {
            lemma_product_fits_u128(size, num);
        }
        (size as u128) * (num as u128) <= usize::MAX as u128
    }

    /// The number of bytes that a call of this sink requests, from the
    /// arguments typed `Size` and `Num` (count 1 if none).
    pub fn get_allocation_size(&self, state: &RegState) -> (r: usize)
        requires
            self.args@.len() <= 4,
            requested_size(self.args@, *state) <= usize::MAX,
        ensures
            r == requested_size(self.args@, *state),
    {
        let (size, num) = self.size_and_count(state);
        proof {
            lemma_product_fits_u128(size, num);
        }
        let product = (size as u128) * (num as u128);
        product as usize
    }
}

} // verus!
