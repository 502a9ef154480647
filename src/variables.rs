//! Stack-variable fingerprinting: variables at fixed offsets from the stack
//! pointer on entry to chosen functions, whose values are followed through
//! the writes to them.

use multimap::MultiMap;
use vstd::prelude::*;
use crate::maps::{appended, new_variable_map, variable_entries, variable_insert, variable_remove};
use crate::tracer::{SimpleAccess, TraceFault};

verus! {

/// A followed variable: where it lives and its latest value.
#[derive(Debug)]
#[allow(inconsistent_fields)]
pub enum DataType {
    Ptr { addr: u64, val: u64, data: Vec<u8> },
    Int { addr: u64, val: u64 },
    Bool { addr: u64, val: bool },
}

impl DataType {
    /// The variable with its value replaced by `v` (a flag keeps its value).
    pub open spec fn with_value(self, v: u64) -> DataType {
        match self {
            DataType::Ptr { addr, val, data } => DataType::Ptr { addr, val: v, data },
            DataType::Int { addr, val } => DataType::Int { addr, val: v },
            DataType::Bool { addr, val } => self,
        }
    }

    /// Records the value that a write stored in the variable.
    pub fn update(&mut self, access: &SimpleAccess)
        requires
            !(*old(self) is Bool),
        ensures
            *final(self) == old(self).with_value(access.value),
    {
        match self {
            DataType::Ptr { addr: _, val, data: _ } => *val = access.value,
            DataType::Int { addr: _, val } => *val = access.value,
            DataType::Bool { addr: _, val: _ } => {},
        }
    }
}

/// A variable to follow: on entry to the function at `func_addr`, a variable
/// of kind `data_type` lives `stack_offset` bytes below the stack pointer.
#[derive(Debug)]
pub struct Fingerprint {
    pub func_addr: u64,
    pub stack_offset: u64,
    pub data_type: DataType,
}

/// The value of a followed variable.
#[allow(inconsistent_fields)]
pub enum VarView {
    Ptr { addr: u64, val: u64, data: Seq<u8> },
    Int { addr: u64, val: u64 },
    Bool { addr: u64, val: bool },
}

impl View for DataType {
    type V = VarView;

    open spec fn view(&self) -> VarView {
        match self {
            DataType::Ptr { addr, val, data } => VarView::Ptr { addr: *addr, val: *val, data: data@ },
            DataType::Int { addr, val } => VarView::Int { addr: *addr, val: *val },
            DataType::Bool { addr, val } => VarView::Bool { addr: *addr, val: *val },
        }
    }
}

/// The values of followed variables, by address.
pub open spec fn view_vars(m: Map<u64, Seq<DataType>>) -> Map<u64, Seq<VarView>> {
    m.map_values(|s: Seq<DataType>| s.map_values(|d: DataType| d@))
}

/// The variable that `f` starts on entry with stack pointer `sp`: a null
/// pointer with no data, or an integer holding `0xffffffff`.
pub open spec fn fresh_var(f: Fingerprint, sp: u64) -> VarView {
    let addr = (sp - f.stack_offset) as u64;
    match f.data_type {
        DataType::Ptr { .. } => VarView::Ptr { addr, val: 0, data: Seq::empty() },
        DataType::Int { .. } => VarView::Int { addr, val: 0xffffffff },
        DataType::Bool { .. } => VarView::Bool { addr, val: false },
    }
}

/// `vars` after the variables of the fingerprints `fps` that match `pc`
/// have been started, in order.
pub open spec fn started(vars: Map<u64, Seq<VarView>>, fps: Seq<Fingerprint>, pc: u64, sp: u64) -> Map<
    u64,
    Seq<VarView>,
>
    decreases fps.len(),
{
    if fps.len() == 0 {
        vars
    } else {
        let f = fps.last();
        let mid = started(vars, fps.drop_last(), pc, sp);
        if f.func_addr == pc {
            appended(mid, (sp - f.stack_offset) as u64, fresh_var(f, sp))
        } else {
            mid
        }
    }
}

proof fn lemma_view_appended(m: Map<u64, Seq<DataType>>, k: u64, d: DataType)
    ensures
        view_vars(appended(m, k, d)) == appended(view_vars(m), k, d@),
{
    let l = view_vars(appended(m, k, d));
    let r = appended(view_vars(m), k, d@);
    assert forall|key: u64| #[trigger] l.contains_key(key) == r.contains_key(key) by {}
    assert forall|key: u64| l.contains_key(key) implies #[trigger] l[key] == r[key] by {
        if key == k {
            if m.contains_key(k) {
                assert(l[key] =~= r[key]);
            } else {
                assert(l[key] =~= r[key]);
            }
        }
    }
    assert(l =~= r);
}

/// The fingerprints and the variables followed so far.
#[derive(Debug)]
pub struct VariableCtx {
    pub fingerprints: Vec<Fingerprint>,
    pub vars: MultiMap<u64, DataType>,
}

/// The followed variables of one process, as one unit.
#[derive(Debug)]
pub struct PidVariableCtx(pub VariableCtx);

impl PidVariableCtx {
    /// A context following the variables that `fingerprints` describe.
    pub fn new(fingerprints: Vec<Fingerprint>) -> (r: PidVariableCtx)
        requires
            forall|i: int| 0 <= i < fingerprints@.len() ==> !(#[trigger] fingerprints@[i].data_type is Bool),
        ensures
            r.wf(),
            r.0.fingerprints == fingerprints,
            r.vars() == Map::<u64, Seq<DataType>>::empty(),
    {
        let r = PidVariableCtx(VariableCtx { fingerprints, vars: new_variable_map() });
        r
    }

    pub open spec fn vars(&self) -> Map<u64, Seq<DataType>> {
        variable_entries(self.0.vars)
    }

    /// Fingerprints describe pointers or integers; every followed address
    /// has variables, none of them a flag.
    pub open spec fn wf(&self) -> bool {
        &&& forall|i: int|
            0 <= i < self.0.fingerprints@.len() ==> !(#[trigger] self.0.fingerprints@[i].data_type is Bool)
        &&& forall|k: u64| #[trigger]
            self.vars().contains_key(k) ==> self.vars()[k].len() > 0 && forall|j: int|
                0 <= j < self.vars()[k].len() ==> !(#[trigger] self.vars()[k][j] is Bool)
    }

    /// Whether some fingerprint is for the function at `pc`.
    pub fn is_fingerprinted(&self, pc: u64) -> (r: bool)
        ensures
            r == exists|i: int|
                0 <= i < self.0.fingerprints@.len() && (#[trigger] self.0.fingerprints@[i]).func_addr == pc,
    {
        let n = self.0.fingerprints.len();
        let mut i: usize = 0;
        while i < n
            invariant
                n == self.0.fingerprints@.len(),
                i <= n,
                forall|j: int| 0 <= j < i ==> (#[trigger] self.0.fingerprints@[j]).func_addr != pc,
            decreases n - i,
        {
            if self.0.fingerprints[i].func_addr == pc {
                return true;
            }
            i = i + 1;
        }
        false
    }

    /// Whether some fingerprint for `pc` lies further below the stack than `sp` reaches.
    pub open spec fn underflows(&self, pc: u64, sp: u64) -> bool {
        exists|i: int|
            0 <= i < self.0.fingerprints@.len() && (#[trigger] self.0.fingerprints@[i]).func_addr == pc
                && self.0.fingerprints@[i].stack_offset > sp
    }

    /// On entry to the function at `pc` with stack pointer `sp`, starts
    /// following the variables of every fingerprint for `pc`.
    pub fn fingerprint(&mut self, pc: u64, sp: u64) -> (r: Result<(), TraceFault>)
        requires
            old(self).wf(),
        ensures
            final(self).wf(),
            final(self).0.fingerprints == old(self).0.fingerprints,
            old(self).underflows(pc, sp) ==> r == Err::<(), TraceFault>(TraceFault::StackUnderflow)
                && final(self).vars() == old(self).vars(),
            !old(self).underflows(pc, sp) ==> r == Ok::<(), TraceFault>(()) && view_vars(final(self).vars())
                == started(view_vars(old(self).vars()), old(self).0.fingerprints@, pc, sp),
    {
        let n = self.0.fingerprints.len();
        let mut i: usize = 0;
        while i < n
            invariant
                n == self.0.fingerprints@.len(),
                i <= n,
                self.wf(),
                self.0.fingerprints == old(self).0.fingerprints,
                self.vars() == old(self).vars(),
                forall|j: int|
                    0 <= j < i ==> !((#[trigger] self.0.fingerprints@[j]).func_addr == pc
                        && self.0.fingerprints@[j].stack_offset > sp),
            decreases n - i,
        {
            if self.0.fingerprints[i].func_addr == pc && self.0.fingerprints[i].stack_offset > sp {
                return Err(TraceFault::StackUnderflow);
            }
            i = i + 1;
        }
        let ghost before = self.vars();
        let mut i: usize = 0;
        while i < n
            invariant
                n == self.0.fingerprints@.len(),
                i <= n,
                !old(self).underflows(pc, sp),
                self.0.fingerprints == old(self).0.fingerprints,
                before == old(self).vars(),
                self.wf(),
                view_vars(self.vars()) == started(view_vars(before), self.0.fingerprints@.take(i as int), pc, sp),
            decreases n - i,
        {
            let ghost mid = self.vars();
            proof {
                assert(self.0.fingerprints@.take(i + 1).drop_last() =~= self.0.fingerprints@.take(i as int));
            }
            let f = &self.0.fingerprints[i];
            if f.func_addr == pc {
                let addr = sp - f.stack_offset;
                let dat = match f.data_type {
                    DataType::Ptr { .. } => DataType::Ptr { val: 0, addr, data: Vec::new() },
                    _ => DataType::Int { val: 0xffffffff, addr },
                };
                let ghost fi = self.0.fingerprints@[i as int];
                assert(dat@ == fresh_var(fi, sp));
                variable_insert(&mut self.0.vars, addr, dat);
                proof {
                    assert(self.0.fingerprints@.take(i + 1).last() == fi);
                    lemma_view_appended(mid, addr, dat);
                    let now = self.vars();
                    assert forall|k: u64| #[trigger] now.contains_key(k) implies now[k].len() > 0
                        && forall|j: int| 0 <= j < now[k].len() ==> !(#[trigger] now[k][j] is Bool) by {
                        if k != addr {
                            assert(mid.contains_key(k));
                        } else if mid.contains_key(k) {
                            assert(now[k] == mid[k].push(dat));
                            assert forall|j: int| 0 <= j < now[k].len() implies !(#[trigger] now[k][j] is Bool) by {
                                if j < mid[k].len() {
                                    assert(now[k][j] == mid[k][j]);
                                }
                            }
                        } else {
                            assert(now[k] == Seq::<DataType>::empty().push(dat));
                        }
                    }
                }
            } else {
                proof {
                    assert(self.0.fingerprints@.take(i + 1).last() == self.0.fingerprints@[i as int]);
                }
            }
            i = i + 1;
        }
        proof {
            assert(self.0.fingerprints@.take(n as int) =~= self.0.fingerprints@);
        }
        Ok(())
    }

    /// The followed variables after a write of `value` to `addr`: the first
    /// variable recorded at `addr`, if any, takes the value.
    pub open spec fn after_write(vars: Map<u64, Seq<DataType>>, addr: u64, value: u64) -> Map<
        u64,
        Seq<DataType>,
    > {
        if vars.contains_key(addr) {
            vars.insert(addr, vars[addr].update(0, vars[addr][0].with_value(value)))
        } else {
            vars
        }
    }

    /// A write to the address of a followed variable stores its value into
    /// the first variable recorded there.
    pub fn process_memory_access(&mut self, access: &SimpleAccess)
        requires
            old(self).wf(),
        ensures
            final(self).wf(),
            final(self).0.fingerprints == old(self).0.fingerprints,
            final(self).vars() == Self::after_write(old(self).vars(), access.address, access.value),
    {
        let k = access.address;
        let ghost before = self.vars();
        let mut v = match variable_remove(&mut self.0.vars, k) {
            Some(v) => v,
            None => return ,
        };
        let total = v.len();
        let ghost target = before[k].update(0, before[k][0].with_value(access.value));
        assert(before[k].len() > 0);
        let mut first = v.remove(0);
        assert(!(first is Bool));
        first.update(access);
        variable_insert(&mut self.0.vars, k, first);
        let ghost base = before.remove(k);
        proof {
            assert(Seq::<DataType>::empty().push(first) =~= target.take(1));
        }
        let mut j: usize = 1;
        let ghost n = target.len();
        while v.len() > 0
            invariant
                before.contains_key(k),
                n == target.len(),
                n == before[k].len(),
                n == total,
                j + v@.len() == n,
                1 <= j <= n,
                forall|t: int| 0 <= t < v@.len() ==> v@[t] == target[j + t],
                !base.contains_key(k),
                self.vars() == base.insert(k, target.take(j as int)),
                self.0.fingerprints == old(self).0.fingerprints,
            decreases v@.len(),
        {
            let x = v.remove(0);
            variable_insert(&mut self.0.vars, k, x);
            proof {
                assert(target.take(j + 1) =~= target.take(j as int).push(x));
                assert(base.insert(k, target.take(j as int)).insert(k, target.take(j as int).push(x))
                    =~= base.insert(k, target.take(j + 1)));
            }
            j = j + 1;
        }
        proof {
            assert(target.take(n as int) =~= target);
            assert(base.insert(k, target) =~= before.insert(k, target));
            let now = self.vars();
            assert forall|kk: u64| #[trigger] now.contains_key(kk) implies now[kk].len() > 0
                && forall|t: int| 0 <= t < now[kk].len() ==> !(#[trigger] now[kk][t] is Bool) by {
                if kk != k {
                    assert(before.contains_key(kk));
                } else {
                    assert forall|t: int| 0 <= t < now[kk].len() implies !(#[trigger] now[kk][t] is Bool) by {
                        if t > 0 {
                            assert(now[kk][t] == before[k][t]);
                        }
                    }
                }
            }
        }
    }
}

} // verus!
