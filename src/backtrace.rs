//! The call-stack reconstructor: a logical backtrace derived from branch and
//! return traffic, with a parallel stack of expected return addresses.

use vstd::prelude::*;
use crate::symbols::SymOff;

verus! {

/// Frames of the logical call stack: a symbol and its entry address.
pub type Backtrace = Vec<(&'static str, u64)>;

/// Return addresses, one for each frame.
pub type ReturnStack = Vec<u64>;

/// The call-stack state of one traced process.
pub struct BacktraceState {
    pub backtrace: Backtrace,
    pub return_stack: ReturnStack,
    /// Set for the one instruction that follows a taken branch.
    pub branch_flag: bool,
}

/// The mathematical view of a call-stack state.
pub struct CallStack {
    pub frames: Seq<(&'static str, u64)>,
    pub returns: Seq<u64>,
    pub armed: bool,
}

impl View for BacktraceState {
    type V = CallStack;

    open spec fn view(&self) -> CallStack {
        CallStack { frames: self.backtrace@, returns: self.return_stack@, armed: self.branch_flag }
    }
}

impl Default for BacktraceState {
    fn default() -> (r: Self)
        ensures
            r@.frames.len() == 0,
            r@.returns.len() == 0,
            !r@.armed,
    {
        Self { backtrace: Vec::new(), return_stack: Vec::new(), branch_flag: false }
    }
}

/// `frames` without its last entry, or unchanged when empty.
pub open spec fn drop_frame(frames: Seq<(&'static str, u64)>) -> Seq<(&'static str, u64)> {
    if frames.len() > 0 {
        frames.drop_last()
    } else {
        frames
    }
}

/// Pops both stacks while the expected return address on top is `pc`.
pub open spec fn pop_returns(s: CallStack, pc: u64) -> CallStack
    decreases s.returns.len(),
{
    if s.returns.len() > 0 && s.returns.last() == pc {
        pop_returns(
            CallStack { frames: drop_frame(s.frames), returns: s.returns.drop_last(), armed: s.armed },
            pc,
        )
    } else {
        s
    }
}

/// One branch event. When the previous instruction was a taken branch, an
/// exact symbol match at `pc` pushes a frame and the link register `ra`, and
/// then frames whose return address is `pc` are popped. The flag is then set
/// exactly when this branch is taken.
pub open spec fn branch_step(s: CallStack, pc: SymOff, ra: u64, taken: bool) -> CallStack {
    let s1 = if s.armed {
        let pushed = if pc.offset == 0 {
            CallStack {
                frames: s.frames.push((pc.symbol, pc.addr)),
                returns: s.returns.push(ra),
                armed: s.armed,
            }
        } else {
            s
        };
        pop_returns(pushed, pc.addr)
    } else {
        s
    };
    CallStack { frames: s1.frames, returns: s1.returns, armed: taken }
}

/// The call stack after the branch events `events`, in order.
pub open spec fn run_branches(s: CallStack, events: Seq<(SymOff, u64, bool)>) -> CallStack
    decreases events.len(),
{
    if events.len() == 0 {
        s
    } else {
        let e = events.last();
        branch_step(run_branches(s, events.drop_last()), e.0, e.1, e.2)
    }
}

proof fn lemma_pop_returns_keeps_depths(s: CallStack, pc: u64)
    requires
        s.frames.len() == s.returns.len(),
    ensures
        pop_returns(s, pc).frames.len() == pop_returns(s, pc).returns.len(),
        pop_returns(s, pc).armed == s.armed,
    decreases s.returns.len(),
{
    if s.returns.len() > 0 && s.returns.last() == pc {
        lemma_pop_returns_keeps_depths(
            CallStack { frames: drop_frame(s.frames), returns: s.returns.drop_last(), armed: s.armed },
            pc,
        );
    }
}

/// One branch event keeps the backtrace and the return stack equally deep.
pub proof fn lemma_branch_step_keeps_depths(s: CallStack, pc: SymOff, ra: u64, taken: bool)
    requires
        s.frames.len() == s.returns.len(),
    ensures
        branch_step(s, pc, ra, taken).frames.len() == branch_step(s, pc, ra, taken).returns.len(),
{
    if s.armed {
        let pushed = if pc.offset == 0 {
            CallStack {
                frames: s.frames.push((pc.symbol, pc.addr)),
                returns: s.returns.push(ra),
                armed: s.armed,
            }
        } else {
            s
        };
        lemma_pop_returns_keeps_depths(pushed, pc.addr);
    }
}

/// For any sequence of branch events, the backtrace and the return stack
/// are equally deep after each of them, given that they start so.
pub proof fn lemma_depths_agree(s: CallStack, events: Seq<(SymOff, u64, bool)>)
    requires
        s.frames.len() == s.returns.len(),
    ensures
        run_branches(s, events).frames.len() == run_branches(s, events).returns.len(),
    decreases events.len(),
{
    if events.len() > 0 {
        lemma_depths_agree(s, events.drop_last());
        let e = events.last();
        lemma_branch_step_keeps_depths(run_branches(s, events.drop_last()), e.0, e.1, e.2);
    }
}

/// The call-stack state of one process, as one unit.
pub struct PidBacktraceCtx(pub BacktraceState);

impl PidBacktraceCtx {
    pub fn push_backtrace(&mut self, symbol: &'static str, addr: u64)
        ensures
            final(self).0@ == (CallStack { frames: old(self).0@.frames.push((symbol, addr)), ..old(self).0@ }),
    {
        self.0.backtrace.push((symbol, addr));
    }

    pub fn pop_backtrace(&mut self) -> (r: Option<(&'static str, u64)>)
        ensures
            final(self).0@ == (CallStack { frames: drop_frame(old(self).0@.frames), ..old(self).0@ }),
            r == (if old(self).0@.frames.len() > 0 {
                Some(old(self).0@.frames.last())
            } else {
                None
            }),
    {
        self.0.backtrace.pop()
    }

    /// Whether `ra` is the return address on top of the return stack, as it
    /// is after a branch without link.
    pub fn is_unlinked_branch(&self, ra: u64) -> (r: bool)
        ensures
            r == (self.0@.returns.len() > 0 && self.0@.returns.last() == ra),
    {
        let len = self.0.return_stack.len();
        len > 0 && self.0.return_stack[len - 1] == ra
    }

    pub fn push_return_stack(&mut self, ra: u64)
        ensures
            final(self).0@ == (CallStack { returns: old(self).0@.returns.push(ra), ..old(self).0@ }),
    {
        self.0.return_stack.push(ra);
    }

    pub fn pop_return_stack(&mut self) -> (r: Option<u64>)
        ensures
            final(self).0@ == (CallStack {
                returns: if old(self).0@.returns.len() > 0 {
                    old(self).0@.returns.drop_last()
                } else {
                    old(self).0@.returns
                },
                ..old(self).0@
            }),
            r == (if old(self).0@.returns.len() > 0 {
                Some(old(self).0@.returns.last())
            } else {
                None
            }),
    {
        self.0.return_stack.pop()
    }

    /// Whether `pc` is the return address on top of the return stack.
    pub fn is_return(&self, pc: u64) -> (r: bool)
        ensures
            r == (self.0@.returns.len() > 0 && self.0@.returns.last() == pc),
    {
        let len = self.0.return_stack.len();
        if len > 0 {
            self.0.return_stack[len - 1] == pc
        } else {
            false
        }
    }

    pub fn is_branch(&self) -> (r: bool)
        ensures
            r == self.0@.armed,
    {
        self.0.branch_flag
    }

    pub fn set_branch_flag(&mut self)
        ensures
            final(self).0@ == (CallStack { armed: true, ..old(self).0@ }),
    {
        self.0.branch_flag = true;
    }

    pub fn unset_branch_flag(&mut self)
        ensures
            final(self).0@ == (CallStack { armed: false, ..old(self).0@ }),
    {
        self.0.branch_flag = false;
    }

    /// Updates the call stack for one branch event, once the previous
    /// instruction's branch (if any) is known to have been taken; see
    /// `branch_step`.
    pub fn on_branch(&mut self, pc: SymOff, ra: u64, taken: bool)
        ensures
            final(self).0@ == branch_step(old(self).0@, pc, ra, taken),
    {
        if self.is_branch() {
            if pc.is_entry() {
                self.push_backtrace(pc.symbol(), pc.addr());
                self.push_return_stack(ra);
            }
            let ghost mid = self.0@;
            while self.is_return(pc.addr())
                invariant
                    pop_returns(self.0@, pc.addr) == pop_returns(mid, pc.addr),
                decreases self.0@.returns.len(),
            {
                self.pop_backtrace();
                self.pop_return_stack();
            }
            self.unset_branch_flag();
        }
        if taken {
            self.set_branch_flag();
        }
    }
}

} // verus!
