//! Register decoding for little-endian 32-bit MIPS: the register blob that
//! the host hands over holds the 32 general registers, 4 bytes each.

use vstd::prelude::*;
use crate::endian::{le_value, pow256};
use crate::tracer::RegState;

verus! {

/// Bytes per register.
pub const BITWIDTH: usize = 4;

/// The general registers, in the order the blob holds them.
#[derive(Clone, Copy, Debug, PartialEq, Eq, Structural)]
pub enum MipsReg {
    ZERO,
    AT,
    V0,
    V1,
    A0,
    A1,
    A2,
    A3,
    T0,
    T1,
    T2,
    T3,
    T4,
    T5,
    T6,
    T7,
    S0,
    S1,
    S2,
    S3,
    S4,
    S5,
    S6,
    S7,
    T8,
    T9,
    K0,
    K1,
    GP,
    SP,
    FP,
    RA,
}

impl MipsReg {
    /// The register's position in the blob.
    pub open spec fn spec_index(self) -> nat {
        match self {
            MipsReg::ZERO => 0,
            MipsReg::AT => 1,
            MipsReg::V0 => 2,
            MipsReg::V1 => 3,
            MipsReg::A0 => 4,
            MipsReg::A1 => 5,
            MipsReg::A2 => 6,
            MipsReg::A3 => 7,
            MipsReg::T0 => 8,
            MipsReg::T1 => 9,
            MipsReg::T2 => 10,
            MipsReg::T3 => 11,
            MipsReg::T4 => 12,
            MipsReg::T5 => 13,
            MipsReg::T6 => 14,
            MipsReg::T7 => 15,
            MipsReg::S0 => 16,
            MipsReg::S1 => 17,
            MipsReg::S2 => 18,
            MipsReg::S3 => 19,
            MipsReg::S4 => 20,
            MipsReg::S5 => 21,
            MipsReg::S6 => 22,
            MipsReg::S7 => 23,
            MipsReg::T8 => 24,
            MipsReg::T9 => 25,
            MipsReg::K0 => 26,
            MipsReg::K1 => 27,
            MipsReg::GP => 28,
            MipsReg::SP => 29,
            MipsReg::FP => 30,
            MipsReg::RA => 31,
        }
    }

    pub fn index(self) -> (r: usize)
        ensures
            r == self.spec_index(),
    {
        match self {
            MipsReg::ZERO => 0,
            MipsReg::AT => 1,
            MipsReg::V0 => 2,
            MipsReg::V1 => 3,
            MipsReg::A0 => 4,
            MipsReg::A1 => 5,
            MipsReg::A2 => 6,
            MipsReg::A3 => 7,
            MipsReg::T0 => 8,
            MipsReg::T1 => 9,
            MipsReg::T2 => 10,
            MipsReg::T3 => 11,
            MipsReg::T4 => 12,
            MipsReg::T5 => 13,
            MipsReg::T6 => 14,
            MipsReg::T7 => 15,
            MipsReg::S0 => 16,
            MipsReg::S1 => 17,
            MipsReg::S2 => 18,
            MipsReg::S3 => 19,
            MipsReg::S4 => 20,
            MipsReg::S5 => 21,
            MipsReg::S6 => 22,
            MipsReg::S7 => 23,
            MipsReg::T8 => 24,
            MipsReg::T9 => 25,
            MipsReg::K0 => 26,
            MipsReg::K1 => 27,
            MipsReg::GP => 28,
            MipsReg::SP => 29,
            MipsReg::FP => 30,
            MipsReg::RA => 31,
        }
    }

    /// The register at position `val`.
    pub fn from_index(val: usize) -> (r: MipsReg)
        requires
            val < 32,
        ensures
            r.spec_index() == val,
    {
        match val {
            0 => MipsReg::ZERO,
            1 => MipsReg::AT,
            2 => MipsReg::V0,
            3 => MipsReg::V1,
            4 => MipsReg::A0,
            5 => MipsReg::A1,
            6 => MipsReg::A2,
            7 => MipsReg::A3,
            8 => MipsReg::T0,
            9 => MipsReg::T1,
            10 => MipsReg::T2,
            11 => MipsReg::T3,
            12 => MipsReg::T4,
            13 => MipsReg::T5,
            14 => MipsReg::T6,
            15 => MipsReg::T7,
            16 => MipsReg::S0,
            17 => MipsReg::S1,
            18 => MipsReg::S2,
            19 => MipsReg::S3,
            20 => MipsReg::S4,
            21 => MipsReg::S5,
            22 => MipsReg::S6,
            23 => MipsReg::S7,
            24 => MipsReg::T8,
            25 => MipsReg::T9,
            26 => MipsReg::K0,
            27 => MipsReg::K1,
            28 => MipsReg::GP,
            29 => MipsReg::SP,
            30 => MipsReg::FP,
            _ => MipsReg::RA,
        }
    }
}

/// Register `k` of the blob: four bytes, least significant first.
pub open spec fn reg_value(regs: Seq<u8>, k: nat) -> nat {
    le_value(regs.subrange(4 * k as int, 4 * k as int + 4))
}

proof fn lemma_le_value_4(s: Seq<u8>)
    requires
        s.len() == 4,
    ensures
        le_value(s) == s[0] + 256 * s[1] + 65536 * s[2] + 16777216 * s[3],
{
    let s3 = s.drop_last();
    let s2 = s3.drop_last();
    let s1 = s2.drop_last();
    let s0 = s1.drop_last();
    assert(s0 =~= Seq::<u8>::empty());
    reveal_with_fuel(pow256, 4);
    assert(s1.len() == 1 && s2.len() == 2 && s3.len() == 3);
    reveal_with_fuel(le_value, 2);
    assert(le_value(s0) == 0);
    assert(s1.last() == s[0] && s2.last() == s[1] && s3.last() == s[2] && s.last() == s[3]);
    assert(pow256(0) == 1 && pow256(1) == 256 && pow256(2) == 65536 && pow256(3) == 16777216);
    assert(le_value(s1) == s[0]);
    assert(le_value(s2) == s[0] + 256 * s[1]);
    assert(le_value(s3) == s[0] + 256 * s[1] + 65536 * s[2]);
}

/// Reads a register from the blob.
pub fn get_mips_reg_le(regs: &[u8], register: MipsReg) -> (r: u32)
    requires
        regs@.len() >= 4 * register.spec_index() + 4,
    ensures
        r == reg_value(regs@, register.spec_index()),
{
    let i = register.index() * BITWIDTH;
    proof {
        lemma_le_value_4(regs@.subrange(i as int, i + 4));
    }
    regs[i] as u32 + (regs[i + 1] as u32) * 256 + (regs[i + 2] as u32) * 65536 + (regs[i + 3] as u32)
        * 16777216
}

/// The return address (`ra`) register.
pub fn get_return_addr_le(regs: &[u8]) -> (r: u64)
    requires
        regs@.len() >= 128,
    ensures
        r == reg_value(regs@, 31),
{
    get_mips_reg_le(regs, MipsReg::RA) as u64
}

/// A blob that holds all 32 registers.
pub open spec fn full_blob(regs: Seq<u8>) -> bool {
    regs.len() >= 128
}

impl RegState {
    /// Reads the registers of a call or return at `pc`: the arguments from
    /// `a0`..`a3`, the return address from `ra`, the return value from `v0`
    /// and the stack pointer from `sp`.
    pub fn new(pc: u64, regs: &[u8]) -> (r: RegState)
        requires
            full_blob(regs@),
        ensures
            r.pc == pc,
            r.arg0 == reg_value(regs@, 4),
            r.arg1 == reg_value(regs@, 5),
            r.arg2 == reg_value(regs@, 6),
            r.arg3 == reg_value(regs@, 7),
            r.ret_addr == reg_value(regs@, 31),
            r.ret_val == reg_value(regs@, 2),
            r.sp == reg_value(regs@, 29),
    {
        RegState {
            pc,
            arg0: get_mips_reg_le(regs, MipsReg::A0) as u64,
            arg1: get_mips_reg_le(regs, MipsReg::A1) as u64,
            arg2: get_mips_reg_le(regs, MipsReg::A2) as u64,
            arg3: get_mips_reg_le(regs, MipsReg::A3) as u64,
            ret_addr: get_return_addr_le(regs),
            ret_val: get_mips_reg_le(regs, MipsReg::V0) as u64,
            sp: get_mips_reg_le(regs, MipsReg::SP) as u64,
        }
    }
}

} // verus!
