//! Machine-wide laws of the instruction semantics, stated over
//! [`crate::cpu::step_instr`] and [`crate::cpu::cycle_step`] and proved for
//! every state and operand.

use vstd::prelude::*;

use crate::cpu::{cycle_step, dec_timer, fetch16, step_instr, view_wf, wrap_add16, CpuView};
use crate::decode::{decode, lemma_decode_wf, Instr};

verus! {

/// Addition of two registers: the stored result is the 8-bit wraparound
/// `(a + b) mod 256`, and the flag register reports exactly whether
/// `a + b` exceeded 255.  (With `x = 0xF` the result overwrites the flag,
/// so the flag clause is stated for the other destinations.)
pub proof fn lemma_add_reg_flag(pre: CpuView, op: u16, rnd: u8, x: u8, y: u8)
    requires
        view_wf(pre),
        decode(op) == (Instr::AddReg { x, y }),
        x != 15,
    ensures
        ({
            let o = step_instr(pre, op, rnd);
            let a = pre.v[x as int];
            let b = pre.v[y as int];
            &&& o.r is Ok
            &&& o.s.v[x as int] == (a + b) % 256
            &&& o.s.v[15] == (if a + b > 255 {
                1u8
            } else {
                0u8
            })
        }),
{
    lemma_decode_wf(op);
}

/// Addition of a register and an immediate: the same wraparound and the
/// same overflow flag as register-register addition.
pub proof fn lemma_add_byte_flag(pre: CpuView, op: u16, rnd: u8, x: u8, kk: u8)
    requires
        view_wf(pre),
        decode(op) == (Instr::AddByte { x, kk }),
        x != 15,
    ensures
        ({
            let o = step_instr(pre, op, rnd);
            let a = pre.v[x as int];
            &&& o.r is Ok
            &&& o.s.v[x as int] == (a + kk) % 256
            &&& o.s.v[15] == (if a + kk > 255 {
                1u8
            } else {
                0u8
            })
        }),
{
    lemma_decode_wf(op);
}

/// Subtraction `v[x] - v[y]`: the stored result is `(a - b) mod 256` and the
/// flag is 1 exactly when no borrow occurs, that is when `a >= b`.
pub proof fn lemma_sub_flag(pre: CpuView, op: u16, rnd: u8, x: u8, y: u8)
    requires
        view_wf(pre),
        decode(op) == (Instr::SubReg { x, y }),
        x != 15,
    ensures
        ({
            let o = step_instr(pre, op, rnd);
            let a = pre.v[x as int];
            let b = pre.v[y as int];
            &&& o.r is Ok
            &&& o.s.v[x as int] == (a - b) % 256
            &&& o.s.v[15] == (if a >= b {
                1u8
            } else {
                0u8
            })
        }),
{
    lemma_decode_wf(op);
}

/// The reversed subtraction `v[y] - v[x]`: the same law with the operands
/// swapped.
pub proof fn lemma_subn_flag(pre: CpuView, op: u16, rnd: u8, x: u8, y: u8)
    requires
        view_wf(pre),
        decode(op) == (Instr::SubnReg { x, y }),
        x != 15,
    ensures
        ({
            let o = step_instr(pre, op, rnd);
            let a = pre.v[x as int];
            let b = pre.v[y as int];
            &&& o.r is Ok
            &&& o.s.v[x as int] == (b - a) % 256
            &&& o.s.v[15] == (if b >= a {
                1u8
            } else {
                0u8
            })
        }),
{
    lemma_decode_wf(op);
}

/// An unconditional jump leaves the program counter exactly at the target
/// address, never at the target plus two: the default advance is overwritten.
pub proof fn lemma_jump_pc(pre: CpuView, op: u16, rnd: u8, addr: u16)
    requires
        view_wf(pre),
        decode(op) == (Instr::Jump { addr }),
    ensures
        step_instr(pre, op, rnd).r is Ok,
        step_instr(pre, op, rnd).s.pc == addr,
{
}

/// A subroutine call leaves the program counter exactly at the target
/// address, pushing the advanced call-site counter.
pub proof fn lemma_call_pc(pre: CpuView, op: u16, rnd: u8, addr: u16)
    requires
        view_wf(pre),
        decode(op) == (Instr::Call { addr }),
        pre.sp < 16,
    ensures
        ({
            let o = step_instr(pre, op, rnd);
            &&& o.r is Ok
            &&& o.s.pc == addr
            &&& o.s.sp == pre.sp + 1
            &&& o.s.stack[pre.sp as int] == wrap_add16(pre.pc, 2)
        }),
{
}

/// The indexed jump leaves the program counter exactly at `addr + v[0]`.
pub proof fn lemma_jump_v0_pc(pre: CpuView, op: u16, rnd: u8, addr: u16)
    requires
        view_wf(pre),
        decode(op) == (Instr::JumpV0 { addr }),
    ensures
        step_instr(pre, op, rnd).r is Ok,
        step_instr(pre, op, rnd).s.pc == addr + pre.v[0],
{
    lemma_decode_wf(op);
}

/// A subroutine call followed at once by a return restores the program
/// counter to exactly the call site plus two, and the stack pointer to its
/// pre-call value.
pub proof fn lemma_call_then_ret(
    pre: CpuView,
    call_op: u16,
    ret_op: u16,
    addr: u16,
    rnd1: u8,
    rnd2: u8,
)
    requires
        view_wf(pre),
        decode(call_op) == (Instr::Call { addr }),
        decode(ret_op) == Instr::Ret,
        pre.sp < 16,
        pre.pc + 2 <= 0xFFFF,
    ensures
        ({
            let o1 = step_instr(pre, call_op, rnd1);
            let o2 = step_instr(o1.s, ret_op, rnd2);
            &&& o1.r is Ok
            &&& o2.r is Ok
            &&& o2.s.pc == pre.pc + 2
            &&& o2.s.sp == pre.sp
        }),
{
}

/// The condition a conditional-skip instruction tests, if the instruction
/// is one.
pub open spec fn skip_cond(s: CpuView, instr: Instr) -> Option<bool> {
    match instr {
        Instr::SkipEqByte { x, kk } => Some(s.v[x as int] == kk),
        Instr::SkipNeByte { x, kk } => Some(s.v[x as int] != kk),
        Instr::SkipEqReg { x, y } => Some(s.v[x as int] == s.v[y as int]),
        Instr::SkipNeReg { x, y } => Some(s.v[x as int] != s.v[y as int]),
        Instr::SkipKey { x } => Some(s.keys[(s.v[x as int] & 0xF) as int]),
        Instr::SkipNoKey { x } => Some(!s.keys[(s.v[x as int] & 0xF) as int]),
        _ => None,
    }
}

/// Every conditional skip advances the program counter by 4 when its
/// condition holds and by 2 otherwise.
pub proof fn lemma_skip_pc(pre: CpuView, op: u16, rnd: u8)
    requires
        view_wf(pre),
        skip_cond(pre, decode(op)) is Some,
        pre.pc + 4 <= 0xFFFF,
    ensures
        ({
            let o = step_instr(pre, op, rnd);
            &&& o.r is Ok
            &&& o.s.pc == (if skip_cond(pre, decode(op)) == Some(true) {
                pre.pc + 4
            } else {
                pre.pc + 2
            })
        }),
{
    lemma_decode_wf(op);
}

/// Storing registers `v[0]..=v[x]` to memory at the index register and then
/// loading them back from the same place reproduces every register exactly:
/// the store touches no register, the load touches no memory byte, and the
/// registers beyond `x` are untouched by both.
pub proof fn lemma_store_load_roundtrip(
    pre: CpuView,
    store_op: u16,
    load_op: u16,
    x: u8,
    rnd1: u8,
    rnd2: u8,
)
    requires
        view_wf(pre),
        decode(store_op) == (Instr::StoreRegs { x }),
        decode(load_op) == (Instr::LoadRegs { x }),
        pre.i + x + 1 <= 4096,
    ensures
        ({
            let o1 = step_instr(pre, store_op, rnd1);
            let o2 = step_instr(o1.s, load_op, rnd2);
            &&& o1.r is Ok
            &&& o2.r is Ok
            &&& o1.s.v == pre.v
            &&& o2.s.v == pre.v
            &&& o2.s.mem == o1.s.mem
        }),
{
    lemma_decode_wf(store_op);
    let o1 = step_instr(pre, store_op, rnd1);
    let o2 = step_instr(o1.s, load_op, rnd2);
    assert(o2.s.v =~= pre.v);
}

/// Each cycle that completes decrements a nonzero timer by exactly one and
/// leaves a zero timer at zero, unless the executed instruction itself
/// wrote that timer.
pub proof fn lemma_cycle_ticks_timers(pre: CpuView, rnd: u8)
    requires
        view_wf(pre),
        cycle_step(pre, rnd).r is Ok,
    ensures
        !(decode(fetch16(pre)) is SetDelay) ==> cycle_step(pre, rnd).s.dt == dec_timer(pre.dt),
        !(decode(fetch16(pre)) is SetSound) ==> cycle_step(pre, rnd).s.st == dec_timer(pre.st),
{
}

} // verus!

