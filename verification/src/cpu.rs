//! The fetch-decode-execute engine.
//!
//! [`Cpu`] owns the registers, program counter, call stack, timers, the 4KB
//! memory, and the display and keypad.  One call of [`Cpu::emulate_cycle`]
//! fetches the 16-bit word at the program counter, executes it, and then
//! decrements each nonzero timer by one; its whole effect is pinned down by
//! the specification function [`cycle_step`].
//!
//! Faults (stack overflow and underflow, addresses outside the 4KB space)
//! are reported through [`Fault`], never wrapped silently; a word matching
//! no known opcode pattern executes as a silent no-op.

use vstd::prelude::*;

use crate::decode::{decode, decode_op, Instr};
use crate::display::{draw_collision, draw_grid, grid_wf, Display};
use crate::keypad::{first_key, Keypad};

verus! {

/// Lowest address at which a program is loaded, and the initial program
/// counter.
pub const PROGRAM_START: u16 = 0x200;

/// Size of the flat byte-addressed memory.
pub const MEM_SIZE: usize = 4096;

/// A fatal condition, reported from a cycle instead of wrapping silently,
/// or an oversized program rejected at load time.
#[derive(Clone, Copy, PartialEq, Eq, Structural, Debug)]
pub enum Fault {
    /// A subroutine call beyond 16 nested levels.
    StackOverflow { opcode: u16, sp: u8 },
    /// A return with no pending call.
    StackUnderflow { opcode: u16, sp: u8 },
    /// A memory access computed past the 4KB space; `addr` is the index
    /// register at the offending instruction.
    AddressOutOfRange { opcode: u16, addr: u16 },
    /// An instruction fetch from past the 4KB space.
    FetchOutOfRange { pc: u16 },
    /// A program longer than the space above the program-start offset.
    OversizedRom { len: usize },
}

/// The mathematical state of the machine: every register, the memory, the
/// pixel grid and the keypad as plain sequences.
#[verifier::ext_equal]
pub struct CpuView {
    pub i: u16,
    pub pc: u16,
    pub mem: Seq<u8>,
    pub v: Seq<u8>,
    pub stack: Seq<u16>,
    pub sp: u8,
    pub grid: Seq<u8>,
    pub keys: Seq<bool>,
    pub dt: u8,
    pub st: u8,
}

/// The state after one instruction or one cycle, with the reported fault if
/// the step ended in one.
#[verifier::ext_equal]
pub struct StepOutcome {
    pub s: CpuView,
    pub r: Result<(), Fault>,
}

/// Every sized part of the state has its size: 4096 memory bytes, 16
/// registers, a 16-slot stack with the pointer inside it, a well-formed
/// grid, 16 keys.
pub open spec fn view_wf(s: CpuView) -> bool {
    &&& s.mem.len() == 4096
    &&& s.v.len() == 16
    &&& s.stack.len() == 16
    &&& s.sp <= 16
    &&& grid_wf(s.grid)
    &&& s.keys.len() == 16
}

/// 16-bit addition that wraps, as the program counter and index register do.
pub open spec fn wrap_add16(a: u16, b: u16) -> u16 {
    vstd::wrapping::u16_specs::wrapping_add(a, b)
}

/// One timer tick: a nonzero timer decrements, a zero timer stays at zero.
pub open spec fn dec_timer(t: u8) -> u8 {
    if t > 0 {
        (t - 1) as u8
    } else {
        0
    }
}

/// The big-endian 16-bit word at the program counter.
pub open spec fn fetch16(s: CpuView) -> u16 {
    (s.mem[s.pc as int] * 256 + s.mem[s.pc as int + 1]) as u16
}

/// A step that finished normally in state `s`.
pub open spec fn step_ok(s: CpuView) -> StepOutcome {
    StepOutcome { s, r: Ok(()) }
}

/// A step that ended in fault `f`, leaving state `s`.
pub open spec fn step_fault(s: CpuView, f: Fault) -> StepOutcome {
    StepOutcome { s, r: Err(f) }
}

/// The memory after storing registers `v[0]..=v[cnt-1]` at `base`.
pub open spec fn store_regs_mem(mem: Seq<u8>, v: Seq<u8>, base: int, cnt: int) -> Seq<u8> {
    Seq::new(mem.len(), |a: int| if base <= a < base + cnt {
        v[a - base]
    } else {
        mem[a]
    })
}

/// The registers after loading `v[0]..=v[cnt-1]` from memory at `base`.
pub open spec fn load_regs_v(v: Seq<u8>, mem: Seq<u8>, base: int, cnt: int) -> Seq<u8> {
    Seq::new(v.len(), |r: int| if 0 <= r < cnt {
        mem[base + r]
    } else {
        v[r]
    })
}

/// The effect of executing one decoded instruction from state `pre`:
/// the program counter first advances past the word, then the instruction
/// runs.  `rnd` is the byte the random source hands the Cxkk instruction;
/// no other instruction reads it.
pub open spec fn step_instr(pre: CpuView, op: u16, rnd: u8) -> StepOutcome {
    let s = CpuView { pc: wrap_add16(pre.pc, 2), ..pre };
    match decode(op) {
        Instr::Cls => step_ok(CpuView { grid: Seq::new(2048, |p: int| 0u8), ..s }),
        Instr::Ret => {
            if s.sp == 0 {
                step_fault(s, Fault::StackUnderflow { opcode: op, sp: 0 })
            } else {
                step_ok(
                    CpuView { pc: s.stack[s.sp as int - 1], sp: (s.sp - 1) as u8, ..s },
                )
            }
        },
        Instr::Jump { addr } => step_ok(CpuView { pc: addr, ..s }),
        Instr::Call { addr } => {
            if s.sp >= 16 {
                step_fault(s, Fault::StackOverflow { opcode: op, sp: s.sp })
            } else {
                step_ok(
                    CpuView {
                        stack: s.stack.update(s.sp as int, s.pc),
                        sp: (s.sp + 1) as u8,
                        pc: addr,
                        ..s
                    },
                )
            }
        },
        Instr::SkipEqByte { x, kk } => step_ok(
            CpuView {
                pc: if s.v[x as int] == kk {
                    wrap_add16(s.pc, 2)
                } else {
                    s.pc
                },
                ..s
            },
        ),
        Instr::SkipNeByte { x, kk } => step_ok(
            CpuView {
                pc: if s.v[x as int] != kk {
                    wrap_add16(s.pc, 2)
                } else {
                    s.pc
                },
                ..s
            },
        ),
        Instr::SkipEqReg { x, y } => step_ok(
            CpuView {
                pc: if s.v[x as int] == s.v[y as int] {
                    wrap_add16(s.pc, 2)
                } else {
                    s.pc
                },
                ..s
            },
        ),
        Instr::LoadByte { x, kk } => step_ok(CpuView { v: s.v.update(x as int, kk), ..s }),
        Instr::AddByte { x, kk } => {
            let a = s.v[x as int];
            let flag: u8 = if a + kk > 255 {
                1
            } else {
                0
            };
            let res: u8 = ((a + kk) % 256) as u8;
            step_ok(CpuView { v: s.v.update(15, flag).update(x as int, res), ..s })
        },
        Instr::LoadReg { x, y } => step_ok(CpuView { v: s.v.update(x as int, s.v[y as int]), ..s }),
        Instr::OrReg { x, y } => step_ok(
            CpuView { v: s.v.update(x as int, s.v[x as int] | s.v[y as int]), ..s },
        ),
        Instr::AndReg { x, y } => step_ok(
            CpuView { v: s.v.update(x as int, s.v[x as int] & s.v[y as int]), ..s },
        ),
        Instr::XorReg { x, y } => step_ok(
            CpuView { v: s.v.update(x as int, s.v[x as int] ^ s.v[y as int]), ..s },
        ),
        Instr::AddReg { x, y } => {
            let a = s.v[x as int];
            let b = s.v[y as int];
            let flag: u8 = if a + b > 255 {
                1
            } else {
                0
            };
            let res: u8 = ((a + b) % 256) as u8;
            step_ok(CpuView { v: s.v.update(15, flag).update(x as int, res), ..s })
        },
        Instr::SubReg { x, y } => {
            let a = s.v[x as int];
            let b = s.v[y as int];
            let flag: u8 = if a >= b {
                1
            } else {
                0
            };
            let res: u8 = ((a - b) % 256) as u8;
            step_ok(CpuView { v: s.v.update(15, flag).update(x as int, res), ..s })
        },
        Instr::ShrReg { x } => {
            let a = s.v[x as int];
            let flag: u8 = (a % 2) as u8;
            let res: u8 = (a / 2) as u8;
            step_ok(CpuView { v: s.v.update(15, flag).update(x as int, res), ..s })
        },
        Instr::SubnReg { x, y } => {
            let a = s.v[x as int];
            let b = s.v[y as int];
            let flag: u8 = if b >= a {
                1
            } else {
                0
            };
            let res: u8 = ((b - a) % 256) as u8;
            step_ok(CpuView { v: s.v.update(15, flag).update(x as int, res), ..s })
        },
        Instr::ShlReg { x } => {
            let a = s.v[x as int];
            let flag: u8 = if a >= 128 {
                1
            } else {
                0
            };
            let res: u8 = ((a * 2) % 256) as u8;
            step_ok(CpuView { v: s.v.update(15, flag).update(x as int, res), ..s })
        },
        Instr::SkipNeReg { x, y } => step_ok(
            CpuView {
                pc: if s.v[x as int] != s.v[y as int] {
                    wrap_add16(s.pc, 2)
                } else {
                    s.pc
                },
                ..s
            },
        ),
        Instr::LoadIndex { addr } => step_ok(CpuView { i: addr, ..s }),
        Instr::JumpV0 { addr } => step_ok(CpuView { pc: (addr + s.v[0]) as u16, ..s }),
        Instr::Rand { x, kk } => step_ok(CpuView { v: s.v.update(x as int, kk & rnd), ..s }),
        Instr::Draw { x, y, n } => {
            if s.i + n > 4096 {
                step_fault(s, Fault::AddressOutOfRange { opcode: op, addr: s.i })
            } else {
                let sprite = s.mem.subrange(s.i as int, s.i as int + n as int);
                let coll = draw_collision(s.grid, s.v[x as int] as int, s.v[y as int] as int, sprite);
                step_ok(
                    CpuView {
                        grid: draw_grid(s.grid, s.v[x as int] as int, s.v[y as int] as int, sprite),
                        v: s.v.update(15, if coll {
                            0u8
                        } else {
                            1u8
                        }),
                        ..s
                    },
                )
            }
        },
        Instr::SkipKey { x } => step_ok(
            CpuView {
                pc: if s.keys[(s.v[x as int] & 0xF) as int] {
                    wrap_add16(s.pc, 2)
                } else {
                    s.pc
                },
                ..s
            },
        ),
        Instr::SkipNoKey { x } => step_ok(
            CpuView {
                pc: if !s.keys[(s.v[x as int] & 0xF) as int] {
                    wrap_add16(s.pc, 2)
                } else {
                    s.pc
                },
                ..s
            },
        ),
        Instr::LoadDelay { x } => step_ok(CpuView { v: s.v.update(x as int, s.dt), ..s }),
        Instr::WaitKey { x } => {
            match first_key(s.keys, 0) {
                Some(k) => step_ok(CpuView { v: s.v.update(x as int, k), ..s }),
                None => step_ok(CpuView { pc: pre.pc, ..s }),
            }
        },
        Instr::SetDelay { x } => step_ok(CpuView { dt: s.v[x as int], ..s }),
        Instr::SetSound { x } => step_ok(CpuView { st: s.v[x as int], ..s }),
        Instr::AddIndex { x } => step_ok(CpuView { i: wrap_add16(s.i, s.v[x as int] as u16), ..s }),
        Instr::LoadFont { x } => step_ok(
            CpuView { i: (((s.v[x as int] & 0xF) as int) * 5) as u16, ..s },
        ),
        Instr::StoreDigits { x } => {
            if s.i + 3 > 4096 {
                step_fault(s, Fault::AddressOutOfRange { opcode: op, addr: s.i })
            } else {
                let a = s.v[x as int];
                step_ok(
                    CpuView {
                        mem: s.mem.update(s.i as int, (a / 100) as u8).update(
                            s.i as int + 1,
                            ((a / 10) % 10) as u8,
                        ).update(s.i as int + 2, (a % 10) as u8),
                        ..s
                    },
                )
            }
        },
        Instr::StoreRegs { x } => {
            if s.i + x + 1 > 4096 {
                step_fault(s, Fault::AddressOutOfRange { opcode: op, addr: s.i })
            } else {
                step_ok(
                    CpuView { mem: store_regs_mem(s.mem, s.v, s.i as int, x as int + 1), ..s },
                )
            }
        },
        Instr::LoadRegs { x } => {
            if s.i + x + 1 > 4096 {
                step_fault(s, Fault::AddressOutOfRange { opcode: op, addr: s.i })
            } else {
                step_ok(
                    CpuView { v: load_regs_v(s.v, s.mem, s.i as int, x as int + 1), ..s },
                )
            }
        },
        Instr::Nop => step_ok(s),
    }
}

/// What holds of one `execute_opcode` call: the state moved and the result
/// reported exactly as `step_instr` says for the random byte `rnd`.
pub open spec fn step_rel(
    pre: CpuView,
    op: u16,
    rnd: u8,
    post: CpuView,
    r: Result<(), Fault>,
) -> bool {
    let o = step_instr(pre, op, rnd);
    &&& post == o.s
    &&& r == o.r
}

/// One whole cycle: fetch the word at the program counter (a fault if it
/// sits outside memory), execute it, and on success decrement the timers.
pub open spec fn cycle_step(pre: CpuView, rnd: u8) -> StepOutcome {
    if pre.pc as int + 1 >= 4096 {
        step_fault(pre, Fault::FetchOutOfRange { pc: pre.pc })
    } else {
        let o = step_instr(pre, fetch16(pre), rnd);
        if o.r is Ok {
            step_ok(CpuView { dt: dec_timer(o.s.dt), st: dec_timer(o.s.st), ..o.s })
        } else {
            o
        }
    }
}

/// What holds of one `emulate_cycle` call, in the shape of [`step_rel`].
pub open spec fn cycle_rel(pre: CpuView, rnd: u8, post: CpuView, r: Result<(), Fault>) -> bool {
    let o = cycle_step(pre, rnd);
    &&& post == o.s
    &&& r == o.r
}

/// The font glyphs: five rows per hexadecimal digit, 0 through F.
pub open spec fn font_data() -> Seq<u8> {
    seq![
        0xF0u8, 0x90, 0x90, 0x90, 0xF0,
        0x20, 0x60, 0x20, 0x20, 0x70,
        0xF0, 0x10, 0xF0, 0x80, 0xF0,
        0xF0, 0x10, 0xF0, 0x10, 0xF0,
        0x90, 0x90, 0xF0, 0x10, 0x10,
        0xF0, 0x80, 0xF0, 0x10, 0xF0,
        0xF0, 0x80, 0xF0, 0x90, 0xF0,
        0xF0, 0x10, 0x20, 0x40, 0x40,
        0xF0, 0x90, 0xF0, 0x90, 0xF0,
        0xF0, 0x90, 0xF0, 0x10, 0xF0,
        0xF0, 0x90, 0xF0, 0x90, 0x90,
        0xE0, 0x90, 0xE0, 0x90, 0xE0,
        0xF0, 0x80, 0x80, 0x80, 0xF0,
        0xE0, 0x90, 0x90, 0x90, 0xE0,
        0xF0, 0x80, 0xF0, 0x80, 0xF0,
        0xF0, 0x80, 0xF0, 0x80, 0x80,
    ]
}

/// Memory at construction: the font table in the fixed low region, zero
/// everywhere else.
pub open spec fn font_mem() -> Seq<u8> {
    Seq::new(4096, |a: int| if a < 80 {
        font_data()[a]
    } else {
        0u8
    })
}

/// The machine at construction: cleared registers, stack, grid, keys and
/// timers, the program counter at the program-start offset, the font in
/// low memory.
pub open spec fn init_view() -> CpuView {
    CpuView {
        i: 0,
        pc: 0x200,
        mem: font_mem(),
        v: Seq::new(16, |r: int| 0u8),
        stack: Seq::new(16, |k: int| 0u16),
        sp: 0,
        grid: Seq::new(2048, |p: int| 0u8),
        keys: Seq::new(16, |k: int| false),
        dt: 0,
        st: 0,
    }
}

/// Memory after copying `rom` in verbatim at the program-start offset.
pub open spec fn loaded_mem(mem: Seq<u8>, rom: Seq<u8>) -> Seq<u8> {
    Seq::new(mem.len(), |a: int| if 0x200 <= a < 0x200 + rom.len() {
        rom[a - 0x200]
    } else {
        mem[a]
    })
}

pub struct Cpu {
    /// Index register: a 16-bit value used as a 12-bit memory address.
    pub i: u16,
    /// Program counter.
    pub pc: u16,
    /// 4096 bytes of memory.
    pub memory: Vec<u8>,
    /// The 16 general-purpose registers V0 through VF.
    pub v: Vec<u8>,
    /// Return addresses of up to 16 nested subroutine calls.
    pub stack: Vec<u16>,
    /// Stack pointer: the number of pending calls.
    pub sp: u8,
    pub display: Display,
    pub keypad: Keypad,
    /// Delay timer.
    pub dt: u8,
    /// Sound timer: a tone is active while it is nonzero.
    pub st: u8,
}

impl View for Cpu {
    type V = CpuView;

    open spec fn view(&self) -> CpuView {
        CpuView {
            i: self.i,
            pc: self.pc,
            mem: self.memory@,
            v: self.v@,
            stack: self.stack@,
            sp: self.sp,
            grid: self.display.memory@,
            keys: self.keypad.keys@,
            dt: self.dt,
            st: self.st,
        }
    }
}

/// A vector of `n` zero bytes.
fn zeroed_bytes(n: usize) -> (v: Vec<u8>)
    ensures
        v@ == Seq::new(n as nat, |k: int| 0u8),
{
    let mut v: Vec<u8> = Vec::new();
    let mut k: usize = 0;
    while k < n
        invariant
            k <= n,
            v@.len() == k,
            forall|p: int| 0 <= p < k ==> v@[p] == 0,
        decreases n - k,
    {
        v.push(0);
        k = k + 1;
    }
    proof {
        assert(v@ =~= Seq::new(n as nat, |k: int| 0u8));
    }
    v
}

/// A vector of `n` zero words.
fn zeroed_words(n: usize) -> (v: Vec<u16>)
    ensures
        v@ == Seq::new(n as nat, |k: int| 0u16),
{
    let mut v: Vec<u16> = Vec::new();
    let mut k: usize = 0;
    while k < n
        invariant
            k <= n,
            v@.len() == k,
            forall|p: int| 0 <= p < k ==> v@[p] == 0,
        decreases n - k,
    {
        v.push(0);
        k = k + 1;
    }
    proof {
        assert(v@ =~= Seq::new(n as nat, |k: int| 0u16));
    }
    v
}

/// The 4096 construction-time memory bytes: font, then zeroes.
fn font_memory() -> (m: Vec<u8>)
    ensures
        m@ == font_mem(),
{
    let table: [u8; 80] = [
        0xF0, 0x90, 0x90, 0x90, 0xF0,
        0x20, 0x60, 0x20, 0x20, 0x70,
        0xF0, 0x10, 0xF0, 0x80, 0xF0,
        0xF0, 0x10, 0xF0, 0x10, 0xF0,
        0x90, 0x90, 0xF0, 0x10, 0x10,
        0xF0, 0x80, 0xF0, 0x10, 0xF0,
        0xF0, 0x80, 0xF0, 0x90, 0xF0,
        0xF0, 0x10, 0x20, 0x40, 0x40,
        0xF0, 0x90, 0xF0, 0x90, 0xF0,
        0xF0, 0x90, 0xF0, 0x10, 0xF0,
        0xF0, 0x90, 0xF0, 0x90, 0x90,
        0xE0, 0x90, 0xE0, 0x90, 0xE0,
        0xF0, 0x80, 0x80, 0x80, 0xF0,
        0xE0, 0x90, 0x90, 0x90, 0xE0,
        0xF0, 0x80, 0xF0, 0x80, 0xF0,
        0xF0, 0x80, 0xF0, 0x80, 0x80,
    ];
    proof {
        assert(table@ =~= font_data());
    }
    let mut m = zeroed_bytes(MEM_SIZE);
    let mut k: usize = 0;
    while k < 80
        invariant
            k <= 80,
            table@ == font_data(),
            m@.len() == 4096,
            forall|a: int| 0 <= a < k ==> m@[a] == font_data()[a],
            forall|a: int| k <= a < 4096 ==> m@[a] == 0,
        decreases 80 - k,
    {
        m[k] = table[k];
        k = k + 1;
    }
    proof {
        assert(m@ =~= font_mem());
    }
    m
}

/// A value below 512 reduced modulo 256: the wrap of an 8-bit addition.
proof fn lemma_wrap_byte(v: int)
    requires
        0 <= v < 512,
    ensures
        v % 256 == if v < 256 {
            v
        } else {
            v - 256
        },
{
    if v < 256 {
        vstd::arithmetic::div_mod::lemma_small_mod(v as nat, 256);
    } else {
        vstd::arithmetic::div_mod::lemma_mod_sub_multiples_vanish(v, 256);
        vstd::arithmetic::div_mod::lemma_small_mod((v - 256) as nat, 256);
    }
}

/// A difference of bytes reduced modulo 256: the wrap of an 8-bit subtraction.
proof fn lemma_wrap_byte_sub(v: int)
    requires
        -256 < v < 256,
    ensures
        v % 256 == if v >= 0 {
            v
        } else {
            v + 256
        },
{
    if v >= 0 {
        vstd::arithmetic::div_mod::lemma_small_mod(v as nat, 256);
    } else {
        vstd::arithmetic::div_mod::lemma_mod_add_multiples_vanish(v, 256);
        vstd::arithmetic::div_mod::lemma_small_mod((v + 256) as nat, 256);
    }
}

/// Relies on rand::random: one byte from the thread-local generator.
/// Nothing can be promised of its value.
#[verifier::external_body]
fn random_byte() -> u8 {
    rand::random::<u8>()
}

impl Cpu {
    /// Every sized part of the machine has its size; established by
    /// construction and preserved by every cycle.
    pub open spec fn wf(&self) -> bool {
        view_wf(self@)
    }

    pub fn new() -> (c: Cpu)
        ensures
            c.wf(),
            c@ == init_view(),
    {
        let c = Cpu {
            i: 0,
            pc: PROGRAM_START,
            memory: font_memory(),
            v: zeroed_bytes(16),
            stack: zeroed_words(16),
            sp: 0,
            display: Display::new(),
            keypad: Keypad::new(),
            dt: 0,
            st: 0,
        };
        proof {
            assert(c@ =~= init_view());
        }
        c
    }

    /// Copy a program in verbatim at the program-start offset; a program
    /// longer than the remaining address space is rejected untouched.
    pub fn load_rom(&mut self, rom: &[u8]) -> (r: Result<(), Fault>)
        requires
            old(self).wf(),
        ensures
            final(self).wf(),
            rom@.len() <= 3584 ==> (r is Ok) && final(self)@ == (CpuView {
                mem: loaded_mem(old(self)@.mem, rom@),
                ..old(self)@
            }),
            rom@.len() > 3584 ==> r == Err::<(), Fault>(Fault::OversizedRom {
                len: rom@.len() as usize,
            })
                && final(self)@ == old(self)@,
    {
        let n = rom.len();
        if n > 3584 {
            return Err(Fault::OversizedRom { len: n });
        }
        let ghost pre = self@;
        let mut k: usize = 0;
        while k < n
            invariant
                k <= n,
                n == rom@.len() <= 3584,
                self@ == (CpuView { mem: self@.mem, ..pre }),
                self@.mem.len() == 4096,
                forall|a: int| 0x200 <= a < 0x200 + k ==> self@.mem[a] == rom@[a - 0x200],
                forall|a: int|
                    0 <= a < 4096 && !(0x200 <= a < 0x200 + k) ==> self@.mem[a] == pre.mem[a],
            decreases n - k,
        {
            self.memory[0x200 + k] = rom[k];
            k = k + 1;
        }
        proof {
            assert(self@.mem =~= loaded_mem(pre.mem, rom@));
            assert(self@ =~= CpuView { mem: loaded_mem(pre.mem, rom@), ..pre });
        }
        Ok(())
    }

    /// The big-endian instruction word at the program counter.
    fn read_opcode(&self) -> (op: u16)
        requires
            self.wf(),
            self@.pc as int + 1 < 4096,
        ensures
            op == fetch16(self@),
    {
        (self.memory[self.pc as usize] as u16) * 256 + (self.memory[self.pc as usize + 1] as u16)
    }

    /// The `n` sprite rows at memory address `addr`.
    fn read_sprite(&self, addr: u16, n: u8) -> (s: Vec<u8>)
        requires
            self.wf(),
            addr as int + n as int <= 4096,
        ensures
            s@ == self@.mem.subrange(addr as int, addr as int + n as int),
    {
        let mut s: Vec<u8> = Vec::new();
        let mut k: usize = 0;
        while k < n as usize
            invariant
                self.wf(),
                addr as int + n as int <= 4096,
                k <= n,
                s@ == self@.mem.subrange(addr as int, addr as int + k as int),
            decreases n - k,
        {
            s.push(self.memory[addr as usize + k]);
            k = k + 1;
            proof {
                assert(s@ =~= self@.mem.subrange(addr as int, addr as int + k as int));
            }
        }
        s
    }

    /// Execute one already-fetched instruction word: advance the program
    /// counter past it, then apply the instruction, exactly as
    /// [`step_instr`] says for some random byte (only the Cxkk instruction
    /// reads that byte).
    #[verifier::rlimit(60)]
    pub fn execute_opcode(&mut self, opcode: u16) -> (r: Result<(), Fault>)
        requires
            old(self).wf(),
        ensures
            final(self).wf(),
            exists|rnd: u8| #[trigger] step_rel(old(self)@, opcode, rnd, final(self)@, r),
    {
        let ghost pre = self@;
        let instr = decode_op(opcode);
        self.pc = self.pc.wrapping_add(2);
        let ghost s1 = self@;
        match instr {
            Instr::Cls => {
                self.display.cls();
                proof {
                    assert(self@ =~= step_instr(pre, opcode, 0).s);
                    assert(step_rel(pre, opcode, 0, self@, Ok::<(), Fault>(())));
                }
                Ok(())
            },
            Instr::Ret => {
                if self.sp == 0 {
                    let f = Fault::StackUnderflow { opcode, sp: 0 };
                    proof {
                        assert(step_rel(pre, opcode, 0, self@, Err::<(), Fault>(f)));
                    }
                    Err(f)
                } else {
                    self.sp = self.sp - 1;
                    self.pc = self.stack[self.sp as usize];
                    proof {
                        assert(self@ =~= step_instr(pre, opcode, 0).s);
                        assert(step_rel(pre, opcode, 0, self@, Ok::<(), Fault>(())));
                    }
                    Ok(())
                }
            },
            Instr::Jump { addr } => {
                self.pc = addr;
                proof {
                    assert(self@ =~= step_instr(pre, opcode, 0).s);
                    assert(step_rel(pre, opcode, 0, self@, Ok::<(), Fault>(())));
                }
                Ok(())
            },
            Instr::Call { addr } => {
                if self.sp >= 16 {
                    let f = Fault::StackOverflow { opcode, sp: self.sp };
                    proof {
                        assert(step_rel(pre, opcode, 0, self@, Err::<(), Fault>(f)));
                    }
                    Err(f)
                } else {
                    self.stack[self.sp as usize] = self.pc;
                    self.sp = self.sp + 1;
                    self.pc = addr;
                    proof {
                        assert(self@ =~= step_instr(pre, opcode, 0).s);
                        assert(step_rel(pre, opcode, 0, self@, Ok::<(), Fault>(())));
                    }
                    Ok(())
                }
            },
            Instr::SkipEqByte { x, kk } => {
                if self.v[x as usize] == kk {
                    self.pc = self.pc.wrapping_add(2);
                }
                proof {
                    assert(self@ =~= step_instr(pre, opcode, 0).s);
                    assert(step_rel(pre, opcode, 0, self@, Ok::<(), Fault>(())));
                }
                Ok(())
            },
            Instr::SkipNeByte { x, kk } => {
                if self.v[x as usize] != kk {
                    self.pc = self.pc.wrapping_add(2);
                }
                proof {
                    assert(self@ =~= step_instr(pre, opcode, 0).s);
                    assert(step_rel(pre, opcode, 0, self@, Ok::<(), Fault>(())));
                }
                Ok(())
            },
            Instr::SkipEqReg { x, y } => {
                if self.v[x as usize] == self.v[y as usize] {
                    self.pc = self.pc.wrapping_add(2);
                }
                proof {
                    assert(self@ =~= step_instr(pre, opcode, 0).s);
                    assert(step_rel(pre, opcode, 0, self@, Ok::<(), Fault>(())));
                }
                Ok(())
            },
            Instr::LoadByte { x, kk } => {
                self.v[x as usize] = kk;
                proof {
                    assert(self@ =~= step_instr(pre, opcode, 0).s);
                    assert(step_rel(pre, opcode, 0, self@, Ok::<(), Fault>(())));
                }
                Ok(())
            },
            Instr::AddByte { x, kk } => {
                let a = self.v[x as usize];
                let flag: u8 = if (a as u16) + (kk as u16) > 255 {
                    1
                } else {
                    0
                };
                let res = a.wrapping_add(kk);
                self.v[15] = flag;
                self.v[x as usize] = res;
                proof {
                    lemma_wrap_byte(a as int + kk as int);
                    assert(self@ =~= step_instr(pre, opcode, 0).s);
                    assert(step_rel(pre, opcode, 0, self@, Ok::<(), Fault>(())));
                }
                Ok(())
            },
            Instr::LoadReg { x, y } => {
                self.v[x as usize] = self.v[y as usize];
                proof {
                    assert(self@ =~= step_instr(pre, opcode, 0).s);
                    assert(step_rel(pre, opcode, 0, self@, Ok::<(), Fault>(())));
                }
                Ok(())
            },
            Instr::OrReg { x, y } => {
                self.v[x as usize] = self.v[x as usize] | self.v[y as usize];
                proof {
                    assert(self@ =~= step_instr(pre, opcode, 0).s);
                    assert(step_rel(pre, opcode, 0, self@, Ok::<(), Fault>(())));
                }
                Ok(())
            },
            Instr::AndReg { x, y } => {
                self.v[x as usize] = self.v[x as usize] & self.v[y as usize];
                proof {
                    assert(self@ =~= step_instr(pre, opcode, 0).s);
                    assert(step_rel(pre, opcode, 0, self@, Ok::<(), Fault>(())));
                }
                Ok(())
            },
            Instr::XorReg { x, y } => {
                self.v[x as usize] = self.v[x as usize] ^ self.v[y as usize];
                proof {
                    assert(self@ =~= step_instr(pre, opcode, 0).s);
                    assert(step_rel(pre, opcode, 0, self@, Ok::<(), Fault>(())));
                }
                Ok(())
            },
            Instr::AddReg { x, y } => {
                let a = self.v[x as usize];
                let b = self.v[y as usize];
                let flag: u8 = if (a as u16) + (b as u16) > 255 {
                    1
                } else {
                    0
                };
                let res = a.wrapping_add(b);
                self.v[15] = flag;
                self.v[x as usize] = res;
                proof {
                    lemma_wrap_byte(a as int + b as int);
                    assert(self@ =~= step_instr(pre, opcode, 0).s);
                    assert(step_rel(pre, opcode, 0, self@, Ok::<(), Fault>(())));
                }
                Ok(())
            },
            Instr::SubReg { x, y } => {
                let a = self.v[x as usize];
                let b = self.v[y as usize];
                let flag: u8 = if a >= b {
                    1
                } else {
                    0
                };
                let res = a.wrapping_sub(b);
                self.v[15] = flag;
                self.v[x as usize] = res;
                proof {
                    lemma_wrap_byte_sub(a as int - b as int);
                    assert(self@ =~= step_instr(pre, opcode, 0).s);
                    assert(step_rel(pre, opcode, 0, self@, Ok::<(), Fault>(())));
                }
                Ok(())
            },
            Instr::ShrReg { x } => {
                let a = self.v[x as usize];
                let flag: u8 = a % 2;
                let res: u8 = a / 2;
                self.v[15] = flag;
                self.v[x as usize] = res;
                proof {
                    assert(self@ =~= step_instr(pre, opcode, 0).s);
                    assert(step_rel(pre, opcode, 0, self@, Ok::<(), Fault>(())));
                }
                Ok(())
            },
            Instr::SubnReg { x, y } => {
                let a = self.v[x as usize];
                let b = self.v[y as usize];
                let flag: u8 = if b >= a {
                    1
                } else {
                    0
                };
                let res = b.wrapping_sub(a);
                self.v[15] = flag;
                self.v[x as usize] = res;
                proof {
                    lemma_wrap_byte_sub(b as int - a as int);
                    assert(self@ =~= step_instr(pre, opcode, 0).s);
                    assert(step_rel(pre, opcode, 0, self@, Ok::<(), Fault>(())));
                }
                Ok(())
            },
            Instr::ShlReg { x } => {
                let a = self.v[x as usize];
                let flag: u8 = if a >= 128 {
                    1
                } else {
                    0
                };
                let res = a.wrapping_add(a);
                self.v[15] = flag;
                self.v[x as usize] = res;
                proof {
                    lemma_wrap_byte(a as int + a as int);
                    assert(self@ =~= step_instr(pre, opcode, 0).s);
                    assert(step_rel(pre, opcode, 0, self@, Ok::<(), Fault>(())));
                }
                Ok(())
            },
            Instr::SkipNeReg { x, y } => {
                if self.v[x as usize] != self.v[y as usize] {
                    self.pc = self.pc.wrapping_add(2);
                }
                proof {
                    assert(self@ =~= step_instr(pre, opcode, 0).s);
                    assert(step_rel(pre, opcode, 0, self@, Ok::<(), Fault>(())));
                }
                Ok(())
            },
            Instr::LoadIndex { addr } => {
                self.i = addr;
                proof {
                    assert(self@ =~= step_instr(pre, opcode, 0).s);
                    assert(step_rel(pre, opcode, 0, self@, Ok::<(), Fault>(())));
                }
                Ok(())
            },
            Instr::JumpV0 { addr } => {
                self.pc = addr + (self.v[0] as u16);
                proof {
                    assert(self@ =~= step_instr(pre, opcode, 0).s);
                    assert(step_rel(pre, opcode, 0, self@, Ok::<(), Fault>(())));
                }
                Ok(())
            },
            Instr::Rand { x, kk } => {
                let rb = random_byte();
                self.v[x as usize] = kk & rb;
                proof {
                    assert(self@ =~= step_instr(pre, opcode, rb).s);
                    assert(step_rel(pre, opcode, rb, self@, Ok::<(), Fault>(())));
                }
                Ok(())
            },
            Instr::Draw { x, y, n } => {
                if self.i as usize + n as usize > 4096 {
                    let f = Fault::AddressOutOfRange { opcode, addr: self.i };
                    proof {
                        assert(step_rel(pre, opcode, 0, self@, Err::<(), Fault>(f)));
                    }
                    Err(f)
                } else {
                    let sprite = self.read_sprite(self.i, n);
                    let vx = self.v[x as usize];
                    let vy = self.v[y as usize];
                    let coll = self.display.draw(vx as usize, vy as usize, sprite.as_slice());
                    self.v[15] = if coll {
                        0
                    } else {
                        1
                    };
                    proof {
                        assert(self@ =~= step_instr(pre, opcode, 0).s);
                        assert(step_rel(pre, opcode, 0, self@, Ok::<(), Fault>(())));
                    }
                    Ok(())
                }
            },
            Instr::SkipKey { x } => {
                let key = self.v[x as usize] & 0x0F;
                proof {
                    let vx = self@.v[x as int];
                    assert(vx & 0x0F < 16) by (bit_vector);
                }
                if self.keypad.is_pressed(key) {
                    self.pc = self.pc.wrapping_add(2);
                }
                proof {
                    assert(self@ =~= step_instr(pre, opcode, 0).s);
                    assert(step_rel(pre, opcode, 0, self@, Ok::<(), Fault>(())));
                }
                Ok(())
            },
            Instr::SkipNoKey { x } => {
                let key = self.v[x as usize] & 0x0F;
                proof {
                    let vx = self@.v[x as int];
                    assert(vx & 0x0F < 16) by (bit_vector);
                }
                if !self.keypad.is_pressed(key) {
                    self.pc = self.pc.wrapping_add(2);
                }
                proof {
                    assert(self@ =~= step_instr(pre, opcode, 0).s);
                    assert(step_rel(pre, opcode, 0, self@, Ok::<(), Fault>(())));
                }
                Ok(())
            },
            Instr::LoadDelay { x } => {
                self.v[x as usize] = self.dt;
                proof {
                    assert(self@ =~= step_instr(pre, opcode, 0).s);
                    assert(step_rel(pre, opcode, 0, self@, Ok::<(), Fault>(())));
                }
                Ok(())
            },
            Instr::WaitKey { x } => {
                match self.keypad.first_pressed() {
                    Some(key) => {
                        self.v[x as usize] = key;
                    },
                    None => {
                        self.pc = self.pc.wrapping_sub(2);
                    },
                }
                proof {
                    assert(self@ =~= step_instr(pre, opcode, 0).s);
                    assert(step_rel(pre, opcode, 0, self@, Ok::<(), Fault>(())));
                }
                Ok(())
            },
            Instr::SetDelay { x } => {
                self.dt = self.v[x as usize];
                proof {
                    assert(self@ =~= step_instr(pre, opcode, 0).s);
                    assert(step_rel(pre, opcode, 0, self@, Ok::<(), Fault>(())));
                }
                Ok(())
            },
            Instr::SetSound { x } => {
                self.st = self.v[x as usize];
                proof {
                    assert(self@ =~= step_instr(pre, opcode, 0).s);
                    assert(step_rel(pre, opcode, 0, self@, Ok::<(), Fault>(())));
                }
                Ok(())
            },
            Instr::AddIndex { x } => {
                self.i = self.i.wrapping_add(self.v[x as usize] as u16);
                proof {
                    assert(self@ =~= step_instr(pre, opcode, 0).s);
                    assert(step_rel(pre, opcode, 0, self@, Ok::<(), Fault>(())));
                }
                Ok(())
            },
            Instr::LoadFont { x } => {
                let low = self.v[x as usize] & 0x0F;
                proof {
                    let vx = self@.v[x as int];
                    assert(vx & 0x0F < 16) by (bit_vector);
                }
                self.i = (low as u16) * 5;
                proof {
                    assert(self@ =~= step_instr(pre, opcode, 0).s);
                    assert(step_rel(pre, opcode, 0, self@, Ok::<(), Fault>(())));
                }
                Ok(())
            },
            Instr::StoreDigits { x } => {
                if self.i > 4093 {
                    let f = Fault::AddressOutOfRange { opcode, addr: self.i };
                    proof {
                        assert(step_rel(pre, opcode, 0, self@, Err::<(), Fault>(f)));
                    }
                    Err(f)
                } else {
                    let a = self.v[x as usize];
                    let base = self.i as usize;
                    self.memory[base] = a / 100;
                    self.memory[base + 1] = (a / 10) % 10;
                    self.memory[base + 2] = a % 10;
                    proof {
                        assert(self@ =~= step_instr(pre, opcode, 0).s);
                        assert(step_rel(pre, opcode, 0, self@, Ok::<(), Fault>(())));
                    }
                    Ok(())
                }
            },
            Instr::StoreRegs { x } => {
                if self.i as usize + x as usize + 1 > 4096 {
                    let f = Fault::AddressOutOfRange { opcode, addr: self.i };
                    proof {
                        assert(step_rel(pre, opcode, 0, self@, Err::<(), Fault>(f)));
                    }
                    Err(f)
                } else {
                    let base = self.i as usize;
                    let cnt = x as usize + 1;
                    let mut k: usize = 0;
                    proof {
                        assert(self@ =~= (CpuView {
                            mem: store_regs_mem(s1.mem, s1.v, base as int, 0),
                            ..s1
                        }));
                    }
                    while k < cnt
                        invariant
                            k <= cnt,
                            cnt <= 16,
                            base + cnt <= 4096,
                            view_wf(s1),
                            self@ == (CpuView {
                                mem: store_regs_mem(s1.mem, s1.v, base as int, k as int),
                                ..s1
                            }),
                        decreases cnt - k,
                    {
                        self.memory[base + k] = self.v[k];
                        k = k + 1;
                        proof {
                            assert(self@.mem =~= store_regs_mem(
                                s1.mem,
                                s1.v,
                                base as int,
                                k as int,
                            ));
                            assert(self@ =~= (CpuView {
                                mem: store_regs_mem(s1.mem, s1.v, base as int, k as int),
                                ..s1
                            }));
                        }
                    }
                    proof {
                        assert(self@ =~= step_instr(pre, opcode, 0).s);
                        assert(step_rel(pre, opcode, 0, self@, Ok::<(), Fault>(())));
                    }
                    Ok(())
                }
            },
            Instr::LoadRegs { x } => {
                if self.i as usize + x as usize + 1 > 4096 {
                    let f = Fault::AddressOutOfRange { opcode, addr: self.i };
                    proof {
                        assert(step_rel(pre, opcode, 0, self@, Err::<(), Fault>(f)));
                    }
                    Err(f)
                } else {
                    let base = self.i as usize;
                    let cnt = x as usize + 1;
                    let mut k: usize = 0;
                    proof {
                        assert(self@ =~= (CpuView {
                            v: load_regs_v(s1.v, s1.mem, base as int, 0),
                            ..s1
                        }));
                    }
                    while k < cnt
                        invariant
                            k <= cnt,
                            cnt <= 16,
                            base + cnt <= 4096,
                            view_wf(s1),
                            self@ == (CpuView {
                                v: load_regs_v(s1.v, s1.mem, base as int, k as int),
                                ..s1
                            }),
                        decreases cnt - k,
                    {
                        self.v[k] = self.memory[base + k];
                        k = k + 1;
                        proof {
                            assert(self@.v =~= load_regs_v(s1.v, s1.mem, base as int, k as int));
                            assert(self@ =~= (CpuView {
                                v: load_regs_v(s1.v, s1.mem, base as int, k as int),
                                ..s1
                            }));
                        }
                    }
                    proof {
                        assert(self@ =~= step_instr(pre, opcode, 0).s);
                        assert(step_rel(pre, opcode, 0, self@, Ok::<(), Fault>(())));
                    }
                    Ok(())
                }
            },
            Instr::Nop => {
                proof {
                    assert(self@ =~= step_instr(pre, opcode, 0).s);
                    assert(step_rel(pre, opcode, 0, self@, Ok::<(), Fault>(())));
                }
                Ok(())
            },
        }
    }

    /// One cycle: fetch the word at the program counter, execute it, then
    /// decrement each nonzero timer by one.  A fatal condition is reported
    /// and ends the cycle with the timers untouched.  The whole effect is
    /// [`cycle_step`], for some random byte that only the Cxkk instruction
    /// reads.
    #[verifier::rlimit(60)]
    pub fn emulate_cycle(&mut self) -> (r: Result<(), Fault>)
        requires
            old(self).wf(),
        ensures
            final(self).wf(),
            exists|rnd: u8| #[trigger] cycle_rel(old(self)@, rnd, final(self)@, r),
    {
        let ghost pre = self@;
        if self.pc >= 4095 {
            let f = Fault::FetchOutOfRange { pc: self.pc };
            proof {
                assert(cycle_rel(pre, 0, self@, Err::<(), Fault>(f)));
            }
            return Err(f);
        }
        let opcode = self.read_opcode();
        let res = self.execute_opcode(opcode);
        match res {
            Err(f) => {
                proof {
                    let rnd = choose|rnd: u8|
                        step_rel(pre, opcode, rnd, self@, Err::<(), Fault>(f));
                    assert(cycle_rel(pre, rnd, self@, Err::<(), Fault>(f)));
                }
                Err(f)
            },
            Ok(()) => {
                let ghost mid = self@;
                if self.dt > 0 {
                    self.dt = self.dt - 1;
                }
                if self.st > 0 {
                    self.st = self.st - 1;
                }
                proof {
                    let rnd = choose|rnd: u8|
                        step_rel(pre, opcode, rnd, mid, Ok::<(), Fault>(()));
                    assert(self@ =~= (CpuView {
                        dt: dec_timer(mid.dt),
                        st: dec_timer(mid.st),
                        ..mid
                    }));
                    assert(cycle_rel(pre, rnd, self@, Ok::<(), Fault>(())));
                }
                Ok(())
            },
        }
    }

    /// Whether the audio collaborator should be sounding a tone: true while
    /// the sound timer is nonzero.
    pub fn tone_active(&self) -> (b: bool)
        ensures
            b == (self@.st > 0),
    {
        self.st > 0
    }
}

} // verus!
