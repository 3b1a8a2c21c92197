//! Decoding of 16-bit instruction words.
//!
//! The word is split into four 4-bit fields; dispatch is by the leading
//! nibble, with the 0x0, 0x5, 0x8, 0x9, 0xE and 0xF groups disambiguated by
//! the trailing one or two nibbles.  A word that matches no known pattern
//! decodes to [`Instr::Nop`], which executes as a silent no-op.

use vstd::prelude::*;

verus! {

/// One decoded instruction.  `x` and `y` are register indices (always below
/// 16), `kk` an 8-bit immediate, `addr` a 12-bit address, `n` a 4-bit count.
#[derive(Clone, Copy, PartialEq, Eq, Structural, Debug)]
pub enum Instr {
    /// 00E0: clear the screen.
    Cls,
    /// 00EE: return from a subroutine.
    Ret,
    /// 1nnn: jump to `addr`.
    Jump { addr: u16 },
    /// 2nnn: call the subroutine at `addr`.
    Call { addr: u16 },
    /// 3xkk: skip the next instruction if `v[x] == kk`.
    SkipEqByte { x: u8, kk: u8 },
    /// 4xkk: skip the next instruction if `v[x] != kk`.
    SkipNeByte { x: u8, kk: u8 },
    /// 5xy0: skip the next instruction if `v[x] == v[y]`.
    SkipEqReg { x: u8, y: u8 },
    /// 6xkk: load `kk` into `v[x]`.
    LoadByte { x: u8, kk: u8 },
    /// 7xkk: add `kk` into `v[x]`, wrapping, with the carry in `v[0xF]`.
    AddByte { x: u8, kk: u8 },
    /// 8xy0: copy `v[y]` into `v[x]`.
    LoadReg { x: u8, y: u8 },
    /// 8xy1: bitwise OR of `v[x]` and `v[y]` into `v[x]`.
    OrReg { x: u8, y: u8 },
    /// 8xy2: bitwise AND.
    AndReg { x: u8, y: u8 },
    /// 8xy3: bitwise XOR.
    XorReg { x: u8, y: u8 },
    /// 8xy4: add `v[y]` into `v[x]`, wrapping, with the carry in `v[0xF]`.
    AddReg { x: u8, y: u8 },
    /// 8xy5: subtract `v[y]` from `v[x]`, wrapping, `v[0xF]` = 1 on no borrow.
    SubReg { x: u8, y: u8 },
    /// 8xy6: shift `v[x]` right once, the dropped bit into `v[0xF]`.
    ShrReg { x: u8 },
    /// 8xy7: `v[x] = v[y] - v[x]`, wrapping, `v[0xF]` = 1 on no borrow.
    SubnReg { x: u8, y: u8 },
    /// 8xyE: shift `v[x]` left once, the dropped bit into `v[0xF]`.
    ShlReg { x: u8 },
    /// 9xy0: skip the next instruction if `v[x] != v[y]`.
    SkipNeReg { x: u8, y: u8 },
    /// Annn: load `addr` into the index register.
    LoadIndex { addr: u16 },
    /// Bnnn: jump to `addr + v[0]`.
    JumpV0 { addr: u16 },
    /// Cxkk: load a random byte masked by `kk` into `v[x]`.
    Rand { x: u8, kk: u8 },
    /// Dxyn: draw the `n`-row sprite at memory[I..] at `(v[x], v[y])`.
    Draw { x: u8, y: u8, n: u8 },
    /// Ex9E: skip the next instruction if key `v[x]` is pressed.
    SkipKey { x: u8 },
    /// ExA1: skip the next instruction if key `v[x]` is not pressed.
    SkipNoKey { x: u8 },
    /// Fx07: load the delay timer into `v[x]`.
    LoadDelay { x: u8 },
    /// Fx0A: wait (by repolling) for a key press; store the key in `v[x]`.
    WaitKey { x: u8 },
    /// Fx15: load `v[x]` into the delay timer.
    SetDelay { x: u8 },
    /// Fx18: load `v[x]` into the sound timer.
    SetSound { x: u8 },
    /// Fx1E: add `v[x]` into the index register, wrapping.
    AddIndex { x: u8 },
    /// Fx29: point the index register at the font glyph for `v[x]`'s low nibble.
    LoadFont { x: u8 },
    /// Fx33: store the decimal digits of `v[x]` at memory[I..I+3].
    StoreDigits { x: u8 },
    /// Fx55: store `v[0]..=v[x]` at memory[I..].
    StoreRegs { x: u8 },
    /// Fx65: load `v[0]..=v[x]` from memory[I..].
    LoadRegs { x: u8 },
    /// Any unassigned pattern: a silent no-op.
    Nop,
}

/// Highest 4-bit field of an instruction word.
pub open spec fn nib1(op: u16) -> u16 {
    (op >> 12) & 0xF
}

/// Second 4-bit field: the `x` register index.
pub open spec fn nib2(op: u16) -> u16 {
    (op >> 8) & 0xF
}

/// Third 4-bit field: the `y` register index.
pub open spec fn nib3(op: u16) -> u16 {
    (op >> 4) & 0xF
}

/// Lowest 4-bit field: the count `n`.
pub open spec fn nib4(op: u16) -> u16 {
    op & 0xF
}

/// Lowest 12 bits: the embedded address.
pub open spec fn op_addr(op: u16) -> u16 {
    op & 0xFFF
}

/// Lowest 8 bits: the embedded immediate.
pub open spec fn op_byte(op: u16) -> u8 {
    (op & 0xFF) as u8
}

/// The instruction an opcode word denotes: an exact nibble-tuple match, in
/// the same order the executable decoder tests them.
pub open spec fn decode(op: u16) -> Instr {
    let x = nib2(op) as u8;
    let y = nib3(op) as u8;
    let kk = op_byte(op);
    let n = nib4(op) as u8;
    let addr = op_addr(op);
    if nib1(op) == 0x0 && x == 0x0 && y == 0xE && n == 0x0 {
        Instr::Cls
    } else if nib1(op) == 0x0 && x == 0x0 && y == 0xE && n == 0xE {
        Instr::Ret
    } else if nib1(op) == 0x1 {
        Instr::Jump { addr }
    } else if nib1(op) == 0x2 {
        Instr::Call { addr }
    } else if nib1(op) == 0x3 {
        Instr::SkipEqByte { x, kk }
    } else if nib1(op) == 0x4 {
        Instr::SkipNeByte { x, kk }
    } else if nib1(op) == 0x5 && n == 0x0 {
        Instr::SkipEqReg { x, y }
    } else if nib1(op) == 0x6 {
        Instr::LoadByte { x, kk }
    } else if nib1(op) == 0x7 {
        Instr::AddByte { x, kk }
    } else if nib1(op) == 0x8 && n == 0x0 {
        Instr::LoadReg { x, y }
    } else if nib1(op) == 0x8 && n == 0x1 {
        Instr::OrReg { x, y }
    } else if nib1(op) == 0x8 && n == 0x2 {
        Instr::AndReg { x, y }
    } else if nib1(op) == 0x8 && n == 0x3 {
        Instr::XorReg { x, y }
    } else if nib1(op) == 0x8 && n == 0x4 {
        Instr::AddReg { x, y }
    } else if nib1(op) == 0x8 && n == 0x5 {
        Instr::SubReg { x, y }
    } else if nib1(op) == 0x8 && n == 0x6 {
        Instr::ShrReg { x }
    } else if nib1(op) == 0x8 && n == 0x7 {
        Instr::SubnReg { x, y }
    } else if nib1(op) == 0x8 && n == 0xE {
        Instr::ShlReg { x }
    } else if nib1(op) == 0x9 && n == 0x0 {
        Instr::SkipNeReg { x, y }
    } else if nib1(op) == 0xA {
        Instr::LoadIndex { addr }
    } else if nib1(op) == 0xB {
        Instr::JumpV0 { addr }
    } else if nib1(op) == 0xC {
        Instr::Rand { x, kk }
    } else if nib1(op) == 0xD {
        Instr::Draw { x, y, n }
    } else if nib1(op) == 0xE && y == 0x9 && n == 0xE {
        Instr::SkipKey { x }
    } else if nib1(op) == 0xE && y == 0xA && n == 0x1 {
        Instr::SkipNoKey { x }
    } else if nib1(op) == 0xF && y == 0x0 && n == 0x7 {
        Instr::LoadDelay { x }
    } else if nib1(op) == 0xF && y == 0x0 && n == 0xA {
        Instr::WaitKey { x }
    } else if nib1(op) == 0xF && y == 0x1 && n == 0x5 {
        Instr::SetDelay { x }
    } else if nib1(op) == 0xF && y == 0x1 && n == 0x8 {
        Instr::SetSound { x }
    } else if nib1(op) == 0xF && y == 0x1 && n == 0xE {
        Instr::AddIndex { x }
    } else if nib1(op) == 0xF && y == 0x2 && n == 0x9 {
        Instr::LoadFont { x }
    } else if nib1(op) == 0xF && y == 0x3 && n == 0x3 {
        Instr::StoreDigits { x }
    } else if nib1(op) == 0xF && y == 0x5 && n == 0x5 {
        Instr::StoreRegs { x }
    } else if nib1(op) == 0xF && y == 0x6 && n == 0x5 {
        Instr::LoadRegs { x }
    } else {
        Instr::Nop
    }
}

/// The field bounds every decoded instruction satisfies: register indices
/// below 16, counts below 16, addresses below 4096.
pub open spec fn instr_wf(instr: Instr) -> bool {
    match instr {
        Instr::Jump { addr } => addr < 4096,
        Instr::Call { addr } => addr < 4096,
        Instr::SkipEqByte { x, kk } => x < 16,
        Instr::SkipNeByte { x, kk } => x < 16,
        Instr::SkipEqReg { x, y } => x < 16 && y < 16,
        Instr::LoadByte { x, kk } => x < 16,
        Instr::AddByte { x, kk } => x < 16,
        Instr::LoadReg { x, y } => x < 16 && y < 16,
        Instr::OrReg { x, y } => x < 16 && y < 16,
        Instr::AndReg { x, y } => x < 16 && y < 16,
        Instr::XorReg { x, y } => x < 16 && y < 16,
        Instr::AddReg { x, y } => x < 16 && y < 16,
        Instr::SubReg { x, y } => x < 16 && y < 16,
        Instr::ShrReg { x } => x < 16,
        Instr::SubnReg { x, y } => x < 16 && y < 16,
        Instr::ShlReg { x } => x < 16,
        Instr::SkipNeReg { x, y } => x < 16 && y < 16,
        Instr::LoadIndex { addr } => addr < 4096,
        Instr::JumpV0 { addr } => addr < 4096,
        Instr::Rand { x, kk } => x < 16,
        Instr::Draw { x, y, n } => x < 16 && y < 16 && n < 16,
        Instr::SkipKey { x } => x < 16,
        Instr::SkipNoKey { x } => x < 16,
        Instr::LoadDelay { x } => x < 16,
        Instr::WaitKey { x } => x < 16,
        Instr::SetDelay { x } => x < 16,
        Instr::SetSound { x } => x < 16,
        Instr::AddIndex { x } => x < 16,
        Instr::LoadFont { x } => x < 16,
        Instr::StoreDigits { x } => x < 16,
        Instr::StoreRegs { x } => x < 16,
        Instr::LoadRegs { x } => x < 16,
        _ => true,
    }
}

/// Every word decodes to a well-formed instruction: the fields come from
/// 4- and 12-bit masks.
pub proof fn lemma_decode_wf(op: u16)
    ensures
        instr_wf(decode(op)),
{
    assert((op >> 8) & 0xF < 16) by (bit_vector);
    assert((op >> 4) & 0xF < 16) by (bit_vector);
    assert(op & 0xF < 16) by (bit_vector);
    assert(op & 0xFFF < 4096) by (bit_vector);
}

/// Split an opcode word into its decoded instruction.
pub fn decode_op(op: u16) -> (instr: Instr)
    ensures
        instr == decode(op),
        instr_wf(instr),
{
    let x = ((op >> 8) & 0xF) as u8;
    let y = ((op >> 4) & 0xF) as u8;
    let kk = (op & 0xFF) as u8;
    let n = (op & 0xF) as u8;
    let addr = op & 0xFFF;

    let op_1 = (op >> 12) & 0xF;

    proof {
        lemma_decode_wf(op);
    }

    match (op_1, x, y, n) {
        (0x0, 0x0, 0xE, 0x0) => Instr::Cls,
        (0x0, 0x0, 0xE, 0xE) => Instr::Ret,
        (0x1, _, _, _) => Instr::Jump { addr },
        (0x2, _, _, _) => Instr::Call { addr },
        (0x3, _, _, _) => Instr::SkipEqByte { x, kk },
        (0x4, _, _, _) => Instr::SkipNeByte { x, kk },
        (0x5, _, _, 0x0) => Instr::SkipEqReg { x, y },
        (0x6, _, _, _) => Instr::LoadByte { x, kk },
        (0x7, _, _, _) => Instr::AddByte { x, kk },
        (0x8, _, _, 0x0) => Instr::LoadReg { x, y },
        (0x8, _, _, 0x1) => Instr::OrReg { x, y },
        (0x8, _, _, 0x2) => Instr::AndReg { x, y },
        (0x8, _, _, 0x3) => Instr::XorReg { x, y },
        (0x8, _, _, 0x4) => Instr::AddReg { x, y },
        (0x8, _, _, 0x5) => Instr::SubReg { x, y },
        (0x8, _, _, 0x6) => Instr::ShrReg { x },
        (0x8, _, _, 0x7) => Instr::SubnReg { x, y },
        (0x8, _, _, 0xE) => Instr::ShlReg { x },
        (0x9, _, _, 0x0) => Instr::SkipNeReg { x, y },
        (0xA, _, _, _) => Instr::LoadIndex { addr },
        (0xB, _, _, _) => Instr::JumpV0 { addr },
        (0xC, _, _, _) => Instr::Rand { x, kk },
        (0xD, _, _, _) => Instr::Draw { x, y, n },
        (0xE, _, 0x9, 0xE) => Instr::SkipKey { x },
        (0xE, _, 0xA, 0x1) => Instr::SkipNoKey { x },
        (0xF, _, 0x0, 0x7) => Instr::LoadDelay { x },
        (0xF, _, 0x0, 0xA) => Instr::WaitKey { x },
        (0xF, _, 0x1, 0x5) => Instr::SetDelay { x },
        (0xF, _, 0x1, 0x8) => Instr::SetSound { x },
        (0xF, _, 0x1, 0xE) => Instr::AddIndex { x },
        (0xF, _, 0x2, 0x9) => Instr::LoadFont { x },
        (0xF, _, 0x3, 0x3) => Instr::StoreDigits { x },
        (0xF, _, 0x5, 0x5) => Instr::StoreRegs { x },
        (0xF, _, 0x6, 0x5) => Instr::LoadRegs { x },
        (_, _, _, _) => Instr::Nop,
    }
}

} // verus!
