//! The instruction set: the decoded form of an instruction and the decoder.

use vstd::prelude::*;
use vstd::std_specs::convert::FromSpecImpl;
use vstd::std_specs::convert::TryFromSpecImpl;
use std::convert::TryFrom;
use crate::{Address, Chip8Error, Register};

verus! {

/// A decoded instruction. `X` and `Y` in the patterns are register indices,
/// `NNN` an address, `NN` a byte and `N` a nibble.
#[derive(Debug, Copy, Clone, PartialEq, Eq, Structural)]
pub enum Opcode {
    /// 0NNN: call a machine routine; ignored.
    Sys(Address),
    /// 00E0: clear the display.
    Cls,
    /// DXYN: draw an N-row sprite at (VX, VY).
    Draw(Register, Register, u8),
    /// 00EE: return from a subroutine.
    Ret,
    /// 1NNN: jump to NNN.
    Goto(Address),
    /// BNNN: jump to NNN + V0.
    Jump(Address),
    /// 2NNN: call the subroutine at NNN.
    Call(Address),
    /// 3XNN: skip the next instruction if VX == NN.
    SeC(Register, u8),
    /// 4XNN: skip the next instruction if VX != NN.
    SneC(Register, u8),
    /// 5XY0: skip the next instruction if VX == VY.
    Se(Register, Register),
    /// 9XY0: skip the next instruction if VX != VY.
    Sne(Register, Register),
    /// 6XNN: VX = NN.
    SetC(Register, u8),
    /// 7XNN: VX += NN.
    AddC(Register, u8),
    /// 8XY0: VX = VY.
    Assign(Register, Register),
    /// 8XY1: VX |= VY.
    Or(Register, Register),
    /// 8XY2: VX &= VY.
    And(Register, Register),
    /// 8XY3: VX ^= VY.
    Xor(Register, Register),
    /// 8XY6: VX >>= 1.
    Shr(Register, Register),
    /// 8XYE: VX <<= 1.
    Shl(Register, Register),
    /// 8XY4: VX += VY.
    Add(Register, Register),
    /// 8XY5: VX -= VY.
    Sub(Register, Register),
    /// 8XY7: VX = VY - VX.
    Subn(Register, Register),
    /// ANNN: I = NNN.
    SetPtr(Address),
    /// FX1E: I += VX.
    AddPtr(Register),
    /// FX29: I = address of the glyph for the digit in VX.
    SpriteAddr(Register),
    /// FX55: store V0..=VX at I.
    Dump(Register),
    /// FX65: load V0..=VX from I.
    Load(Register),
    /// CXNN: VX = random byte & NN.
    Rand(Register, u8),
    /// EX9E: skip the next instruction if the key in VX is pressed.
    Skip(Register),
    /// EXA1: skip the next instruction if the key in VX is not pressed.
    Skipn(Register),
    /// FX0A: wait for a key and store it in VX.
    GetKey(Register),
    /// FX07: VX = delay timer.
    GetDelay(Register),
    /// FX15: delay timer = VX.
    SetDelay(Register),
    /// FX18: sound timer = VX.
    SoundTimer(Register),
    /// FX33: store the decimal digits of VX at I, I+1, I+2.
    SetBCD(Register),
}

impl Opcode {
    /// Every operand fits its field: a register index and a nibble are below
    /// 16, an address is below 0x1000.
    pub open spec fn well_formed(self) -> bool {
        match self {
            Opcode::Cls | Opcode::Ret => true,
            Opcode::Sys(nnn) | Opcode::Goto(nnn) | Opcode::Jump(nnn) | Opcode::Call(nnn)
            | Opcode::SetPtr(nnn) => nnn < 0x1000,
            Opcode::Draw(x, y, n) => x < 16 && y < 16 && n < 16,
            Opcode::SeC(x, _) | Opcode::SneC(x, _) | Opcode::SetC(x, _) | Opcode::AddC(x, _)
            | Opcode::Rand(x, _) => x < 16,
            Opcode::Se(x, y) | Opcode::Sne(x, y) | Opcode::Assign(x, y) | Opcode::Or(x, y)
            | Opcode::And(x, y) | Opcode::Xor(x, y) | Opcode::Shr(x, y) | Opcode::Shl(x, y)
            | Opcode::Add(x, y) | Opcode::Sub(x, y) | Opcode::Subn(x, y) => x < 16 && y < 16,
            Opcode::AddPtr(x) | Opcode::SpriteAddr(x) | Opcode::Dump(x) | Opcode::Load(x)
            | Opcode::Skip(x) | Opcode::Skipn(x) | Opcode::GetKey(x) | Opcode::GetDelay(x)
            | Opcode::SetDelay(x) | Opcode::SoundTimer(x) | Opcode::SetBCD(x) => x < 16,
        }
    }
}

/// The four nibbles of an instruction word, most significant first.
pub struct Digits(pub u8, pub u8, pub u8, pub u8);

/// The nibbles of `word`, most significant first.
pub open spec fn digits(word: u16) -> Digits {
    Digits(
        (word / 0x1000) as u8,
        ((word / 0x100) % 0x10) as u8,
        ((word / 0x10) % 0x10) as u8,
        (word % 0x10) as u8,
    )
}

impl From<u16> for Digits {
    fn from(input: u16) -> (d: Digits) {
        assert(((input & 0xF000) >> 12) == input / 0x1000) by (bit_vector);
        assert(((input & 0x0F00) >> 8) == (input / 0x100) % 0x10) by (bit_vector);
        assert(((input & 0x00F0) >> 4) == (input / 0x10) % 0x10) by (bit_vector);
        assert((input & 0x000F) == input % 0x10) by (bit_vector);
        Digits(
            ((input & 0xF000) >> 12) as u8,
            ((input & 0x0F00) >> 8) as u8,
            ((input & 0x00F0) >> 4) as u8,
            (input & 0x000F) as u8,
        )
    }
}

impl FromSpecImpl<u16> for Digits {
    open spec fn obeys_from_spec() -> bool {
        true
    }

    open spec fn from_spec(input: u16) -> Digits {
        digits(input)
    }
}

/// What an instruction word means: the instruction it encodes, or
/// `UnknownOpcode` with the word where it encodes none.
pub open spec fn decode(word: u16) -> Result<Opcode, Chip8Error> {
    let Digits(a, x, y, n) = digits(word);
    let nnn = (word % 0x1000) as u16;
    let nn = (word % 0x100) as u8;
    let unknown = Err::<Opcode, Chip8Error>(Chip8Error::UnknownOpcode(word));
    if a == 0x0 {
        if word == 0x00E0 {
            Ok(Opcode::Cls)
        } else if word == 0x00EE {
            Ok(Opcode::Ret)
        } else {
            Ok(Opcode::Sys(nnn))
        }
    } else if a == 0x1 {
        Ok(Opcode::Goto(nnn))
    } else if a == 0x2 {
        Ok(Opcode::Call(nnn))
    } else if a == 0x3 {
        Ok(Opcode::SeC(x, nn))
    } else if a == 0x4 {
        Ok(Opcode::SneC(x, nn))
    } else if a == 0x5 {
        if n == 0 { Ok(Opcode::Se(x, y)) } else { unknown }
    } else if a == 0x6 {
        Ok(Opcode::SetC(x, nn))
    } else if a == 0x7 {
        Ok(Opcode::AddC(x, nn))
    } else if a == 0x8 {
        if n == 0x0 {
            Ok(Opcode::Assign(x, y))
        } else if n == 0x1 {
            Ok(Opcode::Or(x, y))
        } else if n == 0x2 {
            Ok(Opcode::And(x, y))
        } else if n == 0x3 {
            Ok(Opcode::Xor(x, y))
        } else if n == 0x4 {
            Ok(Opcode::Add(x, y))
        } else if n == 0x5 {
            Ok(Opcode::Sub(x, y))
        } else if n == 0x6 {
            Ok(Opcode::Shr(x, y))
        } else if n == 0x7 {
            Ok(Opcode::Subn(x, y))
        } else if n == 0xE {
            Ok(Opcode::Shl(x, y))
        } else {
            unknown
        }
    } else if a == 0x9 {
        if n == 0 { Ok(Opcode::Sne(x, y)) } else { unknown }
    } else if a == 0xA {
        Ok(Opcode::SetPtr(nnn))
    } else if a == 0xB {
        Ok(Opcode::Jump(nnn))
    } else if a == 0xC {
        Ok(Opcode::Rand(x, nn))
    } else if a == 0xD {
        Ok(Opcode::Draw(x, y, n))
    } else if a == 0xE {
        if nn == 0x9E {
            Ok(Opcode::Skip(x))
        } else if nn == 0xA1 {
            Ok(Opcode::Skipn(x))
        } else {
            unknown
        }
    } else {
        if nn == 0x07 {
            Ok(Opcode::GetDelay(x))
        } else if nn == 0x0A {
            Ok(Opcode::GetKey(x))
        } else if nn == 0x15 {
            Ok(Opcode::SetDelay(x))
        } else if nn == 0x18 {
            Ok(Opcode::SoundTimer(x))
        } else if nn == 0x1E {
            Ok(Opcode::AddPtr(x))
        } else if nn == 0x29 {
            Ok(Opcode::SpriteAddr(x))
        } else if nn == 0x33 {
            Ok(Opcode::SetBCD(x))
        } else if nn == 0x55 {
            Ok(Opcode::Dump(x))
        } else if nn == 0x65 {
            Ok(Opcode::Load(x))
        } else {
            unknown
        }
    }
}

/// Decoding is total: every word gives an instruction whose operands fit
/// their fields, or the failure that carries the word itself.
pub proof fn lemma_decode_total(word: u16)
    ensures
        match decode(word) {
            Ok(op) => op.well_formed(),
            Err(e) => e == Chip8Error::UnknownOpcode(word),
        },
{
}

impl TryFrom<u16> for Opcode {
    type Error = Chip8Error;

    fn try_from(input: u16) -> (r: Result<Opcode, Chip8Error>) {
        let Digits(a, x, y, n) = Digits::from(input);
        proof {
            assert((input & 0x0FFF) == input % 0x1000) by (bit_vector);
            assert((y << 4) == y * 16) by (bit_vector)
                requires
                    y < 16,
            ;
        }
        let nnn = input & 0x0FFF;
        let nn = (y << 4) + n;
        let res = match (a, x, y, n) {
            (0x0, 0x0, 0xE, 0x0) => Opcode::Cls,
            (0x0, 0x0, 0xE, 0xE) => Opcode::Ret,
            (0x0, _, _, _) => Opcode::Sys(nnn),
            (0x1, _, _, _) => Opcode::Goto(nnn),
            (0x2, _, _, _) => Opcode::Call(nnn),
            (0x3, _, _, _) => Opcode::SeC(x, nn),
            (0x4, _, _, _) => Opcode::SneC(x, nn),
            (0x5, _, _, 0x0) => Opcode::Se(x, y),
            (0x6, _, _, _) => Opcode::SetC(x, nn),
            (0x7, _, _, _) => Opcode::AddC(x, nn),
            (0x8, _, _, 0x0) => Opcode::Assign(x, y),
            (0x8, _, _, 0x1) => Opcode::Or(x, y),
            (0x8, _, _, 0x2) => Opcode::And(x, y),
            (0x8, _, _, 0x3) => Opcode::Xor(x, y),
            (0x8, _, _, 0x4) => Opcode::Add(x, y),
            (0x8, _, _, 0x5) => Opcode::Sub(x, y),
            (0x8, _, _, 0x6) => Opcode::Shr(x, y),
            (0x8, _, _, 0x7) => Opcode::Subn(x, y),
            (0x8, _, _, 0xE) => Opcode::Shl(x, y),
            (0x9, _, _, 0x0) => Opcode::Sne(x, y),
            (0xA, _, _, _) => Opcode::SetPtr(nnn),
            (0xB, _, _, _) => Opcode::Jump(nnn),
            (0xC, _, _, _) => Opcode::Rand(x, nn),
            (0xD, _, _, _) => Opcode::Draw(x, y, n),
            (0xE, _, 0x9, 0xE) => Opcode::Skip(x),
            (0xE, _, 0xA, 0x1) => Opcode::Skipn(x),
            (0xF, _, 0x0, 0x7) => Opcode::GetDelay(x),
            (0xF, _, 0x0, 0xA) => Opcode::GetKey(x),
            (0xF, _, 0x1, 0x5) => Opcode::SetDelay(x),
            (0xF, _, 0x1, 0x8) => Opcode::SoundTimer(x),
            (0xF, _, 0x1, 0xE) => Opcode::AddPtr(x),
            (0xF, _, 0x2, 0x9) => Opcode::SpriteAddr(x),
            (0xF, _, 0x3, 0x3) => Opcode::SetBCD(x),
            (0xF, _, 0x5, 0x5) => Opcode::Dump(x),
            (0xF, _, 0x6, 0x5) => Opcode::Load(x),
            _ => return Err(Chip8Error::UnknownOpcode(input)),
        };
        Ok(res)
    }
}

impl TryFromSpecImpl<u16> for Opcode {
    open spec fn obeys_try_from_spec() -> bool {
        true
    }

    open spec fn try_from_spec(input: u16) -> Result<Opcode, Chip8Error> {
        decode(input)
    }
}

} // verus!
