//! A virtual machine for the CHIP-8 instruction set.
//!
//! The machine owns 4 KiB of memory, sixteen byte registers, a call stack, two
//! countdown timers and a 64x32 monochrome display. [`machine::Machine::step`]
//! runs one instruction.
//!
//! - [`opcode`]: the instructions and the decoder.
//! - [`screen`]: the display and the drawing of sprites.
//! - [`model`]: the state of the machine and the step, as mathematics.
//! - [`machine`]: the machine, proved to do what [`model`] says.
//! - [`laws`]: what holds of every state, instruction and sprite.
//! - [`frontend`]: what a program that shows the machine in a window decides.

use vstd::prelude::*;

pub mod opcode;
pub mod screen;
pub mod model;
pub mod machine;
pub mod laws;
pub mod frontend;

verus! {

/// The conditions under which a step of the machine fails.
#[derive(Debug, Clone, Copy, PartialEq, Eq, Structural)]
pub enum Chip8Error {
    /// The instruction word matches no instruction; carries the word.
    UnknownOpcode(u16),
    /// An access fell outside the addressable memory.
    EndOfMemory,
    /// A return was executed with no saved return address.
    EmptyStack,
}

pub type Chip8Result<F> = Result<F, Chip8Error>;

/// A 12-bit memory address, as carried by an instruction.
pub type Address = u16;

/// The index of one of the sixteen registers.
pub type Register = u8;

/// What bit `n` of a byte is worth, bit 0 being the most significant and
/// bit 7 the least.
pub open spec fn bit_weight(n: int) -> int {
    if n <= 0 {
        128
    } else if n == 1 {
        64
    } else if n == 2 {
        32
    } else if n == 3 {
        16
    } else if n == 4 {
        8
    } else if n == 5 {
        4
    } else if n == 6 {
        2
    } else {
        1
    }
}

/// Whether bit `n` of `src` is set, bit 0 being the most significant.
pub open spec fn bit_set(src: u8, n: int) -> bool {
    (src as int / bit_weight(n)) % 2 == 1
}

/// Bit `n` of `src` as 0 or 1, bit 0 being the most significant.
pub fn n_bit(src: u8, n: u8) -> (bit: u8)
    requires
        n < 8,
    ensures
        bit == if bit_set(src, n as int) { 1u8 } else { 0u8 },
{
    let s: u8 = 7 - n;
    proof {
        assert(((src >> s) & 1) == (src / (1u8 << s)) % 2) by (bit_vector)
            requires
                s < 8,
        ;
        assert((1u8 << s) == if s == 0 { 1u8 } else if s == 1 { 2u8 } else if s == 2 { 4u8 }
            else if s == 3 { 8u8 } else if s == 4 { 16u8 } else if s == 5 { 32u8 }
            else if s == 6 { 64u8 } else { 128u8 }) by (bit_vector)
            requires
                s < 8,
        ;
    }
    (src >> s) & 1
}

} // verus!
