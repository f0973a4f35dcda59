//! What the machine is and what one step does to it, as mathematics: the
//! state as sequences and numbers, and the step as a function on states.

use vstd::prelude::*;
use crate::Chip8Error;
use crate::opcode::{decode, Opcode};
use crate::screen::{blank, draw_sprite, sprite_collides, CELLS};

verus! {

/// Bytes of addressable memory.
pub const MEMORY_SIZE: usize = 0x1000;

/// Where a program is loaded, and where execution starts.
pub const PROGRAM_START: usize = 0x200;

/// Bytes in the glyph of one hexadecimal digit.
pub const FS_CHARLEN: u8 = 5;

/// The glyphs of the digits 0 to F, five rows each; they lie at address 0.
pub const FONTSET: [u8; 80] = [
    0xF0, 0x90, 0x90, 0x90, 0xF0,
    0x20, 0x60, 0x20, 0x20, 0x70,
    0xF0, 0x10, 0xF0, 0x80, 0xF0,
    0xF0, 0x10, 0xF0, 0x10, 0xF0,
    0x90, 0x90, 0xF0, 0x10, 0x10,
    0xF0, 0x80, 0xF0, 0x10, 0xF0,
    0xF0, 0x80, 0xF0, 0x90, 0xF0,
    0xF0, 0x10, 0x20, 0x40, 0x40,
    0xF0, 0x90, 0xF0, 0x90, 0xF0,
    0xF0, 0x90, 0xF0, 0x10, 0xF0,
    0xF0, 0x90, 0xF0, 0x90, 0x90,
    0xE0, 0x90, 0xE0, 0x90, 0xE0,
    0xF0, 0x80, 0x80, 0x80, 0xF0,
    0xE0, 0x90, 0x90, 0x90, 0xE0,
    0xF0, 0x80, 0xF0, 0x80, 0xF0,
    0xF0, 0x80, 0xF0, 0x80, 0x80,
];

/// The state of a machine.
#[verifier::ext_equal]
pub struct State {
    /// The memory, `MEMORY_SIZE` bytes.
    pub memory: Seq<u8>,
    /// The display, `CELLS` cells in row-major order, `true` for a lit cell.
    pub display: Seq<bool>,
    /// The registers V0 to VF.
    pub registers: Seq<u8>,
    /// The memory pointer I.
    pub pointer: nat,
    /// The saved return addresses, the most recent last.
    pub stack: Seq<nat>,
    /// The program counter.
    pub pc: nat,
    /// The delay timer.
    pub delay: u8,
    /// The sound timer.
    pub sound: u8,
    /// The keys that are held down, in the order the caller gave them.
    pub keys: Seq<u8>,
}

/// How a step ended.
pub enum Outcome {
    /// The step changed nothing that a viewer can see.
    Quiet,
    /// The step wrote to the display.
    Redraw,
    /// The step failed.
    Failed(Chip8Error),
}

/// A timer after one step: one less, and never below zero.
pub open spec fn counted_down(timer: u8) -> u8 {
    if timer > 0 { (timer - 1) as u8 } else { 0 }
}

/// The hundreds, tens and ones of `num`.
pub open spec fn bcd(num: u8) -> (u8, u8, u8) {
    (num / 100, (num / 10) % 10, num % 10)
}

/// The instruction word made of two bytes, the most significant first.
pub open spec fn word_of(most: u8, least: u8) -> u16 {
    (most as int * 0x100 + least as int) as u16
}

/// 1 for `true`, 0 for `false`.
pub open spec fn flag(b: bool) -> u8 {
    if b { 1 } else { 0 }
}

impl State {
    /// The memory, the display and the register file have their sizes.
    pub open spec fn well_formed(self) -> bool {
        &&& self.memory.len() == MEMORY_SIZE
        &&& self.display.len() == CELLS
        &&& self.registers.len() == 16
    }

    /// The value of register `x`.
    pub open spec fn v(self, x: u8) -> u8 {
        self.registers[x as int]
    }

    /// This state with `value` in register `x`.
    pub open spec fn with_v(self, x: u8, value: u8) -> State {
        State { registers: self.registers.update(x as int, value), ..self }
    }

    /// This state with the program counter at `pc`.
    pub open spec fn at(self, pc: nat) -> State {
        State { pc, ..self }
    }

    /// This state with the next instruction skipped if `condition` holds.
    pub open spec fn skip_if(self, condition: bool) -> State {
        if condition { self.at(self.pc + 2) } else { self }
    }

    /// This state with the flag written to VF and then `value` to register `x`.
    pub open spec fn with_flag_then(self, carry: bool, x: u8, value: u8) -> State {
        self.with_v(0xF, flag(carry)).with_v(x, value)
    }
}

/// The state of a machine that has just been made for `program`: the glyphs
/// at address 0, the program at `PROGRAM_START`, everything else zero.
pub open spec fn initial(program: Seq<u8>) -> State {
    State {
        memory: Seq::new(
            MEMORY_SIZE as nat,
            |a: int|
                if a < 80 {
                    FONTSET@[a]
                } else if PROGRAM_START <= a < PROGRAM_START + program.len() {
                    program[a - PROGRAM_START]
                } else {
                    0u8
                },
        ),
        display: blank(),
        registers: Seq::new(16, |r: int| 0u8),
        pointer: 0,
        stack: Seq::empty(),
        pc: PROGRAM_START as nat,
        delay: 0,
        sound: 0,
        keys: Seq::empty(),
    }
}

/// Whether executing `op` in `s` would read or write memory beyond its end,
/// or move the pointer beyond what the machine can hold.
pub open spec fn overruns(s: State, op: Opcode) -> bool {
    match op {
        Opcode::Draw(_, _, n) => s.pointer + n > MEMORY_SIZE,
        Opcode::SetBCD(_) => s.pointer + 2 >= MEMORY_SIZE,
        Opcode::Dump(x) | Opcode::Load(x) => s.pointer + x >= MEMORY_SIZE,
        Opcode::AddPtr(x) => s.pointer + s.v(x) > usize::MAX,
        _ => false,
    }
}

/// What executing `op` does to `s`, for an instruction that does not overrun
/// the memory; `random` is the byte that `Rand` draws. The program counter of
/// `s` already points past the instruction.
///
/// A return with nothing to return to fails with `EmptyStack` and puts the
/// program counter back on the instruction; nothing else fails.
pub open spec fn execute(s: State, op: Opcode, random: u8) -> (State, Outcome) {
    match op {
        Opcode::Cls => (State { display: blank(), ..s }, Outcome::Redraw),
        Opcode::Ret => if s.stack.len() == 0 {
            (s.at((s.pc - 2) as nat), Outcome::Failed(Chip8Error::EmptyStack))
        } else {
            (State { pc: s.stack.last(), stack: s.stack.drop_last(), ..s }, Outcome::Quiet)
        },
        Opcode::Sys(_) => (s, Outcome::Quiet),
        Opcode::Goto(nnn) => (s.at(nnn as nat), Outcome::Quiet),
        Opcode::Call(nnn) => (
            State { pc: nnn as nat, stack: s.stack.push(s.pc), ..s },
            Outcome::Quiet,
        ),
        Opcode::SeC(x, nn) => (s.skip_if(s.v(x) == nn), Outcome::Quiet),
        Opcode::SneC(x, nn) => (s.skip_if(s.v(x) != nn), Outcome::Quiet),
        Opcode::Se(x, y) => (s.skip_if(s.v(x) == s.v(y)), Outcome::Quiet),
        Opcode::Sne(x, y) => (s.skip_if(s.v(x) != s.v(y)), Outcome::Quiet),
        Opcode::SetC(x, nn) => (s.with_v(x, nn), Outcome::Quiet),
        Opcode::AddC(x, nn) => (
            s.with_flag_then(s.v(x) + nn > 255, x, ((s.v(x) + nn) % 256) as u8),
            Outcome::Quiet,
        ),
        Opcode::Assign(x, y) => (s.with_v(x, s.v(y)), Outcome::Quiet),
        Opcode::Or(x, y) => (s.with_v(x, s.v(x) | s.v(y)), Outcome::Quiet),
        Opcode::And(x, y) => (s.with_v(x, s.v(x) & s.v(y)), Outcome::Quiet),
        Opcode::Xor(x, y) => (s.with_v(x, s.v(x) ^ s.v(y)), Outcome::Quiet),
        Opcode::Add(x, y) => (
            s.with_flag_then(s.v(x) + s.v(y) > 255, x, ((s.v(x) + s.v(y)) % 256) as u8),
            Outcome::Quiet,
        ),
        Opcode::Sub(x, y) => (
            s.with_flag_then(s.v(x) >= s.v(y), x, ((s.v(x) - s.v(y)) % 256) as u8),
            Outcome::Quiet,
        ),
        Opcode::Subn(x, y) => (
            s.with_flag_then(s.v(y) >= s.v(x), x, ((s.v(y) - s.v(x)) % 256) as u8),
            Outcome::Quiet,
        ),
        Opcode::Shr(x, _) => {
            let flagged = s.with_v(0xF, s.v(x) % 2);
            (flagged.with_v(x, flagged.v(x) / 2), Outcome::Quiet)
        },
        Opcode::Shl(x, _) => {
            let flagged = s.with_v(0xF, s.v(x) / 128);
            (flagged.with_v(x, ((flagged.v(x) * 2) % 256) as u8), Outcome::Quiet)
        },
        Opcode::SetPtr(nnn) => (State { pointer: nnn as nat, ..s }, Outcome::Quiet),
        Opcode::Jump(nnn) => (s.at((nnn + s.v(0)) as nat), Outcome::Quiet),
        Opcode::Rand(x, nn) => (s.with_v(x, random & nn), Outcome::Quiet),
        Opcode::Draw(x, y, n) => {
            let sprite = s.memory.subrange(s.pointer as int, s.pointer + n);
            let hit = sprite_collides(s.display, s.v(x) as int, s.v(y) as int, sprite, n as nat);
            let display = draw_sprite(s.display, s.v(x) as int, s.v(y) as int, sprite, n as nat);
            (State { display, ..s.with_v(0xF, flag(hit)) }, Outcome::Redraw)
        },
        Opcode::Skip(x) => (s.skip_if(s.keys.contains(s.v(x))), Outcome::Quiet),
        Opcode::Skipn(x) => (s.skip_if(!s.keys.contains(s.v(x))), Outcome::Quiet),
        Opcode::GetDelay(x) => (s.with_v(x, s.delay), Outcome::Quiet),
        Opcode::GetKey(x) => if s.keys.len() == 0 {
            (s.at((s.pc - 2) as nat), Outcome::Quiet)
        } else {
            (s.with_v(x, s.keys[0]), Outcome::Quiet)
        },
        Opcode::SetDelay(x) => (State { delay: s.v(x), ..s }, Outcome::Quiet),
        Opcode::SoundTimer(x) => (State { sound: s.v(x), ..s }, Outcome::Quiet),
        Opcode::AddPtr(x) => (State { pointer: s.pointer + s.v(x) as nat, ..s }, Outcome::Quiet),
        Opcode::SpriteAddr(x) => (
            State { pointer: (FS_CHARLEN * (s.v(x) % 16)) as nat, ..s },
            Outcome::Quiet,
        ),
        Opcode::SetBCD(x) => {
            let (hundreds, tens, ones) = bcd(s.v(x));
            let at = s.pointer as int;
            let memory = s.memory.update(at, hundreds).update(at + 1, tens).update(at + 2, ones);
            (State { memory, ..s }, Outcome::Quiet)
        },
        Opcode::Dump(x) => {
            let memory = Seq::new(
                s.memory.len(),
                |a: int|
                    if s.pointer <= a <= s.pointer + x {
                        s.registers[a - s.pointer]
                    } else {
                        s.memory[a]
                    },
            );
            (State { memory, ..s }, Outcome::Quiet)
        },
        Opcode::Load(x) => {
            let registers = Seq::new(
                s.registers.len(),
                |r: int| if r <= x { s.memory[s.pointer + r] } else { s.registers[r] },
            );
            (State { registers, ..s }, Outcome::Quiet)
        },
    }
}

/// Whether both bytes of the instruction at the program counter lie in memory.
pub open spec fn can_fetch(s: State) -> bool {
    s.pc + 1 < MEMORY_SIZE
}

/// The instruction word at the program counter.
pub open spec fn fetch(s: State) -> u16 {
    word_of(s.memory[s.pc as int], s.memory[s.pc as int + 1])
}

/// The state once an instruction has been fetched: both timers counted down,
/// the program counter past the instruction.
pub open spec fn advanced(s: State) -> State {
    State { pc: s.pc + 2, delay: counted_down(s.delay), sound: counted_down(s.sound), ..s }
}

/// The instruction that a step from `s` executes, or the failure that the
/// step finds before it changes anything: `EndOfMemory` where the instruction
/// does not lie in memory or would overrun it, `UnknownOpcode` where the word
/// at the program counter encodes no instruction.
pub open spec fn next(s: State) -> Result<Opcode, Chip8Error> {
    if !can_fetch(s) {
        Err(Chip8Error::EndOfMemory)
    } else {
        match decode(fetch(s)) {
            Ok(op) => if overruns(s, op) { Err(Chip8Error::EndOfMemory) } else { Ok(op) },
            Err(e) => Err(e),
        }
    }
}

/// Whether the instruction at the program counter draws a random byte.
pub open spec fn draws_random(s: State) -> bool {
    next(s) matches Ok(Opcode::Rand(_, _))
}

/// One step of the machine; `random` is the byte that `Rand` draws.
///
/// The instruction at the program counter is fetched and decoded. Where that
/// fails, or the instruction would overrun the memory, the step fails and
/// changes nothing. Otherwise the timers count down, the program counter
/// moves past the instruction, and the instruction is executed. A return
/// with nothing to return to then fails and puts the program counter back
/// where it was before the step.
pub open spec fn step(s: State, random: u8) -> (State, Outcome) {
    match next(s) {
        Ok(op) => execute(advanced(s), op, random),
        Err(e) => (s, Outcome::Failed(e)),
    }
}

} // verus!
