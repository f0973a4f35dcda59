//! The machine itself: memory, registers, stack, timers, keys and display,
//! and the step that runs one instruction.

use vstd::prelude::*;
use vstd::slice::slice_subrange;
use std::convert::TryFrom;
use crate::{Chip8Error, Chip8Result, Register};
use crate::model;
use crate::model::{
    advanced, bcd, can_fetch, counted_down, draws_random, initial, next, overruns, Outcome, State,
    FONTSET, FS_CHARLEN, MEMORY_SIZE, PROGRAM_START,
};
use crate::opcode::{lemma_decode_total, Opcode};
use crate::screen::{blank, cell_bytes, Buffer, Screen};

verus! {

/// A CHIP-8 machine.
pub struct Machine {
    memory: [u8; MEMORY_SIZE],
    buffer: Buffer,
    registers: [u8; 16],
    i: usize,
    stack: Vec<usize>,
    pc: usize,
    timer: u8,
    sound_timer: u8,
    pressed_keys: Vec<u8>,
}

/// What a step hands back to the caller.
pub enum Step<'a> {
    /// The display was written: its cells as bytes, top row first, 1 for a
    /// lit cell.
    DrawAction(&'a [u8]),
    /// Nothing changed that a viewer can see.
    Step,
}

/// Whether `result` is what a step hands back when it ends with `outcome` and
/// leaves the display as `display`.
pub open spec fn reports<'a>(
    result: Result<Step<'a>, Chip8Error>,
    outcome: Outcome,
    display: Seq<bool>,
) -> bool {
    match outcome {
        Outcome::Quiet => result matches Ok(Step::Step),
        Outcome::Redraw => result matches Ok(Step::DrawAction(cells)) && cells@ == cell_bytes(
            display,
        ),
        Outcome::Failed(e) => result matches Err(f) && f == e,
    }
}

/// The hundreds, tens and ones of `num`.
pub fn to_bcd(num: u8) -> (digits: (u8, u8, u8))
    ensures
        digits == bcd(num),
        digits.0 * 100 + digits.1 * 10 + digits.2 == num,
        digits.0 <= 2 && digits.1 <= 9 && digits.2 <= 9,
{
    (num / 100, (num / 10) % 10, num % 10)
}

impl View for Machine {
    type V = State;

    closed spec fn view(&self) -> State {
        State {
            memory: self.memory@,
            display: self.buffer@,
            registers: self.registers@,
            pointer: self.i as nat,
            stack: Seq::new(self.stack@.len(), |k: int| self.stack@[k] as nat),
            pc: self.pc as nat,
            delay: self.timer,
            sound: self.sound_timer,
            keys: self.pressed_keys@,
        }
    }
}

impl Machine {
    /// A machine with `program` loaded at `PROGRAM_START`, about to run its
    /// first instruction.
    pub fn new(program: &[u8]) -> (machine: Self)
        requires
            PROGRAM_START + program@.len() <= MEMORY_SIZE,
        ensures
            machine@ == initial(program@),
    {
        let mut memory = [0u8; MEMORY_SIZE];
        let mut k: usize = 0;
        while k < 80
            invariant
                k <= 80,
                forall|a: int| 0 <= a < k ==> memory@[a] == FONTSET@[a],
                forall|a: int| k <= a < MEMORY_SIZE ==> memory@[a] == 0u8,
            decreases 80 - k,
        {
            memory[k] = FONTSET[k];
            k += 1;
        }
        let len = program.len();
        let mut k: usize = 0;
        while k < len
            invariant
                k <= len,
                len == program@.len(),
                PROGRAM_START + len <= MEMORY_SIZE,
                forall|a: int| 0 <= a < 80 ==> memory@[a] == FONTSET@[a],
                forall|a: int| 80 <= a < PROGRAM_START ==> memory@[a] == 0u8,
                forall|a: int|
                    PROGRAM_START <= a < PROGRAM_START + k ==> memory@[a] == program@[a
                        - PROGRAM_START],
                forall|a: int| PROGRAM_START + k <= a < MEMORY_SIZE ==> memory@[a] == 0u8,
            decreases len - k,
        {
            memory[PROGRAM_START + k] = program[k];
            k += 1;
        }
        let m = Machine {
            memory,
            buffer: Buffer::new(),
            registers: [0u8; 16],
            i: 0,
            stack: Vec::new(),
            pc: PROGRAM_START,
            timer: 0,
            sound_timer: 0,
            pressed_keys: Vec::new(),
        };
        assert(m@ =~= initial(program@));
        m
    }

    /// Replaces the set of keys that are held down.
    pub fn key_pressed(&mut self, ks: Vec<u8>)
        ensures
            final(self)@ == (State { keys: ks@, ..old(self)@ }),
    {
        self.pressed_keys = ks;
    }

    /// Runs one instruction, as `model::step` says: fetches and decodes it,
    /// counts the timers down, moves the program counter past it and
    /// executes it.
    ///
    /// A `Rand` instruction draws its byte from the random generator of the
    /// calling thread, so the step is `model::step` for some byte; no other
    /// instruction draws one, and the step is then the same for every byte.
    ///
    /// The step fails with `EndOfMemory` where the instruction, or what it
    /// reads or writes, lies beyond the memory, and with `UnknownOpcode`
    /// where the word at the program counter is no instruction; either way
    /// nothing has changed. It fails with `EmptyStack` where it returns with
    /// nothing to return to; the program counter is then where it was, and
    /// the timers have counted down.
    pub fn step(&mut self) -> (result: Chip8Result<Step<'_>>)
        ensures
            exists|random: u8|
                final(self)@ == (#[trigger] model::step(old(self)@, random)).0 && reports(
                    result,
                    model::step(old(self)@, random).1,
                    final(self)@.display,
                ),
            !draws_random(old(self)@) ==> final(self)@ == model::step(old(self)@, 0).0
                && reports(result, model::step(old(self)@, 0).1, final(self)@.display),
    {
        match self.fetch() {
            Ok(op) => {
                let random = match op {
                    Opcode::Rand(_, _) => random_byte(),
                    _ => 0,
                };
                let ghost drawn = model::step(old(self)@, random);
                self.advance();
                self.execute(op, random)
            },
            Err(e) => {
                let ghost failed = model::step(old(self)@, 0);
                Err(e)
            },
        }
    }

    /// Runs one instruction as `step` does, with `random` as the byte that a
    /// `Rand` instruction draws.
    pub fn step_with(&mut self, random: u8) -> (result: Chip8Result<Step<'_>>)
        ensures
            final(self)@ == model::step(old(self)@, random).0,
            reports(result, model::step(old(self)@, random).1, final(self)@.display),
    {
        match self.fetch() {
            Ok(op) => {
                self.advance();
                self.execute(op, random)
            },
            Err(e) => Err(e),
        }
    }

    /// The program counter.
    pub fn pc(&self) -> (pc: usize)
        ensures
            pc == self@.pc,
    {
        self.pc
    }

    /// The memory pointer I.
    pub fn pointer(&self) -> (pointer: usize)
        ensures
            pointer == self@.pointer,
    {
        self.i
    }

    /// The value of register `x`.
    pub fn register(&self, x: Register) -> (value: u8)
        requires
            x < 16,
        ensures
            value == self@.v(x),
    {
        self.registers[x as usize]
    }

    /// The delay timer.
    pub fn delay(&self) -> (value: u8)
        ensures
            value == self@.delay,
    {
        self.timer
    }

    /// The sound timer.
    pub fn sound(&self) -> (value: u8)
        ensures
            value == self@.sound,
    {
        self.sound_timer
    }

    /// How many return addresses are saved.
    pub fn stack_depth(&self) -> (depth: usize)
        ensures
            depth == self@.stack.len(),
    {
        self.stack.len()
    }

    /// The whole memory.
    pub fn memory(&self) -> (bytes: &[u8])
        ensures
            bytes@ == self@.memory,
    {
        self.memory.as_slice()
    }

    /// The cells of the display as bytes, top row first, 1 for a lit cell.
    pub fn display(&self) -> (cells: &[u8])
        ensures
            cells@ == cell_bytes(self@.display),
    {
        self.buffer.get_buffer()
    }

    /// The memory, the display and the register file of a machine have
    /// their sizes.
    pub proof fn lemma_well_formed(&self)
        ensures
            self@.well_formed(),
    {
        self.buffer.lemma_size();
    }
}

/// A byte from the random generator of the calling thread, by
/// `rand::random::<u8>()`. Nothing is claimed of its value.
///
/// The call panics where the generator cannot get entropy from the operating
/// system, when a thread first uses it or when it reseeds (after 64 KiB of
/// output or a fork), and where it cannot register its fork handler.
#[verifier::external_body]
fn random_byte() -> u8 {
    rand::random::<u8>()
}

impl Machine {
    /// The instruction at the program counter, or the failure that stops the
    /// step before anything has changed.
    fn fetch(&self) -> (op: Chip8Result<Opcode>)
        ensures
            op == next(self@),
            op matches Ok(decoded) ==> decoded.well_formed(),
    {
        // the instruction is two bytes wide: both must lie in memory
        if self.pc >= MEMORY_SIZE - 1 {
            return Err(Chip8Error::EndOfMemory);
        }
        let most = self.memory[self.pc];
        let least = self.memory[self.pc + 1];
        proof {
            assert(((most as u16) << 8) == ((most as u16) * 256) as u16) by (bit_vector);
        }
        let code = ((most as u16) << 8) + (least as u16);
        let op = match Opcode::try_from(code) {
            Ok(op) => op,
            Err(e) => return Err(e),
        };
        proof {
            lemma_decode_total(code);
        }
        if self.overruns(op) {
            return Err(Chip8Error::EndOfMemory);
        }
        Ok(op)
    }

    /// Whether executing `op` would read or write memory beyond its end, or
    /// move the pointer beyond what the machine can hold.
    fn overruns(&self, op: Opcode) -> (beyond: bool)
        requires
            op.well_formed(),
        ensures
            beyond == overruns(self@, op),
    {
        match op {
            Opcode::Draw(_, _, n) => self.i > MEMORY_SIZE - n as usize,
            Opcode::SetBCD(_) => self.i >= MEMORY_SIZE - 2,
            Opcode::Dump(x) | Opcode::Load(x) => self.i >= MEMORY_SIZE - x as usize,
            Opcode::AddPtr(x) => self.i.checked_add(self.registers[x as usize] as usize).is_none(),
            _ => false,
        }
    }

    /// Counts the timers down and moves the program counter past the
    /// instruction.
    fn advance(&mut self)
        requires
            can_fetch(old(self)@),
        ensures
            final(self)@ == advanced(old(self)@),
    {
        self.update_timer();
        // instructions are 2 cells wide
        self.pc += 2;
    }

    /// Counts both timers down by one, stopping at zero.
    fn update_timer(&mut self)
        ensures
            final(self)@ == (State {
                delay: counted_down(old(self)@.delay),
                sound: counted_down(old(self)@.sound),
                ..old(self)@
            }),
    {
        self.timer = if self.timer > 0 { self.timer - 1 } else { 0 };
        self.sound_timer = if self.sound_timer > 0 { self.sound_timer - 1 } else { 0 };
    }

    /// Executes `op`; `random` is the byte that a `Rand` instruction draws.
    /// The program counter already points past the instruction.
    fn execute(&mut self, op: Opcode, random: u8) -> (result: Chip8Result<Step<'_>>)
        requires
            op.well_formed(),
            !overruns(old(self)@, op),
            2 <= old(self)@.pc <= MEMORY_SIZE + 1,
        ensures
            final(self)@ == model::execute(old(self)@, op, random).0,
            reports(result, model::execute(old(self)@, op, random).1, final(self)@.display),
    {
        match op {
            Opcode::Cls => {
                self.clear_display();
                return Ok(Step::DrawAction(self.display()));
            },
            Opcode::Ret => {
                match self.ret() {
                    Ok(()) => {},
                    Err(e) => {
                        // the step is undone as far as the program counter goes
                        self.set_pc(self.pc() - 2);
                        return Err(e);
                    },
                }
            },
            Opcode::Sys(_) => {},
            Opcode::Goto(nnn) => {
                self.set_pc(nnn as usize);
            },
            Opcode::Call(nnn) => {
                self.call(nnn as usize);
            },
            Opcode::SeC(x, nn) => {
                self.skip_if(self.register(x) == nn);
            },
            Opcode::SneC(x, nn) => {
                self.skip_if(self.register(x) != nn);
            },
            Opcode::Se(x, y) => {
                self.skip_if(self.register(x) == self.register(y));
            },
            Opcode::Sne(x, y) => {
                self.skip_if(self.register(x) != self.register(y));
            },
            Opcode::SetC(x, nn) => {
                self.set_reg(x, nn);
            },
            Opcode::AddC(x, nn) => {
                let res = self.register(x) as u16 + nn as u16;
                proof {
                    lemma_sum_bytes(res);
                }
                self.set_reg(0xF, if res & 0xFF00 == 0 { 0 } else { 1 });
                self.set_reg(x, (res & 0xFF) as u8);
            },
            Opcode::Assign(x, y) => {
                self.set_reg(x, self.register(y));
            },
            Opcode::Or(x, y) => {
                self.set_reg(x, self.register(x) | self.register(y));
            },
            Opcode::And(x, y) => {
                self.set_reg(x, self.register(x) & self.register(y));
            },
            Opcode::Xor(x, y) => {
                self.set_reg(x, self.register(x) ^ self.register(y));
            },
            Opcode::Add(x, y) => {
                let res = self.register(x) as u16 + self.register(y) as u16;
                proof {
                    lemma_sum_bytes(res);
                }
                self.set_reg(0xF, if res & 0xFF00 != 0 { 1 } else { 0 });
                self.set_reg(x, (res & 0xFF) as u8);
            },
            Opcode::Sub(x, y) => {
                let res = 0xFF00 + self.register(x) as u16 - self.register(y) as u16;
                proof {
                    lemma_sum_bytes(res);
                    lemma_difference(self@.v(x), self@.v(y));
                }
                self.set_reg(0xF, if res & 0xFF00 != 0xFF00 { 0 } else { 1 });
                self.set_reg(x, (res & 0xFF) as u8);
            },
            Opcode::Subn(x, y) => {
                let res = 0xFF00 + self.register(y) as u16 - self.register(x) as u16;
                proof {
                    lemma_sum_bytes(res);
                    lemma_difference(self@.v(y), self@.v(x));
                }
                self.set_reg(0xF, if res & 0xFF00 != 0xFF00 { 0 } else { 1 });
                self.set_reg(x, (res & 0xFF) as u8);
            },
            Opcode::Shr(x, _) => {
                let low = self.register(x) & 1;
                proof {
                    lemma_byte_shifts(self@.v(x));
                }
                self.set_reg(0xF, low);
                let value = self.register(x);
                proof {
                    lemma_byte_shifts(value);
                }
                self.set_reg(x, value >> 1);
            },
            Opcode::Shl(x, _) => {
                let high = (self.register(x) & 0x80) >> 7;
                proof {
                    lemma_byte_shifts(self@.v(x));
                }
                self.set_reg(0xF, high);
                let value = self.register(x);
                proof {
                    lemma_byte_shifts(value);
                }
                self.set_reg(x, value << 1);
            },
            Opcode::SetPtr(nnn) => {
                self.set_pointer(nnn as usize);
            },
            Opcode::Jump(nnn) => {
                self.set_pc((nnn + self.register(0) as u16) as usize);
            },
            Opcode::Rand(x, nn) => {
                self.set_reg(x, random & nn);
            },
            Opcode::Draw(x, y, n) => {
                self.draw_at_pointer(x, y, n);
                return Ok(Step::DrawAction(self.display()));
            },
            Opcode::Skip(x) => {
                self.skip_if(self.is_pressed(self.register(x)));
            },
            Opcode::Skipn(x) => {
                self.skip_if(!self.is_pressed(self.register(x)));
            },
            Opcode::GetDelay(x) => {
                self.set_reg(x, self.delay());
            },
            Opcode::GetKey(x) => {
                match self.first_key() {
                    Some(key) => self.set_reg(x, key),
                    None => self.set_pc(self.pc() - 2),
                }
            },
            Opcode::SetDelay(x) => {
                self.set_delay(self.register(x));
            },
            Opcode::SoundTimer(x) => {
                self.set_sound(self.register(x));
            },
            Opcode::AddPtr(x) => {
                self.set_pointer(self.pointer() + self.register(x) as usize);
            },
            Opcode::SpriteAddr(x) => {
                let digit = self.register(x) & 0xF;
                proof {
                    lemma_byte_shifts(self@.v(x));
                }
                self.set_pointer((FS_CHARLEN * digit) as usize);
            },
            Opcode::SetBCD(x) => {
                self.store_bcd(x);
            },
            Opcode::Dump(x) => {
                self.dump(x);
            },
            Opcode::Load(x) => {
                self.load(x);
            },
        }
        Ok(Step::Step)
    }

    /// Writes `value` to register `x`.
    fn set_reg(&mut self, x: u8, value: u8)
        requires
            x < 16,
        ensures
            final(self)@ == old(self)@.with_v(x, value),
    {
        self.registers[x as usize] = value;
    }

    /// Moves the program counter to `pc`.
    fn set_pc(&mut self, pc: usize)
        ensures
            final(self)@ == old(self)@.at(pc as nat),
    {
        self.pc = pc;
    }

    /// Skips the next instruction if `condition` holds.
    fn skip_if(&mut self, condition: bool)
        requires
            old(self)@.pc <= MEMORY_SIZE + 1,
        ensures
            final(self)@ == old(self)@.skip_if(condition),
    {
        if condition {
            self.pc += 2;
        }
    }

    /// Saves the program counter and jumps to `address`.
    fn call(&mut self, address: usize)
        ensures
            final(self)@ == (State {
                pc: address as nat,
                stack: old(self)@.stack.push(old(self)@.pc),
                ..old(self)@
            }),
    {
        self.stack.push(self.pc);
        self.pc = address;
        assert(self@.stack =~= old(self)@.stack.push(old(self)@.pc));
    }

    /// Jumps back to the most recently saved program counter.
    fn ret(&mut self) -> (result: Chip8Result<()>)
        ensures
            old(self)@.stack.len() == 0 ==> result == Err::<(), Chip8Error>(
                Chip8Error::EmptyStack,
            ) && final(self)@ == old(self)@,
            old(self)@.stack.len() > 0 ==> result is Ok && final(self)@ == (State {
                pc: old(self)@.stack.last(),
                stack: old(self)@.stack.drop_last(),
                ..old(self)@
            }),
    {
        match self.stack.pop() {
            Some(address) => {
                self.pc = address;
                assert(self@.stack =~= old(self)@.stack.drop_last());
                Ok(())
            },
            None => Err(Chip8Error::EmptyStack),
        }
    }

    /// Moves the pointer to `address`.
    fn set_pointer(&mut self, address: usize)
        ensures
            final(self)@ == (State { pointer: address as nat, ..old(self)@ }),
    {
        self.i = address;
    }

    /// Sets the delay timer.
    fn set_delay(&mut self, value: u8)
        ensures
            final(self)@ == (State { delay: value, ..old(self)@ }),
    {
        self.timer = value;
    }

    /// Sets the sound timer.
    fn set_sound(&mut self, value: u8)
        ensures
            final(self)@ == (State { sound: value, ..old(self)@ }),
    {
        self.sound_timer = value;
    }

    /// Turns every cell of the display off.
    fn clear_display(&mut self)
        ensures
            final(self)@ == (State { display: blank(), ..old(self)@ }),
    {
        self.buffer.clear();
    }

    /// Whether `key` is among the keys that are held down.
    fn is_pressed(&self, key: u8) -> (pressed: bool)
        ensures
            pressed == self@.keys.contains(key),
    {
        let mut k: usize = 0;
        while k < self.pressed_keys.len()
            invariant
                k <= self.pressed_keys@.len(),
                forall|j: int| 0 <= j < k ==> self.pressed_keys@[j] != key,
            decreases self.pressed_keys@.len() - k,
        {
            if self.pressed_keys[k] == key {
                return true;
            }
            k += 1;
        }
        false
    }

    /// The first of the keys that are held down, if any is.
    fn first_key(&self) -> (key: Option<u8>)
        ensures
            key == if self@.keys.len() == 0 { None } else { Some(self@.keys[0]) },
    {
        if self.pressed_keys.len() == 0 {
            None
        } else {
            Some(self.pressed_keys[0])
        }
    }

    /// Draws the `n`-row sprite at the pointer at (VX, VY) and writes the
    /// collision flag to VF.
    fn draw_at_pointer(&mut self, x: u8, y: u8, n: u8)
        requires
            x < 16,
            y < 16,
            old(self)@.pointer + n <= MEMORY_SIZE,
        ensures
            final(self)@ == model::execute(old(self)@, Opcode::Draw(x, y, n), 0).0,
    {
        let sprite = slice_subrange(self.memory.as_slice(), self.i, self.i + n as usize);
        let hit = self.buffer.draw(
            self.registers[x as usize],
            self.registers[y as usize],
            sprite,
            n,
        );
        self.registers[0xF] = if hit { 1 } else { 0 };
    }

    /// Stores the decimal digits of VX at the pointer.
    fn store_bcd(&mut self, x: u8)
        requires
            x < 16,
            old(self)@.pointer + 2 < MEMORY_SIZE,
        ensures
            final(self)@ == model::execute(old(self)@, Opcode::SetBCD(x), 0).0,
    {
        let (a, b, c) = to_bcd(self.registers[x as usize]);
        self.memory[self.i] = a;
        self.memory[self.i + 1] = b;
        self.memory[self.i + 2] = c;
    }

    /// Stores V0..=VX at the pointer.
    fn dump(&mut self, x: u8)
        requires
            x < 16,
            old(self)@.pointer + x < MEMORY_SIZE,
        ensures
            final(self)@ == model::execute(old(self)@, Opcode::Dump(x), 0).0,
    {
        let last = x as usize;
        let ghost before = self@;
        let mut idx: usize = 0;
        while idx <= last
            invariant
                idx <= last + 1,
                last < 16,
                self.i + last < MEMORY_SIZE,
                self@ == (State { memory: self@.memory, ..before }),
                forall|a: int|
                    0 <= a < MEMORY_SIZE ==> self@.memory[a] == if before.pointer <= a
                        < before.pointer + idx {
                        before.registers[a - before.pointer]
                    } else {
                        before.memory[a]
                    },
            decreases last + 1 - idx,
        {
            self.memory[self.i + idx] = self.registers[idx];
            idx += 1;
        }
        assert(self@.memory =~= model::execute(before, Opcode::Dump(x), 0).0.memory);
    }

    /// Loads V0..=VX from the pointer.
    fn load(&mut self, x: u8)
        requires
            x < 16,
            old(self)@.pointer + x < MEMORY_SIZE,
        ensures
            final(self)@ == model::execute(old(self)@, Opcode::Load(x), 0).0,
    {
        let last = x as usize;
        let ghost before = self@;
        let mut idx: usize = 0;
        while idx <= last
            invariant
                idx <= last + 1,
                last < 16,
                self.i + last < MEMORY_SIZE,
                self@ == (State { registers: self@.registers, ..before }),
                forall|r: int|
                    0 <= r < 16 ==> self@.registers[r] == if r < idx {
                        before.memory[before.pointer + r]
                    } else {
                        before.registers[r]
                    },
            decreases last + 1 - idx,
        {
            self.registers[idx] = self.memory[self.i + idx];
            idx += 1;
        }
        assert(self@.registers =~= model::execute(before, Opcode::Load(x), 0).0.registers);
    }
}

/// The low byte of a 16-bit sum and whether the sum went beyond it.
proof fn lemma_sum_bytes(res: u16)
    by (bit_vector)
    ensures
        res & 0xFF == res % 256,
        (res & 0xFF00 == 0) == (res < 256),
        (res & 0xFF00 == 0xFF00) == (res >= 0xFF00),
{
}

/// The 16-bit difference `0xFF00 + a - b` keeps its high byte exactly when
/// nothing is borrowed, and its low byte is the difference modulo 256.
proof fn lemma_difference(a: u8, b: u8)
    ensures
        (0xFF00 + a - b >= 0xFF00) == (a >= b),
        (0xFF00 + a - b) % 256 == (a - b) % 256,
{
    if a >= b {
        assert((0xFF00 + a - b) % 256 == a - b);
        assert((a - b) % 256 == a - b);
    } else {
        assert((0xFF00 + a - b) % 256 == 256 + a - b);
        assert((a - b) % 256 == 256 + a - b);
    }
}

/// Shifts and masks of a byte as arithmetic.
proof fn lemma_byte_shifts(v: u8)
    by (bit_vector)
    ensures
        v & 1 == v % 2,
        v >> 1 == v / 2,
        (v & 0x80) >> 7 == v / 128,
        v << 1 == ((v as u16 * 2) % 256) as u8,
        v & 0xF == v % 16,
{
}

} // verus!
