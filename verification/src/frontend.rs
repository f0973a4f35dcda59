//! What a program that shows the machine decides between one step and the
//! next: which key of the machine a key of the keyboard is, which keys are
//! held down, when to step and when to show a frame, and which squares of
//! the window are lit.

use vstd::prelude::*;
use crate::screen::{CELLS, HEIGHT, WIDTH};

verus! {

/// Side of the square that shows one cell, in pixels.
pub const SCALE: usize = 20;

/// Frames shown in a second.
pub const FPS: u128 = 60;

/// Instructions run in a second.
pub const CLOCK: usize = 500;

/// Microseconds between two frames.
pub const DELAY: u128 = 1_000_000 / FPS;

/// Instructions run between two frames.
pub const OPS_PER_FRAME: usize = CLOCK / FPS as usize;

/// The pace in numbers: eight instructions between two frames, which are
/// 16 666 microseconds apart.
pub proof fn lemma_pace()
    ensures
        OPS_PER_FRAME == 8,
        DELAY == 16_666,
{
    assert(FPS as usize == 60);
    assert(500usize / 60usize == 8);
}

/// The key code of the escape key, which ends the program.
pub const ESCAPE: i32 = 27;

/// The key of the machine that the key with code `code` stands for: the
/// codes of the characters `0` to `9` are the keys 0 to 9, those of `a` to
/// `f` the keys 0xA to 0xF.
pub open spec fn key_of(code: i32) -> Option<u8> {
    if 48 <= code <= 57 {
        Some((code - 48) as u8)
    } else if 97 <= code <= 102 {
        Some((code - 87) as u8)
    } else {
        None
    }
}

/// The key of the machine that the key with code `kc` stands for, if any.
pub fn kc_as_u8(kc: i32) -> (key: Option<u8>)
    ensures
        key == key_of(kc),
{
    match kc {
        97 => Some(0xA),
        98 => Some(0xB),
        99 => Some(0xC),
        100 => Some(0xD),
        101 => Some(0xE),
        102 => Some(0xF),
        48 => Some(0x0),
        49 => Some(0x1),
        50 => Some(0x2),
        51 => Some(0x3),
        52 => Some(0x4),
        53 => Some(0x5),
        54 => Some(0x6),
        55 => Some(0x7),
        56 => Some(0x8),
        57 => Some(0x9),
        _ => None,
    }
}

/// What the window reports between two steps.
#[derive(Debug, Clone, Copy, PartialEq, Eq, Structural)]
pub enum Input {
    /// The window was closed.
    Quit,
    /// The key with this code went down.
    KeyDown(i32),
    /// The key with this code came up.
    KeyUp(i32),
    /// Anything else.
    Other,
}

/// Whether `input` ends the program: the window was closed or escape went
/// down.
pub open spec fn quits(input: Input) -> bool {
    input == Input::Quit || input == Input::KeyDown(ESCAPE)
}

/// Whether `input` can be handled with `keys` held down: a key of the
/// machine that comes up must be among them.
pub open spec fn expected(keys: Seq<u8>, input: Input) -> bool {
    input matches Input::KeyUp(code) ==> (key_of(code) matches Some(key) ==> keys.contains(key))
}

/// The keys held down after `input`, given that `keys` were before: a key of
/// the machine that goes down joins them at the end unless it is among them,
/// one that comes up leaves where it first stands.
pub open spec fn held_after(keys: Seq<u8>, input: Input) -> Seq<u8> {
    match input {
        Input::KeyDown(code) => match key_of(code) {
            Some(key) => if keys.contains(key) { keys } else { keys.push(key) },
            None => keys,
        },
        Input::KeyUp(code) => match key_of(code) {
            Some(key) => keys.remove(keys.index_of_first(key).unwrap()),
            None => keys,
        },
        _ => keys,
    }
}

/// Where `key` first stands in `presses`, if it does.
fn position(presses: &Vec<u8>, key: u8) -> (index: Option<usize>)
    ensures
        match index {
            Some(i) => i < presses@.len() && presses@.contains(key) && presses@.index_of_first(
                key,
            ) == Some(i as int),
            None => !presses@.contains(key),
        },
{
    let mut i: usize = 0;
    while i < presses.len()
        invariant
            i <= presses@.len(),
            forall|j: int| 0 <= j < i ==> presses@[j] != key,
        decreases presses@.len() - i,
    {
        if presses[i] == key {
            proof {
                assert(presses@.contains(key));
                presses@.index_of_first_ensures(key);
            }
            return Some(i);
        }
        i += 1;
    }
    None
}

/// Whether `input` can be handled with `presses` held down.
pub fn is_expected(presses: &Vec<u8>, input: Input) -> (ok: bool)
    ensures
        ok == expected(presses@, input),
{
    match input {
        Input::KeyUp(code) => match kc_as_u8(code) {
            Some(key) => position(presses, key).is_some(),
            None => true,
        },
        _ => true,
    }
}

/// Brings `presses` up to date with `input` and says whether the program
/// ends.
pub fn handle_input(presses: &mut Vec<u8>, input: Input) -> (quit: bool)
    requires
        expected(old(presses)@, input),
    ensures
        quit == quits(input),
        final(presses)@ == held_after(old(presses)@, input),
{
    match input {
        Input::Quit => true,
        Input::KeyDown(code) => {
            if code == ESCAPE {
                return true;
            }
            if let Some(key) = kc_as_u8(code) {
                if position(presses, key).is_none() {
                    presses.push(key);
                }
            }
            false
        },
        Input::KeyUp(code) => {
            if let Some(key) = kc_as_u8(code) {
                if let Some(index) = position(presses, key) {
                    presses.remove(index);
                }
            }
            false
        },
        Input::Other => false,
    }
}

/// Counts the steps made since the last frame.
pub struct Pacer {
    steps_made: usize,
}

impl View for Pacer {
    type V = nat;

    closed spec fn view(&self) -> nat {
        self.steps_made as nat
    }
}

impl Pacer {
    /// A pacer at the start of a frame.
    pub fn new() -> (pacer: Self)
        ensures
            pacer@ == 0,
    {
        Pacer { steps_made: 0 }
    }

    /// Whether the machine may step now: fewer than `OPS_PER_FRAME` steps
    /// were made since the last frame. The step is counted.
    pub fn take_step(&mut self) -> (go: bool)
        ensures
            go == (old(self)@ < OPS_PER_FRAME),
            final(self)@ == if go { old(self)@ + 1 } else { old(self)@ },
    {
        if self.steps_made < OPS_PER_FRAME {
            self.steps_made += 1;
            true
        } else {
            false
        }
    }

    /// Whether a frame is due `elapsed` microseconds after the last one. If
    /// it is, the count of steps starts again.
    pub fn frame_due(&mut self, elapsed: u128) -> (due: bool)
        ensures
            due == (elapsed >= DELAY),
            final(self)@ == if due { 0 } else { old(self)@ },
    {
        if elapsed >= DELAY {
            self.steps_made = 0;
            true
        } else {
            false
        }
    }
}

/// A square of the window, as the corner nearest the origin and two sides.
#[derive(Debug, Clone, Copy, PartialEq, Eq, Structural)]
pub struct Square {
    pub x: i32,
    pub y: i32,
    pub width: u32,
    pub height: u32,
}

/// The square that shows cell `cell` of the display.
pub open spec fn square_of(cell: int) -> Square {
    Square {
        x: ((cell % WIDTH as int) * SCALE) as i32,
        y: ((cell / WIDTH as int) * SCALE) as i32,
        width: SCALE as u32,
        height: SCALE as u32,
    }
}

/// The squares of the first `upto` cells that are lit (`lit`) or unlit
/// (`!lit`) in `buffer`, top row first and each row from the left.
pub open spec fn squares_of(buffer: Seq<u8>, lit: bool, upto: int) -> Seq<Square>
    decreases upto,
{
    if upto <= 0 {
        Seq::empty()
    } else {
        let before = squares_of(buffer, lit, upto - 1);
        if (buffer[upto - 1] != 0) == lit {
            before.push(square_of(upto - 1))
        } else {
            before
        }
    }
}

/// The squares of the window to paint black and those to paint white for the
/// display `buffer`, one byte per cell, 0 for an unlit cell.
pub fn squares(buffer: &[u8]) -> (sides: (Vec<Square>, Vec<Square>))
    requires
        buffer@.len() >= CELLS,
    ensures
        sides.0@ == squares_of(buffer@, false, CELLS as int),
        sides.1@ == squares_of(buffer@, true, CELLS as int),
{
    let mut blacks: Vec<Square> = Vec::new();
    let mut whites: Vec<Square> = Vec::new();
    for y in 0..HEIGHT
        invariant
            buffer@.len() >= CELLS,
            blacks@ == squares_of(buffer@, false, y * WIDTH),
            whites@ == squares_of(buffer@, true, y * WIDTH),
    {
        for x in 0..WIDTH
            invariant
                y < HEIGHT,
                buffer@.len() >= CELLS,
                blacks@ == squares_of(buffer@, false, y * WIDTH + x),
                whites@ == squares_of(buffer@, true, y * WIDTH + x),
        {
            let b = buffer[y * WIDTH + x];
            let r = Square {
                x: (x * SCALE) as i32,
                y: (y * SCALE) as i32,
                width: SCALE as u32,
                height: SCALE as u32,
            };
            assert(r == square_of(y * WIDTH + x));
            if b == 0 {
                blacks.push(r);
            } else {
                whites.push(r);
            }
        }
    }
    (blacks, whites)
}

} // verus!
