//! Laws of the machine and of its display: what holds of every state, every
//! instruction and every sprite.

use vstd::prelude::*;
use crate::Chip8Error;
use crate::model::{
    advanced, can_fetch, counted_down, draws_random, execute, fetch, flag, next, overruns, step,
    word_of, Outcome, State, MEMORY_SIZE,
};
use crate::opcode::{decode, lemma_decode_total, Opcode};
use crate::screen::{
    cell_at, draw_row, draw_sprite, row_collides, row_hits, sprite_collides, CELLS, HEIGHT, WIDTH,
};

verus! {

/// The state after `n` steps from `s`, each with `random` as the byte that
/// `Rand` draws.
pub open spec fn steps(s: State, n: nat, random: u8) -> State
    decreases n,
{
    if n == 0 {
        s
    } else {
        step(steps(s, (n - 1) as nat, random), random).0
    }
}

/// The flags of the arithmetic instructions. With registers `x` and `y`
/// holding `a` and `b`, and `x` not the flag register itself:
/// `Add` leaves 1 in VF exactly if `a + b > 255`, `Sub` exactly if `a >= b`,
/// `Subn` exactly if `b >= a`, `AddC` exactly if `a + nn > 255`; `Shr` leaves
/// the lowest bit of `a` in VF and `Shl` the highest. Each leaves in `x` the
/// result reduced to eight bits.
pub proof fn lemma_arithmetic_flags(s: State, x: u8, y: u8, nn: u8, random: u8)
    requires
        s.well_formed(),
        x < 0xF,
        y < 16,
    ensures
        execute(s, Opcode::Add(x, y), random).0.v(0xF) == flag(s.v(x) + s.v(y) > 255),
        execute(s, Opcode::Add(x, y), random).0.v(x) == (s.v(x) + s.v(y)) % 256,
        execute(s, Opcode::AddC(x, nn), random).0.v(0xF) == flag(s.v(x) + nn > 255),
        execute(s, Opcode::AddC(x, nn), random).0.v(x) == (s.v(x) + nn) % 256,
        execute(s, Opcode::Sub(x, y), random).0.v(0xF) == flag(s.v(x) >= s.v(y)),
        execute(s, Opcode::Sub(x, y), random).0.v(x) == (s.v(x) - s.v(y)) % 256,
        execute(s, Opcode::Subn(x, y), random).0.v(0xF) == flag(s.v(y) >= s.v(x)),
        execute(s, Opcode::Subn(x, y), random).0.v(x) == (s.v(y) - s.v(x)) % 256,
        execute(s, Opcode::Shr(x, y), random).0.v(0xF) == s.v(x) % 2,
        execute(s, Opcode::Shr(x, y), random).0.v(x) == s.v(x) / 2,
        execute(s, Opcode::Shl(x, y), random).0.v(0xF) == s.v(x) / 128,
        execute(s, Opcode::Shl(x, y), random).0.v(x) == (s.v(x) * 2) % 256,
{
}

/// A step never changes the size of the memory, of the display or of the
/// register file.
pub proof fn lemma_step_keeps_sizes(s: State, random: u8)
    requires
        s.well_formed(),
    ensures
        step(s, random).0.well_formed(),
{
    if can_fetch(s) {
        lemma_decode_total(fetch(s));
        match decode(fetch(s)) {
            Ok(Opcode::Draw(x, y, n)) => {
                let t = advanced(s);
                let sprite = t.memory.subrange(t.pointer as int, t.pointer + n);
                lemma_draw_sprite_len(t.display, t.v(x) as int, t.v(y) as int, sprite, n as nat);
            },
            _ => {},
        }
    }
}

/// What an instruction leaves alone. Only `SetBCD` and `Dump` write to
/// memory, only `Cls` and `Draw` to the display, only `SetPtr`, `AddPtr` and
/// `SpriteAddr` move the pointer, only `Call` and `Ret` touch the stack, only
/// `SetDelay` and `SoundTimer` set a timer, and no instruction changes the
/// keys. The display is reported as written exactly by `Cls` and `Draw`.
/// Only a return with nothing to return to fails, and it changes nothing but
/// the program counter, which it puts back on the instruction.
pub proof fn lemma_execute_frame(s: State, op: Opcode, random: u8)
    ensures
        !(op is SetBCD || op is Dump) ==> execute(s, op, random).0.memory == s.memory,
        !(op is Cls || op is Draw) ==> execute(s, op, random).0.display == s.display,
        !(op is SetPtr || op is AddPtr || op is SpriteAddr) ==> execute(s, op, random).0.pointer
            == s.pointer,
        !(op is Call || op is Ret) ==> execute(s, op, random).0.stack == s.stack,
        !(op is SetDelay) ==> execute(s, op, random).0.delay == s.delay,
        !(op is SoundTimer) ==> execute(s, op, random).0.sound == s.sound,
        execute(s, op, random).0.keys == s.keys,
        (execute(s, op, random).1 == Outcome::Redraw) == (op is Cls || op is Draw),
        execute(s, op, random).1 is Failed == (op is Ret && s.stack.len() == 0),
        execute(s, op, random).1 is Failed ==> execute(s, op, random) == (
            s.at((s.pc - 2) as nat),
            Outcome::Failed(Chip8Error::EmptyStack),
        ),
{
}

/// What a failed step leaves. A step fails exactly where `next` finds a
/// failure or the instruction is a return with nothing to return to.
///
/// - `EndOfMemory` comes exactly where the instruction does not lie in
///   memory or would overrun it, `UnknownOpcode` exactly where the word at
///   the program counter encodes no instruction, and it carries that word.
///   After either the state is as it was before the step.
/// - `EmptyStack` comes exactly where the instruction is `Ret` and the stack
///   is empty. After it the program counter, the stack and everything else
///   but the timers are as they were before the step; the timers have
///   counted down.
pub proof fn lemma_failed_step(s: State, random: u8)
    ensures
        step(s, random).1 == Outcome::Failed(Chip8Error::EndOfMemory) <==> !can_fetch(s) || (
        decode(fetch(s)) matches Ok(op) && overruns(s, op)),
        step(s, random).1 == Outcome::Failed(Chip8Error::UnknownOpcode(fetch(s))) <==> can_fetch(s)
            && decode(fetch(s)) is Err,
        step(s, random).1 matches Outcome::Failed(Chip8Error::UnknownOpcode(word)) ==> word
            == fetch(s),
        step(s, random).1 == Outcome::Failed(Chip8Error::EmptyStack) <==> can_fetch(s) && decode(
            fetch(s),
        ) == Ok::<Opcode, Chip8Error>(Opcode::Ret) && s.stack.len() == 0,
        step(s, random).1 matches Outcome::Failed(e) ==> e != Chip8Error::EmptyStack ==> step(
            s,
            random,
        ).0 == s,
        step(s, random).1 == Outcome::Failed(Chip8Error::EmptyStack) ==> step(s, random).0 == (
        State { delay: counted_down(s.delay), sound: counted_down(s.sound), ..s }),
{
    lemma_decode_total(fetch(s));
    if let Ok(op) = next(s) {
        lemma_execute_frame(advanced(s), op, random);
    }
}

/// The timers count down once in every step that gets to execute its
/// instruction, before the instruction has its effect: afterwards a timer is
/// one less than before, or zero if it was zero, unless the instruction set
/// it. A step that fails before it executes leaves the timers.
pub proof fn lemma_timers_count_down(s: State, random: u8)
    requires
        s.well_formed(),
    ensures
        next(s) is Err ==> step(s, random).0.delay == s.delay && step(s, random).0.sound
            == s.sound,
        next(s) is Ok && !(next(s) matches Ok(Opcode::SetDelay(_))) ==> step(s, random).0.delay
            == counted_down(s.delay),
        next(s) is Ok && !(next(s) matches Ok(Opcode::SoundTimer(_))) ==> step(s, random).0.sound
            == counted_down(s.sound),
        next(s) matches Ok(Opcode::GetDelay(x)) ==> step(s, random).0.v(x) == counted_down(
            s.delay,
        ),
{
    lemma_decode_total(fetch(s));
}

/// Only `Rand` looks at the random byte: a step from a state whose next
/// instruction is not `Rand` is the same whatever the byte.
pub proof fn lemma_random_matters_to_rand_only(s: State, first: u8, second: u8)
    requires
        !draws_random(s),
    ensures
        step(s, first) == step(s, second),
{
}

/// Waiting for a key. Where the next instruction is `GetKey` and no key is
/// held down, a step moves neither the program counter nor the memory nor
/// the keys, so the same instruction is next again; where a key is held
/// down, the step stores the first of them and goes on to the instruction
/// that follows.
pub proof fn lemma_get_key_waits(s: State, x: u8, random: u8)
    requires
        s.well_formed(),
        can_fetch(s),
        decode(fetch(s)) == Ok::<Opcode, Chip8Error>(Opcode::GetKey(x)),
    ensures
        step(s, random).1 == Outcome::Quiet,
        s.keys.len() == 0 ==> step(s, random).0 == (State { pc: s.pc, ..advanced(s) }),
        s.keys.len() > 0 ==> step(s, random).0 == advanced(s).with_v(x, s.keys[0]),
        s.keys.len() > 0 ==> step(s, random).0.pc == s.pc + 2,
{
}

/// Waiting for a key, over any number of steps: as long as no key is held
/// down, the program counter stays on the `GetKey` instruction.
pub proof fn lemma_get_key_blocks(s: State, x: u8, n: nat, random: u8)
    requires
        s.well_formed(),
        can_fetch(s),
        decode(fetch(s)) == Ok::<Opcode, Chip8Error>(Opcode::GetKey(x)),
        s.keys.len() == 0,
    ensures
        steps(s, n, random).pc == s.pc,
        steps(s, n, random).memory == s.memory,
        steps(s, n, random).keys == s.keys,
        steps(s, n, random).registers == s.registers,
        steps(s, n, random).well_formed(),
    decreases n,
{
    if n > 0 {
        let before = steps(s, (n - 1) as nat, random);
        lemma_get_key_blocks(s, x, (n - 1) as nat, random);
        assert(fetch(before) == fetch(s));
        lemma_get_key_waits(before, x, random);
    }
}

/// A call and the return from it. Where the next instruction is `Call` to an
/// address that holds `Ret`, two steps leave the program counter on the
/// instruction after the call and the stack as it was.
pub proof fn lemma_call_then_return(s: State, address: u16, first: u8, second: u8)
    requires
        s.well_formed(),
        can_fetch(s),
        decode(fetch(s)) == Ok::<Opcode, Chip8Error>(Opcode::Call(address)),
        address + 1 < MEMORY_SIZE,
        decode(word_of(s.memory[address as int], s.memory[address + 1])) == Ok::<
            Opcode,
            Chip8Error,
        >(Opcode::Ret),
    ensures
        step(s, first).0.pc == address,
        step(s, first).0.stack == s.stack.push(s.pc + 2),
        step(step(s, first).0, second).0.pc == s.pc + 2,
        step(step(s, first).0, second).0.stack == s.stack,
        step(step(s, first).0, second).1 == Outcome::Quiet,
{
    let called = step(s, first).0;
    assert(called.stack.drop_last() =~= s.stack);
}

/// Whether a sprite of at most `HEIGHT` rows, drawn with its top left corner
/// at column `x` of row `y`, puts a set bit on cell `c`: the row of the cell
/// is the sprite's row `r`, and that row of the sprite has a set bit there.
pub open spec fn sprite_hits(x: int, y: int, sprite: Seq<u8>, n: nat, c: int) -> bool {
    let r = (c / WIDTH as int - y) % HEIGHT as int;
    r < n && row_hits(x, y + r, sprite[r], c)
}

/// Whether drawing the sprite turns on a cell of `g` that was off.
pub open spec fn draw_lights(g: Seq<bool>, x: int, y: int, sprite: Seq<u8>, n: nat) -> bool {
    exists|c: int| 0 <= c < g.len() && !g[c] && #[trigger] draw_sprite(g, x, y, sprite, n)[c]
}

/// Drawing keeps the number of cells.
pub proof fn lemma_draw_sprite_len(g: Seq<bool>, x: int, y: int, sprite: Seq<u8>, n: nat)
    ensures
        draw_sprite(g, x, y, sprite, n).len() == g.len(),
    decreases n,
{
    if n > 0 {
        lemma_draw_sprite_len(g, x, y, sprite, (n - 1) as nat);
    }
}

/// Drawing a row and then a sprite gives what drawing the sprite and then
/// the row gives.
proof fn lemma_row_then_sprite(
    g: Seq<bool>,
    rx: int,
    row: int,
    bits: u8,
    x: int,
    y: int,
    sprite: Seq<u8>,
    n: nat,
)
    ensures
        draw_sprite(draw_row(g, rx, row, bits), x, y, sprite, n) == draw_row(
            draw_sprite(g, x, y, sprite, n),
            rx,
            row,
            bits,
        ),
    decreases n,
{
    if n > 0 {
        let m = (n - 1) as nat;
        lemma_row_then_sprite(g, rx, row, bits, x, y, sprite, m);
        lemma_draw_sprite_len(g, x, y, sprite, m);
        let inner = draw_sprite(g, x, y, sprite, m);
        assert(draw_row(draw_row(inner, rx, row, bits), x, y + n - 1, sprite[n - 1]) =~= draw_row(
            draw_row(inner, x, y + n - 1, sprite[n - 1]),
            rx,
            row,
            bits,
        ));
    }
}

/// Drawing is its own inverse: the same sprite drawn twice at the same
/// place leaves the display as it was.
pub proof fn lemma_draw_twice_restores(g: Seq<bool>, x: int, y: int, sprite: Seq<u8>, n: nat)
    ensures
        draw_sprite(draw_sprite(g, x, y, sprite, n), x, y, sprite, n) == g,
    decreases n,
{
    if n > 0 {
        let m = (n - 1) as nat;
        let inner = draw_sprite(g, x, y, sprite, m);
        let row = y + n - 1;
        let bits = sprite[n - 1];
        // the second drawing's first rows commute with the first drawing's last row
        lemma_row_then_sprite(inner, x, row, bits, x, y, sprite, m);
        lemma_draw_twice_restores(g, x, y, sprite, m);
        assert(draw_row(draw_row(g, x, row, bits), x, row, bits) =~= g);
    }
}

/// A cell of the display lies in one row of it, below `HEIGHT`.
proof fn lemma_row_of_cell(c: int, y: int, k: int)
    requires
        0 <= c < CELLS,
        0 <= k < HEIGHT,
    ensures
        0 <= c / (WIDTH as int) < HEIGHT,
        0 <= (c / (WIDTH as int) - y) % (HEIGHT as int) < HEIGHT,
        (c / (WIDTH as int) == (y + k) % (HEIGHT as int)) == ((c / (WIDTH as int) - y) % (
        HEIGHT as int) == k),
{
}

/// Each cell is toggled by at most one row of a sprite of at most `HEIGHT`
/// rows, so the cell after drawing is the cell before, toggled where the
/// sprite puts a set bit on it.
pub proof fn lemma_draw_sprite_cell(
    g: Seq<bool>,
    x: int,
    y: int,
    sprite: Seq<u8>,
    n: nat,
    c: int,
)
    requires
        g.len() == CELLS,
        n <= HEIGHT,
        0 <= c < CELLS,
    ensures
        draw_sprite(g, x, y, sprite, n)[c] == (g[c] != sprite_hits(x, y, sprite, n, c)),
    decreases n,
{
    if n > 0 {
        let m = (n - 1) as nat;
        lemma_draw_sprite_cell(g, x, y, sprite, m, c);
        lemma_draw_sprite_len(g, x, y, sprite, m);
        lemma_row_of_cell(c, y, n - 1);
    }
}

/// Bit `k` of a sprite row lands on the cell `cell_at(x + k, row)`, which
/// lies `k` columns to the right of column `x`, wrapping around.
proof fn lemma_cell_of_bit(x: int, row: int, k: int)
    requires
        0 <= k < WIDTH,
    ensures
        0 <= cell_at(x + k, row) < CELLS,
        cell_at(x + k, row) / (WIDTH as int) == row % (HEIGHT as int),
        (cell_at(x + k, row) % (WIDTH as int) - x) % (WIDTH as int) == k,
{
    let col = (x + k) % (WIDTH as int);
    assert((col - x) % (WIDTH as int) == k) by {
        let q = (x + k) / (WIDTH as int);
        assert(col - x == k - 64 * q);
    }
}

/// A cell of row `row` is the cell that the bit at its offset from column
/// `x` lands on.
proof fn lemma_bit_of_cell(x: int, row: int, c: int)
    requires
        0 <= c < CELLS,
        c / (WIDTH as int) == row % (HEIGHT as int),
    ensures
        cell_at(x + (c % (WIDTH as int) - x) % (WIDTH as int), row) == c,
{
    let col = c % (WIDTH as int);
    let k = (col - x) % (WIDTH as int);
    assert((x + k) % (WIDTH as int) == col) by {
        let q = (col - x) / (WIDTH as int);
        assert(x + k == col - 64 * q);
    }
}

/// The cells that a sprite row has a set bit on are the cells `cell_at(x + k,
/// row)` of its set bits `k`.
proof fn lemma_row_collides_cells(g: Seq<bool>, x: int, row: int, bits: u8)
    requires
        g.len() == CELLS,
    ensures
        row_collides(g, x, row, bits) == exists|c: int|
            0 <= c < CELLS && g[c] && #[trigger] row_hits(x, row, bits, c),
{
    if row_collides(g, x, row, bits) {
        let k = choose|k: int| 0 <= k < 8 && #[trigger] crate::bit_set(bits, k) && g[cell_at(
            x + k,
            row,
        )];
        let c = cell_at(x + k, row);
        lemma_cell_of_bit(x, row, k);
        assert(0 <= c < CELLS && g[c] && row_hits(x, row, bits, c));
    }
    if exists|c: int| 0 <= c < CELLS && g[c] && #[trigger] row_hits(x, row, bits, c) {
        let c = choose|c: int| 0 <= c < CELLS && g[c] && #[trigger] row_hits(x, row, bits, c);
        let k = (c % (WIDTH as int) - x) % (WIDTH as int);
        lemma_bit_of_cell(x, row, c);
        assert(0 <= k < 8 && crate::bit_set(bits, k) && g[cell_at(x + k, row)]);
    }
}

/// A sprite of at most `HEIGHT` rows collides exactly if it has a set bit on
/// a cell that was lit before the drawing.
pub proof fn lemma_collision_cells(g: Seq<bool>, x: int, y: int, sprite: Seq<u8>, n: nat)
    requires
        g.len() == CELLS,
        n <= HEIGHT,
    ensures
        sprite_collides(g, x, y, sprite, n) == exists|c: int|
            0 <= c < CELLS && g[c] && #[trigger] sprite_hits(x, y, sprite, n, c),
    decreases n,
{
    if n > 0 {
        let m = (n - 1) as nat;
        let row = y + n - 1;
        let bits = sprite[n - 1];
        let inner = draw_sprite(g, x, y, sprite, m);
        lemma_collision_cells(g, x, y, sprite, m);
        lemma_draw_sprite_len(g, x, y, sprite, m);
        lemma_row_collides_cells(inner, x, row, bits);
        let earlier = exists|c: int|
            0 <= c < CELLS && g[c] && #[trigger] sprite_hits(x, y, sprite, m, c);
        let last = exists|c: int| 0 <= c < CELLS && inner[c] && #[trigger] row_hits(x, row, bits, c);
        let all = exists|c: int|
            0 <= c < CELLS && g[c] && #[trigger] sprite_hits(x, y, sprite, n, c);
        assert forall|c: int| 0 <= c < CELLS implies (sprite_hits(x, y, sprite, n, c) == (
        sprite_hits(x, y, sprite, m, c) || row_hits(x, row, bits, c))) && (row_hits(
            x,
            row,
            bits,
            c,
        ) ==> inner[c] == g[c]) by {
            lemma_row_of_cell(c, y, n - 1);
            lemma_draw_sprite_cell(g, x, y, sprite, m, c);
        }
        if earlier {
            let c = choose|c: int|
                0 <= c < CELLS && g[c] && #[trigger] sprite_hits(x, y, sprite, m, c);
            assert(sprite_hits(x, y, sprite, n, c));
        }
        if last {
            let c = choose|c: int|
                0 <= c < CELLS && inner[c] && #[trigger] row_hits(x, row, bits, c);
            assert(sprite_hits(x, y, sprite, n, c));
        }
        if all {
            let c = choose|c: int|
                0 <= c < CELLS && g[c] && #[trigger] sprite_hits(x, y, sprite, n, c);
            assert(sprite_hits(x, y, sprite, m, c) || row_hits(x, row, bits, c));
        }
    }
}

/// Drawing the same sprite twice at the same place. The second drawing
/// leaves the display as it was before the first. For a sprite of at most
/// `HEIGHT` rows, the second drawing collides exactly if the first turned on
/// a cell that was off.
pub proof fn lemma_double_draw(g: Seq<bool>, x: int, y: int, sprite: Seq<u8>, n: nat)
    requires
        g.len() == CELLS,
    ensures
        draw_sprite(draw_sprite(g, x, y, sprite, n), x, y, sprite, n) == g,
        n <= HEIGHT ==> sprite_collides(draw_sprite(g, x, y, sprite, n), x, y, sprite, n)
            == draw_lights(g, x, y, sprite, n),
{
    lemma_draw_twice_restores(g, x, y, sprite, n);
    if n <= HEIGHT {
        let once = draw_sprite(g, x, y, sprite, n);
        lemma_draw_sprite_len(g, x, y, sprite, n);
        lemma_collision_cells(once, x, y, sprite, n);
        assert forall|c: int| 0 <= c < CELLS implies once[c] == (g[c] != sprite_hits(
            x,
            y,
            sprite,
            n,
            c,
        )) by {
            lemma_draw_sprite_cell(g, x, y, sprite, n, c);
        }
        if sprite_collides(once, x, y, sprite, n) {
            let c = choose|c: int|
                0 <= c < CELLS && once[c] && #[trigger] sprite_hits(x, y, sprite, n, c);
            assert(!g[c] && draw_sprite(g, x, y, sprite, n)[c]);
        }
        if draw_lights(g, x, y, sprite, n) {
            let c = choose|c: int|
                0 <= c < g.len() && !g[c] && #[trigger] draw_sprite(g, x, y, sprite, n)[c];
            assert(once[c] && sprite_hits(x, y, sprite, n, c));
        }
    }
}

} // verus!
