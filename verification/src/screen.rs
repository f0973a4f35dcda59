//! The display: a 64x32 grid of cells, each lit or unlit, onto which sprites
//! are drawn by exclusive or, wrapping around at the edges.

use vstd::prelude::*;
use crate::{bit_set, n_bit};

verus! {

/// Cells in a row of the display.
pub const WIDTH: usize = 64;

/// Rows of the display.
pub const HEIGHT: usize = 32;

/// Cells of the display.
pub const CELLS: usize = WIDTH * HEIGHT;

/// A display with every cell unlit.
pub open spec fn blank() -> Seq<bool> {
    Seq::new(CELLS as nat, |c: int| false)
}

/// The position in a row-major grid of the cell in column `col` of row `row`,
/// both taken modulo the size of the display.
pub open spec fn cell_at(col: int, row: int) -> int {
    (row % HEIGHT as int) * WIDTH as int + col % WIDTH as int
}

/// Whether the first `width` bits of `bits`, laid from column `x` of row `row`
/// to the right, put a set bit on cell `c`.
pub open spec fn span_hits(x: int, row: int, bits: u8, width: int, c: int) -> bool {
    let offset = (c % WIDTH as int - x) % WIDTH as int;
    c / WIDTH as int == row % HEIGHT as int && offset < width && bit_set(bits, offset)
}

/// Whether the sprite row `bits`, laid from column `x` of row `row`, puts a
/// set bit on cell `c`.
pub open spec fn row_hits(x: int, row: int, bits: u8, c: int) -> bool {
    span_hits(x, row, bits, 8, c)
}

/// The grid `g` after the sprite row `bits` is drawn from column `x` of row
/// `row`: a cell is toggled where the row puts a set bit on it.
pub open spec fn draw_row(g: Seq<bool>, x: int, row: int, bits: u8) -> Seq<bool> {
    Seq::new(g.len(), |c: int| g[c] != row_hits(x, row, bits, c))
}

/// Whether the sprite row `bits`, laid from column `x` of row `row`, has a set
/// bit on a cell that is lit in `g`.
pub open spec fn row_collides(g: Seq<bool>, x: int, row: int, bits: u8) -> bool {
    exists|k: int| 0 <= k < 8 && #[trigger] bit_set(bits, k) && g[cell_at(x + k, row)]
}

/// The grid `g` after the first `n` rows of `sprite` are drawn, top row
/// first, with the top left corner at column `x` of row `y`.
pub open spec fn draw_sprite(g: Seq<bool>, x: int, y: int, sprite: Seq<u8>, n: nat) -> Seq<bool>
    decreases n,
{
    if n == 0 {
        g
    } else {
        draw_row(draw_sprite(g, x, y, sprite, (n - 1) as nat), x, y + n - 1, sprite[n - 1])
    }
}

/// Whether drawing the first `n` rows of `sprite` onto `g` turns a lit cell
/// off: some row has a set bit on a cell that is lit when the row is drawn.
pub open spec fn sprite_collides(g: Seq<bool>, x: int, y: int, sprite: Seq<u8>, n: nat) -> bool
    decreases n,
{
    if n == 0 {
        false
    } else {
        sprite_collides(g, x, y, sprite, (n - 1) as nat) || row_collides(
            draw_sprite(g, x, y, sprite, (n - 1) as nat),
            x,
            y + n - 1,
            sprite[n - 1],
        )
    }
}

/// The cells of `g` as bytes: 1 for a lit cell, 0 for an unlit one.
pub open spec fn cell_bytes(g: Seq<bool>) -> Seq<u8> {
    Seq::new(g.len(), |c: int| if g[c] { 1u8 } else { 0u8 })
}

/// A surface that sprites can be drawn on. Its view is the grid of cells in
/// row-major order, `true` for a lit cell.
pub trait Screen: View<V = Seq<bool>> {
    /// Turns every cell off.
    fn clear(&mut self)
        ensures
            final(self)@ == blank(),
    ;

    /// Draws the first `n` rows of `pixels` with the top left corner at column
    /// `x` of row `y`, and says whether a lit cell was turned off.
    fn draw(&mut self, x: u8, y: u8, pixels: &[u8], n: u8) -> (collision: bool)
        requires
            n as int <= pixels@.len(),
        ensures
            final(self)@ == draw_sprite(old(self)@, x as int, y as int, pixels@, n as nat),
            collision == sprite_collides(old(self)@, x as int, y as int, pixels@, n as nat),
    ;
}

/// The display buffer: one byte per cell, row-major, 1 for a lit cell.
pub struct Buffer([u8; CELLS]);

impl View for Buffer {
    type V = Seq<bool>;

    closed spec fn view(&self) -> Seq<bool> {
        Seq::new(CELLS as nat, |c: int| self.0@[c] == 1)
    }
}

impl Buffer {
    /// Every cell holds 0 or 1.
    #[verifier::type_invariant]
    spec fn binary(&self) -> bool {
        forall|c: int| 0 <= c < CELLS ==> #[trigger] self.0@[c] <= 1
    }

    /// A display with every cell unlit.
    pub fn new() -> (buffer: Self)
        ensures
            buffer@ == blank(),
    {
        let buffer = Buffer([0u8; CELLS]);
        assert(buffer@ =~= blank());
        buffer
    }

    /// The display has `CELLS` cells.
    pub proof fn lemma_size(&self)
        ensures
            self@.len() == CELLS,
    {
    }

    /// The cells as bytes, top row first.
    pub fn get_buffer(&self) -> (cells: &[u8])
        ensures
            cells@ == cell_bytes(self@),
    {
        proof {
            use_type_invariant(self);
            assert(self.0@ =~= cell_bytes(self@));
        }
        &self.0
    }
}

/// What `draw_row` leaves when only the first `width` bits are drawn.
spec fn draw_span(g: Seq<bool>, x: int, row: int, bits: u8, width: int) -> Seq<bool> {
    Seq::new(g.len(), |c: int| g[c] != span_hits(x, row, bits, width, c))
}

/// `row_collides` over the first `width` bits.
spec fn span_collides(g: Seq<bool>, x: int, row: int, bits: u8, width: int) -> bool {
    exists|k: int| 0 <= k < width && #[trigger] bit_set(bits, k) && g[cell_at(x + k, row)]
}

/// Bit `k` of a row lands on the cell `cell_at(x + k, row)` and on no other.
proof fn lemma_span_step(x: int, row: int, bits: u8, k: int, c: int)
    requires
        0 <= k < 8,
        0 <= c < CELLS,
    ensures
        0 <= cell_at(x + k, row) < CELLS,
        span_hits(x, row, bits, k + 1, c) == (span_hits(x, row, bits, k, c) || (c == cell_at(
            x + k,
            row,
        ) && bit_set(bits, k))),
        c == cell_at(x + k, row) ==> !span_hits(x, row, bits, k, c),
{
}

impl Screen for Buffer {
    fn clear(&mut self) {
        let mut c: usize = 0;
        while c < CELLS
            invariant
                c <= CELLS,
                forall|k: int| 0 <= k < c ==> self.0@[k] == 0u8,
            decreases CELLS - c,
        {
            proof {
                use_type_invariant(&*self);
            }
            self.0[c] = 0;
            c += 1;
        }
        assert(self@ =~= blank());
    }

    fn draw(&mut self, x: u8, y: u8, pixels: &[u8], n: u8) -> (collision: bool) {
        let mut res = false;
        let x = x as usize;
        let y = y as usize;
        let n = n as usize;
        let ghost start = self@;
        for row in 0..n
            invariant
                n <= pixels@.len(),
                x < 256,
                y < 256,
                n < 256,
                self@ == draw_sprite(start, x as int, y as int, pixels@, row as nat),
                res == sprite_collides(start, x as int, y as int, pixels@, row as nat),
        {
            let cell = pixels[row];
            let ghost before = self@;
            let ghost before_res = res;
            assert(self@ =~= draw_span(before, x as int, y + row, cell, 0));
            for col in 0..8usize
                invariant
                    x < 256,
                    y < 256,
                    row < 256,
                    before.len() == CELLS,
                    self@ == draw_span(before, x as int, y + row, cell, col as int),
                    res == (before_res || span_collides(before, x as int, y + row, cell, col as int)),
            {
                let value = n_bit(cell, col as u8);
                let r = (y + row) % HEIGHT;
                let c = (x + col) % WIDTH;
                let idx = r * WIDTH + c;
                let ghost inner = self@;
                let ghost old_cell = self.0@[idx as int];
                proof {
                    use_type_invariant(&*self);
                    assert(idx == cell_at(x + col, y + row));
                    assert(old_cell <= 1 && value <= 1 ==> (old_cell ^ value) <= 1 && ((old_cell
                        ^ value) == 1) == ((old_cell == 1) != (value == 1)) && ((old_cell & value)
                        != 0) == (old_cell == 1 && value == 1)) by (bit_vector);
                    lemma_span_step(x as int, y + row, cell, col as int, idx as int);
                    assert(inner[idx as int] == before[idx as int]);
                }
                if self.0[idx] & value != 0 {
                    res = true;
                }
                self.0[idx] = self.0[idx] ^ value;
                proof {
                    assert(self.0@[idx as int] == old_cell ^ value);
                    assert forall|c: int| 0 <= c < CELLS implies self@[c] == draw_span(
                        before,
                        x as int,
                        y + row,
                        cell,
                        col + 1,
                    )[c] by {
                        lemma_span_step(x as int, y + row, cell, col as int, c);
                        if c != idx {
                            assert(self@[c] == inner[c]);
                        } else {
                            assert(self@[c] == (inner[c] != bit_set(cell, col as int)));
                        }
                    }
                    assert(self@ =~= draw_span(before, x as int, y + row, cell, col + 1));
                }
            }
            assert(self@ =~= draw_row(before, x as int, y + row, cell));
        }
        res
    }
}

} // verus!
