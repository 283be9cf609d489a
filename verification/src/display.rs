//! The display model: a 64x32 single-bit pixel grid with XOR-based sprite
//! compositing, edge wraparound, a collision flag and a dirty flag. The
//! semantics of a draw is given by two recursive spec functions, one over
//! the bits of a sprite row and one over the rows.

use crate::device::{eq_except_display, eq_except_draw, Chip8Error, Device};
use vstd::prelude::*;

verus! {

/// The pixel grid as a sequence of 64 columns, each a sequence of 32
/// single-bit cells.
pub open spec fn disp_view(d: [[u8; 32]; 64]) -> Seq<Seq<u8>> {
    Seq::new(64, |x: int| d[x]@)
}

/// A 64 x 32 grid in which every cell holds a single bit.
pub open spec fn disp_wf(d: Seq<Seq<u8>>) -> bool {
    &&& d.len() == 64
    &&& forall|x: int| 0 <= x < 64 ==> (#[trigger] d[x]).len() == 32
    &&& forall|x: int, y: int| 0 <= x < 64 && 0 <= y < 32 ==> #[trigger] d[x][y] <= 1
}

/// A single-bit pixel XOR-ed with 1.
pub open spec fn flip(p: u8) -> u8 {
    if p == 0 {
        1
    } else {
        0
    }
}

/// Bit `col` of a sprite row byte, most significant bit first.
pub open spec fn sprite_bit(byte: u8, col: int) -> bool {
    byte & (0x80u8 >> (col as u8)) != 0
}

/// The grid and collision flag after compositing the first `ncols` bits of
/// one sprite row byte onto grid row `py`, columns wrapping at 64. A set
/// sprite bit lands at column `(x + col) % 64`: the collision flag is
/// raised if that pixel was lit, and the pixel is XOR-ed with 1.
pub open spec fn draw_cols(
    d: Seq<Seq<u8>>,
    vf: u8,
    x: int,
    py: int,
    byte: u8,
    ncols: int,
) -> (Seq<Seq<u8>>, u8)
    decreases ncols,
{
    if ncols <= 0 {
        (d, vf)
    } else {
        let prev = draw_cols(d, vf, x, py, byte, ncols - 1);
        let c = ncols - 1;
        if sprite_bit(byte, c) {
            let px = (x + c) % 64;
            (
                prev.0.update(px, prev.0[px].update(py, flip(prev.0[px][py]))),
                if prev.0[px][py] == 1 {
                    1u8
                } else {
                    prev.1
                },
            )
        } else {
            prev
        }
    }
}

/// The grid and collision flag after compositing the first `nrows` rows of
/// an 8-wide sprite read from memory at `ip`, at position `(x, y)`, rows
/// wrapping at 32.
pub open spec fn draw_rows(
    d: Seq<Seq<u8>>,
    vf: u8,
    x: int,
    y: int,
    mem: Seq<u8>,
    ip: int,
    nrows: int,
) -> (Seq<Seq<u8>>, u8)
    decreases nrows,
{
    if nrows <= 0 {
        (d, vf)
    } else {
        let prev = draw_rows(d, vf, x, y, mem, ip, nrows - 1);
        draw_cols(prev.0, prev.1, x, (y + (nrows - 1)) % 32, mem[ip + (nrows - 1)], 8)
    }
}

/// The grid view reads back the underlying cells.
pub proof fn lemma_disp_view_index(d: [[u8; 32]; 64], x: int, y: int)
    requires
        0 <= x < 64,
        0 <= y < 32,
    ensures
        disp_view(d)[x][y] == d[x][y],
{
}

/// The grid view of a well-formed device display is a well-formed grid.
pub proof fn lemma_disp_view_wf(d: [[u8; 32]; 64])
    requires
        forall|x: int, y: int| 0 <= x < 64 && 0 <= y < 32 ==> #[trigger] d[x][y] <= 1,
    ensures
        disp_wf(disp_view(d)),
{
    assert forall|x: int, y: int| 0 <= x < 64 && 0 <= y < 32 implies #[trigger] disp_view(d)[x][y]
        <= 1 by {
        lemma_disp_view_index(d, x, y);
    }
}

impl Device {
    /// Reset every pixel to 0 and mark the display dirty.
    pub fn clear_display(&mut self)
        requires
            old(self).wf(),
        ensures
            final(self).wf(),
            eq_except_display(*old(self), *final(self)),
            final(self).display_changed,
            forall|x: int, y: int|
                0 <= x < 64 && 0 <= y < 32 ==> #[trigger] final(self).display[x][y] == 0,
    {
        let mut x: usize = 0;
        while x < 64
            invariant
                0 <= x <= 64,
                eq_except_display(*old(self), *self),
                self.display_changed == old(self).display_changed,
                self.stack_pointer == old(self).stack_pointer,
                old(self).wf(),
                forall|i: int, j: int|
                    0 <= i < x && 0 <= j < 32 ==> #[trigger] self.display[i][j] == 0,
                forall|i: int, j: int|
                    x <= i < 64 && 0 <= j < 32 ==> #[trigger] self.display[i][j] == old(
                        self,
                    ).display[i][j],
            decreases 64 - x,
        {
            self.display[x] = [0; 32];
            x = x + 1;
        }
        self.display_changed = true;
    }

    /// Composite an 8-wide, `height`-tall sprite read from memory at the
    /// index pointer onto the grid at `(x, y)`, wrapping at both edges,
    /// with the collision flag left in `register[0xF]` and the display
    /// marked dirty. Fails, leaving the state untouched, when the sprite
    /// rows would be read past the end of memory.
    pub fn draw_sprite(&mut self, x: u8, y: u8, height: u8) -> (r: Result<(), Chip8Error>)
        requires
            old(self).wf(),
        ensures
            final(self).wf(),
            old(self).instruction_pointer + height <= 4096 ==> {
                let res = draw_rows(
                    disp_view(old(self).display),
                    0,
                    x as int,
                    y as int,
                    old(self).memory@,
                    old(self).instruction_pointer as int,
                    height as int,
                );
                &&& r is Ok
                &&& eq_except_draw(*old(self), *final(self))
                &&& disp_view(final(self).display) == res.0
                &&& final(self).registers@ == old(self).registers@.update(15, res.1)
                &&& final(self).display_changed
            },
            old(self).instruction_pointer + height > 4096 ==> {
                &&& r == Err::<(), Chip8Error>(Chip8Error::MemoryOutOfBounds)
                &&& *final(self) == *old(self)
            },
    {
        if (self.instruction_pointer as usize) + (height as usize) > 4096 {
            return Err(Chip8Error::MemoryOutOfBounds);
        }
        proof {
            lemma_disp_view_wf(self.display);
        }
        self.registers[15] = 0;
        let ip = self.instruction_pointer;
        let mut row: usize = 0;
        while row < height as usize
            invariant
                old(self).wf(),
                0 <= row <= height,
                ip == old(self).instruction_pointer,
                ip + height <= 4096,
                eq_except_draw(*old(self), *self),
                self.display_changed == old(self).display_changed,
                ({
                    let res = draw_rows(
                        disp_view(old(self).display),
                        0,
                        x as int,
                        y as int,
                        old(self).memory@,
                        ip as int,
                        row as int,
                    );
                    disp_view(self.display) == res.0 && self.registers@ == old(
                        self,
                    ).registers@.update(15, res.1)
                }),
                disp_wf(disp_view(self.display)),
            decreases height - row,
        {
            let byte = self.memory[(ip as usize) + row];
            let py = ((y as usize) + row) % 32;
            let ghost base = draw_rows(
                disp_view(old(self).display),
                0,
                x as int,
                y as int,
                old(self).memory@,
                ip as int,
                row as int,
            );
            let mut col: usize = 0;
            while col < 8
                invariant
                    old(self).wf(),
                    0 <= col <= 8,
                    0 <= row < height,
                    ip == old(self).instruction_pointer,
                    ip + height <= 4096,
                    eq_except_draw(*old(self), *self),
                    self.display_changed == old(self).display_changed,
                    byte == old(self).memory@[ip + row],
                    py == ((y as int) + row) % 32,
                    0 <= py < 32,
                    base == draw_rows(
                        disp_view(old(self).display),
                        0,
                        x as int,
                        y as int,
                        old(self).memory@,
                        ip as int,
                        row as int,
                    ),
                    ({
                        let cur = draw_cols(base.0, base.1, x as int, py as int, byte, col as int);
                        disp_view(self.display) == cur.0 && self.registers@ == old(
                            self,
                        ).registers@.update(15, cur.1)
                    }),
                    disp_wf(disp_view(self.display)),
                decreases 8 - col,
            {
                let ghost cur = draw_cols(base.0, base.1, x as int, py as int, byte, col as int);
                let mask: u8 = 0x80u8 >> (col as u8);
                if byte & mask != 0 {
                    let px = ((x as usize) + col) % 64;
                    let pixel = self.display[px][py];
                    if pixel == 1 {
                        self.registers[15] = 1;
                    }
                    let mut column = self.display[px];
                    column[py] = if pixel == 0 {
                        1
                    } else {
                        0
                    };
                    self.display[px] = column;
                    proof {
                        let next = draw_cols(
                            base.0,
                            base.1,
                            x as int,
                            py as int,
                            byte,
                            col as int + 1,
                        );
                        assert(sprite_bit(byte, col as int));
                        assert(pixel == cur.0[px as int][py as int]);
                        assert(column@ == cur.0[px as int].update(py as int, flip(pixel)));
                        assert(disp_view(self.display) =~~= next.0);
                        assert(self.registers@ =~= old(self).registers@.update(15, next.1));
                        assert(disp_wf(disp_view(self.display)));
                    }
                } else {
                    proof {
                        assert(!sprite_bit(byte, col as int));
                    }
                }
                col = col + 1;
            }
            row = row + 1;
        }
        self.display_changed = true;
        proof {
            assert forall|px2: int, py2: int| 0 <= px2 < 64 && 0 <= py2 < 32 implies #[trigger] self
                .display[px2][py2] <= 1 by {
            lemma_disp_view_index(self.display, px2, py2);
            }
        }
        Ok(())
    }
}

} // verus!
