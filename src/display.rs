//! The 64 x 32 monochrome framebuffer, addressed with wrap-around on both axes.
use vstd::prelude::*;

verus! {

/// Number of columns of the grid.
pub const WIDTH: u16 = 64;

/// Number of rows of the grid.
pub const HEIGHT: u16 = 32;

/// Number of cells of the grid.
pub const CELLS: usize = 2048;

/// The cell that the coordinates `(x, y)` address once reduced onto the grid.
pub open spec fn cell_index(x: int, y: int) -> int {
    (y % (HEIGHT as int)) * (WIDTH as int) + (x % (WIDTH as int))
}

/// A grid with every cell off.
pub open spec fn blank_screen() -> Seq<u8> {
    Seq::new(CELLS as nat, |i: int| 0u8)
}

/// A grid of the right size whose cells are all 0 or 1.
pub open spec fn screen_wf(s: Seq<u8>) -> bool {
    &&& s.len() == CELLS
    &&& forall|i: int| 0 <= i < s.len() ==> #[trigger] s[i] <= 1
}

/// The grid after XOR-ing `value` into the cell of `(x, y)`.
pub open spec fn xor_cell(s: Seq<u8>, x: int, y: int, value: u8) -> Seq<u8> {
    s.update(cell_index(x, y), s[cell_index(x, y)] ^ value)
}

/// Every pair of coordinates addresses a cell of the grid.
pub proof fn lemma_cell_index_in_range(x: int, y: int)
    requires
        0 <= x,
        0 <= y,
    ensures
        0 <= cell_index(x, y) < CELLS,
{
    assert(0 <= x % 64 < 64);
    assert(0 <= y % 32 < 32);
    assert((y % 32) * 64 + (x % 64) < 2048) by (nonlinear_arith)
        requires
            0 <= x % 64 < 64,
            0 <= y % 32 < 32,
    ;
    assert((y % 32) * 64 + (x % 64) >= 0) by (nonlinear_arith)
        requires
            0 <= x % 64 < 64,
            0 <= y % 32 < 32,
    ;
}

/// The framebuffer. Its view holds one cell per entry, each 0 or 1.
pub struct Display {
    pixels: Vec<u8>,
}

impl View for Display {
    type V = Seq<u8>;

    /// The cells row by row: the cell of column `x`, row `y` stands at `y * 64 + x`.
    closed spec fn view(&self) -> Seq<u8> {
        self.pixels@
    }
}

impl Default for Display {
    fn default() -> (r: Self)
        ensures
            r.wf(),
            r@ == blank_screen(),
    {
        Display { pixels: Display::blank_pixels() }
    }
}

impl Display {
    /// The grid has 2048 cells, each 0 or 1.
    pub open spec fn wf(&self) -> bool {
        screen_wf(self@)
    }

    fn blank_pixels() -> (r: Vec<u8>)
        ensures
            r@ == blank_screen(),
    {
        let mut v: Vec<u8> = Vec::with_capacity(CELLS);
        while v.len() < CELLS
            invariant
                v.len() <= CELLS,
                forall|i: int| 0 <= i < v.len() ==> v@[i] == 0,
            decreases CELLS - v.len(),
        {
            v.push(0);
        }
        assert(v@ =~= blank_screen());
        v
    }

    /// Turns every cell off.
    pub fn clear(&mut self)
        ensures
            final(self)@ == blank_screen(),
    {
        self.pixels = Display::blank_pixels();
    }

    /// XORs `value` into the cell of `(x mod 64, y mod 32)` and tells whether
    /// that turned a lit cell off.
    pub fn set_pixel(&mut self, x: u16, y: u16, value: u8) -> (collided: bool)
        requires
            old(self).wf(),
            value <= 1,
        ensures
            final(self).wf(),
            final(self)@ == xor_cell(old(self)@, x as int, y as int, value),
            collided == (old(self)@[cell_index(x as int, y as int)] == 1 && value == 1),
    {
        proof {
            lemma_cell_index_in_range(x as int, y as int);
        }
        let i: usize = (y % HEIGHT) as usize * (WIDTH as usize) + (x % WIDTH) as usize;
        let old_value = self.pixels[i];
        let new_value = old_value ^ value;
        assert(old_value <= 1 && value <= 1 ==> (old_value ^ value) <= 1) by (bit_vector);
        assert(old_value == 1 && value == 1 ==> (old_value ^ value) == 0) by (bit_vector);
        assert(value == 0 ==> (old_value ^ value) == old_value) by (bit_vector);
        self.pixels.set(i, new_value);
        old_value == 1 && value == 1
    }

    /// The value of the cell of `(x mod 64, y mod 32)`.
    pub fn get_pixel(&self, x: u16, y: u16) -> (r: u8)
        requires
            self.wf(),
        ensures
            r == self@[cell_index(x as int, y as int)],
    {
        proof {
            lemma_cell_index_in_range(x as int, y as int);
        }
        self.pixels[(y % HEIGHT) as usize * (WIDTH as usize) + (x % WIDTH) as usize]
    }

    /// A copy of the grid as 32 rows of 64 cells.
    pub fn snapshot(&self) -> (r: Vec<Vec<u8>>)
        requires
            self.wf(),
        ensures
            r@.len() == HEIGHT,
            forall|y: int|
                0 <= y < HEIGHT ==> (#[trigger] r@[y])@.len() == WIDTH && forall|x: int|
                    0 <= x < WIDTH ==> (#[trigger] r@[y]@[x]) == self@[y * 64 + x],
    {
        let mut rows: Vec<Vec<u8>> = Vec::new();
        let mut y: usize = 0;
        while y < HEIGHT as usize
            invariant
                y <= HEIGHT,
                rows@.len() == y,
                self.wf(),
                forall|j: int|
                    0 <= j < y ==> (#[trigger] rows@[j])@.len() == WIDTH && forall|x: int|
                        0 <= x < WIDTH ==> (#[trigger] rows@[j]@[x]) == self@[j * 64 + x],
            decreases HEIGHT - y,
        {
            let mut row: Vec<u8> = Vec::new();
            let mut x: usize = 0;
            while x < WIDTH as usize
                invariant
                    x <= WIDTH,
                    y < HEIGHT,
                    row@.len() == x,
                    self.wf(),
                    forall|i: int| 0 <= i < x ==> row@[i] == self@[y * 64 + i],
                decreases WIDTH - x,
            {
                assert(y * 64 + x < 2048) by (nonlinear_arith)
                    requires
                        y < 32,
                        x < 64,
                ;
                row.push(self.pixels[y * 64 + x]);
                x = x + 1;
            }
            rows.push(row);
            y = y + 1;
        }
        rows
    }
}

} // verus!
