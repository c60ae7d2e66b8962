use vstd::prelude::*;
use vstd::arithmetic::div_mod::{
    lemma_fundamental_div_mod, lemma_fundamental_div_mod_converse, lemma_mod_pos_bound,
    lemma_div_pos_is_pos, lemma_multiply_divide_lt,
};
use crate::coord::Coord;
use crate::room::Room;

verus! {

/// An axis-aligned filled rectangle, given by its top-left corner and its extent.
/// Either extent may be zero; the corner may lie anywhere.
pub struct Rect {
    pub left_x: i32,
    pub top_y: i32,
    pub width: u32,
    pub height: u32,
}

impl Rect {
    /// Whether the whole block `[left_x, left_x + width) x [top_y, top_y + height)`
    /// lies within the range of `i32`.
    pub open spec fn fits(&self) -> bool {
        self.left_x + self.width <= i32::MAX + 1 && self.top_y + self.height <= i32::MAX + 1
    }

    /// Whether `c` lies in the block `[left_x, left_x + width) x [top_y, top_y + height)`.
    pub open spec fn covers(&self, c: Coord) -> bool {
        self.left_x <= c.x < self.left_x + self.width && self.top_y <= c.y < self.top_y
            + self.height
    }

    /// How many of the `width` columns have an `x` that an `i32` can hold.
    /// Columns further right are dropped.
    pub open spec fn kept_cols(&self) -> int {
        if self.left_x + self.width <= i32::MAX + 1 {
            self.width as int
        } else {
            i32::MAX + 1 - self.left_x
        }
    }

    /// How many of the `height` rows have a `y` that an `i32` can hold.
    /// Rows further down are dropped.
    pub open spec fn kept_rows(&self) -> int {
        if self.top_y + self.height <= i32::MAX + 1 {
            self.height as int
        } else {
            i32::MAX + 1 - self.top_y
        }
    }

    /// The `k`-th cell of the listing: columns from left to right, and each column
    /// from top to bottom.
    pub open spec fn cell_at(&self, k: int) -> Coord {
        Coord {
            x: (self.left_x + k / self.kept_rows()) as i32,
            y: (self.top_y + k % self.kept_rows()) as i32,
        }
    }

    /// The first `n` cells of the listing.
    pub open spec fn listing(&self, n: int) -> Seq<Coord> {
        Seq::new(n as nat, |k: int| self.cell_at(k))
    }

    /// The `j`-th cell of column `i` stands at place `i * kept_rows + j` of the listing.
    proof fn lemma_cell_at_place(&self, i: int, j: int)
        requires
            0 <= i < self.kept_cols(),
            0 <= j < self.kept_rows(),
        ensures
            0 <= i * self.kept_rows() + j < self.kept_cols() * self.kept_rows(),
            self.cell_at(i * self.kept_rows() + j) == (Coord {
                x: (self.left_x + i) as i32,
                y: (self.top_y + j) as i32,
            }),
    {
        let rows = self.kept_rows();
        let cols = self.kept_cols();
        let k = i * rows + j;
        assert(0 <= i * rows && i * rows + rows <= cols * rows) by (nonlinear_arith)
            requires
                0 <= i < cols,
                0 < rows,
        ;
        lemma_fundamental_div_mod_converse(k, rows, i, j);
    }

    /// A place `k` of the listing is row `k % kept_rows` of column `k / kept_rows`.
    proof fn lemma_place_splits(&self, k: int)
        requires
            0 <= k < self.kept_cols() * self.kept_rows(),
        ensures
            0 < self.kept_rows(),
            0 <= k / self.kept_rows() < self.kept_cols(),
            0 <= k % self.kept_rows() < self.kept_rows(),
            k == (k / self.kept_rows()) * self.kept_rows() + k % self.kept_rows(),
    {
        let rows = self.kept_rows();
        let cols = self.kept_cols();
        assert(0 < rows) by (nonlinear_arith)
            requires
                0 <= k < cols * rows,
                0 <= rows,
                0 <= cols,
        ;
        lemma_mod_pos_bound(k, rows);
        lemma_div_pos_is_pos(k, rows);
        assert(k < rows * cols) by (nonlinear_arith)
            requires
                k < cols * rows,
        ;
        lemma_multiply_divide_lt(k, rows, cols);
        lemma_fundamental_div_mod(k, rows);
        assert(rows * (k / rows) == (k / rows) * rows) by (nonlinear_arith);
    }

    /// The listing has one cell for each kept column and kept row: none where an
    /// extent is zero, `width * height` where the block fits, and fewer than that
    /// where a non-empty block does not fit.
    pub proof fn lemma_cells_len(&self)
        ensures
            self.cells().len() == self.kept_cols() * self.kept_rows(),
            self.width == 0 || self.height == 0 ==> self.cells().len() == 0,
            self.fits() ==> self.cells().len() == self.width * self.height,
            self.width > 0 && self.height > 0 && !self.fits() ==> self.cells().len() < self.width
                * self.height,
    {
        let rows = self.kept_rows();
        let cols = self.kept_cols();
        let w = self.width as int;
        let h = self.height as int;
        assert(0 <= cols * rows) by (nonlinear_arith)
            requires
                0 <= cols,
                0 <= rows,
        ;
        assert(w == 0 || h == 0 ==> cols * rows == 0) by (nonlinear_arith)
            requires
                0 <= cols <= w,
                0 <= rows <= h,
        ;
        assert(w > 0 && h > 0 && (cols < w || rows < h) ==> cols * rows < w * h)
            by (nonlinear_arith)
            requires
                0 <= cols <= w,
                0 <= rows <= h,
        ;
    }

    /// Every listed cell lies in the block.
    pub proof fn lemma_cells_within(&self, k: int)
        requires
            0 <= k < self.cells().len(),
        ensures
            self.covers(self.cells()[k]),
    {
        self.lemma_cells_len();
        self.lemma_place_splits(k);
    }

    /// Every cell of the block that an `i32` pair can name is listed.
    pub proof fn lemma_cells_cover(&self, c: Coord)
        requires
            self.covers(c),
        ensures
            self.cells().contains(c),
    {
        self.lemma_cells_len();
        let i = c.x - self.left_x;
        let j = c.y - self.top_y;
        self.lemma_cell_at_place(i, j);
        let k = i * self.kept_rows() + j;
        assert(self.cells()[k] == c);
    }

    /// No cell is listed twice.
    pub proof fn lemma_cells_distinct(&self)
        ensures
            self.cells().no_duplicates(),
    {
        self.lemma_cells_len();
        let cells = self.cells();
        assert forall|a: int, b: int|
            0 <= a < cells.len() && 0 <= b < cells.len() && a != b implies cells[a] != cells[b] by {
            self.lemma_place_splits(a);
            self.lemma_place_splits(b);
        }
    }
}

impl Room for Rect {
    /// The cells of the block that an `i32` pair can name, column by column.
    open spec fn cells(&self) -> Seq<Coord> {
        self.listing(self.kept_cols() * self.kept_rows())
    }

    /// Lists the cells of the block, columns from left to right and each column
    /// from top to bottom. A cell whose `x` or `y` would overflow is left out.
    fn to_coords(&self) -> (coords: Vec<Coord>)
        ensures
            self.width == 0 || self.height == 0 ==> coords@.len() == 0,
            self.fits() ==> coords@.len() == self.width * self.height,
            self.width > 0 && self.height > 0 && !self.fits() ==> coords@.len() < self.width
                * self.height,
            forall|k: int| 0 <= k < coords@.len() ==> self.covers(#[trigger] coords@[k]),
            forall|c: Coord| self.covers(c) ==> coords@.contains(c),
            coords@.no_duplicates(),
    {
        proof {
            self.lemma_cells_len();
            self.lemma_cells_distinct();
            assert forall|k: int| 0 <= k < self.cells().len() implies self.covers(
                #[trigger] self.cells()[k],
            ) by {
                self.lemma_cells_within(k);
            }
            assert forall|c: Coord| self.covers(c) implies self.cells().contains(c) by {
                self.lemma_cells_cover(c);
            }
        }
        if self.width == 0 || self.height == 0 {
            return Vec::new();
        }
        let ghost cols = self.kept_cols();
        let ghost rows = self.kept_rows();
        let mut v: Vec<Coord> = Vec::new();
        for x_shift in 0..self.width
            invariant
                cols == self.kept_cols(),
                rows == self.kept_rows(),
                0 < rows,
                v@ == self.listing(
                    if x_shift < cols {
                        x_shift * rows
                    } else {
                        cols * rows
                    },
                ),
        {
            for y_shift in 0..self.height
                invariant
                    cols == self.kept_cols(),
                    rows == self.kept_rows(),
                    0 < rows,
                    x_shift < self.width,
                    v@ == self.listing(
                        if x_shift >= cols {
                            cols * rows
                        } else if y_shift < rows {
                            x_shift * rows + y_shift
                        } else {
                            x_shift * rows + rows
                        },
                    ),
            {
                let bigger_x = self.left_x.checked_add_unsigned(x_shift);
                let bigger_y = self.top_y.checked_add_unsigned(y_shift);
                match (bigger_x, bigger_y) {
                    (Some(bigger_x), Some(bigger_y)) => {
                        proof {
                            self.lemma_cell_at_place(x_shift as int, y_shift as int);
                        }
                        v.push(Coord::new(bigger_x, bigger_y));
                        assert(v@ =~= self.listing(x_shift * rows + y_shift + 1));
                    },
                    _ => (),  // a cell that overflows is left out
                }
            }
            assert((x_shift + 1) * rows == x_shift * rows + rows) by (nonlinear_arith);
        }
        v
    }
}

} // verus!
