//! The map: a rectangular grid of wall codes, addressed as `(column, row)`.
//!
//! Code `0` is an open, passable cell; a code `c > 0` is a solid wall drawn
//! with texture `c - 1`. A grid is validated once, on construction: every
//! border cell is solid and every code is within the texture range. The
//! ray caster's termination rests on the solid border.

use vstd::prelude::*;

verus! {

use vstd::arithmetic::div_mod::lemma_fundamental_div_mod;
use vstd::arithmetic::div_mod::lemma_fundamental_div_mod_converse;
use vstd::arithmetic::div_mod::lemma_mod_bound;

/// Whether `(x, y)` lies on the border of a `width`-by-`height` grid.
pub open spec fn on_border(width: int, height: int, x: int, y: int) -> bool {
    x == 0 || x == width - 1 || y == 0 || y == height - 1
}

/// Whether raw grid data may be made into a [`Grid`]: plausible dimensions,
/// one code per cell (stored column-major: cell `(x, y)` at `x * height + y`),
/// a fully solid border, and every code at most `texture_count`.
pub open spec fn grid_data_ok(
    width: int,
    height: int,
    texture_count: int,
    cells: Seq<u8>,
) -> bool {
    &&& 3 <= width <= 4096
    &&& 3 <= height <= 4096
    &&& 1 <= texture_count <= 255
    &&& cells.len() == width * height
    &&& forall|i: int|
        0 <= i < cells.len() ==> {
            &&& (on_border(width, height, i / height, i % height) ==> #[trigger] cells[i] > 0)
            &&& cells[i] <= texture_count
        }
}

/// A validated map grid.
pub struct Grid {
    width: usize,
    height: usize,
    texture_count: usize,
    cells: Vec<u8>,
}

impl Grid {
    /// The number of columns.
    pub closed spec fn spec_width(&self) -> int {
        self.width as int
    }

    /// The number of rows.
    pub closed spec fn spec_height(&self) -> int {
        self.height as int
    }

    /// The number of wall textures the codes may refer to.
    pub closed spec fn spec_texture_count(&self) -> int {
        self.texture_count as int
    }

    /// The code of cell `(x, y)`.
    pub closed spec fn cell(&self, x: int, y: int) -> u8 {
        self.cells@[x * self.spec_height() + y]
    }

    /// Whether `(x, y)` is a cell of this grid.
    pub open spec fn in_bounds(&self, x: int, y: int) -> bool {
        0 <= x < self.spec_width() && 0 <= y < self.spec_height()
    }

    /// The cell buffer holds exactly one code per cell.
    pub closed spec fn storage_ok(&self) -> bool {
        self.cells@.len() == self.spec_width() * self.spec_height()
    }

    /// The invariant every constructed grid satisfies.
    pub open spec fn wf(&self) -> bool {
        &&& 3 <= self.spec_width() <= 4096
        &&& 3 <= self.spec_height() <= 4096
        &&& 1 <= self.spec_texture_count() <= 255
        &&& self.storage_ok()
        &&& forall|x: int, y: int|
            self.in_bounds(x, y) ==> {
                &&& (on_border(self.spec_width(), self.spec_height(), x, y)
                    ==> #[trigger] self.cell(x, y) > 0)
                &&& self.cell(x, y) <= self.spec_texture_count()
            }
    }

    /// Validates raw data and makes a grid of it; rejects data whose border
    /// is not fully solid or whose codes exceed the texture range.
    pub fn new(
        width: usize,
        height: usize,
        texture_count: usize,
        cells: Vec<u8>,
    ) -> (r: Option<Grid>)
        ensures
            r is Some <==> grid_data_ok(
                width as int,
                height as int,
                texture_count as int,
                cells@,
            ),
            r matches Some(g) ==> {
                &&& g.wf()
                &&& g.spec_width() == width
                &&& g.spec_height() == height
                &&& g.spec_texture_count() == texture_count
                &&& forall|x: int, y: int|
                    g.in_bounds(x, y) ==> #[trigger] g.cell(x, y)
                        == cells@[x * (height as int) + y]
            },
    {
        if width < 3 || width > 4096 || height < 3 || height > 4096 {
            return None;
        }
        if texture_count < 1 || texture_count > 255 {
            return None;
        }
        proof {
            lemma_flat_index_bound(0, 0, width as int, height as int);
        }
        if cells.len() != width * height {
            return None;
        }
        let mut x: usize = 0;
        while x < width
            invariant
                3 <= width <= 4096,
                3 <= height <= 4096,
                1 <= texture_count <= 255,
                cells@.len() == width * height,
                x <= width,
                forall|xx: int, yy: int|
                    0 <= xx < x && 0 <= yy < height ==> {
                        &&& (on_border(width as int, height as int, xx, yy)
                            ==> #[trigger] cells@[xx * (height as int) + yy] > 0)
                        &&& cells@[xx * (height as int) + yy] <= texture_count
                    },
            decreases width - x,
        {
            let mut y: usize = 0;
            while y < height
                invariant
                    3 <= width <= 4096,
                    3 <= height <= 4096,
                    1 <= texture_count <= 255,
                    cells@.len() == width * height,
                    x < width,
                    y <= height,
                    forall|xx: int, yy: int|
                        0 <= xx < x && 0 <= yy < height ==> {
                            &&& (on_border(width as int, height as int, xx, yy)
                                ==> #[trigger] cells@[xx * (height as int) + yy] > 0)
                            &&& cells@[xx * (height as int) + yy] <= texture_count
                        },
                    forall|yy: int|
                        0 <= yy < y ==> {
                            &&& (on_border(width as int, height as int, x as int, yy)
                                ==> #[trigger] cells@[(x as int) * (height as int) + yy] > 0)
                            &&& cells@[(x as int) * (height as int) + yy] <= texture_count
                        },
                decreases height - y,
            {
                proof {
                    lemma_flat_index_bound(x as int, y as int, width as int, height as int);
                }
                let i: usize = x * height + y;
                let code: u8 = cells[i];
                let border: bool = x == 0 || x == width - 1 || y == 0 || y == height - 1;
                if (border && code == 0) || code as usize > texture_count {
                    proof {
                        lemma_fundamental_div_mod_converse(
                            (x as int) * (height as int) + (y as int),
                            height as int,
                            x as int,
                            y as int,
                        );
                        assert(!grid_data_ok(
                            width as int,
                            height as int,
                            texture_count as int,
                            cells@,
                        ));
                    }
                    return None;
                }
                y = y + 1;
            }
            x = x + 1;
        }
        proof {
            let h = height as int;
            assert forall|i: int| 0 <= i < cells@.len() implies {
                &&& (on_border(width as int, h, i / h, i % h) ==> #[trigger] cells@[i] > 0)
                &&& cells@[i] <= texture_count as int
            } by {
                let xx = i / h;
                let yy = i % h;
                lemma_fundamental_div_mod(i, h);
                lemma_mod_bound(i, h);
                assert(i == xx * h + yy) by (nonlinear_arith)
                    requires
                        i == h * xx + yy,
                {}
                assert(0 <= xx < width as int) by (nonlinear_arith)
                    requires
                        i == xx * h + yy,
                        0 <= i < (width as int) * h,
                        0 <= yy < h,
                        0 < h,
                {}
                assert(cells@[xx * h + yy] == cells@[i]);
            }
            assert(grid_data_ok(width as int, height as int, texture_count as int, cells@));
        }
        Some(Grid { width, height, texture_count, cells })
    }

    /// The number of columns.
    pub fn width(&self) -> (r: usize)
        ensures
            r == self.spec_width(),
    {
        self.width
    }

    /// The number of rows.
    pub fn height(&self) -> (r: usize)
        ensures
            r == self.spec_height(),
    {
        self.height
    }

    /// The number of wall textures the codes may refer to.
    pub fn texture_count(&self) -> (r: usize)
        ensures
            r == self.spec_texture_count(),
    {
        self.texture_count
    }

    /// Pure cell lookup; callers bound-check first.
    pub fn cell_at(&self, x: usize, y: usize) -> (code: u8)
        requires
            self.wf(),
            self.in_bounds(x as int, y as int),
        ensures
            code == self.cell(x as int, y as int),
    {
        proof {
            lemma_flat_index_bound(x as int, y as int, self.spec_width(), self.spec_height());
        }
        self.cells[x * self.height + y]
    }
}

/// A column-major flat index stays within the cell buffer, and the buffer
/// itself is small enough to index with a `usize`.
proof fn lemma_flat_index_bound(x: int, y: int, width: int, height: int)
    by (nonlinear_arith)
    requires
        0 <= x < width <= 4096,
        0 <= y < height <= 4096,
    ensures
        0 <= x * height + y < width * height,
        width * height <= 16777216,
{
}

} // verus!
