//! Grid geometry: which cell a tile lands in, where that cell starts on the
//! canvas, and how large the canvas is.

use vstd::prelude::*;
use crate::arith::lemma_div_mod_unique;
use crate::arith::lemma_product_fits;
use crate::arith::lemma_quotient_in_range;

verus! {

/// Columns of the standard sheet.
pub const GRID_WIDTH: u32 = 8;

/// Rows of the standard sheet.
pub const GRID_HEIGHT: u32 = 6;

/// Tiles per standard sheet, and the length of one window of paths.
pub const BATCH_SIZE: usize = 48;

/// The order in which the tiles of a batch fill the grid.
#[derive(Clone, Copy, Debug, PartialEq, Eq, Structural)]
pub enum Placement {
    /// Row by row from the top-left cell.
    Forward,
    /// Row by row from the bottom-right cell, each row from right to left.
    Reversed,
}

/// The shape of a sheet and the order in which it is filled.
#[derive(Clone, Copy, Debug, PartialEq, Eq, Structural)]
pub struct GridConfig {
    pub grid_width: u32,
    pub grid_height: u32,
    pub placement: Placement,
}

impl GridConfig {
    /// Number of cells in the grid.
    pub open spec fn capacity(self) -> nat {
        (self.grid_width * self.grid_height) as nat
    }

    /// Whether `(col, row)` names a cell of the grid.
    pub open spec fn has_cell(self, col: int, row: int) -> bool {
        0 <= col < self.grid_width && 0 <= row < self.grid_height
    }

    /// The cell `(column, row)` that the tile at `index` of a batch fills.
    /// Meaningful for `index < self.capacity()`.
    pub open spec fn cell(self, index: int) -> (int, int) {
        let col = index % (self.grid_width as int);
        let row = index / (self.grid_width as int);
        match self.placement {
            Placement::Forward => (col, row),
            Placement::Reversed => (self.grid_width - 1 - col, self.grid_height - 1 - row),
        }
    }

    /// The batch index whose tile fills the cell `(col, row)`: the inverse of
    /// [`GridConfig::cell`].
    pub open spec fn slot(self, col: int, row: int) -> int {
        match self.placement {
            Placement::Forward => row * self.grid_width + col,
            Placement::Reversed => {
                (self.grid_height - 1 - row) * self.grid_width + (self.grid_width - 1 - col)
            },
        }
    }

    /// Width of the canvas for tiles of the given width.
    pub open spec fn canvas_width(self, tile_width: int) -> int {
        tile_width * self.grid_width
    }

    /// Height of the canvas for tiles of the given height.
    pub open spec fn canvas_height(self, tile_height: int) -> int {
        tile_height * self.grid_height
    }

    /// The canvas position of the top-left pixel of the tile at `index`.
    pub open spec fn origin(self, index: int, tile_width: int, tile_height: int) -> (int, int) {
        (self.cell(index).0 * tile_width, self.cell(index).1 * tile_height)
    }

    /// The 8 by 6 grid.
    pub fn standard(placement: Placement) -> (config: GridConfig)
        ensures
            config == (GridConfig {
                grid_width: GRID_WIDTH,
                grid_height: GRID_HEIGHT,
                placement,
            }),
            config.capacity() == BATCH_SIZE,
    {
        let config = GridConfig { grid_width: GRID_WIDTH, grid_height: GRID_HEIGHT, placement };
        assert(config.grid_width == 8 && config.grid_height == 6);
        config
    }

    /// Number of cells in the grid.
    pub fn cell_count(&self) -> (count: u64)
        ensures
            count == self.capacity(),
    {
        proof {
            lemma_product_fits(self.grid_width, self.grid_height);
        }
        self.grid_width as u64 * self.grid_height as u64
    }

    /// The cell `(column, row)` for the tile at `index` of a batch, or `None`
    /// when the grid has no cell for it.
    pub fn cell_of(&self, index: usize) -> (found: Option<(u32, u32)>)
        ensures
            found is Some <==> index < self.capacity(),
            found matches Some(c) ==> (c.0 as int, c.1 as int) == self.cell(index as int)
                && self.has_cell(c.0 as int, c.1 as int),
    {
        if index as u64 >= self.cell_count() {
            return None;
        }
        proof {
            lemma_cell_in_grid(*self, index as int);
        }
        let col: u32 = (index as u64 % self.grid_width as u64) as u32;
        let row: u32 = (index as u64 / self.grid_width as u64) as u32;
        match self.placement {
            Placement::Forward => Some((col, row)),
            Placement::Reversed => Some((self.grid_width - 1 - col, self.grid_height - 1 - row)),
        }
    }

    /// Width and height of the canvas for tiles of the given size, or `None`
    /// when either exceeds `u32::MAX`.
    pub fn canvas_size(&self, tile_width: u32, tile_height: u32) -> (size: Option<(u32, u32)>)
        ensures
            size is Some <==> self.canvas_width(tile_width as int) <= u32::MAX
                && self.canvas_height(tile_height as int) <= u32::MAX,
            size matches Some(s) ==> s.0 == self.canvas_width(tile_width as int) && s.1
                == self.canvas_height(tile_height as int),
    {
        proof {
            lemma_product_fits(tile_width, self.grid_width);
            lemma_product_fits(tile_height, self.grid_height);
        }
        let width: u64 = tile_width as u64 * self.grid_width as u64;
        let height: u64 = tile_height as u64 * self.grid_height as u64;
        if width > u32::MAX as u64 || height > u32::MAX as u64 {
            None
        } else {
            Some((width as u32, height as u32))
        }
    }

    /// The canvas position of the top-left pixel of the tile at `index`, or
    /// `None` when the grid has no cell for it or the position exceeds
    /// `u32::MAX`.
    pub fn tile_origin(&self, index: usize, tile_width: u32, tile_height: u32) -> (at: Option<
        (u32, u32),
    >)
        ensures
            at is Some <==> index < self.capacity() && self.origin(
                index as int,
                tile_width as int,
                tile_height as int,
            ).0 <= u32::MAX && self.origin(index as int, tile_width as int, tile_height as int).1
                <= u32::MAX,
            at matches Some(o) ==> (o.0 as int, o.1 as int) == self.origin(
                index as int,
                tile_width as int,
                tile_height as int,
            ),
    {
        match self.cell_of(index) {
            None => None,
            Some((col, row)) => {
                proof {
                    lemma_product_fits(col, tile_width);
                    lemma_product_fits(row, tile_height);
                }
                let x: u64 = col as u64 * tile_width as u64;
                let y: u64 = row as u64 * tile_height as u64;
                if x > u32::MAX as u64 || y > u32::MAX as u64 {
                    None
                } else {
                    Some((x as u32, y as u32))
                }
            },
        }
    }
}

/// Every batch index below the capacity has a cell inside the grid.
pub proof fn lemma_cell_in_grid(config: GridConfig, index: int)
    requires
        0 <= index < config.capacity(),
    ensures
        config.grid_width > 0,
        config.grid_height > 0,
        config.has_cell(config.cell(index).0, config.cell(index).1),
        0 <= index % (config.grid_width as int) < config.grid_width,
        0 <= index / (config.grid_width as int) < config.grid_height,
{
    lemma_quotient_in_range(index, config.grid_width as int, config.grid_height as int);
}

/// The cell of a batch index leads back to that index.
pub proof fn lemma_slot_of_cell(config: GridConfig, index: int)
    requires
        0 <= index < config.capacity(),
    ensures
        config.slot(config.cell(index).0, config.cell(index).1) == index,
{
    let w = config.grid_width as int;
    lemma_cell_in_grid(config, index);
    vstd::arithmetic::div_mod::lemma_fundamental_div_mod(index, w);
    assert((index / w) * w == w * (index / w)) by (nonlinear_arith);
}

/// Every cell of the grid is the cell of exactly one batch index below the
/// capacity.
pub proof fn lemma_cell_of_slot(config: GridConfig, col: int, row: int)
    requires
        config.has_cell(col, row),
    ensures
        0 <= config.slot(col, row) < config.capacity(),
        config.cell(config.slot(col, row)) == (col, row),
{
    let w = config.grid_width as int;
    let h = config.grid_height as int;
    let (c, r) = match config.placement {
        Placement::Forward => (col, row),
        Placement::Reversed => (w - 1 - col, h - 1 - row),
    };
    assert(0 <= c < w && 0 <= r < h);
    assert(config.slot(col, row) == r * w + c);
    assert(0 <= r * w + c < w * h) by (nonlinear_arith)
        requires
            0 <= c < w,
            0 <= r < h,
    ;
    lemma_div_mod_unique(r * w + c, w, r, c);
}

/// Distinct batch indices fill distinct cells.
pub proof fn lemma_cells_distinct(config: GridConfig, i: int, j: int)
    requires
        0 <= i < config.capacity(),
        0 <= j < config.capacity(),
        i != j,
    ensures
        config.cell(i) != config.cell(j),
{
    lemma_slot_of_cell(config, i);
    lemma_slot_of_cell(config, j);
}

/// The canvas of tiles that have a size has a size too.
pub proof fn lemma_canvas_size(config: GridConfig, tile_width: int, tile_height: int)
    by (nonlinear_arith)
    requires
        0 <= tile_width,
        0 <= tile_height,
    ensures
        0 <= config.canvas_width(tile_width),
        0 <= config.canvas_height(tile_height),
{
}

/// Where a pixel of a tile lies on the canvas: inside the canvas, in the
/// tile's own cell, at the pixel's own offset within that cell.
pub proof fn lemma_tile_pixel_on_canvas(
    config: GridConfig,
    index: int,
    tile_width: int,
    tile_height: int,
    px: int,
    py: int,
)
    requires
        0 <= index < config.capacity(),
        0 <= px < tile_width,
        0 <= py < tile_height,
    ensures
        ({
            let (col, row) = config.cell(index);
            let (x0, y0) = config.origin(index, tile_width, tile_height);
            &&& 0 <= x0
            &&& 0 <= y0
            &&& x0 + tile_width <= config.canvas_width(tile_width)
            &&& y0 + tile_height <= config.canvas_height(tile_height)
            &&& (x0 + px) / tile_width == col
            &&& (x0 + px) % tile_width == px
            &&& (y0 + py) / tile_height == row
            &&& (y0 + py) % tile_height == py
        }),
{
    lemma_cell_in_grid(config, index);
    let (col, row) = config.cell(index);
    let w = config.grid_width as int;
    let h = config.grid_height as int;
    assert(0 <= col * tile_width && col * tile_width + tile_width <= tile_width * w)
        by (nonlinear_arith)
        requires
            0 <= col < w,
            0 < tile_width,
    ;
    assert(0 <= row * tile_height && row * tile_height + tile_height <= tile_height * h)
        by (nonlinear_arith)
        requires
            0 <= row < h,
            0 < tile_height,
    ;
    lemma_div_mod_unique(col * tile_width + px, tile_width, col, px);
    lemma_div_mod_unique(row * tile_height + py, tile_height, row, py);
}

/// Every pixel of the canvas lies in one cell of the grid, at an offset
/// inside a tile.
pub proof fn lemma_canvas_pixel_in_cell(
    config: GridConfig,
    tile_width: int,
    tile_height: int,
    x: int,
    y: int,
)
    requires
        0 <= x < config.canvas_width(tile_width),
        0 <= y < config.canvas_height(tile_height),
    ensures
        0 < tile_width,
        0 < tile_height,
        config.has_cell(x / tile_width, y / tile_height),
        0 <= x % tile_width < tile_width,
        0 <= y % tile_height < tile_height,
        x == (x / tile_width) * tile_width + x % tile_width,
        y == (y / tile_height) * tile_height + y % tile_height,
{
    lemma_quotient_in_range(x, tile_width, config.grid_width as int);
    lemma_quotient_in_range(y, tile_height, config.grid_height as int);
}

/// The corners of a grid that has cells: forward placement starts in the
/// top-left cell and ends in the bottom-right one, reversed placement starts
/// in the bottom-right cell and ends in the top-left one.
pub proof fn lemma_corner_cells(grid_width: u32, grid_height: u32)
    requires
        grid_width > 0,
        grid_height > 0,
    ensures
        ({
            let forward = GridConfig { grid_width, grid_height, placement: Placement::Forward };
            let reversed = GridConfig { grid_width, grid_height, placement: Placement::Reversed };
            let last = grid_width * grid_height - 1;
            &&& 0 <= last < forward.capacity()
            &&& forward.cell(0) == (0int, 0int)
            &&& forward.cell(last) == (grid_width - 1, grid_height - 1)
            &&& reversed.cell(0) == (grid_width - 1, grid_height - 1)
            &&& reversed.cell(last) == (0int, 0int)
        }),
{
    let forward = GridConfig { grid_width, grid_height, placement: Placement::Forward };
    let w = grid_width as int;
    let h = grid_height as int;
    lemma_cell_of_slot(forward, 0, 0);
    lemma_cell_of_slot(forward, w - 1, h - 1);
    assert((h - 1) * w + (w - 1) == w * h - 1) by (nonlinear_arith);
}

/// In forward placement the tile after the last one of a row starts the next
/// row: with more than one row, the tile at index `grid_width` fills the cell
/// `(0, 1)`.
pub proof fn lemma_forward_wraps_rows(grid_width: u32, grid_height: u32)
    requires
        grid_width > 0,
        grid_height > 1,
    ensures
        (GridConfig { grid_width, grid_height, placement: Placement::Forward }).cell(
            grid_width as int,
        ) == (0int, 1int),
        grid_width < grid_width * grid_height,
{
    let forward = GridConfig { grid_width, grid_height, placement: Placement::Forward };
    lemma_cell_of_slot(forward, 0, 1);
    assert(1 * (grid_width as int) + 0 == grid_width);
}

/// Reversed placement is forward placement counted from the last cell.
pub proof fn lemma_reversed_mirrors_forward(grid_width: u32, grid_height: u32, index: int)
    requires
        0 <= index < grid_width * grid_height,
    ensures
        (GridConfig { grid_width, grid_height, placement: Placement::Reversed }).cell(index) == (
        GridConfig { grid_width, grid_height, placement: Placement::Forward }).cell(
            grid_width * grid_height - 1 - index,
        ),
{
    let reversed = GridConfig { grid_width, grid_height, placement: Placement::Reversed };
    let forward = GridConfig { grid_width, grid_height, placement: Placement::Forward };
    let w = grid_width as int;
    let h = grid_height as int;
    lemma_cell_in_grid(reversed, index);
    let c = index % w;
    let r = index / w;
    vstd::arithmetic::div_mod::lemma_fundamental_div_mod(index, w);
    assert(w * h - 1 - index == (h - 1 - r) * w + (w - 1 - c)) by (nonlinear_arith)
        requires
            index == w * r + c,
    ;
    lemma_div_mod_unique(w * h - 1 - index, w, h - 1 - r, w - 1 - c);
}

} // verus!
