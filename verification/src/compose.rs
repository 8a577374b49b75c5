//! The compositor: copies the tiles of one batch into the cells of a canvas.

use vstd::prelude::*;
use crate::bitmap::Bitmap;
use crate::bitmap::lemma_equal_by_pixels;
use crate::bitmap::lemma_overlay;
use crate::layout::GridConfig;
use crate::layout::lemma_tile_pixel_on_canvas;
use crate::raster::Raster;
use crate::raster::bitmaps;
use crate::sheet::all_tiles_fit;
use crate::sheet::canvas_fits;
use crate::sheet::composed;
use crate::sheet::first_misfit;
use crate::sheet::lemma_sheet_of_none;
use crate::sheet::lemma_sheet_step;
use crate::sheet::sheet;
use crate::sheet::tile_fits;
use crate::sheet::used_tiles;

verus! {

/// Why a batch could not be composed.
#[derive(Clone, Copy, Debug, PartialEq, Eq, Structural)]
pub enum ComposeError {
    /// The canvas for this grid and tile size is wider or higher than
    /// `u32::MAX` pixels, or holds more samples than a vector can.
    CanvasTooLarge,
    /// The tile at `index` of the batch does not have the tile size. It is
    /// the first such tile.
    TileSizeMismatch { index: usize },
}

/// Whether the pixel `(x, y)` of the canvas has been overwritten when the
/// first `rows` rows of the tile and the first `cols` pixels of the next row
/// have been copied.
spec fn copied(tile: Bitmap, origin: (int, int), rows: int, cols: int, x: int, y: int) -> bool {
    let u = x - origin.0;
    let v = y - origin.1;
    0 <= u < tile.width && (0 <= v < rows || (v == rows && u < cols))
}

/// Whether `canvas` is `before` with the first `rows` rows of `tile` and the
/// first `cols` pixels of its next row copied to `origin`.
spec fn partly_placed(
    canvas: Bitmap,
    before: Bitmap,
    tile: Bitmap,
    origin: (int, int),
    rows: int,
    cols: int,
) -> bool {
    &&& canvas.width == before.width
    &&& canvas.height == before.height
    &&& canvas.packed()
    &&& forall|x: int, y: int|
        canvas.contains(x, y) ==> #[trigger] canvas.pixel(x, y) == if copied(
            tile,
            origin,
            rows,
            cols,
            x,
            y,
        ) {
            tile.pixel(x - origin.0, y - origin.1)
        } else {
            before.pixel(x, y)
        }
}

/// How many tiles of a batch of `batch_len` reach the canvas: all of them, up
/// to the number of cells.
pub fn tiles_used(batch_len: usize, config: &GridConfig) -> (used: usize)
    ensures
        used == used_tiles(batch_len as int, *config),
{
    let cells = config.cell_count();
    if batch_len as u64 <= cells {
        batch_len
    } else {
        cells as usize
    }
}

/// A canvas for tiles of the given size with every pixel transparent, or
/// `None` when no such canvas can be made.
pub fn create_image_buffer(tile_width: u32, tile_height: u32, config: &GridConfig) -> (made:
    Option<Raster>)
    ensures
        made is Some <==> canvas_fits(tile_width as int, tile_height as int, *config),
        made matches Some(canvas) ==> canvas@ == Bitmap::blank(
            config.canvas_width(tile_width as int),
            config.canvas_height(tile_height as int),
        ) && canvas@.packed(),
{
    match config.canvas_size(tile_width, tile_height) {
        None => None,
        Some((width, height)) => Raster::new(width, height),
    }
}

/// Copies every pixel of `tile` into the cell of `canvas` that the batch
/// index `index` fills, and leaves the rest of the canvas as it was.
pub fn place_tile(canvas: &mut Raster, tile: &Raster, index: usize, config: &GridConfig)
    requires
        index < config.capacity(),
        old(canvas)@.packed(),
        old(canvas)@.width == config.canvas_width(tile@.width),
        old(canvas)@.height == config.canvas_height(tile@.height),
    ensures
        final(canvas)@ == old(canvas)@.overlay(
            tile@,
            config.origin(index as int, tile@.width, tile@.height),
        ),
        final(canvas)@.packed(),
{
    let (tile_width, tile_height) = tile.dimensions();
    let ghost before = canvas@;
    let ghost origin = config.origin(index as int, tile_width as int, tile_height as int);
    if tile_width != 0 && tile_height != 0 {
        proof {
            lemma_tile_pixel_on_canvas(
                *config,
                index as int,
                tile_width as int,
                tile_height as int,
                0,
                0,
            );
        }
        let start = config.tile_origin(index, tile_width, tile_height);
        let (x0, y0) = start.unwrap();
        let mut py: u32 = 0;
        while py < tile_height
            invariant
                0 <= py <= tile_height,
                tile@.width == tile_width,
                tile@.height == tile_height,
                origin == (x0 as int, y0 as int),
                x0 + tile_width <= before.width,
                y0 + tile_height <= before.height,
                partly_placed(canvas@, before, tile@, origin, py as int, 0),
            decreases tile_height - py,
        {
            let mut px: u32 = 0;
            while px < tile_width
                invariant
                    0 <= px <= tile_width,
                    0 <= py < tile_height,
                    tile@.width == tile_width,
                    tile@.height == tile_height,
                    origin == (x0 as int, y0 as int),
                    x0 + tile_width <= before.width,
                    y0 + tile_height <= before.height,
                    partly_placed(canvas@, before, tile@, origin, py as int, px as int),
                decreases tile_width - px,
            {
                let p = tile.get_pixel(px, py).unwrap();
                canvas.put_pixel(x0 + px, y0 + py, p);
                px = px + 1;
            }
            py = py + 1;
        }
    }
    proof {
        lemma_overlay(before, tile@, origin);
        lemma_equal_by_pixels(canvas@, before.overlay(tile@, origin));
    }
}

/// Composes one sheet: the first tiles of `batch`, as many as the grid has
/// cells, each copied into its cell of a transparent canvas. Every one of
/// them must have the given tile size; the tiles beyond them are not looked
/// at.
pub fn compose(batch: &[Raster], tile_width: u32, tile_height: u32, config: &GridConfig) -> (made:
    Result<Raster, ComposeError>)
    ensures
        match made {
            Ok(canvas) => {
                &&& canvas_fits(tile_width as int, tile_height as int, *config)
                &&& all_tiles_fit(bitmaps(batch@), tile_width as int, tile_height as int, *config)
                &&& canvas@ == composed(
                    bitmaps(batch@),
                    tile_width as int,
                    tile_height as int,
                    *config,
                )
            },
            Err(ComposeError::CanvasTooLarge) => !canvas_fits(
                tile_width as int,
                tile_height as int,
                *config,
            ),
            Err(ComposeError::TileSizeMismatch { index }) => {
                &&& canvas_fits(tile_width as int, tile_height as int, *config)
                &&& first_misfit(
                    bitmaps(batch@),
                    tile_width as int,
                    tile_height as int,
                    *config,
                    index as int,
                )
            },
        },
{
    let ghost tiles = bitmaps(batch@);
    let mut canvas = match create_image_buffer(tile_width, tile_height, config) {
        None => {
            return Err(ComposeError::CanvasTooLarge);
        },
        Some(canvas) => canvas,
    };
    let used = tiles_used(batch.len(), config);
    let mut checked: usize = 0;
    while checked < used
        invariant
            0 <= checked <= used <= batch@.len(),
            tiles == bitmaps(batch@),
            used == used_tiles(tiles.len() as int, *config),
            canvas_fits(tile_width as int, tile_height as int, *config),
            forall|i: int|
                0 <= i < checked ==> tile_fits(
                    #[trigger] tiles[i],
                    tile_width as int,
                    tile_height as int,
                ),
        decreases used - checked,
    {
        let (width, height) = batch[checked].dimensions();
        if width != tile_width || height != tile_height {
            return Err(ComposeError::TileSizeMismatch { index: checked });
        }
        checked = checked + 1;
    }
    proof {
        lemma_sheet_of_none(tiles, tile_width as int, tile_height as int, *config);
    }
    let mut placed: usize = 0;
    while placed < used
        invariant
            0 <= placed <= used <= batch@.len(),
            tiles == bitmaps(batch@),
            used == used_tiles(tiles.len() as int, *config),
            canvas_fits(tile_width as int, tile_height as int, *config),
            all_tiles_fit(tiles, tile_width as int, tile_height as int, *config),
            canvas@.packed(),
            canvas@ == sheet(tiles, placed as int, tile_width as int, tile_height as int, *config),
        decreases used - placed,
    {
        assert(tile_fits(tiles[placed as int], tile_width as int, tile_height as int));
        proof {
            lemma_sheet_step(tiles, placed as int, tile_width as int, tile_height as int, *config);
        }
        place_tile(&mut canvas, &batch[placed], placed, config);
        placed = placed + 1;
    }
    Ok(canvas)
}

} // verus!
