//! What a composed sheet is, and what follows from that: every pixel of every
//! tile appears unchanged in the tile's cell, cells without a tile stay
//! transparent, tiles beyond the grid's capacity change nothing, tiles never
//! overlap, and the order in which they are copied does not matter.

use vstd::prelude::*;
use crate::bitmap::Bitmap;
use crate::bitmap::Rgba8;
use crate::bitmap::lemma_blank;
use crate::bitmap::lemma_equal_by_pixels;
use crate::bitmap::lemma_from_pixels;
use crate::bitmap::lemma_overlay;
use crate::bitmap::transparent;
use crate::layout::GridConfig;
use crate::layout::lemma_canvas_pixel_in_cell;
use crate::layout::lemma_canvas_size;
use crate::layout::lemma_cell_in_grid;
use crate::layout::lemma_cell_of_slot;
use crate::layout::lemma_slot_of_cell;
use crate::layout::lemma_tile_pixel_on_canvas;

verus! {

/// Whether a canvas for tiles of the given size can be made: it is at most
/// `u32::MAX` pixels wide and high, the samples of one row can be counted in
/// a `usize`, and the samples of all rows are at most `isize::MAX`, the most a
/// vector holds.
pub open spec fn canvas_fits(tile_width: int, tile_height: int, config: GridConfig) -> bool {
    &&& config.canvas_width(tile_width) <= u32::MAX
    &&& config.canvas_height(tile_height) <= u32::MAX
    &&& 4 * config.canvas_width(tile_width) <= usize::MAX
    &&& 4 * config.canvas_width(tile_width) * config.canvas_height(tile_height) <= isize::MAX
}

/// How many tiles of a batch of `batch_len` reach the canvas: all of them, up
/// to the number of cells.
pub open spec fn used_tiles(batch_len: int, config: GridConfig) -> int {
    if batch_len <= config.capacity() {
        batch_len
    } else {
        config.capacity() as int
    }
}

/// Whether a tile has the given size.
pub open spec fn tile_fits(tile: Bitmap, tile_width: int, tile_height: int) -> bool {
    tile.width == tile_width && tile.height == tile_height
}

/// Whether every tile of the batch that reaches the canvas has the given
/// size.
pub open spec fn all_tiles_fit(
    batch: Seq<Bitmap>,
    tile_width: int,
    tile_height: int,
    config: GridConfig,
) -> bool {
    forall|i: int|
        0 <= i < used_tiles(batch.len() as int, config) ==> tile_fits(
            #[trigger] batch[i],
            tile_width,
            tile_height,
        )
}

/// Whether the tile at `index` is the first tile of the batch that reaches
/// the canvas and does not have the given size.
pub open spec fn first_misfit(
    batch: Seq<Bitmap>,
    tile_width: int,
    tile_height: int,
    config: GridConfig,
    index: int,
) -> bool {
    &&& 0 <= index < used_tiles(batch.len() as int, config)
    &&& !tile_fits(batch[index], tile_width, tile_height)
    &&& forall|i: int| 0 <= i < index ==> tile_fits(#[trigger] batch[i], tile_width, tile_height)
}

/// The pixel `(x, y)` of a sheet that holds the first `count` tiles of
/// `tiles`: the pixel of the tile whose cell `(x, y)` lies in, at the
/// position inside that cell, or the transparent pixel where the cell belongs
/// to none of them.
pub open spec fn sheet_pixel(
    tiles: Seq<Bitmap>,
    count: int,
    tile_width: int,
    tile_height: int,
    config: GridConfig,
    x: int,
    y: int,
) -> Rgba8 {
    let slot = config.slot(x / tile_width, y / tile_height);
    if 0 <= slot < count {
        tiles[slot].pixel(x % tile_width, y % tile_height)
    } else {
        transparent()
    }
}

/// The sheet that holds the first `count` tiles of `tiles`.
pub open spec fn sheet(
    tiles: Seq<Bitmap>,
    count: int,
    tile_width: int,
    tile_height: int,
    config: GridConfig,
) -> Bitmap {
    Bitmap::from_pixels(
        config.canvas_width(tile_width),
        config.canvas_height(tile_height),
        |x: int, y: int| sheet_pixel(tiles, count, tile_width, tile_height, config, x, y),
    )
}

/// The sheet composed from a batch: the canvas of the grid with each tile
/// that reaches it in its cell.
pub open spec fn composed(
    batch: Seq<Bitmap>,
    tile_width: int,
    tile_height: int,
    config: GridConfig,
) -> Bitmap {
    sheet(batch, used_tiles(batch.len() as int, config), tile_width, tile_height, config)
}

/// The canvas after the tiles named by the first `n` entries of `order` have
/// been copied onto a blank canvas, one after the other, each into its cell.
pub open spec fn placed_in_order(
    tiles: Seq<Bitmap>,
    order: Seq<int>,
    n: nat,
    tile_width: int,
    tile_height: int,
    config: GridConfig,
) -> Bitmap
    decreases n,
{
    if n == 0 {
        Bitmap::blank(config.canvas_width(tile_width), config.canvas_height(tile_height))
    } else {
        placed_in_order(tiles, order, (n - 1) as nat, tile_width, tile_height, config).overlay(
            tiles[order[n - 1]],
            config.origin(order[n - 1], tile_width, tile_height),
        )
    }
}

/// Whether `order` names tiles that reach the canvas, and every one of them
/// at least once.
pub open spec fn names_every_used_tile(order: Seq<int>, used: int) -> bool {
    &&& forall|m: int| 0 <= m < order.len() ==> 0 <= #[trigger] order[m] < used
    &&& forall|i: int| 0 <= i < used ==> #[trigger] order.contains(i)
}

/// A tile of the tile size covers exactly the canvas pixels of its own cell,
/// each with the pixel at the same place inside the tile.
pub proof fn lemma_covers_own_cell(
    tile: Bitmap,
    index: int,
    tile_width: int,
    tile_height: int,
    config: GridConfig,
    x: int,
    y: int,
)
    requires
        0 <= index < config.capacity(),
        tile_fits(tile, tile_width, tile_height),
        0 <= x < config.canvas_width(tile_width),
        0 <= y < config.canvas_height(tile_height),
    ensures
        tile.covers(config.origin(index, tile_width, tile_height), x, y) <==> config.slot(
            x / tile_width,
            y / tile_height,
        ) == index,
        tile.covers(config.origin(index, tile_width, tile_height), x, y) ==> x - config.origin(
            index,
            tile_width,
            tile_height,
        ).0 == x % tile_width && y - config.origin(index, tile_width, tile_height).1 == y
            % tile_height,
{
    lemma_canvas_pixel_in_cell(config, tile_width, tile_height, x, y);
    let col = x / tile_width;
    let row = y / tile_height;
    let (x0, y0) = config.origin(index, tile_width, tile_height);
    lemma_cell_of_slot(config, col, row);
    lemma_slot_of_cell(config, index);
    if tile.covers((x0, y0), x, y) {
        lemma_tile_pixel_on_canvas(config, index, tile_width, tile_height, x - x0, y - y0);
    } else if config.slot(col, row) == index {
        lemma_tile_pixel_on_canvas(
            config,
            index,
            tile_width,
            tile_height,
            x % tile_width,
            y % tile_height,
        );
    }
}

/// Two different tiles of a batch never cover the same pixel of the canvas.
pub proof fn lemma_tiles_do_not_overlap(
    first: Bitmap,
    second: Bitmap,
    i: int,
    j: int,
    tile_width: int,
    tile_height: int,
    config: GridConfig,
    x: int,
    y: int,
)
    requires
        0 <= i < config.capacity(),
        0 <= j < config.capacity(),
        i != j,
        tile_fits(first, tile_width, tile_height),
        tile_fits(second, tile_width, tile_height),
        0 <= x < config.canvas_width(tile_width),
        0 <= y < config.canvas_height(tile_height),
    ensures
        !(first.covers(config.origin(i, tile_width, tile_height), x, y) && second.covers(
            config.origin(j, tile_width, tile_height),
            x,
            y,
        )),
{
    lemma_covers_own_cell(first, i, tile_width, tile_height, config, x, y);
    lemma_covers_own_cell(second, j, tile_width, tile_height, config, x, y);
}

/// A sheet has the size of the canvas, is packed, and shows at each of its
/// pixels the pixel of the tile whose cell the pixel lies in.
pub proof fn lemma_sheet(
    tiles: Seq<Bitmap>,
    count: int,
    tile_width: int,
    tile_height: int,
    config: GridConfig,
)
    requires
        0 <= tile_width,
        0 <= tile_height,
    ensures
        sheet(tiles, count, tile_width, tile_height, config).width == config.canvas_width(
            tile_width,
        ),
        sheet(tiles, count, tile_width, tile_height, config).height == config.canvas_height(
            tile_height,
        ),
        sheet(tiles, count, tile_width, tile_height, config).packed(),
        forall|x: int, y: int|
            0 <= x < config.canvas_width(tile_width) && 0 <= y < config.canvas_height(tile_height)
                ==> #[trigger] sheet(tiles, count, tile_width, tile_height, config).pixel(x, y)
                == sheet_pixel(tiles, count, tile_width, tile_height, config, x, y),
{
    lemma_canvas_size(config, tile_width, tile_height);
    lemma_from_pixels(
        config.canvas_width(tile_width),
        config.canvas_height(tile_height),
        |x: int, y: int| sheet_pixel(tiles, count, tile_width, tile_height, config, x, y),
    );
}

/// A sheet without tiles is the blank canvas.
pub proof fn lemma_sheet_of_none(
    tiles: Seq<Bitmap>,
    tile_width: int,
    tile_height: int,
    config: GridConfig,
)
    requires
        0 <= tile_width,
        0 <= tile_height,
    ensures
        sheet(tiles, 0, tile_width, tile_height, config) == Bitmap::blank(
            config.canvas_width(tile_width),
            config.canvas_height(tile_height),
        ),
{
    lemma_canvas_size(config, tile_width, tile_height);
    lemma_sheet(tiles, 0, tile_width, tile_height, config);
    lemma_blank(config.canvas_width(tile_width), config.canvas_height(tile_height));
    lemma_equal_by_pixels(
        sheet(tiles, 0, tile_width, tile_height, config),
        Bitmap::blank(config.canvas_width(tile_width), config.canvas_height(tile_height)),
    );
}

/// Copying the tile at `placed` onto the sheet of the first `placed` tiles
/// gives the sheet of the first `placed + 1` tiles.
pub proof fn lemma_sheet_step(
    tiles: Seq<Bitmap>,
    placed: int,
    tile_width: int,
    tile_height: int,
    config: GridConfig,
)
    requires
        0 <= placed < tiles.len(),
        placed < config.capacity(),
        tile_fits(tiles[placed], tile_width, tile_height),
        0 <= tile_width,
        0 <= tile_height,
    ensures
        sheet(tiles, placed, tile_width, tile_height, config).overlay(
            tiles[placed],
            config.origin(placed, tile_width, tile_height),
        ) == sheet(tiles, placed + 1, tile_width, tile_height, config),
{
    let before = sheet(tiles, placed, tile_width, tile_height, config);
    let origin = config.origin(placed, tile_width, tile_height);
    let after = before.overlay(tiles[placed], origin);
    let next = sheet(tiles, placed + 1, tile_width, tile_height, config);
    lemma_sheet(tiles, placed, tile_width, tile_height, config);
    lemma_sheet(tiles, placed + 1, tile_width, tile_height, config);
    lemma_overlay(before, tiles[placed], origin);
    assert forall|x: int, y: int| after.contains(x, y) implies #[trigger] after.pixel(x, y)
        == next.pixel(x, y) by {
        assert(before.contains(x, y));
        lemma_covers_own_cell(
            tiles[placed],
            placed,
            tile_width,
            tile_height,
            config,
            x,
            y,
        );
    }
    lemma_equal_by_pixels(after, next);
}

/// The composed sheet has the size of the canvas and is packed.
pub proof fn lemma_composed_size(
    batch: Seq<Bitmap>,
    tile_width: int,
    tile_height: int,
    config: GridConfig,
)
    requires
        0 <= tile_width,
        0 <= tile_height,
    ensures
        composed(batch, tile_width, tile_height, config).width == config.canvas_width(tile_width),
        composed(batch, tile_width, tile_height, config).height == config.canvas_height(
            tile_height,
        ),
        composed(batch, tile_width, tile_height, config).packed(),
{
    lemma_sheet(
        batch,
        used_tiles(batch.len() as int, config),
        tile_width,
        tile_height,
        config,
    );
}

/// Every pixel of every tile that reaches the canvas appears unchanged in the
/// composed sheet, in the tile's cell and at the pixel's place inside the
/// tile: pixel `(px, py)` of the tile in cell `(col, row)` is the sheet's
/// pixel `(col * tile_width + px, row * tile_height + py)`.
pub proof fn lemma_tile_pixels_appear(
    batch: Seq<Bitmap>,
    tile_width: int,
    tile_height: int,
    config: GridConfig,
    index: int,
    px: int,
    py: int,
)
    requires
        0 <= index < used_tiles(batch.len() as int, config),
        0 <= px < tile_width,
        0 <= py < tile_height,
    ensures
        ({
            let (col, row) = config.cell(index);
            let x = col * tile_width + px;
            let y = row * tile_height + py;
            &&& config.has_cell(col, row)
            &&& composed(batch, tile_width, tile_height, config).contains(x, y)
            &&& composed(batch, tile_width, tile_height, config).pixel(x, y)
                == batch[index].pixel(px, py)
        }),
{
    lemma_cell_in_grid(config, index);
    lemma_tile_pixel_on_canvas(config, index, tile_width, tile_height, px, py);
    lemma_slot_of_cell(config, index);
    lemma_sheet(
        batch,
        used_tiles(batch.len() as int, config),
        tile_width,
        tile_height,
        config,
    );
}

/// The cells that no tile of the batch fills stay transparent.
pub proof fn lemma_unused_cells_stay_transparent(
    batch: Seq<Bitmap>,
    tile_width: int,
    tile_height: int,
    config: GridConfig,
    x: int,
    y: int,
)
    requires
        0 <= tile_width,
        0 <= tile_height,
        0 <= x < config.canvas_width(tile_width),
        0 <= y < config.canvas_height(tile_height),
        config.slot(x / tile_width, y / tile_height) >= batch.len(),
    ensures
        composed(batch, tile_width, tile_height, config).pixel(x, y) == transparent(),
{
    lemma_sheet(
        batch,
        used_tiles(batch.len() as int, config),
        tile_width,
        tile_height,
        config,
    );
}

/// Tiles beyond the grid's capacity are ignored: a batch with more tiles than
/// the grid has cells composes to the same sheet as its first
/// `config.capacity()` tiles alone.
pub proof fn lemma_surplus_tiles_ignored(
    batch: Seq<Bitmap>,
    tile_width: int,
    tile_height: int,
    config: GridConfig,
)
    requires
        batch.len() >= config.capacity(),
    ensures
        used_tiles(batch.len() as int, config) == config.capacity(),
        composed(batch, tile_width, tile_height, config) == composed(
            batch.take(config.capacity() as int),
            tile_width,
            tile_height,
            config,
        ),
{
    let kept = batch.take(config.capacity() as int);
    assert(composed(batch, tile_width, tile_height, config).samples =~= composed(
        kept,
        tile_width,
        tile_height,
        config,
    ).samples);
}

/// The composed sheet depends on nothing but the pixels of the tiles that
/// reach the canvas: two batches that use equally many tiles, with equal
/// pixels in each, compose to the same sheet, sample for sample.
pub proof fn lemma_equal_tiles_equal_sheets(
    first: Seq<Bitmap>,
    second: Seq<Bitmap>,
    tile_width: int,
    tile_height: int,
    config: GridConfig,
)
    requires
        0 <= tile_width,
        0 <= tile_height,
        used_tiles(first.len() as int, config) == used_tiles(second.len() as int, config),
        forall|i: int, px: int, py: int|
            0 <= i < used_tiles(first.len() as int, config) && 0 <= px < tile_width && 0 <= py
                < tile_height ==> #[trigger] first[i].pixel(px, py) == second[i].pixel(px, py),
    ensures
        composed(first, tile_width, tile_height, config) == composed(
            second,
            tile_width,
            tile_height,
            config,
        ),
{
    let used = used_tiles(first.len() as int, config);
    let a = composed(first, tile_width, tile_height, config);
    let b = composed(second, tile_width, tile_height, config);
    lemma_sheet(first, used, tile_width, tile_height, config);
    lemma_sheet(second, used, tile_width, tile_height, config);
    assert forall|x: int, y: int| a.contains(x, y) implies #[trigger] a.pixel(x, y) == b.pixel(
        x,
        y,
    ) by {
        lemma_canvas_pixel_in_cell(config, tile_width, tile_height, x, y);
        let slot = config.slot(x / tile_width, y / tile_height);
        if 0 <= slot < used {
            assert(first[slot].pixel(x % tile_width, y % tile_height) == second[slot].pixel(
                x % tile_width,
                y % tile_height,
            ));
        }
    }
    lemma_equal_by_pixels(a, b);
}

/// The order in which the tiles are copied onto the canvas does not matter:
/// whatever order names every tile that reaches the canvas, copying them in
/// that order onto a blank canvas gives the composed sheet.
pub proof fn lemma_any_order_gives_the_sheet(
    batch: Seq<Bitmap>,
    order: Seq<int>,
    tile_width: int,
    tile_height: int,
    config: GridConfig,
)
    requires
        0 <= tile_width,
        0 <= tile_height,
        names_every_used_tile(order, used_tiles(batch.len() as int, config)),
        all_tiles_fit(batch, tile_width, tile_height, config),
    ensures
        placed_in_order(batch, order, order.len(), tile_width, tile_height, config) == composed(
            batch,
            tile_width,
            tile_height,
            config,
        ),
{
    let used = used_tiles(batch.len() as int, config);
    let a = placed_in_order(batch, order, order.len(), tile_width, tile_height, config);
    let b = composed(batch, tile_width, tile_height, config);
    lemma_placed_in_order(batch, order, order.len(), tile_width, tile_height, config);
    lemma_sheet(batch, used, tile_width, tile_height, config);
    assert forall|x: int, y: int| a.contains(x, y) implies #[trigger] a.pixel(x, y) == b.pixel(
        x,
        y,
    ) by {
        let slot = config.slot(x / tile_width, y / tile_height);
        if 0 <= slot < used {
            assert(order.contains(slot));
        }
    }
    lemma_equal_by_pixels(a, b);
}

/// After the first `n` tiles of `order` have been copied, a pixel shows the
/// tile of its cell if that tile is among them, and is transparent
/// otherwise.
proof fn lemma_placed_in_order(
    batch: Seq<Bitmap>,
    order: Seq<int>,
    n: nat,
    tile_width: int,
    tile_height: int,
    config: GridConfig,
)
    requires
        0 <= tile_width,
        0 <= tile_height,
        n <= order.len(),
        forall|m: int|
            0 <= m < order.len() ==> 0 <= #[trigger] order[m] < used_tiles(
                batch.len() as int,
                config,
            ),
        all_tiles_fit(batch, tile_width, tile_height, config),
    ensures
        placed_in_order(batch, order, n, tile_width, tile_height, config).width
            == config.canvas_width(tile_width),
        placed_in_order(batch, order, n, tile_width, tile_height, config).height
            == config.canvas_height(tile_height),
        placed_in_order(batch, order, n, tile_width, tile_height, config).packed(),
        forall|x: int, y: int|
            0 <= x < config.canvas_width(tile_width) && 0 <= y < config.canvas_height(tile_height)
                ==> #[trigger] placed_in_order(
                batch,
                order,
                n,
                tile_width,
                tile_height,
                config,
            ).pixel(x, y) == if exists|m: int|
                0 <= m < n && #[trigger] order[m] == config.slot(x / tile_width, y / tile_height) {
                batch[config.slot(x / tile_width, y / tile_height)].pixel(
                    x % tile_width,
                    y % tile_height,
                )
            } else {
                transparent()
            },
    decreases n,
{
    let width = config.canvas_width(tile_width);
    let height = config.canvas_height(tile_height);
    lemma_canvas_size(config, tile_width, tile_height);
    if n == 0 {
        lemma_blank(width, height);
    } else {
        let index = order[n - 1];
        let before = placed_in_order(
            batch,
            order,
            (n - 1) as nat,
            tile_width,
            tile_height,
            config,
        );
        let origin = config.origin(index, tile_width, tile_height);
        let after = placed_in_order(batch, order, n, tile_width, tile_height, config);
        assert(0 <= index < used_tiles(batch.len() as int, config));
        assert(tile_fits(batch[index], tile_width, tile_height));
        lemma_placed_in_order(batch, order, (n - 1) as nat, tile_width, tile_height, config);
        lemma_overlay(before, batch[index], origin);
        assert forall|x: int, y: int| 0 <= x < width && 0 <= y < height implies #[trigger]
            after.pixel(x, y) == if exists|m: int|
            0 <= m < n && #[trigger] order[m] == config.slot(x / tile_width, y / tile_height) {
            batch[config.slot(x / tile_width, y / tile_height)].pixel(
                x % tile_width,
                y % tile_height,
            )
        } else {
            transparent()
        } by {
            let slot = config.slot(x / tile_width, y / tile_height);
            assert(before.contains(x, y));
            lemma_covers_own_cell(
                batch[index],
                index,
                tile_width,
                tile_height,
                config,
                x,
                y,
            );
            if index == slot {
                assert(0 <= n - 1 < n && order[n - 1] == slot);
            } else {
                if exists|m: int| 0 <= m < n && #[trigger] order[m] == slot {
                    let m = choose|m: int| 0 <= m < n && #[trigger] order[m] == slot;
                    assert(0 <= m < n - 1 && order[m] == slot);
                }
            }
        }
    }
}

} // verus!
