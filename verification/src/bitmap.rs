//! Pixels and bitmaps as mathematical values: what the contracts of this
//! crate say about an image.
//!
//! A [`Bitmap`] is a width, a height and a sequence of samples. The samples
//! run row by row from the top, each row from the left, four samples (red,
//! green, blue, alpha) per pixel.

use vstd::prelude::*;
use crate::arith::lemma_div_mod_unique;
use crate::arith::lemma_quotient_in_range;

verus! {

/// One pixel: red, green, blue and alpha, eight bits each.
#[derive(Clone, Copy, Debug, PartialEq, Eq, Structural)]
pub struct Rgba8 {
    pub red: u8,
    pub green: u8,
    pub blue: u8,
    pub alpha: u8,
}

impl Rgba8 {
    /// The sample of channel `c`: 0 is red, 1 green, 2 blue, 3 alpha.
    pub open spec fn channel(self, c: int) -> u8 {
        if c == 0 {
            self.red
        } else if c == 1 {
            self.green
        } else if c == 2 {
            self.blue
        } else {
            self.alpha
        }
    }
}

/// The pixel of a fresh canvas: all four samples zero.
pub open spec fn transparent() -> Rgba8 {
    Rgba8 { red: 0, green: 0, blue: 0, alpha: 0 }
}

/// Where the four samples of pixel `(x, y)` start in a buffer of `width`
/// pixels per row.
pub open spec fn sample_offset(width: int, x: int, y: int) -> int {
    4 * (y * width + x)
}

/// The pixel `(x, y)` read from the samples of an image `width` pixels wide.
pub open spec fn pixel_of(samples: Seq<u8>, width: int, x: int, y: int) -> Rgba8 {
    let at = sample_offset(width, x, y);
    Rgba8 {
        red: samples[at],
        green: samples[at + 1],
        blue: samples[at + 2],
        alpha: samples[at + 3],
    }
}

/// The samples of an image `width` pixels wide, with the pixel `(x, y)`
/// replaced by `p`.
pub open spec fn with_pixel(samples: Seq<u8>, width: int, x: int, y: int, p: Rgba8) -> Seq<u8> {
    let at = sample_offset(width, x, y);
    samples.update(at, p.red).update(at + 1, p.green).update(at + 2, p.blue).update(
        at + 3,
        p.alpha,
    )
}

/// An image as a mathematical value.
pub struct Bitmap {
    pub width: int,
    pub height: int,
    pub samples: Seq<u8>,
}

impl Bitmap {
    /// Whether `(x, y)` is a pixel of the image.
    pub open spec fn contains(self, x: int, y: int) -> bool {
        0 <= x < self.width && 0 <= y < self.height
    }

    /// Whether the image holds the samples of its `width * height` pixels and
    /// no others.
    pub open spec fn packed(self) -> bool {
        0 <= self.width && 0 <= self.height && self.samples.len() == 4 * self.width * self.height
    }

    /// The pixel in column `x` of row `y`.
    pub open spec fn pixel(self, x: int, y: int) -> Rgba8 {
        pixel_of(self.samples, self.width, x, y)
    }

    /// The image whose pixel `(x, y)` is `paint(x, y)`.
    pub open spec fn from_pixels(width: int, height: int, paint: spec_fn(int, int) -> Rgba8)
        -> Bitmap {
        Bitmap {
            width,
            height,
            samples: Seq::new(
                (4 * width * height) as nat,
                |i: int| paint((i / 4) % width, (i / 4) / width).channel(i % 4),
            ),
        }
    }

    /// The image of the given size with every sample zero.
    pub open spec fn blank(width: int, height: int) -> Bitmap {
        Bitmap { width, height, samples: Seq::new((4 * width * height) as nat, |i: int| 0u8) }
    }

    /// The image with the pixel `(x, y)` replaced by `p`.
    pub open spec fn put(self, x: int, y: int, p: Rgba8) -> Bitmap {
        Bitmap {
            width: self.width,
            height: self.height,
            samples: with_pixel(self.samples, self.width, x, y, p),
        }
    }

    /// Whether this image, copied onto a canvas with its top-left pixel at
    /// `origin`, covers the canvas pixel `(x, y)`.
    pub open spec fn covers(self, origin: (int, int), x: int, y: int) -> bool {
        origin.0 <= x < origin.0 + self.width && origin.1 <= y < origin.1 + self.height
    }

    /// The image with `tile` copied onto it, the tile's top-left pixel at
    /// `origin`: the tile's pixels under the tile, this image's pixels
    /// everywhere else.
    pub open spec fn overlay(self, tile: Bitmap, origin: (int, int)) -> Bitmap {
        Bitmap::from_pixels(
            self.width,
            self.height,
            |x: int, y: int|
                if tile.covers(origin, x, y) {
                    tile.pixel(x - origin.0, y - origin.1)
                } else {
                    self.pixel(x, y)
                },
        )
    }
}

/// The samples of a pixel inside a `width` by `height` image lie inside the
/// first `4 * width * height` samples.
pub proof fn lemma_sample_offset_bounds(width: int, height: int, x: int, y: int)
    by (nonlinear_arith)
    requires
        0 <= x < width,
        0 <= y < height,
    ensures
        0 <= sample_offset(width, x, y),
        sample_offset(width, x, y) + 4 <= 4 * width * height,
{
    assert(y * width <= (height - 1) * width);
}

/// Two pixels that start at the same sample are the same pixel.
pub proof fn lemma_sample_offset_injective(width: int, x: int, y: int, u: int, v: int)
    by (nonlinear_arith)
    requires
        0 <= x < width,
        0 <= u < width,
        0 <= y,
        0 <= v,
        sample_offset(width, x, y) == sample_offset(width, u, v),
    ensures
        x == u,
        y == v,
{
    if y < v {
        assert((y + 1) * width <= v * width);
    } else if v < y {
        assert((v + 1) * width <= y * width);
    }
}

/// Every sample of a packed image belongs to one pixel of the image: sample
/// `i` is channel `i % 4` of the pixel `((i / 4) % width, (i / 4) / width)`.
pub proof fn lemma_sample_of_pixel(width: int, height: int, i: int)
    requires
        0 <= width,
        0 <= height,
        0 <= i < 4 * width * height,
    ensures
        0 <= (i / 4) % width < width,
        0 <= (i / 4) / width < height,
        sample_offset(width, (i / 4) % width, (i / 4) / width) + i % 4 == i,
{
    let q = i / 4;
    assert(0 <= q < width * height) by (nonlinear_arith)
        requires
            0 <= i < 4 * width * height,
            q == i / 4,
    ;
    lemma_quotient_in_range(q, width, height);
}

/// Replacing one pixel of an image changes that pixel and no other.
pub proof fn lemma_put(b: Bitmap, x: int, y: int, p: Rgba8)
    requires
        b.contains(x, y),
        b.packed(),
    ensures
        b.put(x, y, p).packed(),
        b.put(x, y, p).pixel(x, y) == p,
        forall|u: int, v: int|
            b.contains(u, v) && (u != x || v != y) ==> #[trigger] b.put(x, y, p).pixel(u, v)
                == b.pixel(u, v),
{
    lemma_sample_offset_bounds(b.width, b.height, x, y);
    assert forall|u: int, v: int| b.contains(u, v) && (u != x || v != y) implies #[trigger] b.put(
        x,
        y,
        p,
    ).pixel(u, v) == b.pixel(u, v) by {
        lemma_sample_offset_bounds(b.width, b.height, u, v);
        if sample_offset(b.width, u, v) == sample_offset(b.width, x, y) {
            lemma_sample_offset_injective(b.width, x, y, u, v);
        }
    }
}

/// An image made from a painting function is packed and shows, at each of
/// its pixels, what the function paints there.
pub proof fn lemma_from_pixels(width: int, height: int, paint: spec_fn(int, int) -> Rgba8)
    requires
        0 <= width,
        0 <= height,
    ensures
        Bitmap::from_pixels(width, height, paint).packed(),
        forall|x: int, y: int|
            0 <= x < width && 0 <= y < height ==> #[trigger] Bitmap::from_pixels(
                width,
                height,
                paint,
            ).pixel(x, y) == paint(x, y),
{
    let made = Bitmap::from_pixels(width, height, paint);
    assert(0 <= 4 * width * height) by (nonlinear_arith)
        requires
            0 <= width,
            0 <= height,
    ;
    assert forall|x: int, y: int| 0 <= x < width && 0 <= y < height implies #[trigger] made.pixel(
        x,
        y,
    ) == paint(x, y) by {
        lemma_sample_offset_bounds(width, height, x, y);
        lemma_div_mod_unique(y * width + x, width, y, x);
        let at = sample_offset(width, x, y);
        assert(at / 4 == y * width + x && (at + 1) / 4 == y * width + x && (at + 2) / 4 == y
            * width + x && (at + 3) / 4 == y * width + x);
        assert(at % 4 == 0 && (at + 1) % 4 == 1 && (at + 2) % 4 == 2 && (at + 3) % 4 == 3);
    }
}

/// Two packed images of the same size that show the same pixels are the
/// same image.
pub proof fn lemma_equal_by_pixels(a: Bitmap, b: Bitmap)
    requires
        a.packed(),
        b.packed(),
        a.width == b.width,
        a.height == b.height,
        forall|x: int, y: int| a.contains(x, y) ==> #[trigger] a.pixel(x, y) == b.pixel(x, y),
    ensures
        a == b,
{
    assert forall|i: int| 0 <= i < a.samples.len() implies a.samples[i] == b.samples[i] by {
        lemma_sample_of_pixel(a.width, a.height, i);
        let x = (i / 4) % a.width;
        let y = (i / 4) / a.width;
        assert(a.contains(x, y));
        assert(a.pixel(x, y) == b.pixel(x, y));
    }
    assert(a.samples =~= b.samples);
}

/// A blank image is packed and transparent everywhere.
pub proof fn lemma_blank(width: int, height: int)
    requires
        0 <= width,
        0 <= height,
    ensures
        Bitmap::blank(width, height).packed(),
        forall|x: int, y: int|
            0 <= x < width && 0 <= y < height ==> #[trigger] Bitmap::blank(width, height).pixel(
                x,
                y,
            ) == transparent(),
        Bitmap::blank(width, height) == Bitmap::from_pixels(
            width,
            height,
            |x: int, y: int| transparent(),
        ),
{
    let blank = Bitmap::blank(width, height);
    assert(0 <= 4 * width * height) by (nonlinear_arith)
        requires
            0 <= width,
            0 <= height,
    ;
    assert forall|x: int, y: int| 0 <= x < width && 0 <= y < height implies #[trigger] blank.pixel(
        x,
        y,
    ) == transparent() by {
        lemma_sample_offset_bounds(width, height, x, y);
    }
    let painted = Bitmap::from_pixels(width, height, |x: int, y: int| transparent());
    assert(blank.samples =~= painted.samples);
}

/// An image with a tile copied onto it keeps its size, shows the tile's
/// pixels under the tile and its own pixels everywhere else.
pub proof fn lemma_overlay(base: Bitmap, tile: Bitmap, origin: (int, int))
    requires
        0 <= base.width,
        0 <= base.height,
    ensures
        base.overlay(tile, origin).packed(),
        base.overlay(tile, origin).width == base.width,
        base.overlay(tile, origin).height == base.height,
        forall|x: int, y: int|
            base.contains(x, y) ==> #[trigger] base.overlay(tile, origin).pixel(x, y) == if
                tile.covers(origin, x, y) {
                tile.pixel(x - origin.0, y - origin.1)
            } else {
                base.pixel(x, y)
            },
{
    lemma_from_pixels(
        base.width,
        base.height,
        |x: int, y: int|
            if tile.covers(origin, x, y) {
                tile.pixel(x - origin.0, y - origin.1)
            } else {
                base.pixel(x, y)
            },
    );
}

} // verus!
