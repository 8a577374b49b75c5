//! RGBA pixel buffers, kept in the `image` crate's `ImageBuffer`.
//!
//! Verus does not look inside a [`Raster`]. What it knows of one is stated
//! over two uninterpreted functions, [`raster_dimensions`] and
//! [`raster_samples`], by the contracts of the private functions at the end of
//! this file. Each of them makes one call into `image`, and its contract is
//! taken on trust. The public functions are proved from those contracts.

use vstd::prelude::*;
use crate::bitmap::Bitmap;
use crate::bitmap::Rgba8;
use crate::bitmap::lemma_blank;
use crate::bitmap::lemma_put;
use crate::bitmap::pixel_of;
use crate::bitmap::with_pixel;

verus! {

/// An image of RGBA pixels, eight bits per channel. Its mathematical value,
/// `self@`, is a [`Bitmap`].
///
/// The pixels are held by an `image::RgbaImage`, which Verus cannot read: the
/// struct is opaque to it.
#[verifier::external_body]
#[derive(Debug)]
pub struct Raster {
    buffer: image::RgbaImage,
}

/// Width and height of a raster, in pixels.
pub uninterp spec fn raster_dimensions(r: Raster) -> (u32, u32);

/// The samples that a raster holds: row by row from the top, each row from the
/// left, four samples (red, green, blue, alpha) per pixel.
pub uninterp spec fn raster_samples(r: Raster) -> Seq<u8>;

impl View for Raster {
    type V = Bitmap;

    open spec fn view(&self) -> Bitmap {
        Bitmap {
            width: raster_dimensions(*self).0 as int,
            height: raster_dimensions(*self).1 as int,
            samples: raster_samples(*self),
        }
    }
}

/// The bitmaps of a sequence of rasters.
pub open spec fn bitmaps(rasters: Seq<Raster>) -> Seq<Bitmap> {
    rasters.map_values(|r: Raster| r@)
}

/// `4 * width * height` as a machine number.
fn sample_count(width: u32, height: u32) -> (count: u128)
    ensures
        count == 4 * width * height,
{
    assert(width * height <= 0xffff_ffff * 0xffff_ffff) by (nonlinear_arith)
        requires
            width <= 0xffff_ffff,
            height <= 0xffff_ffff,
    ;
    let area: u64 = width as u64 * height as u64;
    let count: u128 = 4 * (area as u128);
    assert(count == 4 * width * height) by (nonlinear_arith)
        requires
            count == 4 * (width * height),
    ;
    count
}

impl Raster {
    /// A raster of the given size with every pixel transparent. `None` when
    /// the samples of one row cannot be counted in a `usize`, or the samples
    /// of all rows are more than `isize::MAX`, the most a vector holds.
    pub fn new(width: u32, height: u32) -> (made: Option<Raster>)
        ensures
            made is Some <==> 4 * width <= usize::MAX && 4 * width * height <= isize::MAX,
            made matches Some(r) ==> r@ == Bitmap::blank(width as int, height as int)
                && r@.packed(),
    {
        if 4 * (width as u128) > usize::MAX as u128 {
            return None;
        }
        if sample_count(width, height) > isize::MAX as u128 {
            return None;
        }
        let r = buffer_new(width, height);
        proof {
            lemma_blank(width as int, height as int);
        }
        Some(r)
    }

    /// A raster over the given samples, row by row from the top, four samples
    /// per pixel. `None` unless the vector holds exactly the samples of
    /// `width * height` pixels, and the samples of one row can be counted in
    /// a `usize`.
    pub fn from_samples(width: u32, height: u32, samples: Vec<u8>) -> (made: Option<Raster>)
        ensures
            made is Some <==> 4 * width <= usize::MAX && samples@.len() == 4 * width * height,
            made matches Some(r) ==> r@ == (Bitmap {
                width: width as int,
                height: height as int,
                samples: samples@,
            }) && r@.packed(),
    {
        if 4 * (width as u128) > usize::MAX as u128 {
            return None;
        }
        if samples.len() as u128 != sample_count(width, height) {
            return None;
        }
        buffer_from_raw(width, height, samples)
    }

    /// The samples of the raster, row by row from the top, four per pixel.
    pub fn into_samples(self) -> (samples: Vec<u8>)
        ensures
            samples@ == self@.samples,
    {
        buffer_into_raw(self)
    }

    /// Width and height in pixels.
    pub fn dimensions(&self) -> (d: (u32, u32))
        ensures
            d.0 == self@.width,
            d.1 == self@.height,
    {
        buffer_dimensions(self)
    }

    /// The pixel in column `x` of row `y`, or `None` outside the raster.
    pub fn get_pixel(&self, x: u32, y: u32) -> (found: Option<Rgba8>)
        ensures
            found is Some <==> self@.contains(x as int, y as int),
            found matches Some(p) ==> p == self@.pixel(x as int, y as int),
    {
        let (width, height) = buffer_dimensions(self);
        if x < width && y < height {
            Some(buffer_get_pixel(self, x, y))
        } else {
            None
        }
    }

    /// Overwrites the pixel in column `x` of row `y` and nothing else.
    pub(crate) fn put_pixel(&mut self, x: u32, y: u32, p: Rgba8)
        requires
            old(self)@.contains(x as int, y as int),
            old(self)@.packed(),
        ensures
            final(self)@ == old(self)@.put(x as int, y as int, p),
            final(self)@.packed(),
            final(self)@.pixel(x as int, y as int) == p,
            forall|u: int, v: int|
                old(self)@.contains(u, v) && (u != x || v != y) ==> #[trigger] final(self)@.pixel(
                    u,
                    v,
                ) == old(self)@.pixel(u, v),
    {
        proof {
            lemma_put(self@, x as int, y as int, p);
        }
        buffer_put_pixel(self, x, y, p);
    }
}

/// Calls `ImageBuffer::new`, which returns a buffer of the given dimensions
/// with every sample zero. The call panics in two cases, and the caller has
/// to rule out both. It computes the number of samples as four times the
/// width, times the height, in `usize`, and panics when either product
/// overflows: the first one can do so even for a height of zero. And it
/// panics when the samples would not fit a vector.
#[verifier::external_body]
fn buffer_new(width: u32, height: u32) -> (r: Raster)
    requires
        4 * width <= usize::MAX,
        4 * width * height <= isize::MAX,
    ensures
        raster_dimensions(r) == (width, height),
        raster_samples(r) == Seq::new((4 * width * height) as nat, |i: int| 0u8),
{
    Raster { buffer: image::ImageBuffer::new(width, height) }
}

/// Calls `ImageBuffer::from_raw`, which computes the number of samples as
/// four times the width, times the height, in `usize`. It takes the vector as
/// the buffer's samples when neither product overflows and the vector holds at
/// least that many samples, and refuses it otherwise. The first product can
/// overflow even for a height of zero.
#[verifier::external_body]
fn buffer_from_raw(width: u32, height: u32, samples: Vec<u8>) -> (r: Option<Raster>)
    ensures
        r is Some <==> (4 * width <= usize::MAX && 4 * width * height <= samples@.len()),
        r matches Some(raster) ==> raster_dimensions(raster) == (width, height)
            && raster_samples(raster) == samples@,
{
    match image::ImageBuffer::from_raw(width, height, samples) {
        Some(buffer) => Some(Raster { buffer }),
        None => None,
    }
}

/// Calls `ImageBuffer::into_raw`, which hands out the buffer's samples.
#[verifier::external_body]
fn buffer_into_raw(r: Raster) -> (samples: Vec<u8>)
    ensures
        samples@ == raster_samples(r),
{
    r.buffer.into_raw()
}

/// Calls `ImageBuffer::dimensions`, which returns the width and the height.
#[verifier::external_body]
fn buffer_dimensions(r: &Raster) -> (d: (u32, u32))
    ensures
        d == raster_dimensions(*r),
{
    r.buffer.dimensions()
}

/// Calls `ImageBuffer::get_pixel`, which reads the four samples of the pixel
/// at `(x, y)` and panics outside the image.
#[verifier::external_body]
fn buffer_get_pixel(r: &Raster, x: u32, y: u32) -> (p: Rgba8)
    requires
        x < raster_dimensions(*r).0,
        y < raster_dimensions(*r).1,
    ensures
        p == pixel_of(raster_samples(*r), raster_dimensions(*r).0 as int, x as int, y as int),
{
    let q = r.buffer.get_pixel(x, y);
    Rgba8 { red: q.0[0], green: q.0[1], blue: q.0[2], alpha: q.0[3] }
}

/// Calls `ImageBuffer::put_pixel`, which overwrites the four samples of the
/// pixel at `(x, y)`, leaves every other sample and the dimensions as they
/// were, and panics outside the image.
#[verifier::external_body]
fn buffer_put_pixel(r: &mut Raster, x: u32, y: u32, p: Rgba8)
    requires
        x < raster_dimensions(*old(r)).0,
        y < raster_dimensions(*old(r)).1,
    ensures
        raster_dimensions(*final(r)) == raster_dimensions(*old(r)),
        raster_samples(*final(r)) == with_pixel(
            raster_samples(*old(r)),
            raster_dimensions(*old(r)).0 as int,
            x as int,
            y as int,
            p,
        ),
{
    r.buffer.put_pixel(x, y, image::Rgba([p.red, p.green, p.blue, p.alpha]));
}

} // verus!
