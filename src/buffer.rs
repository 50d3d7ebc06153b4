//! The pixel buffer the library reads and paints. It holds an `image`
//! `RgbImage` and is seen through two names: its extent and its pixel map.
use vstd::prelude::*;
use image::{ImageBuffer, Rgb, RgbImage};

verus! {

/// A color: red, green and blue channels.
pub type Color = (u8, u8, u8);

/// A width × height grid of 8-bit RGB pixels, origin top-left, row-major.
#[verifier::external_body]
pub struct PixelBuffer {
    img: RgbImage,
}

/// The width and height of a buffer.
pub uninterp spec fn extent_of(b: PixelBuffer) -> (u32, u32);

/// The pixels of a buffer: each in-bounds `(x, y)` mapped to its channels.
pub uninterp spec fn pixels_of(b: PixelBuffer) -> Map<(int, int), Color>;

/// The pixel at `(x, y)` of a row-major buffer of `width` columns, three bytes
/// per pixel.
pub open spec fn raw_pixel(data: Seq<u8>, width: int, x: int, y: int) -> Color {
    let i = 3 * (y * width + x);
    (data[i], data[i + 1], data[i + 2])
}

/// Relies on `ImageBuffer::from_raw`: it accepts exactly the containers that
/// hold at least `3 * width * height` bytes, and then reads pixel `(x, y)`
/// from the three bytes at `3 * (y * width + x)`.
#[verifier::external_body]
fn from_raw(width: u32, height: u32, data: Vec<u8>) -> (r: Option<PixelBuffer>)
    ensures
        r is Some <==> 3 * width * height <= data@.len(),
        r matches Some(b) ==> {
            &&& extent_of(b) == (width, height)
            &&& forall|x: int, y: int|
                0 <= x < width && 0 <= y < height ==> #[trigger] pixels_of(b)[(x, y)]
                    == raw_pixel(data@, width as int, x, y)
        },
{
    ImageBuffer::from_raw(width, height, data).map(|img| PixelBuffer { img })
}

/// Relies on `ImageBuffer::new`: a buffer of the given extent with every
/// channel zero; it panics only where `3 * width * height` overflows `usize`.
#[verifier::external_body]
fn new_buffer(width: u32, height: u32) -> (r: PixelBuffer)
    requires
        3 * width * height <= usize::MAX,
    ensures
        extent_of(r) == (width, height),
        forall|x: int, y: int|
            0 <= x < width && 0 <= y < height ==> #[trigger] pixels_of(r)[(x, y)] == (
                0u8,
                0u8,
                0u8,
            ),
{
    PixelBuffer { img: ImageBuffer::new(width, height) }
}

/// Relies on `ImageBuffer::dimensions`: it returns the stored width and height.
#[verifier::external_body]
pub(crate) fn dimensions(b: &PixelBuffer) -> (r: (u32, u32))
    ensures
        r == extent_of(*b),
{
    b.img.dimensions()
}

/// Relies on `ImageBuffer::get_pixel`: it returns the pixel at `(x, y)` and
/// panics only out of bounds.
#[verifier::external_body]
pub(crate) fn get_pixel(b: &PixelBuffer, x: u32, y: u32) -> (r: Color)
    requires
        x < extent_of(*b).0,
        y < extent_of(*b).1,
    ensures
        r == pixels_of(*b)[(x as int, y as int)],
{
    let p = b.img.get_pixel(x, y);
    (p[0], p[1], p[2])
}

/// Relies on `ImageBuffer::put_pixel`: it overwrites the pixel at `(x, y)`,
/// leaves the other pixels and the extent as they were, and panics only out
/// of bounds.
#[verifier::external_body]
pub(crate) fn put_pixel(b: &mut PixelBuffer, x: u32, y: u32, c: Color)
    requires
        x < extent_of(*old(b)).0,
        y < extent_of(*old(b)).1,
    ensures
        extent_of(*final(b)) == extent_of(*old(b)),
        pixels_of(*final(b)) == pixels_of(*old(b)).insert((x as int, y as int), c),
{
    b.img.put_pixel(x, y, Rgb([c.0, c.1, c.2]))
}

impl PixelBuffer {
    /// A buffer of `width × height` pixels read row-major from `data`, three
    /// bytes (red, green, blue) per pixel; `None` when `data` is too short.
    pub fn from_rgb_bytes(width: u32, height: u32, data: Vec<u8>) -> (r: Option<PixelBuffer>)
        ensures
            r is Some <==> 3 * width * height <= data@.len(),
            r matches Some(b) ==> {
                &&& extent_of(b) == (width, height)
                &&& forall|x: int, y: int|
                    0 <= x < width && 0 <= y < height ==> #[trigger] pixels_of(b)[(x, y)]
                        == raw_pixel(data@, width as int, x, y)
            },
    {
        from_raw(width, height, data)
    }

    /// A black buffer of `width × height` pixels.
    pub fn new(width: u32, height: u32) -> (r: PixelBuffer)
        requires
            3 * width * height <= usize::MAX,
        ensures
            extent_of(r) == (width, height),
            forall|x: int, y: int|
                0 <= x < width && 0 <= y < height ==> #[trigger] pixels_of(r)[(x, y)] == (
                    0u8,
                    0u8,
                    0u8,
                ),
    {
        new_buffer(width, height)
    }

    /// The width of the buffer.
    pub fn width(&self) -> (r: u32)
        ensures
            r == extent_of(*self).0,
    {
        dimensions(self).0
    }

    /// The height of the buffer.
    pub fn height(&self) -> (r: u32)
        ensures
            r == extent_of(*self).1,
    {
        dimensions(self).1
    }

    /// The pixel at `(x, y)`, or `None` out of bounds.
    pub fn pixel(&self, x: u32, y: u32) -> (r: Option<Color>)
        ensures
            r == (if x < extent_of(*self).0 && y < extent_of(*self).1 {
                Some(pixels_of(*self)[(x as int, y as int)])
            } else {
                None
            }),
    {
        let (w, h) = dimensions(self);
        if x < w && y < h {
            Some(get_pixel(self, x, y))
        } else {
            None
        }
    }

    /// Overwrites the pixel at `(x, y)`, where it is in bounds; reports
    /// whether it was.
    pub fn set_pixel(&mut self, x: u32, y: u32, c: Color) -> (r: bool)
        ensures
            r == (x < extent_of(*old(self)).0 && y < extent_of(*old(self)).1),
            extent_of(*final(self)) == extent_of(*old(self)),
            pixels_of(*final(self)) == if r {
                pixels_of(*old(self)).insert((x as int, y as int), c)
            } else {
                pixels_of(*old(self))
            },
    {
        let (w, h) = dimensions(self);
        if x < w && y < h {
            put_pixel(self, x, y, c);
            true
        } else {
            false
        }
    }
}

} // verus!
