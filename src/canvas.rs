//! An RGB image buffer of the `image` crate, seen by the verified code as a
//! map from pixel coordinates to 8-bit RGB triples.
use vstd::prelude::*;

verus! {

/// An 8-bit RGB image held in an `image::RgbImage`.
#[verifier::external_body]
pub struct Canvas {
    img: image::RgbImage,
}

/// What a canvas holds: for each coordinate `(x, y)` inside the image, the
/// pixel stored there as `[r, g, b]`.
pub uninterp spec fn canvas_pixels(c: Canvas) -> Map<(u32, u32), [u8; 3]>;

/// The coordinates of an image of the given size.
pub open spec fn in_grid(width: u32, height: u32, c: (u32, u32)) -> bool {
    c.0 < width && c.1 < height
}

/// The image of the given size with every pixel black.
pub open spec fn blank_pixels(width: u32, height: u32) -> Map<(u32, u32), [u8; 3]> {
    Map::new(|c: (u32, u32)| in_grid(width, height, c), |c: (u32, u32)| [0u8, 0u8, 0u8])
}

/// The row-major byte layout of an image: pixel `(x, y)` occupies the three
/// bytes from `3 * (y * width + x)` on, red first.
pub open spec fn raw_bytes(pixels: Map<(u32, u32), [u8; 3]>, width: u32, height: u32) -> Seq<u8> {
    Seq::new(
        (3 * width * height) as nat,
        |i: int| pixels[(((i / 3) % (width as int)) as u32, ((i / 3) / (width as int)) as u32)][i % 3],
    )
}

impl Canvas {
    /// Relies on `image::ImageBuffer::new`: a buffer of `width * height`
    /// pixels, all zero. It panics when `3 * width`, or that times `height`,
    /// overflows `usize`, and the vector of bytes cannot exceed `isize::MAX`.
    #[verifier::external_body]
    pub(crate) fn new(width: u32, height: u32) -> (c: Canvas)
        requires
            3 * (width as int) <= usize::MAX,
            3 * (width as int) * (height as int) <= isize::MAX,
        ensures
            canvas_pixels(c) == blank_pixels(width, height),
    {
        Canvas { img: image::RgbImage::new(width, height) }
    }

    /// Relies on `image::ImageBuffer::put_pixel`: the pixel at `(x, y)` is
    /// replaced and nothing else changes; it panics when `(x, y)` lies outside
    /// the image.
    #[verifier::external_body]
    pub(crate) fn put_pixel(&mut self, x: u32, y: u32, px: [u8; 3])
        requires
            canvas_pixels(*old(self)).dom().contains((x, y)),
        ensures
            canvas_pixels(*final(self)) == canvas_pixels(*old(self)).insert((x, y), px),
    {
        self.img.put_pixel(x, y, image::Rgb(px))
    }

    /// Relies on `image::ImageBuffer::into_raw`: the pixel data, stored row
    /// after row, three bytes per pixel.
    #[verifier::external_body]
    pub(crate) fn into_raw(self, width: u32, height: u32) -> (r: Vec<u8>)
        requires
            canvas_pixels(self).dom() == blank_pixels(width, height).dom(),
        ensures
            r@ == raw_bytes(canvas_pixels(self), width, height),
    {
        self.img.into_raw()
    }
}

} // verus!
