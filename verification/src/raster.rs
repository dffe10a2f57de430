//! Images as row-major grids of pixels.

use vstd::prelude::*;
use crate::pixel::Pixel;

verus! {

/// The mathematical model of an image: its dimensions and its pixels,
/// row by row from the top, each row from the left.
pub struct Raster {
    pub width: nat,
    pub height: nat,
    pub pixels: Seq<Pixel>,
}

impl Raster {
    /// The grid holds exactly one pixel per coordinate, and its dimensions
    /// fit in 32 bits.
    pub open spec fn wf(self) -> bool {
        &&& self.pixels.len() == self.width * self.height
        &&& self.width <= u32::MAX
        &&& self.height <= u32::MAX
    }

    /// Whether `(x, y)` is a coordinate of the grid.
    pub open spec fn has(self, x: int, y: int) -> bool {
        0 <= x < self.width && 0 <= y < self.height
    }

    /// The pixel at column `x` of row `y`.
    pub open spec fn at(self, x: int, y: int) -> Pixel {
        self.pixels[y * self.width + x]
    }

    /// The number of pixels of the grid.
    pub open spec fn pixel_count(self) -> nat {
        self.width * self.height
    }
}

/// The pixel that four consecutive bytes encode, starting at byte `4 * i`.
pub open spec fn pixel_of_bytes(bytes: Seq<u8>, i: int) -> Pixel {
    Pixel { r: bytes[4 * i], g: bytes[4 * i + 1], b: bytes[4 * i + 2], a: bytes[4 * i + 3] }
}

/// The grid that a buffer of interleaved RGBA bytes encodes.
pub open spec fn raster_of_bytes(width: nat, height: nat, bytes: Seq<u8>) -> Raster {
    Raster {
        width,
        height,
        pixels: Seq::new(width * height, |i: int| pixel_of_bytes(bytes, i)),
    }
}

/// The byte length of an RGBA buffer of the given dimensions.
pub open spec fn byte_len(width: nat, height: nat) -> nat {
    width * height * 4
}

/// An immutable RGBA image with 8-bit channels.
#[derive(Debug)]
pub struct Image {
    width: u32,
    height: u32,
    data: Vec<u8>,
}

/// In a grid of `w` columns and `h` rows, the row-major position of a
/// coordinate lies below `w * h`.
pub proof fn lemma_position_in_grid(x: int, y: int, w: int, h: int)
    requires
        0 <= x < w,
        0 <= y < h,
    ensures
        0 <= y * w + x < w * h,
        0 <= y * w <= w * h,
{
    assert(0 <= y * w) by (nonlinear_arith)
        requires
            0 <= y,
            0 <= w,
    ;
    assert((y + 1) * w <= h * w) by (nonlinear_arith)
        requires
            y + 1 <= h,
            0 <= w,
    ;
    assert((y + 1) * w == y * w + w) by (nonlinear_arith);
    assert(h * w == w * h) by (nonlinear_arith);
}

impl View for Image {
    type V = Raster;

    closed spec fn view(&self) -> Raster {
        raster_of_bytes(self.width as nat, self.height as nat, self.data@)
    }
}

impl Image {
    #[verifier::type_invariant]
    spec fn buffer_fits(self) -> bool {
        self.data@.len() == byte_len(self.width as nat, self.height as nat)
    }

    /// The view of an image is a well-formed grid.
    pub proof fn lemma_view_wf(self)
        ensures
            self@.wf(),
    {
    }

    /// Wraps a buffer of interleaved RGBA bytes, rows from the top. The
    /// buffer must hold exactly `width * height` pixels.
    pub fn new(width: u32, height: u32, data: Vec<u8>) -> (made: Option<Image>)
        ensures
            made is Some <==> data@.len() == byte_len(width as nat, height as nat),
            made matches Some(image) ==> image@ == raster_of_bytes(
                width as nat,
                height as nat,
                data@,
            ),
    {
        assert(width as nat * height as nat <= 0xffff_ffff * 0xffff_ffff) by (nonlinear_arith)
            requires
                width <= 0xffff_ffff,
                height <= 0xffff_ffff,
        ;
        let pixels: u64 = width as u64 * height as u64;
        let needed: u128 = pixels as u128 * 4;
        if data.len() as u128 == needed {
            Some(Image { width, height, data })
        } else {
            None
        }
    }

    /// The number of columns.
    pub fn width(&self) -> (w: u32)
        ensures
            w == self@.width,
    {
        self.width
    }

    /// The number of rows.
    pub fn height(&self) -> (h: u32)
        ensures
            h == self@.height,
    {
        self.height
    }

    /// The number of columns and the number of rows.
    pub fn dimensions(&self) -> (dims: (u32, u32))
        ensures
            dims.0 == self@.width,
            dims.1 == self@.height,
    {
        (self.width, self.height)
    }

    /// The number of pixels.
    pub fn pixel_count(&self) -> (count: usize)
        ensures
            count == self@.pixel_count(),
    {
        proof {
            use_type_invariant(self);
            assert(self.data.len() == (self.width as int * self.height as int) * 4);
        }
        self.width as usize * self.height as usize
    }

    /// The pixel at column `x` of row `y`.
    pub fn get_pixel(&self, x: u32, y: u32) -> (pixel: Pixel)
        requires
            self@.has(x as int, y as int),
        ensures
            pixel == self@.at(x as int, y as int),
    {
        proof {
            use_type_invariant(self);
            lemma_position_in_grid(x as int, y as int, self.width as int, self.height as int);
            assert(self.data.len() == (self.width as int * self.height as int) * 4);
        }
        let position: usize = y as usize * self.width as usize + x as usize;
        let start: usize = position * 4;
        Pixel {
            r: self.data[start],
            g: self.data[start + 1],
            b: self.data[start + 2],
            a: self.data[start + 3],
        }
    }
}

} // verus!
