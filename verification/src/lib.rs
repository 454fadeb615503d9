//! A small verified library for reading and writing BMP images.
//!
//! The library decodes uncompressed BMP version 3/4/5 byte streams with
//! 1, 4, 8 or 24 bits per pixel into an in-memory pixel grid, and encodes
//! a pixel grid back into an uncompressed 24-bit BMP byte stream.

use vstd::prelude::*;

pub mod bytes;
pub mod decoder;
pub mod encoder;
pub mod laws;

pub use decoder::{decode_image, BmpError, BmpErrorKind, BmpResult};
pub use encoder::encode_image;

verus! {

/// The pixel data used in the `Image`.
///
/// It has three values for the `red`, `green` and `blue` color channels.
#[derive(Clone, Copy, Debug, PartialEq, Eq, Structural)]
pub struct Pixel {
    pub r: u8,
    pub g: u8,
    pub b: u8,
}

impl Pixel {
    /// Creates a new `Pixel`.
    pub fn new(r: u8, g: u8, b: u8) -> (p: Pixel)
        ensures
            p == (Pixel { r, g, b }),
    {
        Pixel { r, g, b }
    }
}

/// The 14-byte BMP file header (without the two magic bytes): total file
/// size, two reserved creator fields, and the byte offset from the start
/// of the file to the start of the pixel data.
#[derive(Clone, Copy, Debug, PartialEq, Eq, Structural)]
pub struct BmpHeader {
    pub file_size: u32,
    pub creator1: u16,
    pub creator2: u16,
    pub pixel_offset: u32,
}

impl BmpHeader {
    /// Header for a file whose pixel data starts right after the headers.
    pub fn new(header_size: u32, data_size: u32) -> (h: BmpHeader)
        requires
            header_size + data_size <= u32::MAX,
        ensures
            h == (BmpHeader {
                file_size: (header_size + data_size) as u32,
                creator1: 0u16,
                creator2: 0u16,
                pixel_offset: header_size,
            }),
    {
        BmpHeader {
            file_size: header_size + data_size,
            creator1: 0,  // Unused
            creator2: 0,  // Unused
            pixel_offset: header_size,
        }
    }
}

/// The 40-byte BMP device-independent bitmap header, describing the
/// geometry and the pixel encoding of the file.
#[derive(Clone, Copy, Debug, PartialEq, Eq, Structural)]
pub struct BmpDibHeader {
    pub header_size: u32,
    pub width: i32,
    pub height: i32,
    pub num_planes: u16,
    pub bits_per_pixel: u16,
    pub compress_type: u32,
    pub data_size: u32,
    pub hres: i32,
    pub vres: i32,
    pub num_colors: u32,
    pub num_imp_colors: u32,
}

/// Number of bytes a 24-bit pixel row occupies on disk: three bytes per
/// pixel, padded with `w % 4` zero bytes so the row length is a multiple
/// of four.
pub open spec fn row_size(w: int) -> int {
    3 * w + w % 4
}

/// The dimensions a BMP file can carry: width and height are stored as
/// signed 32-bit values, and the total file size must fit in the
/// unsigned 32-bit `file_size` field.
pub open spec fn dims_ok(w: int, h: int) -> bool {
    &&& 0 <= w <= i32::MAX
    &&& 0 <= h <= i32::MAX
    &&& 54 + h * row_size(w) <= u32::MAX
}

/// The DIB header the library writes: uncompressed 24-bit pixels, no
/// palette, and a fixed 1000 pixels-per-meter resolution.
pub open spec fn spec_dib_for(w: int, h: int) -> BmpDibHeader {
    BmpDibHeader {
        header_size: 40u32,
        width: w as i32,
        height: h as i32,
        num_planes: 1u16,
        bits_per_pixel: 24u16,
        compress_type: 0u32,
        data_size: (h * row_size(w)) as u32,
        hres: 1000i32,
        vres: 1000i32,
        num_colors: 0u32,
        num_imp_colors: 0u32,
    }
}

impl BmpDibHeader {
    /// DIB header for an uncompressed 24-bit image of the given size.
    pub fn new(width: i32, height: i32) -> (h: BmpDibHeader)
        requires
            dims_ok(width as int, height as int),
        ensures
            h == spec_dib_for(width as int, height as int),
    {
        let rs: u64 = 3 * (width as u64) + (width as u64) % 4;
        let data_size: u64 = (height as u64) * rs;
        BmpDibHeader {
            header_size: 40,
            width,
            height,
            num_planes: 1,
            bits_per_pixel: 24,
            compress_type: 0,
            data_size: data_size as u32,
            hres: 1000,
            vres: 1000,
            num_colors: 0,
            num_imp_colors: 0,
        }
    }
}

/// The image type provided by the library.
///
/// The image is accessed in row-major order from top to bottom, where
/// point (0, 0) is the upper left corner of the image.  The flat pixel
/// buffer `data` keeps rows in the file's bottom-up order, so the
/// accessors flip the row index.
#[derive(Clone, Debug, PartialEq, Eq)]
pub struct Image {
    pub header: BmpHeader,
    pub dib_header: BmpDibHeader,
    pub color_palette: Option<Vec<Pixel>>,
    pub width: u32,
    pub height: u32,
    pub padding: u32,
    pub data: Vec<Pixel>,
}

impl Image {
    /// Structural invariant: the buffer holds exactly `width * height`
    /// pixels and `padding` is the 24-bit row padding for `width`.
    pub open spec fn wf(self) -> bool {
        &&& self.data@.len() == self.width * self.height
        &&& self.padding == self.width as int % 4
    }

    /// Index into the flat pixel buffer for visual coordinates (x, y):
    /// the buffer keeps the bottom row of the picture first.
    pub open spec fn buf_index(self, x: int, y: int) -> int {
        (self.height - 1 - y) * self.width + x
    }

    /// The pixel at visual coordinates (x, y), with y = 0 the top row.
    pub open spec fn pixel_at(self, x: int, y: int) -> Pixel {
        self.data@[self.buf_index(x, y)]
    }

    /// Returns a new BMP `Image` with the `width` and `height` specified.
    /// It is initialized to a black image.
    pub fn new(width: u32, height: u32) -> (img: Image)
        requires
            dims_ok(width as int, height as int),
        ensures
            img.wf(),
            img.width == width,
            img.height == height,
            img.padding == width as int % 4,
            img.color_palette is None,
            img.header == (BmpHeader {
                file_size: (54 + height * row_size(width as int)) as u32,
                creator1: 0u16,
                creator2: 0u16,
                pixel_offset: 54u32,
            }),
            img.dib_header == spec_dib_for(width as int, height as int),
            forall|x: int, y: int|
                0 <= x < width && 0 <= y < height ==> img.pixel_at(x, y) == (Pixel {
                    r: 0u8,
                    g: 0u8,
                    b: 0u8,
                }),
    {
        proof {
            lemma_grid_fits(width as int, height as int);
        }
        let n: u64 = (width as u64) * (height as u64);
        let mut data: Vec<Pixel> = Vec::new();
        let mut i: u64 = 0;
        while i < n
            invariant
                i <= n,
                n == width * height,
                n <= u32::MAX,
                data@.len() == i,
                forall|j: int|
                    0 <= j < i ==> data@[j] == (Pixel { r: 0u8, g: 0u8, b: 0u8 }),
            decreases n - i,
        {
            data.push(Pixel { r: 0, g: 0, b: 0 });
            i = i + 1;
        }

        let rs: u64 = 3 * (width as u64) + (width as u64) % 4;
        let data_size: u32 = ((height as u64) * rs) as u32;
        proof {
            assert(width * height >= 0) by (nonlinear_arith)
                requires
                    width >= 0 && height >= 0,
            ;
        }
        let img = Image {
            header: BmpHeader::new(54, data_size),
            dib_header: BmpDibHeader::new(width as i32, height as i32),
            color_palette: None,
            width,
            height,
            padding: width % 4,
            data,
        };
        proof {
            assert forall|x: int, y: int| 0 <= x < width && 0 <= y < height implies img.pixel_at(
                x,
                y,
            ) == (Pixel { r: 0u8, g: 0u8, b: 0u8 }) by {
                lemma_buf_index_bounds(width as int, height as int, x, y);
                assert(width * height == height * width) by (nonlinear_arith);
                assert(0 <= img.buf_index(x, y) < img.data@.len());
            }
        }
        img
    }

    /// Returns the `width` of the `Image`.
    pub fn get_width(&self) -> (w: u32)
        ensures
            w == self.width,
    {
        self.width
    }

    /// Returns the `height` of the `Image`.
    pub fn get_height(&self) -> (h: u32)
        ensures
            h == self.height,
    {
        self.height
    }

    /// Set the pixel value at the position `(x, y)`, with y = 0 the
    /// visually topmost row.
    pub fn set_pixel(&mut self, x: u32, y: u32, val: Pixel)
        requires
            old(self).wf(),
            x < old(self).width,
            y < old(self).height,
        ensures
            final(self).wf(),
            final(self).width == old(self).width,
            final(self).height == old(self).height,
            final(self).padding == old(self).padding,
            final(self).header == old(self).header,
            final(self).dib_header == old(self).dib_header,
            final(self).color_palette == old(self).color_palette,
            final(self).data@ == old(self).data@.update(
                old(self).buf_index(x as int, y as int),
                val,
            ),
            final(self).pixel_at(x as int, y as int) == val,
            forall|x2: int, y2: int|
                0 <= x2 < old(self).width && 0 <= y2 < old(self).height && !(x2 == x && y2 == y)
                    ==> final(self).pixel_at(x2, y2) == old(self).pixel_at(x2, y2),
    {
        proof {
            lemma_buf_index_bounds(
                self.width as int,
                self.height as int,
                x as int,
                y as int,
            );
        }
        let n: usize = self.data.len();
        let idx: u64 = ((self.height - y - 1) as u64) * (self.width as u64) + (x as u64);
        proof {
            assert(idx < n);
        }
        self.data.set(idx as usize, val);
        proof {
            assert forall|x2: int, y2: int|
                0 <= x2 < old(self).width && 0 <= y2 < old(self).height && !(x2 == x && y2 == y)
                    implies self.pixel_at(x2, y2) == old(self).pixel_at(x2, y2) by {
                lemma_buf_index_bounds(self.width as int, self.height as int, x2, y2);
                lemma_buf_index_injective(
                    self.width as int,
                    self.height as int,
                    x as int,
                    y as int,
                    x2,
                    y2,
                );
            }
        }
    }

    /// Returns the pixel value at the position `(x, y)`, with y = 0 the
    /// visually topmost row.
    pub fn get_pixel(&self, x: u32, y: u32) -> (p: Pixel)
        requires
            self.wf(),
            x < self.width,
            y < self.height,
        ensures
            p == self.pixel_at(x as int, y as int),
    {
        proof {
            lemma_buf_index_bounds(
                self.width as int,
                self.height as int,
                x as int,
                y as int,
            );
        }
        let n: usize = self.data.len();
        let idx: u64 = ((self.height - y - 1) as u64) * (self.width as u64) + (x as u64);
        proof {
            assert(idx < n);
        }
        self.data[idx as usize]
    }

    /// Returns a new `ImageIndex` that iterates over the image
    /// coordinates in row-major order, top row first.
    pub fn coordinates(&self) -> (it: ImageIndex)
        ensures
            it == ImageIndex::make(self.width, self.height),
            it.wf(),
    {
        ImageIndex::new(self.width, self.height)
    }
}

/// The buffer index of (x, y) stays inside a `w * h` buffer.
#[verifier::nonlinear]
proof fn lemma_buf_index_bounds(w: int, h: int, x: int, y: int)
    requires
        0 <= x < w,
        0 <= y < h,
    ensures
        0 <= (h - 1 - y) * w + x < h * w,
{
}

/// Distinct in-range coordinates land on distinct buffer indices.
#[verifier::nonlinear]
proof fn lemma_buf_index_injective(w: int, h: int, x: int, y: int, x2: int, y2: int)
    requires
        0 <= x < w,
        0 <= y < h,
        0 <= x2 < w,
        0 <= y2 < h,
        !(x2 == x && y2 == y),
    ensures
        (h - 1 - y2) * w + x2 != (h - 1 - y) * w + x,
{
}

/// A `w * h` pixel count fits in `u32` whenever the encoded file size
/// fits in `u32`.
#[verifier::nonlinear]
proof fn lemma_grid_fits(w: int, h: int)
    requires
        dims_ok(w, h),
    ensures
        0 <= w * h <= u32::MAX,
        h * row_size(w) <= u32::MAX,
{
}

/// A row-major position inside a `w * h` grid stays inside the grid's
/// pixel count.
#[verifier::nonlinear]
pub(crate) proof fn lemma_buf_index_in_grid(w: int, h: int, x: int, yd: int)
    requires
        0 <= x < w,
        0 <= yd < h,
    ensures
        0 <= yd * w + x < h * w,
        yd * w + x < w * h,
{
}

/// Yields the `x` and `y` coordinates of an image, in row-major order
/// starting from the upper left corner.
#[derive(Clone, Copy, Debug, PartialEq, Eq, Structural)]
pub struct ImageIndex {
    pub width: u32,
    pub height: u32,
    pub x: u32,
    pub y: u32,
}

impl ImageIndex {
    /// The state a fresh iterator starts in.
    pub open spec fn make(width: u32, height: u32) -> ImageIndex {
        ImageIndex { width, height, x: 0u32, y: 0u32 }
    }

    /// The states `next` moves through: `x` stays inside a row, and the
    /// iterator parks at the start of row `height` when done.
    pub open spec fn wf(self) -> bool {
        if self.width == 0 || self.height == 0 {
            self.x == 0 && self.y == 0
        } else {
            self.x < self.width && (self.y < self.height || (self.y == self.height && self.x
                == 0))
        }
    }

    /// How many coordinates have been yielded so far.
    pub open spec fn pos(self) -> int {
        self.y * self.width + self.x
    }

    fn new(width: u32, height: u32) -> (it: ImageIndex)
        ensures
            it == ImageIndex::make(width, height),
            it.wf(),
    {
        ImageIndex { width, height, x: 0, y: 0 }
    }

    /// Yields the next coordinate pair in row-major order, `x` fastest,
    /// or `None` once all `width * height` pairs have been yielded.
    pub fn next(&mut self) -> (r: Option<(u32, u32)>)
        requires
            old(self).wf(),
        ensures
            final(self).wf(),
            final(self).width == old(self).width,
            final(self).height == old(self).height,
            old(self).pos() < old(self).width * old(self).height ==> {
                &&& r == Some((old(self).x, old(self).y))
                &&& old(self).x == old(self).pos() % old(self).width as int
                &&& old(self).y == old(self).pos() / old(self).width as int
                &&& final(self).pos() == old(self).pos() + 1
            },
            old(self).pos() >= old(self).width * old(self).height ==> {
                &&& r is None
                &&& *final(self) == *old(self)
            },
    {
        proof {
            lemma_index_pos(*self);
        }
        if self.x < self.width && self.y < self.height {
            let this = Some((self.x, self.y));
            proof {
                vstd::arithmetic::div_mod::lemma_fundamental_div_mod_converse(
                    self.pos(),
                    self.width as int,
                    self.y as int,
                    self.x as int,
                );
                assert((self.y + 1) * self.width == self.y * self.width + self.width)
                    by (nonlinear_arith);
            }
            self.x = self.x + 1;
            if self.x == self.width {
                self.x = 0;
                self.y = self.y + 1;
            }
            this
        } else {
            None
        }
    }
}

/// For a well-formed index state, `pos` relates to the bounds: it stays
/// at most `width * height`, and it is strictly below exactly when the
/// iterator still points inside the grid.
#[verifier::nonlinear]
proof fn lemma_index_pos(it: ImageIndex)
    requires
        it.wf(),
    ensures
        0 <= it.pos() <= it.width * it.height,
        (it.pos() < it.width * it.height) <==> (it.x < it.width && it.y < it.height),
{
}

} // verus!
