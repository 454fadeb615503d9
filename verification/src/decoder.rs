//! Decoding a BMP byte stream into an `Image`.
//!
//! The spec functions in this module describe the meaning of a raw BMP
//! buffer: which fields sit at which offsets, when the buffer is
//! acceptable, and which pixel every position decodes to.  `decode_image`
//! is verified to return exactly what these functions describe.

use vstd::prelude::*;
use vstd::string::StringExecFns;

use crate::bytes::{le16_at, le32_at, read_i32_at, read_u16_at, read_u32_at, sle32_at};
use crate::{BmpDibHeader, BmpHeader, Image, Pixel, row_size};
use vstd::arithmetic::power2::pow2;

verus! {

/// A result type, either containing a value or a `BmpError`.
pub type BmpResult<T> = Result<T, BmpError>;

/// The different kinds of possible BMP errors.
#[derive(Clone, Copy, Debug, PartialEq, Eq, Structural)]
pub enum BmpErrorKind {
    WrongMagicNumbers,
    UnsupportedBitsPerPixel,
    UnsupportedCompressionType,
    UnsupportedBmpVersion,
    Other,
    BmpIoError,
}

/// The error type returned if the decoding of an image fails.
#[derive(Clone, Debug)]
pub struct BmpError {
    pub kind: BmpErrorKind,
    pub details: String,
}

impl BmpError {
    /// An error of the given kind with a human-readable description.
    pub fn new(kind: BmpErrorKind, details: &str) -> (e: BmpError)
        ensures
            e.kind == kind,
            e.details@ == details@,
    {
        BmpError { kind, details: String::from_str(details) }
    }
}

/// The BMP format versions a header size can announce.
#[derive(Clone, Copy, Debug, PartialEq, Eq, Structural)]
enum BmpVersion {
    Two,
    Three,
    ThreeNT,
    Four,
    Five,
}

impl BmpVersion {
    /// The version a DIB header announces, if its header size is a
    /// recognized one.  Header size 40 with compression type 3 is the
    /// distinct "version 3 NT" sub-version.
    fn from_dib_header(dib_header: &BmpDibHeader) -> (v: Option<BmpVersion>)
        ensures
            v == (if dib_header.header_size == 12 {
                Some(BmpVersion::Two)
            } else if dib_header.header_size == 40 && dib_header.compress_type == 3 {
                Some(BmpVersion::ThreeNT)
            } else if dib_header.header_size == 40 {
                Some(BmpVersion::Three)
            } else if dib_header.header_size == 108 {
                Some(BmpVersion::Four)
            } else if dib_header.header_size == 124 {
                Some(BmpVersion::Five)
            } else {
                None::<BmpVersion>
            }),
    {
        match dib_header.header_size {
            12 => Some(BmpVersion::Two),
            40 if dib_header.compress_type == 3 => Some(BmpVersion::ThreeNT),
            40 => Some(BmpVersion::Three),
            108 => Some(BmpVersion::Four),
            124 => Some(BmpVersion::Five),
            _ => None,
        }
    }

    /// A printable name for the version.
    fn as_str(&self) -> &'static str {
        match *self {
            BmpVersion::Two => "BMP Version 2",
            BmpVersion::Three => "BMP Version 3",
            BmpVersion::ThreeNT => "BMP Version 3 NT",
            BmpVersion::Four => "BMP Version 4",
            BmpVersion::Five => "BMP Version 5",
        }
    }
}

/// The compression schemes a BMP header can announce.
#[derive(Clone, Copy, Debug, PartialEq, Eq, Structural)]
enum CompressionType {
    Uncompressed,
    Rle8bit,
    Rle4bit,
    BitfieldsEncoding,
}

impl CompressionType {
    /// The scheme the `compress_type` field announces; every value other
    /// than 1, 2 and 3 counts as uncompressed.
    fn from_u32(val: u32) -> (c: CompressionType)
        ensures
            c == (if val == 1 {
                CompressionType::Rle8bit
            } else if val == 2 {
                CompressionType::Rle4bit
            } else if val == 3 {
                CompressionType::BitfieldsEncoding
            } else {
                CompressionType::Uncompressed
            }),
    {
        match val {
            1 => CompressionType::Rle8bit,
            2 => CompressionType::Rle4bit,
            3 => CompressionType::BitfieldsEncoding,
            _ => CompressionType::Uncompressed,
        }
    }

    /// A printable name for the scheme.
    fn as_str(&self) -> &'static str {
        match *self {
            CompressionType::Rle8bit => "RLE 8-bit",
            CompressionType::Rle4bit => "RLE 4-bit",
            CompressionType::BitfieldsEncoding => "Bitfields Encoding",
            CompressionType::Uncompressed => "Uncompressed",
        }
    }
}

// What the fixed header fields of a raw BMP buffer hold.  The file
// header sits at offsets 2..14, the DIB header at offsets 14..54, all
// fields little-endian.

/// The buffer starts with the ASCII bytes 'B', 'M'.
pub open spec fn magic_ok(b: Seq<u8>) -> bool {
    b.len() >= 2 && b[0] == 66u8 && b[1] == 77u8
}

pub open spec fn parsed_pixel_offset(b: Seq<u8>) -> u32 {
    le32_at(b, 10)
}

pub open spec fn parsed_header_size(b: Seq<u8>) -> u32 {
    le32_at(b, 14)
}

pub open spec fn parsed_bpp(b: Seq<u8>) -> u16 {
    le16_at(b, 28)
}

pub open spec fn parsed_compress(b: Seq<u8>) -> u32 {
    le32_at(b, 30)
}

pub open spec fn parsed_num_colors(b: Seq<u8>) -> u32 {
    le32_at(b, 46)
}

/// The file header as stored in the buffer.
pub open spec fn parsed_header(b: Seq<u8>) -> BmpHeader {
    BmpHeader {
        file_size: le32_at(b, 2),
        creator1: le16_at(b, 6),
        creator2: le16_at(b, 8),
        pixel_offset: parsed_pixel_offset(b),
    }
}

/// The DIB header as stored in the buffer.
pub open spec fn parsed_dib(b: Seq<u8>) -> BmpDibHeader {
    BmpDibHeader {
        header_size: parsed_header_size(b),
        width: sle32_at(b, 18) as i32,
        height: sle32_at(b, 22) as i32,
        num_planes: le16_at(b, 26),
        bits_per_pixel: parsed_bpp(b),
        compress_type: parsed_compress(b),
        data_size: le32_at(b, 34),
        hres: sle32_at(b, 38) as i32,
        vres: sle32_at(b, 42) as i32,
        num_colors: parsed_num_colors(b),
        num_imp_colors: le32_at(b, 50),
    }
}

/// The header announces one of the decodable versions: version 3 (other
/// than the "NT" sub-version), 4 or 5.
pub open spec fn version_supported(b: Seq<u8>) -> bool {
    ||| parsed_header_size(b) == 40 && parsed_compress(b) != 3
    ||| parsed_header_size(b) == 108
    ||| parsed_header_size(b) == 124
}

/// An unsupported header announces a version the decoder knows by name
/// (version 2, or version 3 NT); anything else is not a BMP header.
pub open spec fn version_recognized(b: Seq<u8>) -> bool {
    ||| parsed_header_size(b) == 12
    ||| (parsed_header_size(b) == 40 && parsed_compress(b) == 3)
}

/// The pixel encoding is one the decoder can unpack.
pub open spec fn bpp_ok(b: Seq<u8>) -> bool {
    ||| parsed_bpp(b) == 1
    ||| parsed_bpp(b) == 4
    ||| parsed_bpp(b) == 8
    ||| parsed_bpp(b) == 24
}

/// The `compress_type` field announces uncompressed pixel data.
pub open spec fn compress_ok(b: Seq<u8>) -> bool {
    parsed_compress(b) != 1 && parsed_compress(b) != 2 && parsed_compress(b) != 3
}

/// The stored width and height convert to absolute values that fit in a
/// signed 32-bit number.
pub open spec fn dims_in_range(b: Seq<u8>) -> bool {
    sle32_at(b, 18) != i32::MIN && sle32_at(b, 22) != i32::MIN
}

/// The image width: the stored width's absolute value.
pub open spec fn parsed_width(b: Seq<u8>) -> int {
    if sle32_at(b, 18) < 0 {
        -sle32_at(b, 18)
    } else {
        sle32_at(b, 18)
    }
}

/// The image height: the stored height's absolute value.
pub open spec fn parsed_height(b: Seq<u8>) -> int {
    if sle32_at(b, 22) < 0 {
        -sle32_at(b, 22)
    } else {
        sle32_at(b, 22)
    }
}

/// A color palette is stored exactly for the packed pixel encodings.
pub open spec fn has_palette(b: Seq<u8>) -> bool {
    parsed_bpp(b) == 1 || parsed_bpp(b) == 4 || parsed_bpp(b) == 8
}

/// How many palette entries the file carries: the announced color count,
/// or the full two-to-the-bpp table when the count field is zero.
pub open spec fn palette_len(b: Seq<u8>) -> int {
    if parsed_num_colors(b) != 0 {
        parsed_num_colors(b) as int
    } else if parsed_bpp(b) == 1 {
        2
    } else if parsed_bpp(b) == 4 {
        16
    } else {
        256
    }
}

/// The palette starts right after the DIB header; each entry is four
/// bytes, ordered blue, green, red, reserved.
pub open spec fn palette_entry(b: Seq<u8>, j: int) -> Pixel {
    let p = 14 + parsed_header_size(b) + 4 * j;
    Pixel { r: b[p + 2], g: b[p + 1], b: b[p] }
}

/// One past the last byte of the palette.
pub open spec fn palette_end(b: Seq<u8>) -> int {
    14 + parsed_header_size(b) + 4 * palette_len(b)
}

// The bit-unpacking rule for packed palette indices.  A row of packed
// pixel data is a bitstream, most significant bits of each byte first;
// each pixel is an `nbits`-wide index, and since `nbits` divides 8 no
// index spans a byte boundary.

/// The `nbits` bits of `byte` that start `off` bits above the least
/// significant end, as an unsigned value.
pub open spec fn extract_bits(byte: u8, off: int, nbits: int) -> int
    recommends
        0 <= off <= 7,
        1 <= nbits <= 8,
{
    (byte as int / pow2(off as nat) as int) % pow2(nbits as nat) as int
}

/// The `k`-th `nbits`-wide index packed into `row`: bits are taken most
/// significant first within each byte.
pub open spec fn unpack_index(row: Seq<u8>, nbits: int, k: int) -> int
    recommends
        nbits == 1 || nbits == 4 || nbits == 8,
        0 <= k,
        k * nbits < row.len() * 8,
{
    let bit = k * nbits;
    extract_bits(row[bit / 8], 8 - nbits - bit % 8, nbits)
}

/// How many bytes a packed row of `w` indices occupies before padding.
pub open spec fn packed_row_bytes(w: int, bpp: int) -> int {
    (w * bpp + 7) / 8
}

/// A packed row padded out to a multiple of four bytes.
pub open spec fn packed_stride(w: int, bpp: int) -> int {
    let rb = packed_row_bytes(w, bpp);
    rb + ((4 - rb % 4) % 4)
}

/// 2^e for the small exponents bit extraction uses.
fn pow2_small(e: usize) -> (r: usize)
    requires
        e <= 8,
    ensures
        r == pow2(e as nat),
        r >= 1,
{
    proof {
        vstd::arithmetic::power2::lemma2_to64();
    }
    if e == 0 {
        1
    } else if e == 1 {
        2
    } else if e == 2 {
        4
    } else if e == 3 {
        8
    } else if e == 4 {
        16
    } else if e == 5 {
        32
    } else if e == 6 {
        64
    } else if e == 7 {
        128
    } else {
        256
    }
}

/// Extracts `size` packed `nbits`-wide index values from a byte row,
/// most significant bits of each byte first.
pub fn bit_index(bytes: &[u8], nbits: usize, size: usize) -> (r: Vec<usize>)
    requires
        nbits == 1 || nbits == 4 || nbits == 8,
        size * nbits <= bytes@.len() * 8,
    ensures
        r@.len() == size,
        forall|k: int|
            0 <= k < size ==> #[trigger] r@[k] == unpack_index(bytes@, nbits as int, k),
{
    let len: usize = bytes.len();
    let mut r: Vec<usize> = Vec::new();
    let mut k: usize = 0;
    // The byte index and the bit position inside that byte where the
    // next index starts.
    let mut n: usize = 0;
    let mut rem: usize = 0;
    while k < size
        invariant
            nbits == 1 || nbits == 4 || nbits == 8,
            size * nbits <= bytes@.len() * 8,
            len == bytes@.len(),
            k <= size,
            n == (k * nbits) / 8,
            rem == (k * nbits) % 8,
            rem % nbits == 0,
            rem < 8,
            r@.len() == k,
            forall|j: int|
                0 <= j < k ==> #[trigger] r@[j] == unpack_index(bytes@, nbits as int, j),
        decreases size - k,
    {
        proof {
            lemma_bit_cursor_in_row(k as int, nbits as int, size as int, len as int);
            assert(rem + nbits <= 8) by {
                if nbits == 8 {
                    assert(rem == 0);
                } else if nbits == 4 {
                    assert(rem == 0 || rem == 4);
                }
            }
            vstd::arithmetic::div_mod::lemma_fundamental_div_mod(k as int * nbits as int, 8);
        }
        let off: usize = 8 - nbits - rem;
        let block: usize = bytes[n] as usize;
        let val: usize = (block / pow2_small(off)) % pow2_small(nbits);
        r.push(val);
        proof {
            assert(val == unpack_index(bytes@, nbits as int, k as int));
        }
        k = k + 1;
        rem = rem + nbits;
        if rem == 8 {
            rem = 0;
            n = n + 1;
        }
        proof {
            vstd::arithmetic::div_mod::lemma_fundamental_div_mod_converse(
                k as int * nbits as int,
                8,
                n as int,
                rem as int,
            );
        }
    }
    r
}

/// While `k` indices of `size` remain inside a row of `len` bytes, the
/// byte the `k`-th index starts in lies inside the row.
#[verifier::nonlinear]
proof fn lemma_bit_cursor_in_row(k: int, nbits: int, size: int, len: int)
    requires
        1 <= nbits <= 8,
        0 <= k < size,
        size * nbits <= len * 8,
    ensures
        0 <= k * nbits,
        (k * nbits) / 8 < len,
        (k + 1) * nbits == k * nbits + nbits,
{
}

// Where the pixel data lies and what it decodes to.

/// The palette index of pixel `x` in disk row `yd` of packed pixel data
/// starting at `offset`.
pub open spec fn packed_index_at(b: Seq<u8>, offset: int, w: int, bpp: int, x: int, yd: int) -> int {
    let bit = x * bpp;
    let byte = b[offset + yd * packed_stride(w, bpp) + bit / 8];
    extract_bits(byte, 8 - bpp - bit % 8, bpp)
}

/// The color of pixel `x` in disk row `yd` of direct 24-bit pixel data
/// starting at `offset`: three bytes per pixel, ordered blue, green, red.
pub open spec fn direct_pixel_at(b: Seq<u8>, offset: int, w: int, x: int, yd: int) -> Pixel {
    let i = offset + yd * row_size(w) + 3 * x;
    Pixel { r: b[i + 2], g: b[i + 1], b: b[i] }
}

/// The on-disk bytes of one pixel row, padding included.
pub open spec fn parsed_stride(b: Seq<u8>) -> int {
    if has_palette(b) {
        packed_stride(parsed_width(b), parsed_bpp(b) as int)
    } else {
        row_size(parsed_width(b))
    }
}

/// One past the last byte of pixel data the buffer must hold.
pub open spec fn data_end(b: Seq<u8>) -> int {
    parsed_pixel_offset(b) + parsed_height(b) * parsed_stride(b)
}

/// The palette index stored for pixel `x` of disk row `yd`.
pub open spec fn packed_pixel_index(b: Seq<u8>, x: int, yd: int) -> int {
    packed_index_at(
        b,
        parsed_pixel_offset(b) as int,
        parsed_width(b),
        parsed_bpp(b) as int,
        x,
        yd,
    )
}

/// Every stored palette index refers to an entry the palette has.
pub open spec fn indexes_in_bounds(b: Seq<u8>) -> bool {
    forall|x: int, yd: int|
        0 <= x < parsed_width(b) && 0 <= yd < parsed_height(b) ==> #[trigger] packed_pixel_index(
            b,
            x,
            yd,
        ) < palette_len(b)
}

/// The color the buffer stores for visual position (x, y), with y = 0
/// the top row: disk rows are stored bottom-up.
pub open spec fn decoded_pixel(b: Seq<u8>, x: int, y: int) -> Pixel {
    let yd = parsed_height(b) - 1 - y;
    if has_palette(b) {
        palette_entry(b, packed_pixel_index(b, x, yd))
    } else {
        direct_pixel_at(b, parsed_pixel_offset(b) as int, parsed_width(b), x, yd)
    }
}

/// Why decoding a buffer fails, or `None` when it succeeds.  The checks
/// happen in the decoder's order: magic bytes, header completeness,
/// version, bit depth, compression, palette completeness, dimension
/// range, pixel-data completeness, palette index range.
pub open spec fn decode_err(b: Seq<u8>) -> Option<BmpErrorKind> {
    if !magic_ok(b) {
        Some(BmpErrorKind::WrongMagicNumbers)
    } else if b.len() < 54 {
        Some(BmpErrorKind::BmpIoError)
    } else if !version_supported(b) {
        if version_recognized(b) {
            Some(BmpErrorKind::UnsupportedBmpVersion)
        } else {
            Some(BmpErrorKind::Other)
        }
    } else if !bpp_ok(b) {
        Some(BmpErrorKind::UnsupportedBitsPerPixel)
    } else if !compress_ok(b) {
        Some(BmpErrorKind::UnsupportedCompressionType)
    } else if has_palette(b) && palette_end(b) > b.len() {
        Some(BmpErrorKind::BmpIoError)
    } else if !dims_in_range(b) {
        Some(BmpErrorKind::Other)
    } else if data_end(b) > b.len() {
        Some(BmpErrorKind::BmpIoError)
    } else if has_palette(b) && !indexes_in_bounds(b) {
        Some(BmpErrorKind::Other)
    } else {
        None
    }
}

// The verified reading functions.

/// Checks the two magic bytes at the start of the buffer.
fn read_bmp_id(b: &Vec<u8>) -> (r: BmpResult<()>)
    ensures
        r is Ok <==> magic_ok(b@),
        r matches Err(e) ==> e.kind == BmpErrorKind::WrongMagicNumbers,
{
    let n = b.len();
    if n >= 2 && b[0] == 66 && b[1] == 77 {
        Ok(())
    } else {
        Err(
            BmpError::new(
                BmpErrorKind::WrongMagicNumbers,
                "expected the magic bytes 'B', 'M'",
            ),
        )
    }
}

/// Reads the file header at offsets 2..14.
fn read_bmp_header(b: &Vec<u8>) -> (r: BmpResult<BmpHeader>)
    ensures
        r is Ok <==> b@.len() >= 14,
        r matches Ok(h) ==> h == parsed_header(b@),
        r matches Err(e) ==> e.kind == BmpErrorKind::BmpIoError,
{
    let n = b.len();
    if n < 14 {
        return Err(
            BmpError::new(BmpErrorKind::BmpIoError, "buffer ends inside the file header"),
        );
    }
    Ok(
        BmpHeader {
            file_size: read_u32_at(b, 2),
            creator1: read_u16_at(b, 6),
            creator2: read_u16_at(b, 8),
            pixel_offset: read_u32_at(b, 10),
        },
    )
}

/// Reads the DIB header at offsets 14..54 and checks version, bit depth
/// and compression, in that order.
fn read_bmp_dib_header(b: &Vec<u8>) -> (r: BmpResult<BmpDibHeader>)
    ensures
        r is Ok <==> (b@.len() >= 54 && version_supported(b@) && bpp_ok(b@) && compress_ok(b@)),
        r matches Ok(d) ==> d == parsed_dib(b@),
        r matches Err(e) ==> e.kind == (if b@.len() < 54 {
            BmpErrorKind::BmpIoError
        } else if !version_supported(b@) {
            if version_recognized(b@) {
                BmpErrorKind::UnsupportedBmpVersion
            } else {
                BmpErrorKind::Other
            }
        } else if !bpp_ok(b@) {
            BmpErrorKind::UnsupportedBitsPerPixel
        } else {
            BmpErrorKind::UnsupportedCompressionType
        }),
{
    let n = b.len();
    if n < 54 {
        return Err(
            BmpError::new(BmpErrorKind::BmpIoError, "buffer ends inside the DIB header"),
        );
    }
    let dib_header = BmpDibHeader {
        header_size: read_u32_at(b, 14),
        width: read_i32_at(b, 18),
        height: read_i32_at(b, 22),
        num_planes: read_u16_at(b, 26),
        bits_per_pixel: read_u16_at(b, 28),
        compress_type: read_u32_at(b, 30),
        data_size: read_u32_at(b, 34),
        hres: read_i32_at(b, 38),
        vres: read_i32_at(b, 42),
        num_colors: read_u32_at(b, 46),
        num_imp_colors: read_u32_at(b, 50),
    };

    match BmpVersion::from_dib_header(&dib_header) {
        Some(BmpVersion::Three) | Some(BmpVersion::Four) | Some(BmpVersion::Five) => (),
        Some(other) => {
            return Err(BmpError::new(BmpErrorKind::UnsupportedBmpVersion, other.as_str()));
        },
        None => {
            return Err(BmpError::new(BmpErrorKind::Other, "unrecognized DIB header size"));
        },
    }

    match dib_header.bits_per_pixel {
        1 | 4 | 8 | 24 => (),
        _ => {
            return Err(
                BmpError::new(
                    BmpErrorKind::UnsupportedBitsPerPixel,
                    "bits per pixel not one of 1, 4, 8, 24",
                ),
            );
        },
    }

    match CompressionType::from_u32(dib_header.compress_type) {
        CompressionType::Uncompressed => (),
        other => {
            return Err(
                BmpError::new(BmpErrorKind::UnsupportedCompressionType, other.as_str()),
            );
        },
    }

    Ok(dib_header)
}

/// Reads the color palette that follows the DIB header, when the pixel
/// encoding uses one.
fn read_color_palette(b: &Vec<u8>, dib: &BmpDibHeader) -> (r: BmpResult<Option<Vec<Pixel>>>)
    requires
        b@.len() >= 54,
        *dib == parsed_dib(b@),
        dib.header_size == 40 || dib.header_size == 108 || dib.header_size == 124,
        bpp_ok(b@),
    ensures
        !has_palette(b@) ==> r == Ok::<Option<Vec<Pixel>>, BmpError>(None::<Vec<Pixel>>),
        has_palette(b@) && palette_end(b@) > b@.len() ==> (r is Err && (r matches Err(e)
            ==> e.kind == BmpErrorKind::BmpIoError)),
        has_palette(b@) && palette_end(b@) <= b@.len() ==> (r matches Ok(op) && op matches Some(p)
            && p@.len() == palette_len(b@) && (forall|j: int|
            0 <= j < palette_len(b@) ==> #[trigger] p@[j] == palette_entry(b@, j))),
{
    let n = b.len();
    if dib.bits_per_pixel == 24 {
        return Ok(None);
    }
    let num_entries: u64 = if dib.num_colors != 0 {
        dib.num_colors as u64
    } else if dib.bits_per_pixel == 1 {
        2
    } else if dib.bits_per_pixel == 4 {
        16
    } else {
        256
    };
    proof {
        assert(num_entries == palette_len(b@));
    }
    let pal_off: u64 = 14 + dib.header_size as u64;
    let end: u64 = pal_off + 4 * num_entries;
    if end > n as u64 {
        return Err(
            BmpError::new(BmpErrorKind::BmpIoError, "buffer ends inside the color palette"),
        );
    }
    let mut palette: Vec<Pixel> = Vec::new();
    let mut j: u64 = 0;
    while j < num_entries
        invariant
            n == b@.len(),
            pal_off == 14 + parsed_header_size(b@),
            num_entries == palette_len(b@),
            end == pal_off + 4 * num_entries,
            end <= n,
            j <= num_entries,
            palette@.len() == j,
            forall|jj: int| 0 <= jj < j ==> #[trigger] palette@[jj] == palette_entry(b@, jj),
        decreases num_entries - j,
    {
        let off: usize = (pal_off + 4 * j) as usize;
        palette.push(Pixel { r: b[off + 2], g: b[off + 1], b: b[off] });
        j = j + 1;
    }
    Ok(Some(palette))
}

/// The bytes one pixel of one row occupies stay below the checked total
/// size of direct 24-bit pixel data.
#[verifier::nonlinear]
proof fn lemma_direct_cursor(st: int, w: int, h: int, x: int, yd: int)
    requires
        st == 3 * w + w % 4,
        0 <= x < w,
        0 <= yd < h,
    ensures
        0 <= yd * st,
        yd * st + 3 * x + 2 < h * st,
        (yd + 1) * st == yd * st + st,
{
}

/// Positions in earlier rows stay below the current row's start in a
/// row-major buffer.
#[verifier::nonlinear]
proof fn lemma_row_major_lt(w: int, x2: int, y2: int, yd: int)
    requires
        0 <= x2 < w,
        0 <= y2 < yd,
    ensures
        0 <= y2 * w + x2 < yd * w,
        (yd + 1) * w == yd * w + w,
{
}

/// Reads direct 24-bit pixel data: `height` rows of `width` pixels of
/// three bytes each (blue, green, red), rows padded to four bytes.
fn read_pixels(b: &Vec<u8>, width: u32, height: u32, offset: u32) -> (r: BmpResult<Vec<Pixel>>)
    requires
        width <= i32::MAX as u32,
        height <= i32::MAX as u32,
    ensures
        r is Ok <==> offset + height * row_size(width as int) <= b@.len(),
        r matches Err(e) ==> e.kind == BmpErrorKind::BmpIoError,
        r matches Ok(data) ==> {
            &&& data@.len() == width * height
            &&& forall|x: int, yd: int|
                0 <= x < width && 0 <= yd < height ==> #[trigger] data@[yd * width + x]
                    == direct_pixel_at(b@, offset as int, width as int, x, yd)
        },
{
    let n = b.len();
    let w64 = width as u64;
    let st: u64 = 3 * w64 + w64 % 4;
    proof {
        lemma_size_product_fits(height as int, st as int);
    }
    let needed: u64 = offset as u64 + (height as u64) * st;
    if needed > n as u64 {
        return Err(
            BmpError::new(BmpErrorKind::BmpIoError, "buffer ends inside the pixel data"),
        );
    }
    let mut data: Vec<Pixel> = Vec::new();
    let mut yd: u32 = 0;
    while yd < height
        invariant
            n == b@.len(),
            st == row_size(width as int),
            needed == offset + height * st,
            needed <= n,
            width <= i32::MAX as u32,
            height <= i32::MAX as u32,
            yd <= height,
            data@.len() == yd * width,
            forall|x2: int, y2: int|
                0 <= x2 < width && 0 <= y2 < yd ==> #[trigger] data@[y2 * width + x2]
                    == direct_pixel_at(b@, offset as int, width as int, x2, y2),
        decreases height - yd,
    {
        proof {
            lemma_size_product_fits(yd as int, st as int);
            lemma_mul_le(yd as int, height as int, st as int);
        }
        let row_base: u64 = offset as u64 + (yd as u64) * st;
        let mut x: u32 = 0;
        while x < width
            invariant
                n == b@.len(),
                st == row_size(width as int),
                needed == offset + height * st,
                needed <= n,
                width <= i32::MAX as u32,
                height <= i32::MAX as u32,
                yd < height,
                x <= width,
                row_base == offset + yd * st,
                data@.len() == yd * width + x,
                forall|x2: int, y2: int|
                    0 <= x2 < width && 0 <= y2 < yd ==> #[trigger] data@[y2 * width + x2]
                        == direct_pixel_at(b@, offset as int, width as int, x2, y2),
                forall|x2: int|
                    0 <= x2 < x ==> #[trigger] data@[yd * width + x2] == direct_pixel_at(
                        b@,
                        offset as int,
                        width as int,
                        x2,
                        yd as int,
                    ),
            decreases width - x,
        {
            proof {
                lemma_direct_cursor(
                    st as int,
                    width as int,
                    height as int,
                    x as int,
                    yd as int,
                );
            }
            let i: usize = (row_base + 3 * (x as u64)) as usize;
            let px = Pixel { r: b[i + 2], g: b[i + 1], b: b[i] };
            data.push(px);
            proof {
                assert forall|x2: int, y2: int|
                    0 <= x2 < width && 0 <= y2 < yd implies #[trigger] data@[y2 * width + x2]
                    == direct_pixel_at(b@, offset as int, width as int, x2, y2) by {
                    lemma_row_major_lt(width as int, x2, y2, yd as int);
                }
            }
            x = x + 1;
        }
        proof {
            lemma_mul_distrib(yd as int, width as int);
        }
        yd = yd + 1;
    }
    proof {
        assert(data@.len() == width * height) by (nonlinear_arith)
            requires
                data@.len() == height * width,
        ;
    }
    Ok(data)
}

/// Distributing a row step over a row-major index.
#[verifier::nonlinear]
proof fn lemma_mul_distrib(a: int, w: int)
    ensures
        (a + 1) * w == a * w + w,
{
}

/// Multiplying by a nonnegative row size preserves a row-count bound.
#[verifier::nonlinear]
proof fn lemma_mul_le(a: int, b: int, c: int)
    requires
        0 <= a <= b,
        0 <= c,
    ensures
        a * c <= b * c,
{
}

/// Where the bits of index `x` sit inside a packed row: within the
/// row's unpadded bytes, which the whole row's bits bound.
proof fn lemma_packed_x(w: int, bpp: int, x: int)
    requires
        1 <= bpp <= 8,
        0 <= x < w,
    ensures
        0 <= x * bpp,
        (x * bpp) / 8 < packed_row_bytes(w, bpp),
        w * bpp <= packed_row_bytes(w, bpp) * 8,
{
    let rb = packed_row_bytes(w, bpp);
    vstd::arithmetic::div_mod::lemma_fundamental_div_mod(w * bpp + 7, 8);
    assert(0 <= (w * bpp + 7) % 8 < 8) by {
        vstd::arithmetic::div_mod::lemma_mod_bound(w * bpp + 7, 8);
    }
    assert(w * bpp >= w) by (nonlinear_arith)
        requires
            bpp >= 1 && w >= 0,
    ;
    assert(x * bpp <= w * bpp - bpp) by (nonlinear_arith)
        requires
            x <= w - 1 && bpp >= 1,
    ;
    assert(x * bpp >= 0) by (nonlinear_arith)
        requires
            x >= 0 && bpp >= 0,
    ;
    vstd::arithmetic::div_mod::lemma_div_is_ordered(x * bpp, w * bpp - 1, 8);
    vstd::arithmetic::div_mod::lemma_div_plus_one(w * bpp - 1, 8);
    assert(1 + (w * bpp - 1) / 8 == (w * bpp + 7) / 8);
}

/// A packed row, padding included, keeps its unpadded bytes.
proof fn lemma_packed_stride(w: int, bpp: int)
    requires
        1 <= bpp <= 8,
        0 <= w,
    ensures
        0 <= packed_row_bytes(w, bpp) <= packed_stride(w, bpp),
        packed_stride(w, bpp) <= packed_row_bytes(w, bpp) + 3,
{
    vstd::arithmetic::div_mod::lemma_fundamental_div_mod(w * bpp + 7, 8);
    assert(0 <= (w * bpp + 7) % 8 < 8) by {
        vstd::arithmetic::div_mod::lemma_mod_bound(w * bpp + 7, 8);
    }
    assert(w * bpp >= 0) by (nonlinear_arith)
        requires
            bpp >= 1 && w >= 0,
    ;
}

/// Reads packed palette-indexed pixel data: `height` rows of `width`
/// indices of `bpp` bits each, rows padded to four bytes, each index
/// looked up in the palette.
fn read_indexes(
    b: &Vec<u8>,
    palette: &Vec<Pixel>,
    width: u32,
    height: u32,
    bpp: u16,
    offset: u32,
) -> (r: BmpResult<Vec<Pixel>>)
    requires
        bpp == 1 || bpp == 4 || bpp == 8,
        width <= i32::MAX as u32,
        height <= i32::MAX as u32,
    ensures
        r is Ok <==> (offset + height * packed_stride(width as int, bpp as int) <= b@.len()
            && (forall|x: int, yd: int|
            0 <= x < width && 0 <= yd < height ==> #[trigger] packed_index_at(
                b@,
                offset as int,
                width as int,
                bpp as int,
                x,
                yd,
            ) < palette@.len())),
        r matches Ok(data) ==> {
            &&& data@.len() == width * height
            &&& forall|x: int, yd: int|
                0 <= x < width && 0 <= yd < height ==> #[trigger] data@[yd * width + x]
                    == palette@[packed_index_at(
                    b@,
                    offset as int,
                    width as int,
                    bpp as int,
                    x,
                    yd,
                )]
        },
        r matches Err(e) ==> e.kind == (if offset + height * packed_stride(
            width as int,
            bpp as int,
        ) > b@.len() {
            BmpErrorKind::BmpIoError
        } else {
            BmpErrorKind::Other
        }),
{
    let n = b.len();
    let w64 = width as u64;
    proof {
        assert(w64 * (bpp as u64) <= 0x3_FFFF_FFF8) by (nonlinear_arith)
            requires
                w64 <= 0x7FFF_FFFF && bpp <= 8,
        ;
    }
    let rb: u64 = (w64 * (bpp as u64) + 7) / 8;
    let pad: u64 = (4 - rb % 4) % 4;
    let st: u64 = rb + pad;
    proof {
        assert(st == packed_stride(width as int, bpp as int));
        lemma_packed_stride(width as int, bpp as int);
        vstd::arithmetic::div_mod::lemma_div_is_ordered(
            w64 * (bpp as u64) + 7,
            0x3_FFFF_FFFF,
            8,
        );
        assert(st <= 0x8000_0002);
        lemma_size_product_fits(height as int, st as int);
    }
    let needed: u64 = offset as u64 + (height as u64) * st;
    if needed > n as u64 {
        return Err(
            BmpError::new(BmpErrorKind::BmpIoError, "buffer ends inside the pixel data"),
        );
    }
    let mut data: Vec<Pixel> = Vec::new();
    let mut yd: u32 = 0;
    while yd < height
        invariant
            n == b@.len(),
            bpp == 1 || bpp == 4 || bpp == 8,
            rb == packed_row_bytes(width as int, bpp as int),
            st == packed_stride(width as int, bpp as int),
            rb <= st,
            st <= 0x8000_0002,
            needed == offset + height * st,
            needed <= n,
            width <= i32::MAX as u32,
            height <= i32::MAX as u32,
            yd <= height,
            data@.len() == yd * width,
            forall|x2: int, y2: int|
                0 <= x2 < width && 0 <= y2 < yd ==> #[trigger] packed_index_at(
                    b@,
                    offset as int,
                    width as int,
                    bpp as int,
                    x2,
                    y2,
                ) < palette@.len(),
            forall|x2: int, y2: int|
                0 <= x2 < width && 0 <= y2 < yd ==> #[trigger] data@[y2 * width + x2]
                    == palette@[packed_index_at(
                    b@,
                    offset as int,
                    width as int,
                    bpp as int,
                    x2,
                    y2,
                )],
        decreases height - yd,
    {
        proof {
            lemma_size_product_fits(yd as int, st as int);
            lemma_mul_le(yd as int, height as int, st as int);
            lemma_direct_row_window(st as int, rb as int, height as int, yd as int);
        }
        let start: u64 = offset as u64 + (yd as u64) * st;
        let row = vstd::slice::slice_subrange(
            b.as_slice(),
            start as usize,
            (start + rb) as usize,
        );
        proof {
            lemma_packed_row_bits(width as int, bpp as int);
        }
        let idxs = bit_index(row, bpp as usize, width as usize);
        proof {
            assert forall|k: int| 0 <= k < width implies #[trigger] idxs@[k] == packed_index_at(
                b@,
                offset as int,
                width as int,
                bpp as int,
                k,
                yd as int,
            ) by {
                lemma_packed_x(width as int, bpp as int, k);
                assert(row@[(k * bpp) / 8] == b@[start + (k * bpp) / 8]);
            }
        }
        let mut x: u32 = 0;
        while x < width
            invariant
                n == b@.len(),
                bpp == 1 || bpp == 4 || bpp == 8,
                width <= i32::MAX as u32,
                height <= i32::MAX as u32,
                yd < height,
                x <= width,
                st == packed_stride(width as int, bpp as int),
                needed == offset + height * st,
                needed <= n,
                n == b@.len(),
                idxs@.len() == width,
                forall|k: int|
                    0 <= k < width ==> #[trigger] idxs@[k] == packed_index_at(
                        b@,
                        offset as int,
                        width as int,
                        bpp as int,
                        k,
                        yd as int,
                    ),
                data@.len() == yd * width + x,
                forall|x2: int, y2: int|
                    0 <= x2 < width && 0 <= y2 < yd ==> #[trigger] packed_index_at(
                        b@,
                        offset as int,
                        width as int,
                        bpp as int,
                        x2,
                        y2,
                    ) < palette@.len(),
                forall|x2: int|
                    0 <= x2 < x ==> #[trigger] packed_index_at(
                        b@,
                        offset as int,
                        width as int,
                        bpp as int,
                        x2,
                        yd as int,
                    ) < palette@.len(),
                forall|x2: int, y2: int|
                    0 <= x2 < width && 0 <= y2 < yd ==> #[trigger] data@[y2 * width + x2]
                        == palette@[packed_index_at(
                        b@,
                        offset as int,
                        width as int,
                        bpp as int,
                        x2,
                        y2,
                    )],
                forall|x2: int|
                    0 <= x2 < x ==> #[trigger] data@[yd * width + x2]
                        == palette@[packed_index_at(
                        b@,
                        offset as int,
                        width as int,
                        bpp as int,
                        x2,
                        yd as int,
                    )],
            decreases width - x,
        {
            let ival: usize = idxs[x as usize];
            if ival >= palette.len() {
                proof {
                    assert(packed_index_at(
                        b@,
                        offset as int,
                        width as int,
                        bpp as int,
                        x as int,
                        yd as int,
                    ) >= palette@.len());
                }
                return Err(
                    BmpError::new(
                        BmpErrorKind::Other,
                        "palette index out of range in the pixel data",
                    ),
                );
            }
            data.push(palette[ival]);
            proof {
                assert forall|x2: int, y2: int|
                    0 <= x2 < width && 0 <= y2 < yd implies #[trigger] data@[y2 * width + x2]
                    == palette@[packed_index_at(
                    b@,
                    offset as int,
                    width as int,
                    bpp as int,
                    x2,
                    y2,
                )] by {
                    lemma_row_major_lt(width as int, x2, y2, yd as int);
                }
            }
            x = x + 1;
        }
        proof {
            lemma_mul_distrib(yd as int, width as int);
        }
        yd = yd + 1;
    }
    proof {
        assert(data@.len() == width * height) by (nonlinear_arith)
            requires
                data@.len() == height * width,
        ;
    }
    Ok(data)
}

/// A packed row's bytes hold at least the bits of all its indices.
proof fn lemma_packed_row_bits(w: int, bpp: int)
    requires
        1 <= bpp <= 8,
        0 <= w,
    ensures
        w * bpp <= packed_row_bytes(w, bpp) * 8,
{
    if w > 0 {
        lemma_packed_x(w, bpp, 0);
    } else {
        assert(w * bpp == 0) by (nonlinear_arith)
            requires
                w == 0,
        ;
        vstd::arithmetic::div_mod::lemma_fundamental_div_mod(w * bpp + 7, 8);
        assert(0 <= (w * bpp + 7) % 8 < 8) by {
            vstd::arithmetic::div_mod::lemma_mod_bound(w * bpp + 7, 8);
        }
    }
}

/// One padded row starting at row `yd` stays inside the checked total
/// size of the pixel data.
#[verifier::nonlinear]
proof fn lemma_direct_row_window(st: int, rb: int, h: int, yd: int)
    requires
        0 <= rb <= st,
        0 <= yd < h,
    ensures
        0 <= yd * st,
        yd * st + rb <= h * st,
{
}

/// A row count times a row size stays within the unsigned 64-bit range
/// used for the size check.
#[verifier::nonlinear]
proof fn lemma_size_product_fits(h: int, st: int)
    requires
        0 <= h < 0x8000_0000,
        0 <= st <= 0x1_8000_0004,
    ensures
        0 <= h * st <= 0xC000_0001_0000_0000,
{
}

/// Decodes a raw BMP byte buffer into an `Image`.
///
/// On success the image carries the file header and the DIB header as
/// they were stored, the color palette when the pixel encoding uses one,
/// and the pixel grid; the flat buffer keeps the file's bottom-up row
/// order, which the image accessors flip back.  On failure the error's
/// kind names the first check that rejected the buffer, exactly as
/// `decode_err` describes.
#[verifier::rlimit(100)]
pub fn decode_image(bmp_data: &Vec<u8>) -> (r: BmpResult<Image>)
    ensures
        r is Ok <==> decode_err(bmp_data@) is None,
        r matches Err(e) ==> decode_err(bmp_data@) == Some(e.kind),
        r matches Ok(img) ==> {
            &&& img.wf()
            &&& img.width == parsed_width(bmp_data@)
            &&& img.height == parsed_height(bmp_data@)
            &&& img.padding == parsed_width(bmp_data@) % 4
            &&& img.header == parsed_header(bmp_data@)
            &&& img.dib_header == parsed_dib(bmp_data@)
            &&& (img.color_palette is Some <==> has_palette(bmp_data@))
            &&& (img.color_palette matches Some(p) ==> p@.len() == palette_len(bmp_data@) && (
            forall|j: int|
                0 <= j < palette_len(bmp_data@) ==> #[trigger] p@[j] == palette_entry(
                    bmp_data@,
                    j,
                )))
            &&& forall|x: int, y: int|
                0 <= x < img.width && 0 <= y < img.height ==> #[trigger] img.pixel_at(x, y)
                    == decoded_pixel(bmp_data@, x, y)
        },
{
    let b = bmp_data;
    match read_bmp_id(b) {
        Ok(id) => id,
        Err(e) => {
            return Err(e);
        },
    }
    let header = match read_bmp_header(b) {
        Ok(h) => h,
        Err(e) => {
            return Err(e);
        },
    };
    let dib_header = match read_bmp_dib_header(b) {
        Ok(d) => d,
        Err(e) => {
            return Err(e);
        },
    };
    proof {
        crate::bytes::lemma_signed32_roundtrip();
        assert(dib_header.width as int == sle32_at(b@, 18));
        assert(dib_header.height as int == sle32_at(b@, 22));
    }
    let color_palette = match read_color_palette(b, &dib_header) {
        Ok(p) => p,
        Err(e) => {
            return Err(e);
        },
    };
    if dib_header.width == i32::MIN || dib_header.height == i32::MIN {
        return Err(BmpError::new(BmpErrorKind::Other, "image dimensions out of range"));
    }
    let width: u32 = if dib_header.width < 0 {
        (-dib_header.width) as u32
    } else {
        dib_header.width as u32
    };
    let height: u32 = if dib_header.height < 0 {
        (-dib_header.height) as u32
    } else {
        dib_header.height as u32
    };

    let data = match &color_palette {
        Some(palette) => {
            match read_indexes(b, palette, width, height, dib_header.bits_per_pixel,
                header.pixel_offset) {
                Ok(d) => d,
                Err(e) => {
                    proof {
                        let bb = b@;
                        let st = packed_stride(width as int, dib_header.bits_per_pixel as int);
                        assert(data_end(bb) == header.pixel_offset + height * st);
                        if header.pixel_offset + height * st <= bb.len()
                            && indexes_in_bounds(bb) {
                            assert forall|x: int, yd: int|
                                0 <= x < width && 0 <= yd < height implies #[trigger] packed_index_at(
                                bb,
                                header.pixel_offset as int,
                                width as int,
                                dib_header.bits_per_pixel as int,
                                x,
                                yd,
                            ) < palette@.len() by {
                                assert(packed_pixel_index(bb, x, yd) < palette_len(bb));
                            }
                            assert(false);
                        }
                    }
                    return Err(e);
                },
            }
        },
        None => {
            match read_pixels(b, width, height, header.pixel_offset) {
                Ok(d) => d,
                Err(e) => {
                    return Err(e);
                },
            }
        },
    };

    let img = Image {
        header,
        dib_header,
        color_palette,
        width,
        height,
        padding: width % 4,
        data,
    };
    proof {
        let bb = bmp_data@;
        assert forall|x: int, y: int|
            0 <= x < img.width && 0 <= y < img.height implies #[trigger] img.pixel_at(x, y)
            == decoded_pixel(bb, x, y) by {
            let yd = img.height - 1 - y;
            assert(img.buf_index(x, y) == yd * img.width + x);
            assert(0 <= yd < img.height);
            if has_palette(bb) {
                let p = img.color_palette->Some_0;
                let j = packed_pixel_index(bb, x, yd);
                assert(data@[yd * width + x] == p@[packed_index_at(
                    bb,
                    header.pixel_offset as int,
                    width as int,
                    dib_header.bits_per_pixel as int,
                    x,
                    yd,
                )]);
                assert(j == packed_index_at(
                    bb,
                    header.pixel_offset as int,
                    width as int,
                    dib_header.bits_per_pixel as int,
                    x,
                    yd,
                ));
                assert(j < palette_len(bb));
                assert(0 <= j) by {
                    vstd::arithmetic::power2::lemma2_to64();
                }
                assert(p@[j] == palette_entry(bb, j));
            } else {
                assert(data@[yd * width + x] == direct_pixel_at(
                    bb,
                    header.pixel_offset as int,
                    width as int,
                    x,
                    yd,
                ));
            }
        }
        assert(decode_err(bb) is None);
    }
    Ok(img)
}

} // verus!
