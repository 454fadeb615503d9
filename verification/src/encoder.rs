//! Encoding an `Image` into a BMP byte stream.
//!
//! The encoder always emits an uncompressed 24-bit version 3 file:
//! two magic bytes, the 12-byte file header, the 40-byte DIB header and
//! the pixel rows, bottom row first, each row padded to four bytes.
//! `spec_encode` states the exact byte sequence; `encode_image` is
//! verified to produce it.

use vstd::prelude::*;
use vstd::bytes::{
    spec_u16_to_le_bytes, spec_u32_to_le_bytes, lemma_auto_spec_u16_to_from_le_bytes,
    lemma_auto_spec_u32_to_from_le_bytes,
};

use crate::bytes::{push_u16_le, push_u32_le, push_i32_le, unsigned32};
use crate::{dims_ok, row_size, Image};

verus! {

/// The pixel-array byte count of an uncompressed 24-bit image.
pub open spec fn spec_data_size(img: Image) -> int {
    img.height * row_size(img.width as int)
}

/// The 54 header bytes the encoder writes: the magic bytes, the file
/// header with the computed file size and pixel offset 54, and a
/// version 3 DIB header announcing uncompressed 24-bit pixels.  The
/// creator fields and the resolution pass through from the image.
pub open spec fn spec_header_bytes(img: Image) -> Seq<u8> {
    seq![66u8, 77u8] + spec_u32_to_le_bytes((54 + spec_data_size(img)) as u32)
        + spec_u16_to_le_bytes(img.header.creator1) + spec_u16_to_le_bytes(img.header.creator2)
        + spec_u32_to_le_bytes(54u32) + spec_u32_to_le_bytes(40u32) + spec_u32_to_le_bytes(
        img.width,
    ) + spec_u32_to_le_bytes(img.height) + spec_u16_to_le_bytes(1u16) + spec_u16_to_le_bytes(
        24u16,
    ) + spec_u32_to_le_bytes(0u32) + spec_u32_to_le_bytes(spec_data_size(img) as u32)
        + spec_u32_to_le_bytes(unsigned32(img.dib_header.hres)) + spec_u32_to_le_bytes(
        unsigned32(img.dib_header.vres),
    ) + spec_u32_to_le_bytes(0u32) + spec_u32_to_le_bytes(0u32)
}

/// Byte `i` of the encoded pixel array: rows of three bytes per pixel
/// (blue, green, red) followed by zero padding, in the buffer's
/// bottom-up row order.
pub open spec fn pixel_byte(img: Image, i: int) -> u8 {
    let st = row_size(img.width as int);
    let yd = i / st;
    let j = i % st;
    if j < 3 * img.width {
        let p = img.data@[yd * img.width + j / 3];
        if j % 3 == 0 {
            p.b
        } else if j % 3 == 1 {
            p.g
        } else {
            p.r
        }
    } else {
        0u8
    }
}

/// The encoded pixel array.
pub open spec fn spec_pixel_bytes(img: Image) -> Seq<u8> {
    Seq::new(spec_data_size(img) as nat, |i: int| pixel_byte(img, i))
}

/// The full encoded file: headers, then the pixel array.
pub open spec fn spec_encode(img: Image) -> Seq<u8> {
    spec_header_bytes(img) + spec_pixel_bytes(img)
}

/// The encoder's header block is 54 bytes long.
pub proof fn lemma_header_len(img: Image)
    ensures
        spec_header_bytes(img).len() == 54,
{
    lemma_auto_spec_u16_to_from_le_bytes();
    lemma_auto_spec_u32_to_from_le_bytes();
}

/// Appending the next byte of a sequence extends a prefix of it by one.
proof fn lemma_concat_push(a: Seq<u8>, s: Seq<u8>, k: int)
    requires
        0 <= k < s.len(),
    ensures
        (a + s.subrange(0, k)).push(s[k]) == a + s.subrange(0, k + 1),
{
    assert((a + s.subrange(0, k)).push(s[k]) =~= a + s.subrange(0, k + 1));
}

/// Which pixel byte sits at position `yd * stride + j` of the pixel
/// array: position `j` of disk row `yd`.
proof fn lemma_pixel_byte_at(img: Image, yd: int, j: int)
    requires
        img.wf(),
        0 <= yd < img.height,
        0 <= j < row_size(img.width as int),
    ensures
        yd * row_size(img.width as int) + j < spec_data_size(img),
        pixel_byte(img, yd * row_size(img.width as int) + j) == (if j < 3 * img.width {
            let p = img.data@[yd * img.width + j / 3];
            if j % 3 == 0 {
                p.b
            } else if j % 3 == 1 {
                p.g
            } else {
                p.r
            }
        } else {
            0u8
        }),
{
    let st = row_size(img.width as int);
    let k = yd * st + j;
    vstd::arithmetic::div_mod::lemma_fundamental_div_mod_converse(k, st, yd, j);
    assert((yd + 1) * st == yd * st + st) by (nonlinear_arith);
    vstd::arithmetic::mul::lemma_mul_inequality(yd + 1, img.height as int, st);
}

/// The three bytes of pixel `x` sit at positions `3 * x` to `3 * x + 2`
/// of their row.
proof fn lemma_pixel_in_row(w: int, x: int, c: int)
    requires
        0 <= x < w,
        0 <= c < 3,
    ensures
        (3 * x + c) / 3 == x,
        (3 * x + c) % 3 == c,
        3 * x + c < 3 * w,
{
    vstd::arithmetic::div_mod::lemma_fundamental_div_mod_converse(3 * x + c, 3, x, c);
}

/// Writes the 54 header bytes.
fn write_header(bmp_data: &mut Vec<u8>, img: &Image)
    requires
        old(bmp_data)@.len() == 0,
        img.wf(),
        dims_ok(img.width as int, img.height as int),
    ensures
        final(bmp_data)@ == spec_header_bytes(*img),
{
    let rs: u64 = 3 * (img.width as u64) + (img.width as u64) % 4;
    let data_size: u32 = ((img.height as u64) * rs) as u32;

    bmp_data.push(66);
    bmp_data.push(77);
    proof {
        assert(bmp_data@ =~= seq![66u8, 77u8]);
    }
    push_u32_le(bmp_data, 54 + data_size);
    push_u16_le(bmp_data, img.header.creator1);
    push_u16_le(bmp_data, img.header.creator2);
    push_u32_le(bmp_data, 54);  // pixel offset

    push_u32_le(bmp_data, 40);  // DIB header size
    push_u32_le(bmp_data, img.width);
    push_u32_le(bmp_data, img.height);
    push_u16_le(bmp_data, 1);  // planes
    push_u16_le(bmp_data, 24);  // bits per pixel
    push_u32_le(bmp_data, 0);  // compression
    push_u32_le(bmp_data, data_size);
    push_i32_le(bmp_data, img.dib_header.hres);
    push_i32_le(bmp_data, img.dib_header.vres);
    push_u32_le(bmp_data, 0);  // colors in palette
    push_u32_le(bmp_data, 0);  // important colors
}

/// Writes the pixel rows in the buffer's bottom-up order, each padded
/// with zero bytes to a multiple of four.
fn write_data(bmp_data: &mut Vec<u8>, img: &Image)
    requires
        img.wf(),
        dims_ok(img.width as int, img.height as int),
        old(bmp_data)@ == spec_header_bytes(*img),
    ensures
        final(bmp_data)@ == spec_encode(*img),
{
    let width = img.width;
    let height = img.height;
    let st: u64 = 3 * (width as u64) + (width as u64) % 4;
    proof {
        lemma_header_len(*img);
    }
    let mut yd: u32 = 0;
    while yd < height
        invariant
            img.wf(),
            width == img.width,
            height == img.height,
            st == row_size(width as int),
            yd <= height,
            bmp_data@ == spec_header_bytes(*img) + spec_pixel_bytes(*img).subrange(
                0,
                yd * st,
            ),
        decreases height - yd,
    {
        proof {
            lemma_header_len(*img);
            vstd::arithmetic::mul::lemma_mul_inequality(
                yd as int + 1,
                height as int,
                st as int,
            );
            assert((yd + 1) * st == yd * st + st) by (nonlinear_arith);
        }
        let mut x: u32 = 0;
        while x < width
            invariant
                img.wf(),
                width == img.width,
                height == img.height,
                st == row_size(width as int),
                yd < height,
                x <= width,
                (yd + 1) * st <= spec_data_size(*img),
                bmp_data@ == spec_header_bytes(*img) + spec_pixel_bytes(*img).subrange(
                    0,
                    yd * st + 3 * x,
                ),
            decreases width - x,
        {
            proof {
                lemma_write_pixel(*img, yd as int, x as int);
            }
            let n: usize = img.data.len();
            proof {
                crate::lemma_buf_index_in_grid(width as int, height as int, x as int, yd as int);
            }
            let idx: u64 = (yd as u64) * (width as u64) + (x as u64);
            proof {
                assert(idx < n);
            }
            let px = img.data[idx as usize];
            bmp_data.push(px.b);
            bmp_data.push(px.g);
            bmp_data.push(px.r);
            x = x + 1;
        }
        let mut t: u32 = 0;
        let pad: u32 = width % 4;
        while t < pad
            invariant
                img.wf(),
                width == img.width,
                height == img.height,
                st == row_size(width as int),
                yd < height,
                pad == width as int % 4,
                t <= pad,
                (yd + 1) * st <= spec_data_size(*img),
                bmp_data@ == spec_header_bytes(*img) + spec_pixel_bytes(*img).subrange(
                    0,
                    yd * st + 3 * width + t,
                ),
            decreases pad - t,
        {
            proof {
                lemma_write_padding(*img, yd as int, t as int);
            }
            bmp_data.push(0);
            t = t + 1;
        }
        yd = yd + 1;
    }
    proof {
        assert(spec_pixel_bytes(*img).subrange(0, height * st) =~= spec_pixel_bytes(*img));
    }
}

/// Where the three channel bytes of pixel (x, yd) sit in the encoded
/// pixel array.
pub proof fn lemma_pixel_bytes_at(img: Image, yd: int, x: int)
    requires
        img.wf(),
        0 <= yd < img.height,
        0 <= x < img.width,
    ensures
        ({
            let st = row_size(img.width as int);
            let p = img.data@[yd * img.width + x];
            &&& 0 <= yd * st
            &&& yd * st + 3 * x + 2 < spec_data_size(img)
            &&& spec_pixel_bytes(img)[yd * st + 3 * x] == p.b
            &&& spec_pixel_bytes(img)[yd * st + 3 * x + 1] == p.g
            &&& spec_pixel_bytes(img)[yd * st + 3 * x + 2] == p.r
        }),
{
    let st = row_size(img.width as int);
    assert(3 * x + 2 < 3 * img.width);
    assert(0 <= yd * st) by (nonlinear_arith)
        requires
            yd >= 0 && st >= 0,
    ;
    lemma_pixel_byte_at(img, yd, 3 * x);
    lemma_pixel_byte_at(img, yd, 3 * x + 1);
    lemma_pixel_byte_at(img, yd, 3 * x + 2);
    lemma_pixel_in_row(img.width as int, x, 0);
    lemma_pixel_in_row(img.width as int, x, 1);
    lemma_pixel_in_row(img.width as int, x, 2);
}

/// Pushing the three channel bytes of pixel (x, yd) extends the encoded
/// prefix as `pixel_byte` describes.
proof fn lemma_write_pixel(img: Image, yd: int, x: int)
    requires
        img.wf(),
        0 <= yd < img.height,
        0 <= x < img.width,
    ensures
        ({
            let st = row_size(img.width as int);
            let p = img.data@[yd * img.width + x];
            &&& yd * st + 3 * x + 2 < spec_data_size(img)
            &&& spec_pixel_bytes(img)[yd * st + 3 * x] == p.b
            &&& spec_pixel_bytes(img)[yd * st + 3 * x + 1] == p.g
            &&& spec_pixel_bytes(img)[yd * st + 3 * x + 2] == p.r
            &&& forall|a: Seq<u8>, k: int|
                0 <= k < spec_data_size(img) ==> #[trigger] (a + spec_pixel_bytes(
                    img,
                ).subrange(0, k)).push(spec_pixel_bytes(img)[k]) == a + spec_pixel_bytes(
                    img,
                ).subrange(0, k + 1)
        }),
{
    lemma_pixel_bytes_at(img, yd, x);
    assert forall|a: Seq<u8>, k: int| 0 <= k < spec_data_size(img) implies #[trigger] (a
        + spec_pixel_bytes(img).subrange(0, k)).push(spec_pixel_bytes(img)[k]) == a
        + spec_pixel_bytes(img).subrange(0, k + 1) by {
        lemma_concat_push(a, spec_pixel_bytes(img), k);
    }
}

/// Pushing padding byte `t` of row `yd` extends the encoded prefix with
/// a zero byte.
proof fn lemma_write_padding(img: Image, yd: int, t: int)
    requires
        img.wf(),
        0 <= yd < img.height,
        0 <= t < img.width as int % 4,
    ensures
        ({
            let st = row_size(img.width as int);
            &&& yd * st + 3 * img.width + t < spec_data_size(img)
            &&& spec_pixel_bytes(img)[yd * st + 3 * img.width + t] == 0u8
            &&& forall|a: Seq<u8>, k: int|
                0 <= k < spec_data_size(img) ==> #[trigger] (a + spec_pixel_bytes(
                    img,
                ).subrange(0, k)).push(spec_pixel_bytes(img)[k]) == a + spec_pixel_bytes(
                    img,
                ).subrange(0, k + 1)
        }),
{
    lemma_pixel_byte_at(img, yd, 3 * img.width + t);
    assert forall|a: Seq<u8>, k: int| 0 <= k < spec_data_size(img) implies #[trigger] (a
        + spec_pixel_bytes(img).subrange(0, k)).push(spec_pixel_bytes(img)[k]) == a
        + spec_pixel_bytes(img).subrange(0, k + 1) by {
        lemma_concat_push(a, spec_pixel_bytes(img), k);
    }
}

/// Encodes an `Image` as the byte sequence of an uncompressed 24-bit
/// BMP file, exactly as `spec_encode` describes; its length is the
/// 54 header bytes plus `height` padded rows.
pub fn encode_image(bmp_image: &Image) -> (r: Vec<u8>)
    requires
        bmp_image.wf(),
        dims_ok(bmp_image.width as int, bmp_image.height as int),
    ensures
        r@ == spec_encode(*bmp_image),
        r@.len() == 54 + bmp_image.height * row_size(bmp_image.width as int),
{
    let mut bmp_data: Vec<u8> = Vec::new();
    write_header(&mut bmp_data, bmp_image);
    write_data(&mut bmp_data, bmp_image);
    proof {
        lemma_header_len(*bmp_image);
    }
    bmp_data
}

} // verus!
