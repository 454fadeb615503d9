//! Laws relating the decoder and the encoder.
//!
//! These proof functions state, over the same spec functions the
//! contracts of `decode_image` and `encode_image` use, the properties a
//! caller may rely on without reading either implementation.

use vstd::prelude::*;
use vstd::bytes::{
    spec_u16_to_le_bytes, spec_u32_to_le_bytes, lemma_auto_spec_u16_to_from_le_bytes,
    lemma_auto_spec_u32_to_from_le_bytes,
};

use crate::bytes::{le16_at, le32_at, lemma_le16_of_stored, lemma_le32_of_stored, sle32_at,
    unsigned32};
use crate::decoder::{
    bpp_ok, compress_ok, decode_err, decoded_pixel, dims_in_range, has_palette, magic_ok,
    parsed_bpp, parsed_compress, parsed_header_size, parsed_height, parsed_num_colors,
    parsed_pixel_offset, parsed_stride, parsed_width, data_end, version_supported, BmpErrorKind,
};
use crate::encoder::{
    lemma_header_len, spec_data_size, spec_encode, spec_pixel_bytes,
};
use crate::{dims_ok, row_size, Image};

verus! {

/// What the decoder's field accessors read back from an encoded image:
/// each header field holds exactly what the encoder stored.
proof fn lemma_encoded_fields(img: Image)
    requires
        img.wf(),
        dims_ok(img.width as int, img.height as int),
    ensures
        ({
            let b = spec_encode(img);
            &&& b.len() == 54 + spec_data_size(img)
            &&& magic_ok(b)
            &&& le32_at(b, 2) == (54 + spec_data_size(img)) as u32
            &&& le16_at(b, 6) == img.header.creator1
            &&& le16_at(b, 8) == img.header.creator2
            &&& parsed_pixel_offset(b) == 54
            &&& parsed_header_size(b) == 40
            &&& le32_at(b, 18) == img.width
            &&& le32_at(b, 22) == img.height
            &&& le16_at(b, 26) == 1u16
            &&& parsed_bpp(b) == 24
            &&& parsed_compress(b) == 0
            &&& le32_at(b, 34) == spec_data_size(img) as u32
            &&& le32_at(b, 38) == unsigned32(img.dib_header.hres)
            &&& le32_at(b, 42) == unsigned32(img.dib_header.vres)
            &&& parsed_num_colors(b) == 0
            &&& le32_at(b, 50) == 0u32
        }),
{
    let b = spec_encode(img);
    lemma_auto_spec_u16_to_from_le_bytes();
    lemma_auto_spec_u32_to_from_le_bytes();
    lemma_header_len(img);
    assert(b.len() == 54 + spec_data_size(img));
    assert(b[0] == 66u8 && b[1] == 77u8);
    assert(b.subrange(2, 6) =~= spec_u32_to_le_bytes((54 + spec_data_size(img)) as u32));
    lemma_le32_of_stored(b, 2, (54 + spec_data_size(img)) as u32);
    assert(b.subrange(6, 8) =~= spec_u16_to_le_bytes(img.header.creator1));
    lemma_le16_of_stored(b, 6, img.header.creator1);
    assert(b.subrange(8, 10) =~= spec_u16_to_le_bytes(img.header.creator2));
    lemma_le16_of_stored(b, 8, img.header.creator2);
    assert(b.subrange(10, 14) =~= spec_u32_to_le_bytes(54u32));
    lemma_le32_of_stored(b, 10, 54u32);
    assert(b.subrange(14, 18) =~= spec_u32_to_le_bytes(40u32));
    lemma_le32_of_stored(b, 14, 40u32);
    assert(b.subrange(18, 22) =~= spec_u32_to_le_bytes(img.width));
    lemma_le32_of_stored(b, 18, img.width);
    assert(b.subrange(22, 26) =~= spec_u32_to_le_bytes(img.height));
    lemma_le32_of_stored(b, 22, img.height);
    assert(b.subrange(26, 28) =~= spec_u16_to_le_bytes(1u16));
    lemma_le16_of_stored(b, 26, 1u16);
    assert(b.subrange(28, 30) =~= spec_u16_to_le_bytes(24u16));
    lemma_le16_of_stored(b, 28, 24u16);
    assert(b.subrange(30, 34) =~= spec_u32_to_le_bytes(0u32));
    lemma_le32_of_stored(b, 30, 0u32);
    assert(b.subrange(34, 38) =~= spec_u32_to_le_bytes(spec_data_size(img) as u32));
    lemma_le32_of_stored(b, 34, spec_data_size(img) as u32);
    assert(b.subrange(38, 42) =~= spec_u32_to_le_bytes(unsigned32(img.dib_header.hres)));
    lemma_le32_of_stored(b, 38, unsigned32(img.dib_header.hres));
    assert(b.subrange(42, 46) =~= spec_u32_to_le_bytes(unsigned32(img.dib_header.vres)));
    lemma_le32_of_stored(b, 42, unsigned32(img.dib_header.vres));
    assert(b.subrange(46, 50) =~= spec_u32_to_le_bytes(0u32));
    lemma_le32_of_stored(b, 46, 0u32);
    assert(b.subrange(50, 54) =~= spec_u32_to_le_bytes(0u32));
    lemma_le32_of_stored(b, 50, 0u32);
}

/// Round-trip identity: decoding what the encoder produced succeeds and
/// gives back the same width, the same height, and the same color at
/// every coordinate.  The spec functions here are the ones the contracts
/// of `encode_image` and `decode_image` speak of, so the law carries
/// over to the executable pair.
pub proof fn lemma_round_trip(img: Image)
    requires
        img.wf(),
        dims_ok(img.width as int, img.height as int),
    ensures
        ({
            let b = spec_encode(img);
            &&& decode_err(b) is None
            &&& parsed_width(b) == img.width
            &&& parsed_height(b) == img.height
            &&& forall|x: int, y: int|
                0 <= x < img.width && 0 <= y < img.height ==> #[trigger] decoded_pixel(b, x, y)
                    == img.pixel_at(x, y)
        }),
{
    let b = spec_encode(img);
    let st = row_size(img.width as int);
    lemma_encoded_fields(img);
    lemma_header_len(img);
    assert(sle32_at(b, 18) == img.width && sle32_at(b, 22) == img.height) by {
        crate::bytes::lemma_signed32_roundtrip();
    }
    assert(parsed_width(b) == img.width && parsed_height(b) == img.height);
    assert(version_supported(b));
    assert(bpp_ok(b) && !has_palette(b));
    assert(compress_ok(b));
    assert(dims_in_range(b));
    assert(parsed_stride(b) == st);
    assert(data_end(b) == b.len());
    assert(decode_err(b) is None);

    assert forall|x: int, y: int|
        0 <= x < img.width && 0 <= y < img.height implies #[trigger] decoded_pixel(b, x, y)
        == img.pixel_at(x, y) by {
        let yd = img.height - 1 - y;
        let base = 54 + yd * st + 3 * x;
        crate::encoder::lemma_pixel_bytes_at(img, yd, x);
        assert(b[base] == spec_pixel_bytes(img)[yd * st + 3 * x]);
        assert(b[base + 1] == spec_pixel_bytes(img)[yd * st + 3 * x + 1]);
        assert(b[base + 2] == spec_pixel_bytes(img)[yd * st + 3 * x + 2]);
        assert(img.buf_index(x, y) == yd * img.width + x);
    }
}

/// Magic rejection: a buffer whose first two bytes are not 'B', 'M'
/// decodes to the wrong-magic-numbers error, whatever follows them.
pub proof fn lemma_magic_rejection(b: Seq<u8>)
    requires
        !(b.len() >= 2 && b[0] == 66u8 && b[1] == 77u8),
    ensures
        decode_err(b) == Some(BmpErrorKind::WrongMagicNumbers),
{
}

/// Bit-depth gating: once the magic bytes, the header length and the
/// version are acceptable, bit depths 16 and 32 always give the
/// unsupported-bit-depth error, and the four supported depths never do.
pub proof fn lemma_bit_depth_gating(b: Seq<u8>)
    requires
        magic_ok(b),
        b.len() >= 54,
        version_supported(b),
    ensures
        parsed_bpp(b) == 16 || parsed_bpp(b) == 32 ==> decode_err(b) == Some(
            BmpErrorKind::UnsupportedBitsPerPixel,
        ),
        bpp_ok(b) ==> decode_err(b) != Some(BmpErrorKind::UnsupportedBitsPerPixel),
{
}

/// Padding law: the encoder pads each row with `width % 4` zero bytes,
/// so the whole file is the 54 header bytes plus
/// `height * (3 * width + width % 4)` bytes of pixel data.
pub proof fn lemma_encoded_len(img: Image)
    requires
        img.wf(),
        dims_ok(img.width as int, img.height as int),
    ensures
        spec_encode(img).len() == 14 + 40 + img.height * (3 * img.width + img.width as int % 4),
{
    lemma_header_len(img);
}

} // verus!
