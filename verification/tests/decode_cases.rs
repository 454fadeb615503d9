use bmp::{BmpErrorKind, Pixel};

/// A 54-byte header for an uncompressed image, followed by nothing.
/// Callers patch fields and append palette and pixel bytes.
fn header(width: i32, height: i32, bpp: u16, num_colors: u32, file_len: u32) -> Vec<u8> {
    let mut b: Vec<u8> = Vec::new();
    b.extend_from_slice(&[66, 77]);
    b.extend_from_slice(&file_len.to_le_bytes());
    b.extend_from_slice(&[0, 0, 0, 0]); // creators
    b.extend_from_slice(&54u32.to_le_bytes()); // pixel offset
    b.extend_from_slice(&40u32.to_le_bytes()); // DIB header size
    b.extend_from_slice(&width.to_le_bytes());
    b.extend_from_slice(&height.to_le_bytes());
    b.extend_from_slice(&1u16.to_le_bytes()); // planes
    b.extend_from_slice(&bpp.to_le_bytes());
    b.extend_from_slice(&0u32.to_le_bytes()); // compression
    b.extend_from_slice(&0u32.to_le_bytes()); // data size
    b.extend_from_slice(&1000i32.to_le_bytes());
    b.extend_from_slice(&1000i32.to_le_bytes());
    b.extend_from_slice(&num_colors.to_le_bytes());
    b.extend_from_slice(&0u32.to_le_bytes()); // important colors
    b
}

#[test]
fn error_when_decoding_buffer_with_wrong_magic_numbers() {
    let mut b = header(1, 1, 24, 0, 58);
    b[0] = 70;
    b.extend_from_slice(&[0, 0, 0, 0]);
    let result = bmp::decode_image(&b);
    assert_eq!(result.unwrap_err().kind, BmpErrorKind::WrongMagicNumbers);
}

#[test]
fn error_when_decoding_empty_buffer() {
    let result = bmp::decode_image(&Vec::new());
    assert_eq!(result.unwrap_err().kind, BmpErrorKind::WrongMagicNumbers);
}

#[test]
fn error_when_decoding_16_or_32_bits_per_pixel() {
    for bpp in [16u16, 32u16] {
        let mut b = header(1, 1, bpp, 0, 58);
        b.extend_from_slice(&[0, 0, 0, 0]);
        let result = bmp::decode_image(&b);
        assert_eq!(
            result.unwrap_err().kind,
            BmpErrorKind::UnsupportedBitsPerPixel
        );
    }
}

#[test]
fn error_when_decoding_compressed_pixel_data() {
    for compress in [1u32, 2u32] {
        let mut b = header(1, 1, 24, 0, 58);
        b[30..34].copy_from_slice(&compress.to_le_bytes());
        b.extend_from_slice(&[0, 0, 0, 0]);
        let result = bmp::decode_image(&b);
        assert_eq!(
            result.unwrap_err().kind,
            BmpErrorKind::UnsupportedCompressionType
        );
    }
}

#[test]
fn error_when_decoding_version_two_header() {
    let mut b = header(1, 1, 24, 0, 58);
    b[14..18].copy_from_slice(&12u32.to_le_bytes());
    b.extend_from_slice(&[0, 0, 0, 0]);
    let result = bmp::decode_image(&b);
    assert_eq!(result.unwrap_err().kind, BmpErrorKind::UnsupportedBmpVersion);
}

#[test]
fn error_when_decoding_version_three_nt_header() {
    let mut b = header(1, 1, 24, 0, 58);
    b[30..34].copy_from_slice(&3u32.to_le_bytes());
    b.extend_from_slice(&[0, 0, 0, 0]);
    let result = bmp::decode_image(&b);
    assert_eq!(result.unwrap_err().kind, BmpErrorKind::UnsupportedBmpVersion);
}

#[test]
fn error_when_decoding_unknown_header_size() {
    let mut b = header(1, 1, 24, 0, 58);
    b[14..18].copy_from_slice(&39u32.to_le_bytes());
    b.extend_from_slice(&[0, 0, 0, 0]);
    let result = bmp::decode_image(&b);
    assert_eq!(result.unwrap_err().kind, BmpErrorKind::Other);
}

#[test]
fn error_when_buffer_ends_inside_header() {
    let b = header(1, 1, 24, 0, 58);
    let result = bmp::decode_image(&b[..20].to_vec());
    assert_eq!(result.unwrap_err().kind, BmpErrorKind::BmpIoError);
}

#[test]
fn error_when_buffer_ends_inside_pixel_data() {
    let mut b = header(2, 2, 24, 0, 70);
    b.extend_from_slice(&[1, 2, 3]); // far too short for two padded rows
    let result = bmp::decode_image(&b);
    assert_eq!(result.unwrap_err().kind, BmpErrorKind::BmpIoError);
}

#[test]
fn error_when_buffer_ends_inside_palette() {
    let mut b = header(1, 1, 8, 0, 60);
    b.extend_from_slice(&[0, 0, 0, 0, 0, 0]); // 256 entries announced, 6 bytes present
    let result = bmp::decode_image(&b);
    assert_eq!(result.unwrap_err().kind, BmpErrorKind::BmpIoError);
}

#[test]
fn error_when_palette_index_is_out_of_range() {
    // One announced palette entry, but the single 1-bit pixel uses index 1.
    let mut b = header(1, 1, 1, 1, 62);
    b[10..14].copy_from_slice(&58u32.to_le_bytes()); // pixel data after the palette
    b.extend_from_slice(&[10, 20, 30, 0]); // the only palette entry
    b.extend_from_slice(&[0b1000_0000, 0, 0, 0]); // one padded row
    let result = bmp::decode_image(&b);
    assert_eq!(result.unwrap_err().kind, BmpErrorKind::Other);
}

#[test]
fn decodes_1bpp_pixels_through_the_palette() {
    // Two palette entries; the row 0b10_000000 selects entry 1 then entry 0.
    let mut b = header(2, 1, 1, 2, 66);
    b[10..14].copy_from_slice(&62u32.to_le_bytes()); // pixel data after the palette
    b.extend_from_slice(&[0, 0, 0, 0]); // palette[0]: black
    b.extend_from_slice(&[0, 0, 255, 0]); // palette[1]: red, stored blue-green-red
    b.extend_from_slice(&[0b1000_0000, 0, 0, 0]); // one padded row
    let img = bmp::decode_image(&b).unwrap();
    assert_eq!(img.get_pixel(0, 0), Pixel::new(255, 0, 0));
    assert_eq!(img.get_pixel(1, 0), Pixel::new(0, 0, 0));
}

#[test]
fn decodes_4bpp_pixels_through_the_palette() {
    // Full 16-entry palette; one pixel whose high nibble selects entry 3.
    let mut b = header(1, 1, 4, 0, 122);
    b[10..14].copy_from_slice(&118u32.to_le_bytes()); // pixel data after the palette
    for j in 0u8..16 {
        b.extend_from_slice(&[j, 2 * j, 3 * j, 0]);
    }
    b.extend_from_slice(&[0b0011_0000, 0, 0, 0]);
    let img = bmp::decode_image(&b).unwrap();
    assert_eq!(img.get_pixel(0, 0), Pixel::new(9, 6, 3));
}

#[test]
fn decodes_8bpp_pixels_through_the_palette() {
    // Two announced entries; each byte of the row is a whole index.
    let mut b = header(2, 2, 8, 2, 70);
    b[10..14].copy_from_slice(&62u32.to_le_bytes()); // pixel data after the palette
    b.extend_from_slice(&[255, 0, 0, 0]); // palette[0]: blue
    b.extend_from_slice(&[0, 255, 0, 0]); // palette[1]: green
    b.extend_from_slice(&[0, 1, 0, 0]); // bottom row, padded
    b.extend_from_slice(&[1, 0, 0, 0]); // top row, padded
    let img = bmp::decode_image(&b).unwrap();
    assert_eq!(img.get_pixel(0, 0), Pixel::new(0, 255, 0));
    assert_eq!(img.get_pixel(1, 0), Pixel::new(0, 0, 255));
    assert_eq!(img.get_pixel(0, 1), Pixel::new(0, 0, 255));
    assert_eq!(img.get_pixel(1, 1), Pixel::new(0, 255, 0));
}

#[test]
fn decodes_negative_height_as_its_absolute_value() {
    let mut b = header(1, -1, 24, 0, 58);
    b.extend_from_slice(&[1, 2, 3, 0]);
    let img = bmp::decode_image(&b).unwrap();
    assert_eq!(img.get_width(), 1);
    assert_eq!(img.get_height(), 1);
    assert_eq!(img.get_pixel(0, 0), Pixel::new(3, 2, 1));
}

#[test]
fn decodes_version_four_and_five_headers() {
    // Header sizes 108 and 124: the palette and pixel data move back by
    // the extension, which is skipped unread.
    for (hs, ext) in [(108u32, 68usize), (124u32, 84usize)] {
        let mut b = header(1, 1, 8, 1, 0);
        b[10..14].copy_from_slice(&(54 + ext as u32 + 4).to_le_bytes()); // pixel offset
        b[14..18].copy_from_slice(&hs.to_le_bytes());
        for _ in 0..ext {
            b.push(0); // header extension, ignored
        }
        b.extend_from_slice(&[7, 8, 9, 0]); // the only palette entry
        b.extend_from_slice(&[0, 0, 0, 0]); // one padded row of index 0
        let img = bmp::decode_image(&b).unwrap();
        assert_eq!(img.get_pixel(0, 0), Pixel::new(9, 8, 7));
    }
}
