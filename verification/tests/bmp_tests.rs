use bmp::decoder::bit_index;
use bmp::{BmpDibHeader, BmpHeader, Image, Pixel};

use std::mem::size_of;

const RED: Pixel = Pixel { r: 255, g: 0, b: 0 };
const LIME: Pixel = Pixel { r: 0, g: 255, b: 0 };
const BLUE: Pixel = Pixel { r: 0, g: 0, b: 255 };
const WHITE: Pixel = Pixel {
    r: 255,
    g: 255,
    b: 255,
};

#[test]
fn test_calculate_bit_index() {
    let bytes = vec![0b1000_0001, 0b1111_0001];

    let bi = bit_index(&bytes, 1, 15);
    let expected: Vec<usize> = vec![1, 0, 0, 0, 0, 0, 0, 1, 1, 1, 1, 1, 0, 0, 0];
    assert_eq!(bi, expected);

    let bi = bit_index(&bytes, 4, 4);
    assert_eq!(bi, vec![0b1000, 0b0001, 0b1111, 0b0001]);

    let bi = bit_index(&bytes, 8, 2);
    assert_eq!(bi, vec![0b1000_0001, 0b1111_0001]);
}

#[test]
fn size_of_bmp_header_is_54_bytes() {
    let bmp_header_size = size_of::<BmpHeader>();
    let bmp_bip_header_size = size_of::<BmpDibHeader>();

    assert_eq!(12, bmp_header_size);
    assert_eq!(40, bmp_bip_header_size);
}

#[test]
fn size_of_4pixel_bmp_image_is_70_bytes() {
    let img = Image::new(2, 2);
    let bytes = bmp::encode_image(&img);
    assert_eq!(70, bytes.len() as i32);
}

fn verify_test_bmp_image(img: Image) {
    let header = img.header;
    assert_eq!(70, header.file_size);
    assert_eq!(0, header.creator1);
    assert_eq!(0, header.creator2);

    let dib_header = img.dib_header;
    assert_eq!(54, header.pixel_offset);
    assert_eq!(40, dib_header.header_size);
    assert_eq!(2, dib_header.width);
    assert_eq!(2, dib_header.height);
    assert_eq!(1, dib_header.num_planes);
    assert_eq!(24, dib_header.bits_per_pixel);
    assert_eq!(0, dib_header.compress_type);
    assert_eq!(16, dib_header.data_size);
    assert_eq!(1000, dib_header.hres);
    assert_eq!(1000, dib_header.vres);
    assert_eq!(0, dib_header.num_colors);
    assert_eq!(0, dib_header.num_imp_colors);

    assert_eq!(2, img.padding);
}

/// The bytes of a 2x2 uncompressed 24-bit file whose rows, top to
/// bottom, are RED, LIME / BLUE, WHITE.
fn rgbw_bytes() -> Vec<u8> {
    let mut b = vec![
        66, 77, // magic
        70, 0, 0, 0, // file size
        0, 0, // creator1
        0, 0, // creator2
        54, 0, 0, 0, // pixel offset
        40, 0, 0, 0, // DIB header size
        2, 0, 0, 0, // width
        2, 0, 0, 0, // height
        1, 0, // planes
        24, 0, // bits per pixel
        0, 0, 0, 0, // compression
        16, 0, 0, 0, // data size
        232, 3, 0, 0, // hres = 1000
        232, 3, 0, 0, // vres = 1000
        0, 0, 0, 0, // colors
        0, 0, 0, 0, // important colors
    ];
    // bottom row first: BLUE, WHITE, then padding
    b.extend_from_slice(&[255, 0, 0, 255, 255, 255, 0, 0]);
    // top row: RED, LIME, then padding
    b.extend_from_slice(&[0, 0, 255, 0, 255, 0, 0, 0]);
    b
}

#[test]
fn can_read_entire_bmp_image() {
    let bmp_img = bmp::decode_image(&rgbw_bytes()).unwrap();
    assert_eq!(bmp_img.data.len(), 4);

    assert_eq!(bmp_img.get_pixel(0, 0), RED);
    assert_eq!(bmp_img.get_pixel(1, 0), LIME);
    assert_eq!(bmp_img.get_pixel(0, 1), BLUE);
    assert_eq!(bmp_img.get_pixel(1, 1), WHITE);

    verify_test_bmp_image(bmp_img);
}

#[test]
fn can_create_bmp_file() {
    let mut bmp = Image::new(2, 2);
    bmp.set_pixel(0, 0, RED);
    bmp.set_pixel(1, 0, LIME);
    bmp.set_pixel(0, 1, BLUE);
    bmp.set_pixel(1, 1, WHITE);
    let bytes = bmp::encode_image(&bmp);

    let bmp_img = bmp::decode_image(&bytes).unwrap();
    assert_eq!(bmp_img.get_pixel(0, 0), RED);
    assert_eq!(bmp_img.get_pixel(1, 0), LIME);
    assert_eq!(bmp_img.get_pixel(0, 1), BLUE);
    assert_eq!(bmp_img.get_pixel(1, 1), WHITE);

    verify_test_bmp_image(bmp_img);
}

#[test]
fn changing_pixels_does_not_push_image_data() {
    let mut img = Image::new(2, 1);
    img.set_pixel(1, 0, WHITE);
    img.set_pixel(0, 0, WHITE);

    assert_eq!(img.get_pixel(0, 0), WHITE);
    assert_eq!(img.get_pixel(1, 0), WHITE);
}

#[test]
fn coordinates_iterator_gives_x_and_y_in_row_major_order() {
    let img = Image::new(2, 3);
    let mut coords = img.coordinates();
    assert_eq!(coords.next(), Some((0, 0)));
    assert_eq!(coords.next(), Some((1, 0)));
    assert_eq!(coords.next(), Some((0, 1)));
    assert_eq!(coords.next(), Some((1, 1)));
    assert_eq!(coords.next(), Some((0, 2)));
    assert_eq!(coords.next(), Some((1, 2)));
}

#[test]
fn mod_changing_pixels_does_not_push_image_data() {
    let mut img = Image::new(2, 1);
    img.set_pixel(1, 0, WHITE);
    img.set_pixel(0, 0, WHITE);

    assert_eq!(img.get_pixel(0, 0), WHITE);
    assert_eq!(img.get_pixel(1, 0), WHITE);
}

#[test]
fn mod_coordinates_iterator_gives_x_and_y_in_row_major_order() {
    let img = Image::new(2, 3);
    let mut coords = img.coordinates();
    assert_eq!(coords.next(), Some((0, 0)));
    assert_eq!(coords.next(), Some((1, 0)));
    assert_eq!(coords.next(), Some((0, 1)));
    assert_eq!(coords.next(), Some((1, 1)));
    assert_eq!(coords.next(), Some((0, 2)));
    assert_eq!(coords.next(), Some((1, 2)));
}

#[test]
fn coordinates_iterator_ends_after_last_pixel() {
    let img = Image::new(2, 1);
    let mut coords = img.coordinates();
    assert_eq!(coords.next(), Some((0, 0)));
    assert_eq!(coords.next(), Some((1, 0)));
    assert_eq!(coords.next(), None);
    assert_eq!(coords.next(), None);
}

#[test]
fn round_trip_keeps_every_pixel_of_odd_width_image() {
    let mut img = Image::new(3, 2);
    for (x, y) in [(0, 0), (1, 0), (2, 0), (0, 1), (1, 1), (2, 1)] {
        img.set_pixel(x, y, Pixel::new((x * 50) as u8, (y * 90) as u8, 17));
    }
    let bytes = bmp::encode_image(&img);
    let back = bmp::decode_image(&bytes).unwrap();
    assert_eq!(back.get_width(), 3);
    assert_eq!(back.get_height(), 2);
    for (x, y) in [(0, 0), (1, 0), (2, 0), (0, 1), (1, 1), (2, 1)] {
        assert_eq!(back.get_pixel(x, y), img.get_pixel(x, y));
    }
}

#[test]
fn encoded_length_follows_padding_law() {
    for (w, h) in [(1u32, 1u32), (2, 2), (3, 1), (4, 5), (5, 3), (7, 2)] {
        let img = Image::new(w, h);
        let padding = w % 4;
        let bytes = bmp::encode_image(&img);
        assert_eq!(bytes.len() as u32, 14 + 40 + h * (w * 3 + padding));
        assert_eq!(img.padding, padding);
    }
}

#[test]
fn zero_size_image_round_trips() {
    let img = Image::new(0, 0);
    let bytes = bmp::encode_image(&img);
    assert_eq!(bytes.len(), 54);
    let back = bmp::decode_image(&bytes).unwrap();
    assert_eq!(back.get_width(), 0);
    assert_eq!(back.get_height(), 0);
}
