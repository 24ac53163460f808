//! Tests of the pixel source: pixel addressing, sample decoding, and the
//! packing of decoded rows into the bit-per-pixel buffer.
use fontpack::image::{ColorKind, ImageLoadingError, ImageRowIterator, InputImage, InputPNGImage,
    Pixel, read_png_image_data};

#[test]
fn is_pixel_set() {
    let image = InputPNGImage {
        width: 12,
        height: 4,
        image_data: vec![
            0b01101101, 0b00000110,
            0b00111001, 0b00001111,
            0b01111101, 0b00001010,
            0b10101010, 0b00000101,
        ],
    };
    assert_eq!(image.width, 12);
    assert_eq!(image.height, 4);
    assert_eq!(image.is_pixel_set(0, 0), true);
    assert_eq!(image.is_pixel_set(1, 1), false);
    assert_eq!(image.is_pixel_set(2, 2), true);
    assert_eq!(image.is_pixel_set(1, 3), true);
    assert_eq!(image.is_pixel_set(5, 1), true);
    assert_eq!(image.is_pixel_set(6, 1), false);
    assert_eq!(image.is_pixel_set(7, 1), false);
    assert_eq!(image.is_pixel_set(8, 1), true);
    assert_eq!(image.is_pixel_set(10, 3), true);
    assert_eq!(image.is_pixel_set(100, 300), false);
}

#[test]
fn read_png_image() {
    let row: Vec<u8> = vec![
        191, 191, 191, 191, 191, 191, 191, 191,
        0, 0, 0, 255, 0, 0, 0, 255,
        191, 191, 191, 191, 191, 191, 191, 191,
        0, 0, 0, 255, 0, 0, 0, 255,
        191, 191, 191, 191, 0, 0, 0, 255,
        191, 191, 191, 191, 191, 191, 191, 191,
        191, 191, 191, 191, 0, 0, 0, 255,
        191, 191, 191, 191, 0, 0, 0, 255,
        191, 191, 191, 191, 0, 0, 0, 255,
        0, 0, 0, 255, 0, 0, 0, 255,
        0, 0, 0, 255, 191, 191, 191, 191,
        191, 191, 191, 191, 0, 0, 0, 255,
        0, 0, 0, 255, 191, 191, 191, 191,
        0, 0, 0, 255, 191, 191, 191, 191,
        191, 191, 191, 191, 191, 191, 191, 191,
        191, 191, 191, 191, 191, 191, 191, 191,
        191, 191, 191, 191, 191, 191, 191, 191,
        191, 191, 191, 191, 191, 191, 191, 191,
        191, 191, 191, 191, 191, 191, 191, 191,
        191, 191, 191, 191, 191, 191, 191, 191,
        0, 0, 0, 255, 0, 0, 0, 255,
        0, 0, 0, 255, 0, 0, 0, 255,
        0, 0, 0, 255, 0, 0, 0, 255,
        0, 0, 0, 255, 0, 0, 0, 255,
        191, 191, 191, 191, 191, 191, 191, 191,
        191, 191, 191, 191, 191, 191, 191, 191,
        0, 0, 0, 255, 0, 0, 0, 255,
        0, 0, 0, 255, 0, 0, 0, 255,
        191, 191, 191, 191, 191, 191, 191, 191,
        191, 191, 191, 191, 191, 191, 191, 191,
        0, 0, 0, 255, 0, 0, 0, 255,
        0, 0, 0, 255, 0, 0, 0, 255,
        191, 191, 191, 191, 191, 191, 191, 191,
        191, 191, 191, 191, 191, 191, 191, 191,
        0, 0, 0, 255, 0, 0, 0, 255,
        191, 191, 191, 191, 0, 0, 0, 255,
    ];

    let data = read_png_image_data(ColorKind::Rgba, &vec![row]).unwrap();

    assert_eq!(data, vec![
        0b11001100,
        0b10100010,
        0b10011110,
        0b00000101,
        0b00000000,
        0b11111111,
        0b11110000,
        0b11110000,
        0b10110000,
    ]);
}

#[test]
fn out_of_bounds_pixels_are_unset() {
    let image = InputPNGImage { width: 3, height: 2, image_data: vec![0xFF, 0xFF] };
    assert!(image.is_pixel_set(0, 0));
    assert!(image.is_pixel_set(2, 1));
    assert!(!image.is_pixel_set(3, 0));
    assert!(!image.is_pixel_set(0, 2));
    assert!(!image.is_pixel_set(u32::MAX, u32::MAX));
}

#[test]
fn pixel_from_vec_sizes() {
    assert_eq!(Pixel::from_vec(&[7]), Some(Pixel::Grayscale(7, 0xFF)));
    assert_eq!(Pixel::from_vec(&[7, 9]), Some(Pixel::Grayscale(7, 9)));
    assert_eq!(Pixel::from_vec(&[1, 2, 3]), Some(Pixel::RGBA(1, 2, 3, 0xFF)));
    assert_eq!(Pixel::from_vec(&[1, 2, 3, 4]), Some(Pixel::RGBA(1, 2, 3, 4)));
    assert_eq!(Pixel::from_vec(&[]), None);
    assert_eq!(Pixel::from_vec(&[1, 2, 3, 4, 5]), None);
}

#[test]
fn pixel_threshold_and_alpha() {
    assert!(Pixel::Grayscale(0x31, 0xFF).is_set());
    assert!(!Pixel::Grayscale(0x32, 0xFF).is_set());
    assert!(!Pixel::Grayscale(0x00, 0xFE).is_set());
    assert!(Pixel::RGBA(0x31, 0xFF, 0xFF, 0xFF).is_set());
    assert!(Pixel::RGBA(0xFF, 0xFF, 0x31, 0xFF).is_set());
    assert!(!Pixel::RGBA(0x32, 0x32, 0x32, 0xFF).is_set());
    assert!(!Pixel::RGBA(0x00, 0x00, 0x00, 0x00).is_set());
}

#[test]
fn row_iterator_chunks_and_partial_tail() {
    let row: Vec<u8> = vec![1, 2, 3, 4, 5, 6, 7];
    let mut it = ImageRowIterator::new(row.as_slice(), ColorKind::Rgb).unwrap();
    assert_eq!(it.next(), Some(Pixel::RGBA(1, 2, 3, 0xFF)));
    assert_eq!(it.next(), Some(Pixel::RGBA(4, 5, 6, 0xFF)));
    assert_eq!(it.next(), None);
    assert_eq!(it.next(), None);
}

#[test]
fn row_iterator_rejects_indexed_color() {
    let row: Vec<u8> = vec![1, 2, 3];
    assert!(ImageRowIterator::new(row.as_slice(), ColorKind::Indexed).is_none());
}

#[test]
fn read_png_image_data_unsupported_color() {
    let rows = vec![vec![1u8, 2, 3]];
    let r = read_png_image_data(ColorKind::Indexed, &rows);
    assert!(matches!(r, Err(ImageLoadingError::UnsupportedColorType)));
}

#[test]
fn read_png_image_data_no_rows() {
    let rows: Vec<Vec<u8>> = vec![];
    assert_eq!(read_png_image_data(ColorKind::Indexed, &rows).unwrap(), Vec::<u8>::new());
    assert_eq!(read_png_image_data(ColorKind::Rgba, &rows).unwrap(), Vec::<u8>::new());
}

#[test]
fn read_png_image_data_pads_each_row() {
    // two rows of 12 grayscale samples: all dark, then alternating
    let dark = 0x00u8;
    let light = 0xBFu8;
    let row_a = vec![dark; 12];
    let mut row_b = Vec::new();
    for i in 0..12 {
        row_b.push(if i % 2 == 0 { dark } else { light });
    }
    let data = read_png_image_data(ColorKind::Grayscale, &vec![row_a, row_b]).unwrap();
    assert_eq!(data, vec![0b11111111, 0b00001111, 0b01010101, 0b00000101]);
}

#[test]
fn decode_png_stream_round_trip() {
    // a 4x2 grayscale image: the set pixels form a checkerboard
    let samples: Vec<u8> = vec![
        0x00, 0xBF, 0x00, 0xBF,
        0xBF, 0x00, 0xBF, 0x00,
    ];
    let mut stream: Vec<u8> = Vec::new();
    {
        let mut encoder = png::Encoder::new(&mut stream, 4, 2);
        encoder.set_color(png::ColorType::Grayscale);
        encoder.set_depth(png::BitDepth::Eight);
        let mut writer = encoder.write_header().unwrap();
        writer.write_image_data(&samples).unwrap();
    }
    let image = InputPNGImage::new(&stream).unwrap();
    assert_eq!(image.width, 4);
    assert_eq!(image.height, 2);
    for y in 0..2u32 {
        for x in 0..4u32 {
            assert_eq!(image.is_pixel_set(x, y), (x + y) % 2 == 0);
        }
    }
}

#[test]
fn decode_png_rejects_garbage() {
    let r = InputPNGImage::new(&[1, 2, 3, 4]);
    assert!(matches!(r, Err(ImageLoadingError::DecodingError(_))));
}
