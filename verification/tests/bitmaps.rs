use province_data::bitmap::{
    buffer_len, parse_region_image, plan_buffer, BitmapHeader, ImageLoadError, MapImage,
    PixelEncoding,
};

fn le32(value: u32) -> [u8; 4] {
    value.to_le_bytes()
}

/// A file with a 40-byte info header and uncompressed pixels of `bits` bits.
fn plain_bitmap(width: u32, height: u32, bits: u16, pixels: &[u8]) -> Vec<u8> {
    let mut file = Vec::new();
    file.extend_from_slice(b"BM");
    file.extend_from_slice(&le32(54 + pixels.len() as u32));
    file.extend_from_slice(&le32(0));
    file.extend_from_slice(&le32(54));
    file.extend_from_slice(&le32(40));
    file.extend_from_slice(&le32(width));
    file.extend_from_slice(&le32(height));
    file.extend_from_slice(&1u16.to_le_bytes());
    file.extend_from_slice(&bits.to_le_bytes());
    file.extend_from_slice(&le32(0));
    file.extend_from_slice(&le32(pixels.len() as u32));
    file.extend_from_slice(&le32(2835));
    file.extend_from_slice(&le32(2835));
    file.extend_from_slice(&le32(0));
    file.extend_from_slice(&le32(0));
    file.extend_from_slice(pixels);
    file
}

/// A file with a 56-byte header whose masks give each pixel an alpha byte.
fn alpha_bitmap() -> Vec<u8> {
    let mut file = Vec::new();
    file.extend_from_slice(b"BM");
    file.extend_from_slice(&le32(74));
    file.extend_from_slice(&le32(0));
    file.extend_from_slice(&le32(70));
    file.extend_from_slice(&le32(56));
    file.extend_from_slice(&le32(1));
    file.extend_from_slice(&le32(1));
    file.extend_from_slice(&1u16.to_le_bytes());
    file.extend_from_slice(&32u16.to_le_bytes());
    file.extend_from_slice(&le32(3));
    file.extend_from_slice(&le32(4));
    file.extend_from_slice(&le32(2835));
    file.extend_from_slice(&le32(2835));
    file.extend_from_slice(&le32(0));
    file.extend_from_slice(&le32(0));
    file.extend_from_slice(&le32(0x00ff_0000));
    file.extend_from_slice(&le32(0x0000_ff00));
    file.extend_from_slice(&le32(0x0000_00ff));
    file.extend_from_slice(&le32(0xff00_0000));
    file.extend_from_slice(&[1, 2, 3, 4]);
    file
}

#[test]
fn rgb_bitmap_is_decoded_row_by_row_from_the_top() {
    // Rows are stored bottom-up, each pixel as blue, green, red, each row
    // padded to four bytes.
    let pixels = [
        3, 2, 1, 6, 5, 4, 0, 0, // bottom row
        9, 8, 7, 12, 11, 10, 0, 0, // top row
    ];
    let image = parse_region_image(&plain_bitmap(2, 2, 24, &pixels)).unwrap();
    assert_eq!(image.width(), 2);
    assert_eq!(image.height(), 2);
    assert_eq!(image.bytes(), &[7, 8, 9, 10, 11, 12, 1, 2, 3, 4, 5, 6]);
}

#[test]
fn single_pixel_bitmap() {
    let image = parse_region_image(&plain_bitmap(1, 1, 24, &[30, 20, 10, 0])).unwrap();
    assert_eq!((image.width(), image.height()), (1, 1));
    assert_eq!(image.bytes(), &[10, 20, 30]);
}

#[test]
fn bitmap_with_alpha_is_refused() {
    assert!(matches!(
        parse_region_image(&alpha_bitmap()),
        Err(ImageLoadError::UnsupportedEncoding)
    ));
}

#[test]
fn bytes_that_are_no_bitmap_are_a_decode_error() {
    assert!(matches!(parse_region_image(b"not a bitmap"), Err(ImageLoadError::Decode(_))));
    assert!(matches!(parse_region_image(&[]), Err(ImageLoadError::Decode(_))));
}

#[test]
fn truncated_pixel_data_is_a_decode_error() {
    let file = plain_bitmap(2, 2, 24, &[3, 2, 1, 6, 5, 4, 0, 0]);
    assert!(matches!(parse_region_image(&file), Err(ImageLoadError::Decode(_))));
}

#[test]
fn buffer_length_is_three_bytes_a_pixel() {
    assert_eq!(buffer_len(0, 0), Some(0));
    assert_eq!(buffer_len(0, 7), Some(0));
    assert_eq!(buffer_len(1, 1), Some(3));
    assert_eq!(buffer_len(5632, 2048), Some(34_603_008));
    assert_eq!(buffer_len(u32::MAX, u32::MAX), None);
}

#[test]
fn plan_takes_rgb_only() {
    let rgb = BitmapHeader { width: 4, height: 3, encoding: PixelEncoding::Rgb8 };
    assert!(matches!(plan_buffer(rgb), Ok(36)));
    let other = BitmapHeader { width: 4, height: 3, encoding: PixelEncoding::Other };
    assert!(matches!(plan_buffer(other), Err(ImageLoadError::UnsupportedEncoding)));
    let huge = BitmapHeader { width: u32::MAX, height: u32::MAX, encoding: PixelEncoding::Rgb8 };
    assert!(matches!(plan_buffer(huge), Err(ImageLoadError::TooLarge)));
}

#[test]
fn image_needs_three_bytes_for_each_pixel() {
    let image = MapImage::new(2, 1, vec![1, 2, 3, 4, 5, 6]).unwrap();
    assert_eq!(image.width(), 2);
    assert_eq!(image.height(), 1);
    assert_eq!(image.bytes(), &[1, 2, 3, 4, 5, 6]);
    assert!(MapImage::new(2, 1, vec![1, 2, 3]).is_none());
    assert!(MapImage::new(0, 0, vec![0]).is_none());
    assert!(MapImage::new(0, 5, vec![]).is_some());
}
