use ruffle_core::{
    define_bits_lossless_to_rgba, lossless_pixels_to_rgba, BitmapFormat, DefineBitsLossless, Error,
    NullRenderer,
};
use std::io::Write;

fn zlib(bytes: &[u8]) -> Vec<u8> {
    let mut encoder = libflate::zlib::Encoder::new(Vec::new()).unwrap();
    encoder.write_all(bytes).unwrap();
    encoder.finish().into_result().unwrap()
}

fn tag(
    version: u8,
    format: BitmapFormat,
    width: u16,
    height: u16,
    num_colors: u8,
    pixels: &[u8],
) -> DefineBitsLossless {
    DefineBitsLossless { version, format, width, height, num_colors, data: zlib(pixels) }
}

#[test]
fn colormap_version_1_two_pixels() {
    let t = tag(1, BitmapFormat::ColorMap8, 2, 1, 0, &[10, 20, 30, 0, 0, 0, 0]);
    assert_eq!(define_bits_lossless_to_rgba(&t), Ok(vec![10, 20, 30, 255, 10, 20, 30, 255]));
}

#[test]
fn colormap_precompressed_payload() {
    let t = DefineBitsLossless {
        version: 1,
        format: BitmapFormat::ColorMap8,
        width: 2,
        height: 1,
        num_colors: 0,
        data: vec![120, 156, 227, 18, 145, 99, 0, 2, 0, 1, 91, 0, 61],
    };
    assert_eq!(define_bits_lossless_to_rgba(&t), Ok(vec![10, 20, 30, 255, 10, 20, 30, 255]));
}

#[test]
fn out_of_range_index_version_1_is_opaque_black() {
    let t = tag(1, BitmapFormat::ColorMap8, 1, 1, 0, &[10, 20, 30, 5, 0, 0, 0]);
    assert_eq!(define_bits_lossless_to_rgba(&t), Ok(vec![0, 0, 0, 255]));
}

#[test]
fn out_of_range_index_version_2_is_transparent_black() {
    let t = tag(2, BitmapFormat::ColorMap8, 1, 1, 0, &[10, 20, 30, 40, 5, 0, 0, 0]);
    assert_eq!(define_bits_lossless_to_rgba(&t), Ok(vec![0, 0, 0, 0]));
}

#[test]
fn colormap_version_2_rows_skip_padding() {
    // Two palette entries, a 3x2 image: rows of 3 indices padded to 4.
    let pixels = [1, 2, 3, 4, 5, 6, 7, 8, 0, 1, 0, 9, 1, 1, 2];
    let t = tag(2, BitmapFormat::ColorMap8, 3, 2, 1, &pixels);
    assert_eq!(
        define_bits_lossless_to_rgba(&t),
        Ok(vec![1, 2, 3, 4, 5, 6, 7, 8, 1, 2, 3, 4, 5, 6, 7, 8, 5, 6, 7, 8, 0, 0, 0, 0])
    );
}

#[test]
fn colormap_last_row_padding_may_be_absent() {
    let t = tag(1, BitmapFormat::ColorMap8, 1, 2, 0, &[9, 8, 7, 0, 0, 0, 0, 0]);
    assert_eq!(define_bits_lossless_to_rgba(&t), Ok(vec![9, 8, 7, 255, 9, 8, 7, 255]));
}

#[test]
fn colormap_too_short_is_size_mismatch() {
    let t = tag(1, BitmapFormat::ColorMap8, 2, 2, 0, &[9, 8, 7, 0, 0, 0, 0, 0]);
    assert_eq!(define_bits_lossless_to_rgba(&t), Err(Error::SizeMismatch));
}

#[test]
fn rgb32_version_1_is_opaque() {
    let t = tag(1, BitmapFormat::Rgb32, 2, 1, 0, &[0, 1, 2, 3, 77, 4, 5, 6]);
    assert_eq!(define_bits_lossless_to_rgba(&t), Ok(vec![1, 2, 3, 255, 4, 5, 6, 255]));
}

#[test]
fn rgb32_version_2_moves_alpha_last() {
    let t = tag(2, BitmapFormat::Rgb32, 1, 2, 0, &[9, 1, 2, 3, 128, 4, 5, 6]);
    assert_eq!(define_bits_lossless_to_rgba(&t), Ok(vec![1, 2, 3, 9, 4, 5, 6, 128]));
}

#[test]
fn rgb32_too_short_is_size_mismatch() {
    let t = tag(2, BitmapFormat::Rgb32, 2, 1, 0, &[9, 1, 2, 3, 128]);
    assert_eq!(define_bits_lossless_to_rgba(&t), Err(Error::SizeMismatch));
}

#[test]
fn rgb15_is_unimplemented() {
    let t = tag(1, BitmapFormat::Rgb15, 1, 1, 0, &[0, 0]);
    assert_eq!(define_bits_lossless_to_rgba(&t), Err(Error::Unimplemented));
}

#[test]
fn unknown_version_is_unimplemented() {
    let t = tag(3, BitmapFormat::Rgb32, 1, 1, 0, &[0, 1, 2, 3]);
    assert_eq!(define_bits_lossless_to_rgba(&t), Err(Error::Unimplemented));
}

#[test]
fn corrupt_data_is_inflate_error_before_format() {
    let mut t = tag(1, BitmapFormat::Rgb15, 1, 1, 0, &[]);
    t.data = vec![1, 2, 3];
    assert_eq!(define_bits_lossless_to_rgba(&t), Err(Error::InflateError));
}

#[test]
fn pixels_to_rgba_takes_inflated_data() {
    let t = tag(1, BitmapFormat::ColorMap8, 2, 1, 0, &[]);
    assert_eq!(
        lossless_pixels_to_rgba(&t, &[10, 20, 30, 0, 5, 0, 0]),
        Ok(vec![10, 20, 30, 255, 0, 0, 0, 255])
    );
}

#[test]
fn decoding_twice_gives_the_same_bitmap() {
    let t = tag(2, BitmapFormat::ColorMap8, 3, 2, 1, &[1, 2, 3, 4, 5, 6, 7, 8, 0, 1, 0, 9, 1, 1, 2]);
    assert_eq!(define_bits_lossless_to_rgba(&t), define_bits_lossless_to_rgba(&t.clone()));
}

#[test]
fn null_renderer_hands_out_handle_zero() {
    let mut r = NullRenderer;
    let t = tag(1, BitmapFormat::Rgb32, 1, 1, 0, &[0, 1, 2, 3]);
    assert_eq!(r.register_bitmap_png(&t).0, 0);
    assert_eq!(r.register_bitmap_jpeg(1, &[], &[]).0, 0);
    assert_eq!(r.register_bitmap_jpeg_2(2, &[]).0, 0);
    assert_eq!(r.register_bitmap_jpeg_3(3, &[], &[]).0, 0);
}

#[test]
fn zero_width_bitmap_is_empty() {
    let t = tag(1, BitmapFormat::ColorMap8, 0, 3, 0, &[1, 2, 3]);
    assert_eq!(define_bits_lossless_to_rgba(&t), Ok(Vec::new()));
    let t = tag(2, BitmapFormat::Rgb32, 5, 0, 0, &[]);
    assert_eq!(define_bits_lossless_to_rgba(&t), Ok(Vec::new()));
}
