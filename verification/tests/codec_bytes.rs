//! Byte-exact behaviour of the tensor codec and the image layer.

use objdetect::codec::{decode_records, encode, FloatNorm};
use objdetect::fixed::QuantParams;
use objdetect::raster::{decode_image, Image};
use objdetect::service::prepare_input;
use objdetect::tensor::{validate_run_input, Dtype, TensorSpec};
use objdetect::DetectError;

fn spec(h: usize, w: usize, c: usize, dtype: Dtype) -> TensorSpec {
    TensorSpec { dims: vec![1, h, w, c], dtype }
}

fn rgb_image(width: usize, height: usize, data: Vec<u8>) -> Image {
    Image::new(width, height, 3, data).unwrap()
}

#[test]
fn encode_buffer_length_matches_shape_and_dtype() {
    let img = rgb_image(2, 2, vec![0; 12]);
    let u8_buf = encode(&img, &spec(4, 4, 3, Dtype::U8), FloatNorm::ZeroToOne).unwrap();
    assert_eq!(u8_buf.len(), 4 * 4 * 3);
    let f32_buf = encode(&img, &spec(3, 5, 1, Dtype::F32), FloatNorm::ZeroToOne).unwrap();
    assert_eq!(f32_buf.len(), 3 * 5 * 1 * 4);
}

#[test]
fn encode_resizes_by_nearest_neighbor() {
    // A 2x1 image upscaled to 4x1: each source pixel covers two outputs.
    let img = rgb_image(2, 1, vec![10, 11, 12, 20, 21, 22]);
    let buf = encode(&img, &spec(1, 4, 3, Dtype::U8), FloatNorm::ZeroToOne).unwrap();
    assert_eq!(buf, vec![10, 11, 12, 10, 11, 12, 20, 21, 22, 20, 21, 22]);
}

#[test]
fn encode_drops_alpha_for_three_channel_target() {
    let img = Image::new(1, 1, 4, vec![10, 20, 30, 99]).unwrap();
    let buf = encode(&img, &spec(1, 1, 3, Dtype::U8), FloatNorm::ZeroToOne).unwrap();
    assert_eq!(buf, vec![10, 20, 30]);
}

#[test]
fn encode_grayscale_uses_rec601_luminance() {
    let img = rgb_image(1, 1, vec![10, 20, 30]);
    let buf = encode(&img, &spec(1, 1, 1, Dtype::U8), FloatNorm::ZeroToOne).unwrap();
    // (299*10 + 587*20 + 114*30) / 1000 = 18150 / 1000 = 18.
    assert_eq!(buf, vec![18]);
    let red = rgb_image(1, 1, vec![255, 0, 0]);
    let buf = encode(&red, &spec(1, 1, 1, Dtype::U8), FloatNorm::ZeroToOne).unwrap();
    assert_eq!(buf, vec![76]);
}

#[test]
fn encode_replicates_grayscale_across_rgb_target() {
    let img = Image::new(1, 1, 1, vec![42]).unwrap();
    let buf = encode(&img, &spec(1, 1, 3, Dtype::U8), FloatNorm::ZeroToOne).unwrap();
    assert_eq!(buf, vec![42, 42, 42]);
}

#[test]
fn encode_float_bytes_are_exact_ieee_patterns() {
    let img = rgb_image(1, 1, vec![128, 0, 255]);
    let buf = encode(&img, &spec(1, 1, 3, Dtype::F32), FloatNorm::ZeroToOne).unwrap();
    // 128/256 = 0.5, 0/256 = 0.0, 255/256 = 0.99609375, little-endian.
    assert_eq!(buf[0..4], 0.5f32.to_le_bytes());
    assert_eq!(buf[4..8], 0.0f32.to_le_bytes());
    assert_eq!(buf[8..12], 0.99609375f32.to_le_bytes());
}

#[test]
fn encode_centered_float_normalization() {
    let img = rgb_image(1, 1, vec![0, 128, 192]);
    let buf = encode(&img, &spec(1, 1, 3, Dtype::F32), FloatNorm::PlusMinusOne).unwrap();
    // (n - 128) / 128: -1.0, 0.0, 0.5.
    assert_eq!(buf[0..4], (-1.0f32).to_le_bytes());
    assert_eq!(buf[4..8], 0.0f32.to_le_bytes());
    assert_eq!(buf[8..12], 0.5f32.to_le_bytes());
}

#[test]
fn encode_rejects_bad_shapes() {
    let img = rgb_image(1, 1, vec![0, 0, 0]);
    let three_d = TensorSpec { dims: vec![1, 2, 2], dtype: Dtype::U8 };
    assert_eq!(
        encode(&img, &three_d, FloatNorm::ZeroToOne),
        Err(DetectError::ShapeMismatch)
    );
    let batched = TensorSpec { dims: vec![2, 2, 2, 3], dtype: Dtype::U8 };
    assert_eq!(
        encode(&img, &batched, FloatNorm::ZeroToOne),
        Err(DetectError::ShapeMismatch)
    );
    let four_channel_target = TensorSpec { dims: vec![1, 2, 2, 4], dtype: Dtype::U8 };
    assert_eq!(
        encode(&img, &four_channel_target, FloatNorm::ZeroToOne),
        Err(DetectError::ShapeMismatch)
    );
}

#[test]
fn encode_rejects_two_channel_images() {
    let img = Image::new(1, 1, 2, vec![5, 6]).unwrap();
    assert_eq!(
        encode(&img, &spec(1, 1, 3, Dtype::U8), FloatNorm::ZeroToOne),
        Err(DetectError::UnsupportedChannelLayout)
    );
}

#[test]
fn image_constructor_validates_layout() {
    assert_eq!(
        Image::new(0, 1, 3, vec![]),
        Err(DetectError::UnsupportedImageFormat)
    );
    assert_eq!(
        Image::new(1, 1, 5, vec![0; 5]),
        Err(DetectError::UnsupportedImageFormat)
    );
    assert_eq!(
        Image::new(2, 2, 3, vec![0; 11]),
        Err(DetectError::UnsupportedImageFormat)
    );
    assert!(Image::new(2, 2, 3, vec![0; 12]).is_ok());
}

#[test]
fn validate_run_input_checks_byte_length() {
    let ts = spec(2, 2, 3, Dtype::U8);
    assert!(validate_run_input(&vec![0; 12], &ts).is_ok());
    assert_eq!(
        validate_run_input(&vec![0; 11], &ts),
        Err(DetectError::TensorSizeMismatch)
    );
    let f32_ts = spec(2, 2, 3, Dtype::F32);
    assert!(validate_run_input(&vec![0; 48], &f32_ts).is_ok());
    assert_eq!(
        validate_run_input(&vec![0; 12], &f32_ts),
        Err(DetectError::TensorSizeMismatch)
    );
}

#[test]
fn decode_records_splits_windows_and_dequantizes() {
    let q = QuantParams { scale_ppm: 500_000, zero_point: 2 };
    let bytes = vec![2u8, 4, 6, 8, 10, 1, 3, 2, 2, 2, 2, 0, 0, 0];
    let records = decode_records(&bytes, 2, &q).unwrap();
    assert_eq!(records.len(), 2);
    // scale 0.5: value = 500_000 * (raw - 2).
    assert_eq!(records[0].center_x, 0);
    assert_eq!(records[0].center_y, 1_000_000);
    assert_eq!(records[0].width, 2_000_000);
    assert_eq!(records[0].height, 3_000_000);
    assert_eq!(records[0].objectness, 4_000_000);
    assert_eq!(records[0].class_scores, vec![-500_000, 500_000]);
    assert_eq!(records[1].objectness, -1_000_000);
    assert_eq!(records[1].class_scores, vec![-1_000_000, -1_000_000]);
}

#[test]
fn decode_records_rejects_partial_window() {
    let q = QuantParams::identity();
    assert_eq!(
        decode_records(&vec![0u8; 13], 2, &q),
        Err(DetectError::TruncatedOutput)
    );
    assert!(decode_records(&vec![0u8; 14], 2, &q).is_ok());
    assert!(decode_records(&vec![], 2, &q).is_ok());
}

#[test]
fn decode_image_reads_png_pixels() {
    // A 2x1 PNG with a red and a green pixel, decoded through the library:
    // the wrapper must hand back the actual raster, not the input bytes.
    let mut png: Vec<u8> = Vec::new();
    let buf = image::RgbImage::from_raw(2, 1, vec![255, 0, 0, 0, 255, 0]).unwrap();
    image::DynamicImage::ImageRgb8(buf)
        .write_to(&mut std::io::Cursor::new(&mut png), image::ImageFormat::Png)
        .unwrap();
    let img = decode_image(&png).unwrap();
    assert_eq!(img.width, 2);
    assert_eq!(img.height, 1);
    assert_eq!(img.channels, 4);
    assert_eq!(img.data, vec![255, 0, 0, 255, 0, 255, 0, 255]);
}

#[test]
fn decode_image_rejects_unrecognised_bytes() {
    assert_eq!(
        decode_image(&vec![1, 2, 3, 4]),
        Err(DetectError::UnsupportedImageFormat)
    );
}

#[test]
fn prepare_input_encodes_uploaded_png() {
    let mut png: Vec<u8> = Vec::new();
    let buf = image::RgbImage::from_raw(1, 1, vec![255, 0, 0]).unwrap();
    image::DynamicImage::ImageRgb8(buf)
        .write_to(&mut std::io::Cursor::new(&mut png), image::ImageFormat::Png)
        .unwrap();
    // The decoded RGBA pixel is reduced to RGB for the 3-channel target.
    let input = prepare_input(&png, &spec(1, 1, 3, Dtype::U8), FloatNorm::ZeroToOne).unwrap();
    assert_eq!(input, vec![255, 0, 0]);
    // Upscaled to 2x2, the single pixel fills the whole tensor.
    let input = prepare_input(&png, &spec(2, 2, 3, Dtype::U8), FloatNorm::ZeroToOne).unwrap();
    assert_eq!(input.len(), 12);
    assert!(input.chunks(3).all(|p| p == [255, 0, 0]));
}

#[test]
fn prepare_input_checks_shape_before_decoding() {
    let bad_shape = TensorSpec { dims: vec![1, 2, 2], dtype: Dtype::U8 };
    assert_eq!(
        prepare_input(&vec![1, 2, 3], &bad_shape, FloatNorm::ZeroToOne),
        Err(DetectError::ShapeMismatch)
    );
    assert_eq!(
        prepare_input(&vec![1, 2, 3], &spec(2, 2, 3, Dtype::U8), FloatNorm::ZeroToOne),
        Err(DetectError::UnsupportedImageFormat)
    );
}
