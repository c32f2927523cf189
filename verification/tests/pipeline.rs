use std::io::Cursor;

use efficientloftr_onnx_rs::evaluation::{check_frame_dimensions, match_counts};
use efficientloftr_onnx_rs::frame::{
    check_batch_shapes, frame_from_encoded, load_grayscale_resized, load_rgb_resized,
};
use efficientloftr_onnx_rs::matching::{finish_batch_match, finish_match};
use efficientloftr_onnx_rs::raster::{line_pixels, rgb_pixels, RgbCanvas};
use efficientloftr_onnx_rs::selection::{confidence_flags, float_bits_less};
use efficientloftr_onnx_rs::tensor::{decode_batch_confidence, decode_batch_keypoints};
use efficientloftr_onnx_rs::{BitTensor, EfficientLoftrError, GrayscaleFrame, MatchBits, TensorNames};
use image::{GrayImage, ImageFormat, RgbImage};

fn png_of_gray(width: u32, height: u32, pixels: Vec<u8>) -> Vec<u8> {
    let image = GrayImage::from_raw(width, height, pixels).expect("gray image");
    let mut bytes = Vec::new();
    image.write_to(&mut Cursor::new(&mut bytes), ImageFormat::Png).expect("png");
    bytes
}

fn png_of_rgb(width: u32, height: u32, pixels: Vec<u8>) -> Vec<u8> {
    let image = RgbImage::from_raw(width, height, pixels).expect("rgb image");
    let mut bytes = Vec::new();
    image.write_to(&mut Cursor::new(&mut bytes), ImageFormat::Png).expect("png");
    bytes
}

fn tensor(shape: &[usize], values: &[f32]) -> BitTensor {
    BitTensor::new(shape.to_vec(), values.iter().map(|v| v.to_bits()).collect()).expect("tensor")
}

fn bits(points: &[(f32, f32)]) -> Vec<(u32, u32)> {
    points.iter().map(|(x, y)| (x.to_bits(), y.to_bits())).collect()
}

fn same(a: &MatchBits, b: &MatchBits) -> bool {
    a.keypoints0 == b.keypoints0 && a.keypoints1 == b.keypoints1 && a.confidence == b.confidence
}

fn single_outputs() -> (BitTensor, BitTensor, BitTensor) {
    (
        tensor(&[1, 3, 2], &[1.0, 2.0, 3.0, 4.0, 5.0, 6.0]),
        tensor(&[1, 3, 2], &[7.0, 8.0, 9.0, 10.0, 11.0, 12.0]),
        tensor(&[1, 3], &[0.9, 0.1, 0.5]),
    )
}

#[test]
fn encoded_png_decodes_to_its_gray_pixels() {
    let pixels = vec![0, 10, 20, 30, 40, 250];
    let bytes = png_of_gray(3, 2, pixels.clone());
    let frame = frame_from_encoded(&bytes, "png").expect("decodes");
    assert_eq!(frame.width, 3);
    assert_eq!(frame.height, 2);
    assert_eq!(frame.pixels, pixels);
    let upper = frame_from_encoded(&bytes, "PNG").expect("extension case is ignored");
    assert_eq!(upper.pixels, pixels);
}

#[test]
fn color_images_are_converted_to_gray() {
    let bytes = png_of_rgb(1, 1, vec![255, 255, 255]);
    let frame = frame_from_encoded(&bytes, "png").expect("decodes");
    assert_eq!((frame.width, frame.height), (1, 1));
    assert_eq!(frame.pixels, vec![255]);
}

#[test]
fn unknown_or_missing_extensions_are_image_errors() {
    let bytes = png_of_gray(1, 1, vec![7]);
    assert!(matches!(frame_from_encoded(&bytes, "xyz"), Err(EfficientLoftrError::Image(_))));
    assert!(matches!(frame_from_encoded(&bytes, ""), Err(EfficientLoftrError::Image(_))));
    assert!(matches!(
        frame_from_encoded(&[1, 2, 3], "png"),
        Err(EfficientLoftrError::Image(_))
    ));
}

#[test]
fn loaders_resize_with_the_triangle_filter() {
    let gray = GrayImage::from_raw(2, 2, vec![0, 100, 200, 50]).unwrap();
    let gray_png = png_of_gray(2, 2, gray.clone().into_raw());
    let loaded = load_grayscale_resized(&gray_png, "png", 4, 3).expect("loads");
    let expected =
        image::imageops::resize(&gray, 4, 3, image::imageops::FilterType::Triangle).into_raw();
    assert_eq!((loaded.width, loaded.height), (4, 3));
    assert_eq!(loaded.pixels.len(), 12);
    assert_eq!(loaded.pixels, expected);

    let rgb = RgbImage::from_raw(2, 1, vec![255, 0, 0, 0, 0, 255]).unwrap();
    let rgb_png = png_of_rgb(2, 1, rgb.clone().into_raw());
    let loaded = load_rgb_resized(&rgb_png, "png", 3, 2).expect("loads");
    let expected =
        image::imageops::resize(&rgb, 3, 2, image::imageops::FilterType::Triangle).into_raw();
    assert_eq!((loaded.width, loaded.height), (3, 2));
    assert_eq!(loaded.pixels.len(), 18);
    assert_eq!(loaded.pixels, expected);

    assert!(matches!(
        load_rgb_resized(&rgb_png, "bogus", 3, 2),
        Err(EfficientLoftrError::Image(_))
    ));
}

#[test]
fn bit_pattern_comparison_agrees_with_f32() {
    let values = [
        0.0f32,
        -0.0,
        1.0,
        -1.0,
        0.2,
        0.5,
        f32::MIN_POSITIVE,
        f32::from_bits(1),
        -f32::from_bits(1),
        f32::MAX,
        f32::MIN,
        f32::INFINITY,
        f32::NEG_INFINITY,
        f32::NAN,
        -f32::NAN,
    ];
    for a in values {
        for b in values {
            assert_eq!(float_bits_less(a.to_bits(), b.to_bits()), a < b, "{a} < {b}");
        }
    }
}

#[test]
fn confidences_below_the_threshold_are_flagged_out() {
    let confidence: Vec<u32> = [0.1f32, 0.2, 0.3, f32::NAN].iter().map(|c| c.to_bits()).collect();
    assert_eq!(confidence_flags(&confidence, 0.2f32.to_bits()), vec![false, true, true, true]);
}

#[test]
fn finished_match_applies_threshold_and_cap() {
    let (k0, k1, conf) = single_outputs();
    let names = TensorNames::default();
    let all = finish_match(&names, &k0, &k1, &conf, 0.2f32.to_bits(), 10).expect("matches");
    assert_eq!(all.keypoints0, bits(&[(1.0, 2.0), (5.0, 6.0)]));
    assert_eq!(all.keypoints1, bits(&[(7.0, 8.0), (11.0, 12.0)]));
    assert_eq!(all.confidence, vec![0.9f32.to_bits(), 0.5f32.to_bits()]);

    let one = finish_match(&names, &k0, &k1, &conf, 0.2f32.to_bits(), 1).expect("matches");
    assert_eq!(one.confidence, vec![0.9f32.to_bits()]);
    assert_eq!(one.keypoints0, all.keypoints0[..1].to_vec());
    let zero = finish_match(&names, &k0, &k1, &conf, 0.2f32.to_bits(), 0).expect("matches");
    assert!(same(&zero, &one));
}

#[test]
fn finished_match_reports_bad_shapes_by_configured_name() {
    let (k0, k1, _) = single_outputs();
    let bad = tensor(&[2, 2], &[0.1, 0.2, 0.3, 0.4]);
    let names = TensorNames::default();
    match finish_match(&names, &k0, &k1, &bad, 0, 10) {
        Err(EfficientLoftrError::InvalidOutputShape(name)) => assert_eq!(name, "confidence"),
        other => panic!("unexpected {other:?}"),
    }
}

#[test]
fn batched_outputs_split_per_item() {
    let k0 = tensor(&[2, 2, 2], &[1.0, 2.0, 3.0, 4.0, 5.0, 6.0, 7.0, 8.0]);
    let conf = tensor(&[2, 2], &[0.9, 0.1, 0.3, 0.8]);
    let points = decode_batch_keypoints(&k0, 2, "keypoints0").expect("keypoints");
    assert_eq!(points, vec![bits(&[(1.0, 2.0), (3.0, 4.0)]), bits(&[(5.0, 6.0), (7.0, 8.0)])]);
    let scores = decode_batch_confidence(&conf, 2, "confidence").expect("confidence");
    assert_eq!(
        scores,
        vec![
            vec![0.9f32.to_bits(), 0.1f32.to_bits()],
            vec![0.3f32.to_bits(), 0.8f32.to_bits()]
        ]
    );
    assert!(matches!(
        decode_batch_keypoints(&k0, 4, "keypoints0"),
        Err(EfficientLoftrError::InvalidOutputShape(_))
    ));

    let names = TensorNames::default();
    let items =
        finish_batch_match(&names, &k0, &k0, &conf, 2, 0.2f32.to_bits(), 10).expect("batch");
    assert_eq!(items.len(), 2);
    assert_eq!(items[0].confidence, vec![0.9f32.to_bits()]);
    assert_eq!(items[1].confidence, vec![0.3f32.to_bits(), 0.8f32.to_bits()]);
    assert_eq!(items[1].keypoints0, bits(&[(5.0, 6.0), (7.0, 8.0)]));
    assert_eq!(match_counts(&items), vec![1, 2]);
}

#[test]
fn batch_of_one_matches_like_a_pair() {
    let (k0, k1, conf) = single_outputs();
    let names = TensorNames::default();
    let single = finish_match(&names, &k0, &k1, &conf, 0.2f32.to_bits(), 10).expect("pair");
    let batch =
        finish_batch_match(&names, &k0, &k1, &conf, 1, 0.2f32.to_bits(), 10).expect("batch");
    assert_eq!(batch.len(), 1);
    assert!(same(&batch[0], &single));
    assert!(finish_batch_match(&names, &k0, &k1, &conf, 4, 0.2f32.to_bits(), 10).is_err());
}

#[test]
fn batches_need_frames_of_one_size() {
    let a = GrayscaleFrame { width: 2, height: 2, pixels: vec![0; 4] };
    let b = GrayscaleFrame { width: 2, height: 2, pixels: vec![1; 4] };
    let c = GrayscaleFrame { width: 3, height: 1, pixels: vec![0; 3] };
    assert!(check_batch_shapes(&[&a, &b], &[&b, &a]).is_ok());
    assert!(matches!(
        check_batch_shapes(&[&a, &c], &[&b, &c]),
        Err(EfficientLoftrError::InvalidImageShape)
    ));
    assert!(check_batch_shapes(&[], &[]).is_err());
    assert!(check_batch_shapes(&[&a], &[&a, &b]).is_err());
}

#[test]
fn frame_dimension_mismatch_names_both_files() {
    let a = GrayscaleFrame { width: 640, height: 480, pixels: vec![0; 640 * 480] };
    let b = GrayscaleFrame { width: 320, height: 240, pixels: vec![0; 320 * 240] };
    assert_eq!(check_frame_dimensions(&a, &a, "x.png", "y.png"), Ok(()));
    assert_eq!(
        check_frame_dimensions(&a, &b, "frames/a.png", "frames/b.png"),
        Err("frame dimensions differ: frames/a.png (640x480) vs frames/b.png (320x240)".to_string())
    );
}

#[test]
fn canvas_blits_and_draws_lines() {
    let mut canvas = RgbCanvas::new(4, 3);
    assert_eq!(canvas.pixels(), &[(0, 0, 0); 12][..]);
    let image = rgb_pixels(&[1, 2, 3, 4, 5, 6, 7, 8, 9, 10, 11, 12, 99]);
    assert_eq!(image, vec![(1, 2, 3), (4, 5, 6), (7, 8, 9), (10, 11, 12)]);
    canvas.blit(2, 2, &image, 1, 1);
    let p = canvas.pixels();
    assert_eq!(p[0], (0, 0, 0));
    assert_eq!(p[5], (1, 2, 3));
    assert_eq!(p[6], (4, 5, 6));
    assert_eq!(p[9], (7, 8, 9));
    assert_eq!(p[10], (10, 11, 12));
    assert_eq!(p[4], (0, 0, 0));

    canvas.draw_line(-2, 0, 5, 0, (255, 0, 0));
    let p = canvas.pixels();
    for x in 0..4 {
        assert_eq!(p[x], (255, 0, 0));
    }
    assert_eq!(p[5], (1, 2, 3));
    let line = line_pixels(0, 2, 3, 2, 4, 3);
    canvas.draw_line(0, 2, 3, 2, (0, 255, 0));
    for (x, y) in line {
        assert_eq!(canvas.pixels()[(y * 4 + x) as usize], (0, 255, 0));
    }
    let bytes = canvas.rgb_bytes();
    assert_eq!(bytes.len(), 36);
    assert_eq!(&bytes[15..18], &[1, 2, 3]);
    assert_eq!(&bytes[0..3], &[255, 0, 0]);
}
