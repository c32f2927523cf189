use efficientloftr_onnx_rs::evaluation::{
    batch_ranges, collect_pair_specs, csv_escape, is_frame_file_name, select_frame_names,
    sort_counts, summarize_counts,
};
use efficientloftr_onnx_rs::frame::{check_pair_shapes, pair_shapes_valid};
use efficientloftr_onnx_rs::inspect::{
    classify_batch_support, describe_value_type, BatchSupport, InputShape, ValueKind,
};
use efficientloftr_onnx_rs::matching::decode_match_outputs;
use efficientloftr_onnx_rs::names::{
    aliases_for, resolve_name, resolve_role, resolve_tensor_names, TensorRole,
};
use efficientloftr_onnx_rs::raster::line_pixels;
use efficientloftr_onnx_rs::selection::select_matches;
use efficientloftr_onnx_rs::tensor::{decode_confidence, decode_keypoints};
use efficientloftr_onnx_rs::text::{chars_of, join_strings};
use efficientloftr_onnx_rs::{BitTensor, EfficientLoftrError, GrayscaleFrame, TensorNames};

fn strings(items: &[&str]) -> Vec<String> {
    items.iter().map(|s| s.to_string()).collect()
}

fn frame(width: usize, height: usize, len: usize) -> GrayscaleFrame {
    GrayscaleFrame { width, height, pixels: vec![0; len] }
}

fn tensor(shape: &[usize], values: &[f32]) -> BitTensor {
    BitTensor::new(shape.to_vec(), values.iter().map(|v| v.to_bits()).collect()).expect("tensor")
}

fn names(i0: &str, i1: &str, k0: &str, k1: &str, c: &str) -> TensorNames {
    TensorNames {
        input0_name: i0.to_string(),
        input1_name: i1.to_string(),
        keypoints0_name: k0.to_string(),
        keypoints1_name: k1.to_string(),
        confidence_name: c.to_string(),
    }
}

#[test]
fn error_messages_name_their_kind() {
    let cases = vec![
        (EfficientLoftrError::Io("gone".to_string()), "io error: gone"),
        (EfficientLoftrError::Image("bad".to_string()), "image decode error: bad"),
        (EfficientLoftrError::InvalidImageShape, "invalid image shape or dimensions"),
        (EfficientLoftrError::MissingInput("x".to_string()), "missing model input: x"),
        (EfficientLoftrError::MissingOutput("y".to_string()), "missing model output: y"),
        (EfficientLoftrError::InvalidOutputShape("z".to_string()), "invalid output shape for: z"),
        (EfficientLoftrError::Ort("boom".to_string()), "onnx runtime error: boom"),
    ];
    for (error, text) in cases {
        assert_eq!(error.message(), text);
    }
}

#[test]
fn pair_shapes_must_match_and_fill_their_buffers() {
    assert!(pair_shapes_valid(&frame(4, 3, 12), &frame(4, 3, 12)));
    assert!(check_pair_shapes(&frame(4, 3, 12), &frame(4, 3, 12)).is_ok());
    assert!(!pair_shapes_valid(&frame(0, 3, 0), &frame(0, 3, 0)));
    assert!(!pair_shapes_valid(&frame(4, 0, 0), &frame(4, 0, 0)));
    assert!(!pair_shapes_valid(&frame(4, 3, 12), &frame(3, 4, 12)));
    assert!(!pair_shapes_valid(&frame(4, 3, 11), &frame(4, 3, 12)));
    assert!(!pair_shapes_valid(&frame(4, 3, 12), &frame(4, 3, 13)));
    assert!(!pair_shapes_valid(&frame(usize::MAX, 2, 2), &frame(usize::MAX, 2, 2)));
    assert!(matches!(
        check_pair_shapes(&frame(4, 3, 12), &frame(4, 2, 8)),
        Err(EfficientLoftrError::InvalidImageShape)
    ));
}

#[test]
fn preferred_name_wins_when_available() {
    let available = strings(&["img0", "image0"]);
    assert_eq!(resolve_name(&available, "image0", &["img0"]), Some("image0".to_string()));
}

#[test]
fn first_available_alias_is_used() {
    let available = strings(&["right", "img1", "input1"]);
    let picked = resolve_name(&available, "custom", &["image1", "img1", "input1", "right"]);
    assert_eq!(picked, Some("img1".to_string()));
    assert_eq!(resolve_name(&available, "custom", &["nothing"]), None);
    assert_eq!(resolve_name(&[], "custom", &["img1"]), None);
}

#[test]
fn alias_tables_follow_the_exports() {
    assert_eq!(aliases_for(TensorRole::Input0), vec!["image0", "img0", "input0", "left"]);
    assert_eq!(aliases_for(TensorRole::Input1), vec!["image1", "img1", "input1", "right"]);
    assert_eq!(
        aliases_for(TensorRole::Keypoints0),
        vec!["keypoints0", "mkpts0_f", "points0", "kpts0"]
    );
    assert_eq!(
        aliases_for(TensorRole::Keypoints1),
        vec!["keypoints1", "mkpts1_f", "points1", "kpts1"]
    );
    assert_eq!(aliases_for(TensorRole::Confidence), vec!["confidence", "mconf", "scores", "conf"]);
}

#[test]
fn default_names_are_the_reference_export() {
    let defaults = TensorNames::default();
    assert_eq!(defaults.input0_name, "image0");
    assert_eq!(defaults.input1_name, "image1");
    assert_eq!(defaults.keypoints0_name, "keypoints0");
    assert_eq!(defaults.keypoints1_name, "keypoints1");
    assert_eq!(defaults.confidence_name, "confidence");
}

#[test]
fn tensor_names_resolve_through_aliases() {
    let inputs = strings(&["left", "right"]);
    let outputs = strings(&["mkpts0_f", "mkpts1_f", "mconf"]);
    let resolved = resolve_tensor_names(&TensorNames::default(), &inputs, &outputs).expect("names");
    assert_eq!(resolved.input0_name, "left");
    assert_eq!(resolved.input1_name, "right");
    assert_eq!(resolved.keypoints0_name, "mkpts0_f");
    assert_eq!(resolved.keypoints1_name, "mkpts1_f");
    assert_eq!(resolved.confidence_name, "mconf");
}

#[test]
fn missing_input_lists_what_the_model_offers() {
    let inputs = strings(&["a", "b"]);
    let outputs = strings(&["keypoints0", "keypoints1", "confidence"]);
    let config = names("x0", "image1", "keypoints0", "keypoints1", "confidence");
    match resolve_tensor_names(&config, &inputs, &outputs) {
        Err(EfficientLoftrError::MissingInput(detail)) => {
            assert_eq!(detail, "x0 (available: a, b)")
        }
        other => panic!("unexpected {:?}", other),
    }
}

#[test]
fn missing_output_lists_what_the_model_offers() {
    let inputs = strings(&["image0", "image1"]);
    let outputs = strings(&["keypoints0", "keypoints1"]);
    match resolve_tensor_names(&TensorNames::default(), &inputs, &outputs) {
        Err(EfficientLoftrError::MissingOutput(detail)) => {
            assert_eq!(detail, "confidence (available: keypoints0, keypoints1)")
        }
        other => panic!("unexpected {:?}", other),
    }
    match resolve_role(TensorRole::Keypoints0, &"k".to_string(), &[]) {
        Err(EfficientLoftrError::MissingOutput(detail)) => assert_eq!(detail, "k (available: )"),
        other => panic!("unexpected {:?}", other),
    }
}

#[test]
fn tensors_check_their_element_count() {
    assert!(BitTensor::new(vec![2, 3], vec![0; 6]).is_some());
    assert!(BitTensor::new(vec![2, 3], vec![0; 5]).is_none());
    assert!(BitTensor::new(vec![], vec![7]).is_some());
    assert!(BitTensor::new(vec![usize::MAX, 0, usize::MAX], vec![]).is_some());
    assert!(BitTensor::new(vec![usize::MAX, 2], vec![0; 3]).is_none());
    let t = BitTensor::new(vec![1, 2], vec![5, 6]).expect("tensor");
    assert_eq!(t.shape(), &[1, 2]);
    assert_eq!(t.bits(), &[5, 6]);
}

#[test]
fn keypoints_use_the_first_two_components_of_each_row() {
    let t = tensor(&[2, 3], &[1.0, 2.0, 9.0, 3.0, 4.0, 9.0]);
    let points = decode_keypoints(&t, "kp").expect("decode");
    assert_eq!(points, vec![(1.0f32.to_bits(), 2.0f32.to_bits()), (3.0f32.to_bits(), 4.0f32.to_bits())]);
    let empty = tensor(&[0, 2], &[]);
    assert_eq!(decode_keypoints(&empty, "kp").expect("decode"), vec![]);
}

#[test]
fn unsupported_output_shapes_are_reported_by_name() {
    for shape in [vec![2usize, 1], vec![2, 2, 2], vec![4]] {
        let n: usize = shape.iter().product();
        let t = BitTensor::new(shape, vec![0; n]).expect("tensor");
        match decode_keypoints(&t, "kp") {
            Err(EfficientLoftrError::InvalidOutputShape(name)) => assert_eq!(name, "kp"),
            other => panic!("unexpected {:?}", other),
        }
    }
    let t = tensor(&[2, 2], &[0.0; 4]);
    match decode_confidence(&t, "conf") {
        Err(EfficientLoftrError::InvalidOutputShape(name)) => assert_eq!(name, "conf"),
        other => panic!("unexpected {:?}", other),
    }
}

#[test]
fn output_decoding_reports_the_configured_name() {
    let config = names("image0", "image1", "kp0", "kp1", "conf");
    let good_points = tensor(&[1, 2], &[1.0, 2.0]);
    let bad_points = tensor(&[2], &[1.0, 2.0]);
    let conf = tensor(&[1], &[0.5]);
    match decode_match_outputs(&config, &good_points, &bad_points, &conf) {
        Err(EfficientLoftrError::InvalidOutputShape(name)) => assert_eq!(name, "kp1"),
        Err(other) => panic!("unexpected {:?}", other),
        Ok(_) => panic!("decoding should fail"),
    }
    let decoded = decode_match_outputs(&config, &good_points, &good_points, &conf).expect("ok");
    assert_eq!(decoded.keypoints0.len(), 1);
    assert_eq!(decoded.confidence, vec![0.5f32.to_bits()]);
}

#[test]
fn selection_keeps_flagged_matches_up_to_the_cap() {
    let k0 = vec![(0, 0), (1, 1), (2, 2), (3, 3)];
    let k1 = vec![(10, 10), (11, 11), (12, 12), (13, 13)];
    let conf = vec![100, 101, 102, 103];
    let keep = vec![true, false, true, true];
    let all = select_matches(&k0, &k1, &conf, &keep, 10);
    assert_eq!(all.keypoints0, vec![(0, 0), (2, 2), (3, 3)]);
    assert_eq!(all.keypoints1, vec![(10, 10), (12, 12), (13, 13)]);
    assert_eq!(all.confidence, vec![100, 102, 103]);
    let capped = select_matches(&k0, &k1, &conf, &keep, 2);
    assert_eq!(capped.confidence, vec![100, 102]);
    let at_least_one = select_matches(&k0, &k1, &conf, &keep, 0);
    assert_eq!(at_least_one.confidence, vec![100]);
}

#[test]
fn selection_stops_at_the_shortest_output() {
    let k0 = vec![(0, 0), (1, 1), (2, 2)];
    let k1 = vec![(10, 10)];
    let conf = vec![100, 101, 102];
    let keep = vec![true, true, true];
    let out = select_matches(&k0, &k1, &conf, &keep, 512);
    assert_eq!(out.keypoints0, vec![(0, 0)]);
    assert_eq!(out.keypoints1, vec![(10, 10)]);
    assert_eq!(out.confidence, vec![100]);
}

#[test]
fn pair_specs_couple_frames_step_apart() {
    assert_eq!(collect_pair_specs(4, 1, None), vec![(0, 0, 1), (1, 1, 2), (2, 2, 3)]);
    assert_eq!(collect_pair_specs(5, 2, Some(2)), vec![(0, 0, 2), (1, 1, 3)]);
    assert_eq!(collect_pair_specs(3, 3, None), vec![]);
    assert_eq!(collect_pair_specs(3, usize::MAX, None), vec![]);
    assert_eq!(collect_pair_specs(4, 1, Some(0)), vec![]);
}

#[test]
fn batches_cover_all_pairs() {
    assert_eq!(batch_ranges(5, 2), vec![(0, 2), (2, 4), (4, 5)]);
    assert_eq!(batch_ranges(4, 4), vec![(0, 4)]);
    assert_eq!(batch_ranges(3, usize::MAX), vec![(0, 3)]);
    assert_eq!(batch_ranges(0, 3), vec![]);
}

#[test]
fn counts_are_sorted_and_summarised() {
    assert_eq!(sort_counts(&[5, 1, 4, 1, 3]), vec![1, 1, 3, 4, 5]);
    let summary = summarize_counts(&[752, 4096, 1111, 4096]).expect("summary");
    assert_eq!(summary.sorted, vec![752, 1111, 4096, 4096]);
    assert_eq!(summary.min, 752);
    assert_eq!(summary.max, 4096);
    assert_eq!(summary.total, 10055);
    assert!(summarize_counts(&[]).is_none());
    let large = summarize_counts(&[usize::MAX, usize::MAX]).expect("summary");
    assert_eq!(large.total, 2 * (usize::MAX as u128));
}

#[test]
fn csv_fields_are_quoted() {
    assert_eq!(csv_escape("plain"), "\"plain\"");
    assert_eq!(csv_escape("say \"hi\""), "\"say 'hi'\"");
    assert_eq!(csv_escape(""), "\"\"");
}

#[test]
fn frame_names_match_prefix_and_extension() {
    assert!(is_frame_file_name("frame_0001.jpg", "frame_", "jpg"));
    assert!(is_frame_file_name("frame_0001.JPG", "frame_", "Jpg"));
    assert!(!is_frame_file_name("frame_0001.png", "frame_", "jpg"));
    assert!(!is_frame_file_name("Frame_0001.jpg", "frame_", "jpg"));
    assert!(!is_frame_file_name("frame_0001jpg", "frame_", "jpg"));
    assert!(is_frame_file_name("frame_.jpg", "frame_", "jpg"));
}

#[test]
fn frame_names_are_selected_in_order() {
    let listed = strings(&["frame_10.jpg", "notes.txt", "frame_02.jpg", "frame_1.JPG", "frame_02.png"]);
    let picked = select_frame_names(&listed, "frame_", "jpg");
    assert_eq!(picked, strings(&["frame_02.jpg", "frame_1.JPG", "frame_10.jpg"]));
}

#[test]
fn lines_visit_every_step_between_their_ends() {
    assert_eq!(line_pixels(0, 0, 3, 0, 10, 10), vec![(0, 0), (1, 0), (2, 0), (3, 0)]);
    assert_eq!(line_pixels(0, 0, 2, 2, 10, 10), vec![(0, 0), (1, 1), (2, 2)]);
    assert_eq!(line_pixels(2, 3, 2, 0, 10, 10), vec![(2, 3), (2, 2), (2, 1), (2, 0)]);
    assert_eq!(line_pixels(0, 0, 4, 2, 10, 10), vec![(0, 0), (1, 1), (2, 1), (3, 2), (4, 2)]);
    assert_eq!(line_pixels(5, 5, 5, 5, 10, 10), vec![(5, 5)]);
    assert_eq!(line_pixels(-2, 0, 1, 0, 10, 10), vec![(0, 0), (1, 0)]);
    assert_eq!(line_pixels(0, 0, 3, 0, 2, 1), vec![(0, 0), (1, 0)]);
    assert_eq!(line_pixels(i32::MIN, 0, i32::MIN + 1, 0, 10, 10), vec![]);
}

#[test]
fn batch_support_is_classified() {
    let dynamic = InputShape::Tensor { first_dim: Some(-1) };
    let unit = InputShape::Tensor { first_dim: Some(1) };
    let four = InputShape::Tensor { first_dim: Some(4) };
    let scalar = InputShape::Tensor { first_dim: None };
    assert_eq!(classify_batch_support(&[]), BatchSupport::Unknown);
    assert_eq!(classify_batch_support(&[InputShape::NotTensor]), BatchSupport::Unknown);
    assert_eq!(classify_batch_support(&[dynamic, dynamic]), BatchSupport::DynamicBatch);
    assert_eq!(classify_batch_support(&[dynamic, unit]), BatchSupport::FixedBatch1);
    assert_eq!(classify_batch_support(&[unit, four, scalar]), BatchSupport::FixedNonUnitBatch);
    assert_eq!(classify_batch_support(&[scalar, four]), BatchSupport::NotBatchedTensor);
    assert_eq!(BatchSupport::DynamicBatch.label(), "dynamic-batch");
    assert_eq!(BatchSupport::FixedBatch1.label(), "fixed-batch-1");
    assert_eq!(BatchSupport::FixedNonUnitBatch.label(), "fixed-nonunit-batch");
    assert_eq!(BatchSupport::NotBatchedTensor.label(), "not-batched-tensor");
    assert_eq!(BatchSupport::Unknown.label(), "unknown");
}

#[test]
fn value_types_are_described() {
    let image = ValueKind::Tensor {
        element: "f32".to_string(),
        dims: vec![-1, 1, 480, 640],
        symbols: strings(&["batch", "", "", "width"]),
    };
    assert_eq!(describe_value_type(&image), "tensor<f32>[batch=-1, 1, 480, width=640]");
    let nested = ValueKind::Optional(Box::new(ValueKind::Sequence(Box::new(ValueKind::Mapping {
        key: "i64".to_string(),
        value: "f32".to_string(),
    }))));
    assert_eq!(describe_value_type(&nested), "optional<sequence<map<i64, f32>>>");
    let extremes = ValueKind::Tensor {
        element: "u8".to_string(),
        dims: vec![i64::MIN, i64::MAX, 0],
        symbols: strings(&["", ""]),
    };
    assert_eq!(
        describe_value_type(&extremes),
        "tensor<u8>[-9223372036854775808, 9223372036854775807]"
    );
}

#[test]
fn text_helpers_round_trip() {
    let chars = chars_of("héllo");
    assert_eq!(chars, vec!['h', 'é', 'l', 'l', 'o']);
    assert_eq!(join_strings(&strings(&["a", "b", "c"]), ", "), "a, b, c");
    assert_eq!(join_strings(&strings(&["only"]), ", "), "only");
    assert_eq!(join_strings(&[], ", "), "");
}

#[test]
fn resolved_names_resolve_to_themselves() {
    let inputs = strings(&["img0", "img1"]);
    let outputs = strings(&["kpts0", "kpts1", "scores"]);
    let first = resolve_tensor_names(&TensorNames::default(), &inputs, &outputs).expect("names");
    let again = resolve_tensor_names(&first, &inputs, &outputs).expect("names");
    assert_eq!(first.input0_name, "img0");
    assert_eq!(again.input0_name, first.input0_name);
    assert_eq!(again.input1_name, first.input1_name);
    assert_eq!(again.keypoints0_name, first.keypoints0_name);
    assert_eq!(again.keypoints1_name, first.keypoints1_name);
    assert_eq!(again.confidence_name, first.confidence_name);
}

#[test]
fn lines_have_one_point_per_major_step() {
    assert_eq!(line_pixels(0, 0, 7, 3, 100, 100).len(), 8);
    assert_eq!(line_pixels(0, 0, -2, -9, 100, 100).len(), 1);
    assert_eq!(line_pixels(10, 10, 8, 1, 100, 100).len(), 10);
    let steep = line_pixels(10, 10, 8, 1, 100, 100);
    assert_eq!(steep.first(), Some(&(10, 10)));
    assert_eq!(steep.last(), Some(&(8, 1)));
}
