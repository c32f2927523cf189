use efficientloftr_onnx_rs::tensor::{decode_confidence, decode_keypoints, BitTensor};
use ndarray::{Array, ArrayD};

fn bit_tensor(array: ArrayD<f32>) -> BitTensor {
    BitTensor::new(
        array.shape().to_vec(),
        array.iter().map(|v| v.to_bits()).collect(),
    )
    .expect("tensor")
}

fn keypoint_floats(points: Vec<(u32, u32)>) -> Vec<[f32; 2]> {
    points
        .into_iter()
        .map(|(x, y)| [f32::from_bits(x), f32::from_bits(y)])
        .collect()
}

fn floats(values: Vec<u32>) -> Vec<f32> {
    values.into_iter().map(f32::from_bits).collect()
}

#[test]
fn decodes_supported_keypoint_shapes() {
    let k2 = Array::from_shape_vec((2, 2), vec![1.0_f32, 2.0, 3.0, 4.0]).expect("shape");
    let k3 = Array::from_shape_vec((1, 2, 2), vec![1.0_f32, 2.0, 3.0, 4.0]).expect("shape");
    let out2 = decode_keypoints(&bit_tensor(k2.into_dyn()), "k2").expect("decode k2");
    let out3 = decode_keypoints(&bit_tensor(k3.into_dyn()), "k3").expect("decode k3");
    assert_eq!(keypoint_floats(out2), vec![[1.0, 2.0], [3.0, 4.0]]);
    assert_eq!(keypoint_floats(out3), vec![[1.0, 2.0], [3.0, 4.0]]);
}

#[test]
fn decodes_supported_confidence_shapes() {
    let c1 = Array::from_shape_vec((3,), vec![0.1_f32, 0.2, 0.3]).expect("shape");
    let c2 = Array::from_shape_vec((1, 3), vec![0.1_f32, 0.2, 0.3]).expect("shape");
    let out1 = decode_confidence(&bit_tensor(c1.into_dyn()), "c1").expect("decode c1");
    let out2 = decode_confidence(&bit_tensor(c2.into_dyn()), "c2").expect("decode c2");
    assert_eq!(floats(out1), vec![0.1, 0.2, 0.3]);
    assert_eq!(floats(out2), vec![0.1, 0.2, 0.3]);
}
