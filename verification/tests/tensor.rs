use trimat::api::pack_tensor;
use trimat::pack::encode;
use trimat::tensor::TernaryTensor;

#[test]
fn get_reads_each_element_row_major() {
    let w = pack_tensor(2, 3, &[1, 0, -1, -1, 1, 0], 2.5f32.to_bits()).unwrap();
    assert_eq!(w.get(0, 0), 1);
    assert_eq!(w.get(0, 1), 0);
    assert_eq!(w.get(0, 2), -1);
    assert_eq!(w.get(1, 0), -1);
    assert_eq!(w.get(1, 1), 1);
    assert_eq!(w.get(1, 2), 0);
    assert_eq!(w.rows(), 2);
    assert_eq!(w.cols(), 3);
}

#[test]
fn get_crosses_byte_boundaries() {
    let vals: Vec<i8> = (0..5 * 7).map(|i| ((i * 5) % 3) as i8 - 1).collect();
    let (nz, sg) = encode(&vals);
    let w = TernaryTensor::new(5, 7, nz, sg, vec![1.0f32.to_bits()]);
    for r in 0..5 {
        for c in 0..7 {
            assert_eq!(w.get(r, c), vals[r * 7 + c]);
        }
    }
}

#[test]
fn row_scale_per_tensor_applies_to_every_row() {
    let (nz, sg) = encode(&[1, -1, 0, 1]);
    let w = TernaryTensor::new(2, 2, nz, sg, vec![0.75f32.to_bits()]);
    assert_eq!(f32::from_bits(w.row_scale(0)), 0.75);
    assert_eq!(f32::from_bits(w.row_scale(1)), 0.75);
}

#[test]
fn row_scale_per_channel_picks_the_row() {
    let (nz, sg) = encode(&[1, -1, 0, 1, 0, 0]);
    let w = TernaryTensor::new(3, 2, nz, sg, vec![1.0f32.to_bits(), 2.0f32.to_bits(), 3.0f32.to_bits()]);
    assert_eq!(f32::from_bits(w.row_scale(0)), 1.0);
    assert_eq!(f32::from_bits(w.row_scale(1)), 2.0);
    assert_eq!(f32::from_bits(w.row_scale(2)), 3.0);
}

#[test]
fn new_keeps_its_parts() {
    let w = TernaryTensor::new(1, 3, vec![0b101], vec![0b100], vec![4.0f32.to_bits()]);
    assert_eq!(w.rows, 1);
    assert_eq!(w.cols, 3);
    assert_eq!(w.nonzero, vec![0b101]);
    assert_eq!(w.sign, vec![0b100]);
    assert_eq!(w.scale, vec![4.0f32.to_bits()]);
    assert_eq!(w.get(0, 0), 1);
    assert_eq!(w.get(0, 1), 0);
    assert_eq!(w.get(0, 2), -1);
}
