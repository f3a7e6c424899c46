use trimat::kernels::{plane_window, qdot_row, qdot_row_fits, qgemm_accumulate, qgemm_sums_fit};
use trimat::pack::encode;
use trimat::tensor::TernaryTensor;

fn make_tensor(vals: &[i8], rows: usize, cols: usize) -> TernaryTensor {
    let (nz, sg) = encode(vals);
    TernaryTensor::new(rows, cols, nz, sg, vec![1.0f32.to_bits()])
}

fn naive_dot(w: &TernaryTensor, row: usize, x: &[i8]) -> i32 {
    (0..w.cols).map(|c| w.get(row, c) as i32 * x[c] as i32).sum()
}

#[test]
fn plane_window_reads_32_bits_from_any_offset() {
    let plane: Vec<u8> = vec![0x12, 0x34, 0x56, 0x78, 0x9A, 0xBC];
    assert_eq!(plane_window(&plane, 0), 0x7856_3412);
    assert_eq!(plane_window(&plane, 8), 0x9A78_5634);
    assert_eq!(plane_window(&plane, 4), 0xA785_6341);
    assert_eq!(plane_window(&plane, 13), ((0xBC9A_7856_3412u64 >> 13) & 0xFFFF_FFFF) as u32);
}

#[test]
fn plane_window_reads_zero_past_the_end() {
    let plane: Vec<u8> = vec![0xFF, 0xFF];
    assert_eq!(plane_window(&plane, 0), 0xFFFF);
    assert_eq!(plane_window(&plane, 3), 0x1FFF);
    assert_eq!(plane_window(&plane, 16), 0);
    assert_eq!(plane_window(&plane, 1000), 0);
    assert_eq!(plane_window(&[], 0), 0);
}

#[test]
fn qdot_row_small_example() {
    // W = [[1, 0, -1], [-1, 1, 0]], x = [1, 2, 3]
    let w = make_tensor(&[1, 0, -1, -1, 1, 0], 2, 3);
    let x: Vec<i8> = vec![1, 2, 3];
    assert_eq!(qdot_row(&w, 0, &x), -2);
    assert_eq!(qdot_row(&w, 1, &x), 1);
}

#[test]
fn qdot_row_matches_elementwise_sum_on_aligned_and_unaligned_rows() {
    for &cols in &[1usize, 13, 31, 32, 40, 64, 77, 128] {
        let rows = 9;
        let vals: Vec<i8> = (0..rows * cols).map(|i| ((i * 5) % 3) as i8 - 1).collect();
        let w = make_tensor(&vals, rows, cols);
        let x: Vec<i8> = (0..cols).map(|i| ((i * 37 + 11) % 255) as i8).collect();
        for r in 0..rows {
            assert_eq!(qdot_row(&w, r, &x), naive_dot(&w, r, &x), "cols={} row={}", cols, r);
        }
    }
}

#[test]
fn qdot_row_handles_extreme_activations() {
    let w = make_tensor(&[-1, -1, 1, 1], 1, 4);
    let x: Vec<i8> = vec![-128, -128, 127, -128];
    assert_eq!(qdot_row(&w, 0, &x), 128 + 128 + 127 - 128);
}

#[test]
fn qdot_row_of_empty_row_is_zero() {
    let w = make_tensor(&[], 3, 0);
    assert_eq!(qdot_row(&w, 2, &[]), 0);
}

#[test]
fn qgemm_accumulate_adds_each_column_dot_product() {
    // W = [[1, -1, 0]], X (3 x 2) = [[1, 0], [0, 1], [1, 1]]
    let w = make_tensor(&[1, -1, 0], 1, 3);
    let x: Vec<i8> = vec![1, 0, 0, 1, 1, 1];
    let mut acc = vec![10i32, 20];
    qgemm_accumulate(&w, 0, &x, 2, &mut acc);
    assert_eq!(acc, vec![11, 19]);
}

#[test]
fn qgemm_accumulate_matches_qdot_row_per_column() {
    for &(rows, cols, n) in &[(9usize, 64usize, 8usize), (12, 40, 10), (8, 77, 16)] {
        let vals: Vec<i8> = (0..rows * cols).map(|i| ((i * 7) % 3) as i8 - 1).collect();
        let w = make_tensor(&vals, rows, cols);
        let x: Vec<i8> = (0..cols * n).map(|i| ((i * 53 + 7) % 255) as i8).collect();
        for r in 0..rows {
            let mut acc = vec![0i32; n];
            qgemm_accumulate(&w, r, &x, n, &mut acc);
            for j in 0..n {
                let col: Vec<i8> = (0..cols).map(|k| x[k * n + j]).collect();
                assert_eq!(acc[j], qdot_row(&w, r, &col));
            }
        }
    }
}

#[test]
fn qgemm_accumulate_leaves_entries_past_n_alone() {
    let w = make_tensor(&[1, 1], 1, 2);
    let x: Vec<i8> = vec![5, 6];
    let mut acc = vec![0i32, 7, 8];
    qgemm_accumulate(&w, 0, &x, 1, &mut acc);
    assert_eq!(acc, vec![11, 7, 8]);
}

#[test]
fn qdot_row_negates_minus_128_exactly_inside_a_32_column_chunk() {
    let mut vals = vec![0i8; 32];
    vals[5] = -1;
    vals[6] = 1;
    let w = make_tensor(&vals, 1, 32);
    let mut x = vec![0i8; 32];
    x[5] = -128;
    x[6] = -128;
    assert_eq!(qdot_row(&w, 0, &x), 128 - 128);
    x[6] = 3;
    assert_eq!(qdot_row(&w, 0, &x), 131);
    assert_eq!(qdot_row(&w, 0, &x), naive_dot(&w, 0, &x));
}

#[test]
fn qdot_row_handles_rows_of_2_pow_24_columns() {
    let cols = 1usize << 24;
    let w = TernaryTensor::new(1, cols, vec![0u8; cols / 8], vec![0u8; cols / 8], vec![1.0f32.to_bits()]);
    let x = vec![100i8; cols];
    assert!(qdot_row_fits(&w, 0, &x));
    assert_eq!(qdot_row(&w, 0, &x), 0);
}

#[test]
fn qdot_row_fits_detects_overflow() {
    let cols = 1usize << 25;
    let ones = vec![0xFFu8; cols / 8];
    let w = TernaryTensor::new(1, cols, ones, vec![0u8; cols / 8], vec![1.0f32.to_bits()]);
    // 2^25 * 100 > i32::MAX
    assert!(!qdot_row_fits(&w, 0, &vec![100i8; cols]));
    // 2^25 * 60 < i32::MAX
    assert!(qdot_row_fits(&w, 0, &vec![60i8; cols]));
    assert_eq!(qdot_row(&w, 0, &vec![60i8; cols]), 60 * (1 << 25));
}

#[test]
fn qgemm_accumulate_accepts_an_extreme_accumulator_under_zero_weights() {
    let w = make_tensor(&[0, 0, 0], 1, 3);
    let x: Vec<i8> = vec![127, -128, 5];
    let mut acc = vec![i32::MAX];
    assert!(qgemm_sums_fit(&w, 0, &x, 1, &acc));
    qgemm_accumulate(&w, 0, &x, 1, &mut acc);
    assert_eq!(acc, vec![i32::MAX]);
}

#[test]
fn qgemm_sums_fit_checks_each_running_sum() {
    let w = make_tensor(&[1, -1], 1, 2);
    let x: Vec<i8> = vec![1, 1];
    // i32::MAX + 1 - 1: the first running sum overflows even though the total fits.
    assert!(!qgemm_sums_fit(&w, 0, &x, 1, &[i32::MAX]));
    assert!(qgemm_sums_fit(&w, 0, &x, 1, &[i32::MAX - 1]));
    let mut acc = vec![i32::MAX - 1];
    qgemm_accumulate(&w, 0, &x, 1, &mut acc);
    assert_eq!(acc, vec![i32::MAX - 1]);
}
