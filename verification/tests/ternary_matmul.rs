use bitnet_kernels::arith::clamp_int8;
use bitnet_kernels::arith::div_floor_i64;
use bitnet_kernels::arith::div_trunc_i64;
use bitnet_kernels::arith::KernelError;
use bitnet_kernels::bitlinear_int8::BitLinearInt8;

#[test]
fn construction_rejects_invalid_weight() {
    let grid = vec![vec![1i8, 0, -1], vec![0, 2, 0]];
    match BitLinearInt8::new(grid, 0) {
        Err(KernelError::InvalidWeight) => {}
        _ => panic!("a weight of 2 must be rejected"),
    }
    let grid = vec![vec![-2i8]];
    match BitLinearInt8::new(grid, 0) {
        Err(KernelError::InvalidWeight) => {}
        _ => panic!("a weight of -2 must be rejected"),
    }
    let grid = vec![vec![1i8, 0], vec![0, 127]];
    match BitLinearInt8::new(grid, 3) {
        Err(KernelError::InvalidWeight) => {}
        _ => panic!("a weight of 127 must be rejected"),
    }
}

#[test]
fn construction_accepts_ternary_grid() {
    let grid = vec![vec![1i8, 0, -1], vec![-1, -1, 1]];
    assert!(BitLinearInt8::new(grid, 0).is_ok());
}

#[test]
fn single_row_accumulator() {
    // Weight row [1,-1,0,1] over activations [127,127,127,127] accumulates
    // 127 - 127 + 0 + 127 = 127, which needs no saturation.
    let layer = BitLinearInt8::new(vec![vec![1i8, -1, 0, 1]], 0).unwrap();
    let out = layer.forward(&vec![vec![127i8, 127, 127, 127]]).unwrap();
    assert_eq!(out, vec![vec![127i8]]);
}

#[test]
fn end_to_end_ternary_matmul() {
    let grid = vec![
        vec![-1i8, 0, 1, -1],
        vec![1, -1, 0, 1],
        vec![0, 1, -1, 0],
        vec![1, 0, -1, 1],
    ];
    let layer = BitLinearInt8::new(grid, 0).unwrap();
    let out = layer.forward(&vec![vec![127i8, 127, 127, 127]]).unwrap();
    // Row sums are -127, 127, 0 and 127; none leaves the int8 range, so the
    // clamp passes them through unchanged.
    assert_eq!(out, vec![vec![-127i8, 127, 0, 127]]);
}

#[test]
fn saturation_clamps_both_ends() {
    let grid = vec![vec![1i8, 1, 1, 1], vec![-1, -1, -1, -1]];
    let layer = BitLinearInt8::new(grid, 0).unwrap();
    let out = layer.forward(&vec![vec![127i8, 127, 127, 127]]).unwrap();
    // Accumulators 508 and -508 saturate to the int8 boundaries.
    assert_eq!(out, vec![vec![127i8, -128]]);
}

#[test]
fn scale_shift_is_arithmetic() {
    // The rescale is an arithmetic right shift: -7 >> 2 rounds toward
    // negative infinity, giving -2, not the -1 of truncating division.
    let layer = BitLinearInt8::new(vec![vec![1i8]], 2).unwrap();
    let out = layer.forward(&vec![vec![-7i8]]).unwrap();
    assert_eq!(out, vec![vec![-2i8]]);
    let layer = BitLinearInt8::new(vec![vec![1i8]], 2).unwrap();
    let out = layer.forward(&vec![vec![7i8]]).unwrap();
    assert_eq!(out, vec![vec![1i8]]);
}

#[test]
fn matmul_shape_mismatch_rejected() {
    let layer = BitLinearInt8::new(vec![vec![1i8, 0, -1, 1]], 0).unwrap();
    match layer.forward(&vec![vec![1i8, 2, 3]]) {
        Err(KernelError::ShapeMismatch) => {}
        _ => panic!("a three-wide row into a four-wide layer must be rejected"),
    }
    // A ragged batch is a shape mismatch as well.
    match layer.forward(&vec![vec![1i8, 2, 3, 4], vec![1i8, 2]]) {
        Err(KernelError::ShapeMismatch) => {}
        _ => panic!("a ragged batch must be rejected"),
    }
}

#[test]
fn matmul_batch_rows_independent() {
    let grid = vec![vec![1i8, -1], vec![0, 1]];
    let a = vec![5i8, -9];
    let b = vec![-128i8, 127];
    let layer = BitLinearInt8::new(grid.clone(), 1).unwrap();
    let fwd = layer.forward(&vec![a.clone(), b.clone()]).unwrap();
    let layer = BitLinearInt8::new(grid, 1).unwrap();
    let rev = layer.forward(&vec![b, a]).unwrap();
    assert_eq!(fwd[0], rev[1]);
    assert_eq!(fwd[1], rev[0]);
}

#[test]
fn weights_getter_returns_grid() {
    let grid = vec![vec![1i8, 0], vec![-1, 1]];
    let layer = BitLinearInt8::new(grid.clone(), 0).unwrap();
    assert_eq!(layer.weights(), &grid);
}

#[test]
fn clamp_exact_values() {
    assert_eq!(clamp_int8(-129), -128);
    assert_eq!(clamp_int8(-128), -128);
    assert_eq!(clamp_int8(-5), -5);
    assert_eq!(clamp_int8(0), 0);
    assert_eq!(clamp_int8(127), 127);
    assert_eq!(clamp_int8(128), 127);
    assert_eq!(clamp_int8(i64::MIN), -128);
    assert_eq!(clamp_int8(i64::MAX), 127);
}

#[test]
fn clamp_is_idempotent() {
    for v in [i64::MIN, -129, -128, -1, 0, 1, 126, 127, 128, 100000, i64::MAX] {
        let once = clamp_int8(v);
        assert_eq!(clamp_int8(once as i64), once);
    }
}

#[test]
fn division_semantics_pinned() {
    // The normalization divide truncates toward zero; the fixed-point
    // shifts round toward negative infinity. The two differ on negatives.
    assert_eq!(div_trunc_i64(-7, 2), -3);
    assert_eq!(div_floor_i64(-7, 2), -4);
    assert_eq!(div_trunc_i64(7, 2), 3);
    assert_eq!(div_floor_i64(7, 2), 3);
    assert_eq!(div_trunc_i64(-8, 4), -2);
    assert_eq!(div_floor_i64(-8, 4), -2);
}
