use bitnet_kernels::arith::KernelError;
use bitnet_kernels::isqrt::isqrt;
use bitnet_kernels::rmsnorm::RMSNorm;

#[test]
fn isqrt_small_values() {
    assert_eq!(isqrt(0), 0);
    assert_eq!(isqrt(1), 1);
    assert_eq!(isqrt(2), 1);
    assert_eq!(isqrt(3), 1);
    assert_eq!(isqrt(4), 2);
    assert_eq!(isqrt(8), 2);
    assert_eq!(isqrt(9), 3);
    assert_eq!(isqrt(15), 3);
    assert_eq!(isqrt(16), 4);
}

#[test]
fn isqrt_exact_on_squares() {
    for k in [3u64, 7, 1000, 65535, 65536, 1 << 20, (1 << 32) - 1] {
        assert_eq!(isqrt(k * k), k);
        assert_eq!(isqrt(k * k + 1), k);
        if k > 0 {
            assert_eq!(isqrt(k * k - 1), k - 1);
        }
    }
}

#[test]
fn isqrt_is_floor_sqrt() {
    for n in 0u64..5000 {
        let r = isqrt(n);
        assert!(r * r <= n);
        assert!((r + 1) * (r + 1) > n);
    }
    let large: [u64; 6] = [
        (1 << 40) - 1,
        1 << 40,
        (1 << 40) + 12345,
        (1 << 63) - 7,
        u64::MAX - 1,
        u64::MAX,
    ];
    for n in large {
        let r = isqrt(n);
        assert!((r as u128) * (r as u128) <= n as u128);
        assert!((r as u128 + 1) * (r as u128 + 1) > n as u128);
    }
    assert_eq!(isqrt(1 << 40), 1 << 20);
    assert_eq!(isqrt((1 << 40) - 1), (1 << 20) - 1);
    assert_eq!(isqrt(u64::MAX), (1 << 32) - 1);
}

#[test]
fn rmsnorm_zero_row_stays_zero() {
    let norm = RMSNorm::from_quantized(vec![65536i32; 4], 429);
    let out = norm.forward(&vec![vec![0i8, 0, 0, 0]]).unwrap();
    assert_eq!(out, vec![vec![0i8, 0, 0, 0]]);
    // With a zero epsilon the RMS itself is zero and the bypass fires.
    let norm = RMSNorm::from_quantized(vec![65536i32; 4], 0);
    let out = norm.forward(&vec![vec![0i8, 0, 0, 0]]).unwrap();
    assert_eq!(out, vec![vec![0i8, 0, 0, 0]]);
}

#[test]
fn rmsnorm_golden_row() {
    // Unit weights, epsilon 429 (about 1e-5 in Q32): the reference output
    // row every conforming integer implementation must reproduce.
    let norm = RMSNorm::from_quantized(vec![65536i32; 4], 429);
    let out = norm.forward(&vec![vec![-127i8, -50, 0, 127]]).unwrap();
    assert_eq!(out, vec![vec![-88i8, -35, 0, 87]]);
}

#[test]
fn rmsnorm_constant_rows_hit_unit_scale() {
    // A constant row normalizes to magnitude 1.0, which the output scale
    // renders as 64.
    let norm = RMSNorm::from_quantized(vec![65536i32], 0);
    let out = norm.forward(&vec![vec![-3i8]]).unwrap();
    assert_eq!(out, vec![vec![-64i8]]);
    let out = norm.forward(&vec![vec![5i8]]).unwrap();
    assert_eq!(out, vec![vec![64i8]]);
}

#[test]
fn rmsnorm_weight_is_applied() {
    // A Q16.16 weight of 0.5 halves the unit-scale output.
    let norm = RMSNorm::from_quantized(vec![32768i32], 0);
    let out = norm.forward(&vec![vec![4i8]]).unwrap();
    assert_eq!(out, vec![vec![32i8]]);
}

#[test]
fn rmsnorm_mixed_weights_saturate() {
    let norm = RMSNorm::from_quantized(vec![65536i32, 32768, 131072], 429);
    let out = norm.forward(&vec![vec![10i8, 20, 30]]).unwrap();
    assert_eq!(out, vec![vec![29i8, 29, 127]]);
}

#[test]
fn rmsnorm_shape_mismatch_rejected() {
    let norm = RMSNorm::from_quantized(vec![65536i32; 4], 429);
    match norm.forward(&vec![vec![1i8, 2, 3]]) {
        Err(KernelError::ShapeMismatch) => {}
        _ => panic!("a three-wide row into a four-channel layer must be rejected"),
    }
    match norm.forward(&vec![vec![1i8, 2, 3, 4], vec![5i8]]) {
        Err(KernelError::ShapeMismatch) => {}
        _ => panic!("a ragged batch must be rejected"),
    }
}

#[test]
fn rmsnorm_batch_rows_independent() {
    let a = vec![-127i8, -50, 0, 127];
    let b = vec![1i8, 2, 3, 4];
    let norm = RMSNorm::from_quantized(vec![65536i32; 4], 429);
    let fwd = norm.forward(&vec![a.clone(), b.clone()]).unwrap();
    let rev = norm.forward(&vec![b, a]).unwrap();
    assert_eq!(fwd[0], rev[1]);
    assert_eq!(fwd[1], rev[0]);
}
