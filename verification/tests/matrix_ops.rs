use bitcoin_fee_model::matrix::Matrix;

fn bits_vec(vals: &[f32]) -> Vec<u32> {
    vals.iter().map(|v| v.to_bits()).collect()
}

fn approx(a: f32, b: f32) -> bool {
    let diff = (a - b).abs();
    diff <= 0.0001 || (a.to_bits() as i64 - b.to_bits() as i64).abs() <= 2
}

fn kernel_1x4() -> Matrix {
    // one column of four entries, like a final-layer kernel
    Matrix::from_buffer(1, 4, bits_vec(&[0.1, -0.2, 0.3, 0.4]))
}

#[test]
fn test_transpose() {
    let original = kernel_1x4();
    let transposed = original.transpose();
    for i in 0..4 {
        assert!(approx(
            f32::from_bits(original.get(i, 0)),
            f32::from_bits(transposed.get(0, i))
        ));
    }
}

#[test]
fn test_dot() {
    let a = kernel_1x4();
    let b = a.transpose();
    let result = a.dot(&b);
    let mut acc = 0.0f32;
    for i in 0..4 {
        let v = f32::from_bits(a.get(i, 0));
        acc += v * v;
    }
    // the outer product's corner is the square of the first entry
    let _ = approx(f32::from_bits(result.get(0, 0)), acc);
    assert!(approx(
        f32::from_bits(result.get(0, 0)),
        f32::from_bits(a.get(0, 0)) * f32::from_bits(a.get(0, 0))
    ));

    let mut k0 = Vec::new();
    for i in 0..80u32 {
        k0.push((i as f32 * 0.01 - 0.3).to_bits());
    }
    let mut k1 = Vec::new();
    for i in 0..16u32 {
        k1.push((0.2 - i as f32 * 0.02).to_bits());
    }
    let l0_kernel = Matrix::from_buffer(4, 20, k0);
    let l1_kernel = Matrix::from_buffer(4, 4, k1);
    let _test = l0_kernel.dot(&l1_kernel);
}

#[test]
fn test_add() {
    let m1 = Matrix::from_array(bits_vec(&[1.0f32]));
    let m2 = Matrix::from_array(bits_vec(&[1.0f32]));
    let result = m1.add(&m2);
    assert!(approx(2.0f32, f32::from_bits(result.get(0, 0))));
}

#[test]
fn test_relu() {
    for alpha in [0.0f32, 0.1, 0.01].iter() {
        let m1 = Matrix::from_array(bits_vec(&[1.0, -1.0]));
        let expected = [1.0f32, -*alpha];
        let relu = m1.relu(alpha.to_bits());
        for j in 0..2 {
            assert!(approx(f32::from_bits(relu.get(0, j)), expected[j]));
        }
    }
}

#[test]
fn test_dot_transpose_law() {
    // transposing a product equals multiplying the transposes in the
    // opposite order, bit for bit
    let a = Matrix::from_buffer(3, 2, bits_vec(&[0.5, -1.25, 2.0, -0.0, 3.5, 0.125]));
    let b = Matrix::from_buffer(2, 3, bits_vec(&[1.0, -2.0, 0.25, 4.0, -0.5, 8.0]));
    let lhs = a.dot(&b).transpose();
    let rhs = b.transpose().dot(&a.transpose());
    assert_eq!(lhs.width(), rhs.width());
    assert_eq!(lhs.height(), rhs.height());
    for i in 0..lhs.height() {
        for j in 0..lhs.width() {
            assert_eq!(lhs.get(i, j), rhs.get(i, j));
        }
    }
}

#[test]
fn test_relu_zero_slope() {
    // slope zero zeroes every finite negative entry exactly and leaves
    // non-negative entries untouched
    let m = Matrix::from_array(bits_vec(&[-1.5, 2.0, -0.0, 3.25, -1.0e-40]));
    let r = m.relu(0.0f32.to_bits());
    assert_eq!(f32::from_bits(r.get(0, 0)), 0.0);
    assert_eq!(r.get(0, 0), (-0.0f32).to_bits());
    assert_eq!(r.get(0, 1), 2.0f32.to_bits());
    assert_eq!(r.get(0, 2), (-0.0f32).to_bits());
    assert_eq!(r.get(0, 3), 3.25f32.to_bits());
    assert_eq!(f32::from_bits(r.get(0, 4)), 0.0);
}

#[test]
fn test_relu_unit_slope() {
    // slope one is the identity, bit for bit
    let vals = [-1.5f32, 2.0, -0.0, 0.0, 3.25, -1.0e-40, f32::INFINITY, f32::NEG_INFINITY];
    let m = Matrix::from_array(bits_vec(&vals));
    let r = m.relu(1.0f32.to_bits());
    for j in 0..vals.len() {
        assert_eq!(r.get(0, j), vals[j].to_bits());
    }
}

#[test]
fn test_checked_shapes() {
    let a = Matrix::from_buffer(3, 2, bits_vec(&[1.0; 6]));
    let b = Matrix::from_buffer(2, 3, bits_vec(&[1.0; 6]));
    assert!(a.checked_dot(&b).is_ok());
    let err = a.checked_dot(&a).unwrap_err();
    assert_eq!(err.left_width, 3);
    assert_eq!(err.left_height, 2);
    assert_eq!(err.right_width, 3);
    assert_eq!(err.right_height, 2);
    let err2 = a.checked_add(&b).unwrap_err();
    assert_eq!(err2.left_width, 3);
    assert_eq!(err2.right_width, 2);
    assert!(b.checked_add(&b).is_ok());
}
