use bitcoin_fee_model::compile::{compile, RawModelRecord};
use bitcoin_fee_model::error::ConfigurationError;
use bitcoin_fee_model::matrix::Matrix;
use bitcoin_fee_model::shapes::ShapeRegistry;

fn record(n0: usize, n1: usize, o: usize) -> RawModelRecord {
    let fields = vec!["confirms_in".to_string(), "hour".to_string()];
    let stats = vec![
        ("confirms_in".to_string(), 0.5f32.to_bits()),
        ("hour".to_string(), 1.0f32.to_bits()),
    ];
    RawModelRecord {
        mean: stats.clone(),
        std: stats,
        fields,
        l0_bias: vec![1u32; n0],
        l0_kernel: Matrix::from_buffer(n0, 2, vec![2u32; n0 * 2]),
        l1_bias: vec![3u32; n1],
        l1_kernel: Matrix::from_buffer(n1, n0, vec![4u32; n1 * n0]),
        l2_bias: vec![5u32; o],
        l2_kernel: Matrix::from_buffer(o, n1, vec![6u32; o * n1]),
        alpha: 0.01f32.to_bits(),
    }
}

#[test]
fn test_hidden_size_mismatch() {
    // mismatched hidden sizes are rejected, never truncated or padded
    let mut reg = ShapeRegistry::new();
    let err = compile(&mut reg, record(4, 5, 1)).unwrap_err();
    assert_eq!(err, ConfigurationError::HiddenSizeMismatch(4, 5));
}

#[test]
fn test_multi_output_unsupported() {
    let mut reg = ShapeRegistry::new();
    let err = compile(&mut reg, record(4, 4, 2)).unwrap_err();
    assert_eq!(err, ConfigurationError::MultiOutputUnsupported(2));
}

#[test]
fn test_compile_ok() {
    let mut reg = ShapeRegistry::new();
    let m = compile(&mut reg, record(4, 4, 1)).unwrap();
    assert_eq!(m.fields.len(), 2);
    assert_eq!(m.alpha, 0.01f32.to_bits());
    assert_eq!(m.weights.l0_bias.width(), 4);
    assert_eq!(m.weights.l0_bias.height(), 1);
    assert_eq!(m.weights.l2_kernel.width(), 1);
    assert_eq!(m.weights.l2_kernel.height(), 4);
    // the shapes the model needs are registered
    assert!(reg.contains(2));
    assert!(reg.contains(4));
    assert!(reg.contains(1));
}

#[test]
fn test_registry_baseline_and_idempotence() {
    let mut reg = ShapeRegistry::new();
    for d in [1usize, 2, 4, 8, 16, 20, 32, 64, 128, 256, 512] {
        assert!(reg.contains(d));
    }
    assert!(!reg.contains(77));
    let before = reg.all().len();
    reg.register(20);
    assert_eq!(reg.all().len(), before);
    reg.register(77);
    assert!(reg.contains(77));
    assert_eq!(reg.all().len(), before + 1);
    let tokens = reg.all();
    let count_20 = tokens.iter().filter(|t| t.dim == 20).count();
    assert_eq!(count_20, 1);
}

#[test]
fn test_compile_rejects_before_registering() {
    let mut reg = ShapeRegistry::empty();
    let _ = compile(&mut reg, record(4, 5, 1));
    assert!(!reg.contains(4));
    assert!(reg.all().is_empty());
}
