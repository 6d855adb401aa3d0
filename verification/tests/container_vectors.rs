use bitcoin_fee_model::codec::{decode, encode};
use bitcoin_fee_model::compile::{compile, RawModelRecord};
use bitcoin_fee_model::model_data::ModelData;
use bitcoin_fee_model::shapes::ShapeRegistry;

fn names() -> Vec<String> {
    let mut v = vec![
        "confirms_in".to_string(),
        "day_of_week".to_string(),
        "hour".to_string(),
        "delta_last".to_string(),
    ];
    for i in 0..16 {
        v.push(format!("b{}", i));
    }
    v
}

fn bits_of(vals: &[f32]) -> Vec<u32> {
    vals.iter().map(|v| v.to_bits()).collect()
}

/// A persisted container for a 20-4-1 model whose weights are a fixed
/// arithmetic pattern, shifted by `shift`.
fn container(shift: f32) -> RawModelRecord {
    let fields = names();
    let mut mean = Vec::new();
    let mut std = Vec::new();
    for (i, f) in fields.iter().enumerate() {
        mean.push((f.clone(), (i as f32 * 0.1).to_bits()));
        std.push((f.clone(), (1.0 + i as f32 * 0.05).to_bits()));
    }
    let k0: Vec<f32> = (0..80).map(|i| i as f32 * 0.01 - shift).collect();
    let k1: Vec<f32> = (0..16).map(|i| 0.2 - i as f32 * 0.02).collect();
    RawModelRecord {
        mean,
        std,
        fields,
        l0_bias: bits_of(&[0.1, -0.2, 0.3, -0.4]),
        l0_kernel: bitcoin_fee_model::matrix::Matrix::from_buffer(4, 20, bits_of(&k0)),
        l1_bias: bits_of(&[0.05, 0.1, -0.15, 0.2]),
        l1_kernel: bitcoin_fee_model::matrix::Matrix::from_buffer(4, 4, bits_of(&k1)),
        l2_bias: bits_of(&[1.5]),
        l2_kernel: bitcoin_fee_model::matrix::Matrix::from_buffer(1, 4, bits_of(&[0.3, -0.2, 0.5, 0.25])),
        alpha: 0.01f32.to_bits(),
    }
}

fn ref_norm_predict(shift: f32, raw: &[f32]) -> f32 {
    let mut x = vec![0.0f32; 20];
    for i in 0..20 {
        let mean = i as f32 * 0.1;
        let std = 1.0 + i as f32 * 0.05;
        x[i] = (raw[i] - mean) / std;
    }
    let k0: Vec<f32> = (0..80).map(|i| i as f32 * 0.01 - shift).collect();
    let k1: Vec<f32> = (0..16).map(|i| 0.2 - i as f32 * 0.02).collect();
    let l0b = [0.1f32, -0.2, 0.3, -0.4];
    let l1b = [0.05f32, 0.1, -0.15, 0.2];
    let k2 = [0.3f32, -0.2, 0.5, 0.25];
    let mut a = [0.0f32; 4];
    for j in 0..4 {
        let mut acc = 0.0f32;
        for k in 0..20 {
            acc = acc + x[k] * k0[k * 4 + j];
        }
        acc = acc + l0b[j];
        a[j] = if acc < 0.0 { acc * 0.01 } else { acc };
    }
    let mut b = [0.0f32; 4];
    for j in 0..4 {
        let mut acc = 0.0f32;
        for k in 0..4 {
            acc = acc + a[k] * k1[k * 4 + j];
        }
        acc = acc + l1b[j];
        b[j] = if acc < 0.0 { acc * 0.01 } else { acc };
    }
    let mut c = 0.0f32;
    for k in 0..4 {
        c = c + b[k] * k2[k];
    }
    c + 1.5
}

fn check_vector(model: &ModelData, shift: f32, raw: &[f32]) {
    let input: Vec<(String, u32)> = model
        .fields
        .iter()
        .zip(raw.iter())
        .map(|(f, v)| (f.clone(), v.to_bits()))
        .collect();
    let result = f32::from_bits(model.norm_predict(&input).unwrap());
    let expected = ref_norm_predict(shift, raw);
    let delta = result - expected;
    let eps_1000 = f32::EPSILON * 1000.0;
    assert!(
        delta.abs() < eps_1000,
        "diff is {} eps_1000 is {}",
        delta,
        eps_1000
    );
}

#[test]
pub fn lib_test_vector() {
    // two persisted containers make the full trip: encode, decode,
    // compile, evaluate; each model must reproduce its own vector
    let mut reg = ShapeRegistry::new();

    let bytes_low = encode(&container(0.3));
    let bytes_high = encode(&container(0.5));

    let low = compile(&mut reg, decode(&bytes_low).unwrap()).unwrap();
    let high = compile(&mut reg, decode(&bytes_high).unwrap()).unwrap();

    let raw: Vec<f32> = (0..20).map(|i| i as f32 * 0.7 - 3.0).collect();
    check_vector(&low, 0.3, &raw);
    check_vector(&high, 0.5, &raw);
    assert!(reg.contains(20));
    assert!(reg.contains(4));
}
