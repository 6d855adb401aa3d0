use bitcoin_fee_model::error::Error;
use bitcoin_fee_model::matrix::Matrix;
use bitcoin_fee_model::model_data::{FieldsDescribe, ModelData, Weights};

fn field_names() -> Vec<String> {
    let mut v = vec![
        "confirms_in".to_string(),
        "day_of_week".to_string(),
        "hour".to_string(),
        "delta_last".to_string(),
    ];
    for i in 0..16 {
        v.push(format!("b{}", i));
    }
    v
}

fn l0_kernel_vals() -> Vec<f32> {
    (0..80).map(|i| i as f32 * 0.01 - 0.3).collect()
}

fn l1_kernel_vals() -> Vec<f32> {
    (0..16).map(|i| 0.2 - i as f32 * 0.02).collect()
}

fn l2_kernel_vals() -> Vec<f32> {
    vec![0.3, -0.2, 0.5, 0.25]
}

fn l0_bias_vals() -> Vec<f32> {
    vec![0.1, -0.2, 0.3, -0.4]
}

fn l1_bias_vals() -> Vec<f32> {
    vec![0.05, 0.1, -0.15, 0.2]
}

fn bits_of(vals: &[f32]) -> Vec<u32> {
    vals.iter().map(|v| v.to_bits()).collect()
}

/// A small fixed model: input width 20, hidden width 4, one output,
/// slope 0.01.
fn fixture_model() -> ModelData {
    let fields = field_names();
    let mut mean = Vec::new();
    let mut std = Vec::new();
    for (i, f) in fields.iter().enumerate() {
        mean.push((f.clone(), (i as f32 * 0.1).to_bits()));
        std.push((f.clone(), (1.0 + i as f32 * 0.05).to_bits()));
    }
    ModelData {
        norm: FieldsDescribe { mean, std },
        weights: Weights {
            l0_bias: Matrix::from_array(bits_of(&l0_bias_vals())),
            l0_kernel: Matrix::from_buffer(4, 20, bits_of(&l0_kernel_vals())),
            l1_bias: Matrix::from_array(bits_of(&l1_bias_vals())),
            l1_kernel: Matrix::from_buffer(4, 4, bits_of(&l1_kernel_vals())),
            l2_bias: Matrix::from_array(vec![1.5f32.to_bits()]),
            l2_kernel: Matrix::from_buffer(1, 4, bits_of(&l2_kernel_vals())),
        },
        fields,
        alpha: 0.01f32.to_bits(),
    }
}

fn test_input_vals() -> Vec<f32> {
    vec![
        -0.23901028, 0.02662498, -0.19410163, 0.03187769, -0.2026636, -0.31123071, -0.23820148,
        4.48084238, 0.86297716, -0.00825855, -0.1420311, -0.5924509, 0.62382793, -0.77146702,
        -0.5813809, -0.36034099, 0.88637573, 0.3041703, 0.6286678, -1.48856029,
    ]
}

// the reference pipeline, in plain host arithmetic and the same
// accumulation order

fn ref_dot(a: &[f32], aw: usize, ah: usize, b: &[f32], bw: usize) -> Vec<f32> {
    let mut out = vec![0.0f32; ah * bw];
    for i in 0..ah {
        for j in 0..bw {
            let mut acc = 0.0f32;
            for k in 0..aw {
                acc = acc + a[i * aw + k] * b[k * bw + j];
            }
            out[i * bw + j] = acc;
        }
    }
    out
}

fn ref_add(a: &[f32], b: &[f32]) -> Vec<f32> {
    a.iter().zip(b.iter()).map(|(x, y)| x + y).collect()
}

fn ref_relu(a: &[f32], alpha: f32) -> Vec<f32> {
    a.iter().map(|x| if *x < 0.0 { x * alpha } else { *x }).collect()
}

fn ref_predict(input: &[f32]) -> Vec<Vec<f32>> {
    let a1 = ref_dot(input, 20, 1, &l0_kernel_vals(), 4);
    let a2 = ref_add(&a1, &l0_bias_vals());
    let a3 = ref_relu(&a2, 0.01);
    let b1 = ref_dot(&a3, 4, 1, &l1_kernel_vals(), 4);
    let b2 = ref_add(&b1, &l1_bias_vals());
    let b3 = ref_relu(&b2, 0.01);
    let c1 = ref_dot(&b3, 4, 1, &l2_kernel_vals(), 1);
    let c2 = ref_add(&c1, &[1.5]);
    vec![a1, a2, a3, b1, b2, b3, c1, c2]
}

#[test]
fn test_predict() {
    let model = fixture_model();
    let input = Matrix::from_array(bits_of(&test_input_vals()));
    let result = model.predict(&input);
    let expected = ref_predict(&test_input_vals())[7][0];
    assert_eq!(result, expected.to_bits());
}

#[test]
fn model_data_test_vector() {
    let model = fixture_model();
    let input = Matrix::from_array(bits_of(&test_input_vals()));
    let stages = ref_predict(&test_input_vals());

    let a1 = input.dot(&model.weights.l0_kernel);
    for j in 0..4 {
        assert_eq!(a1.get(0, j), stages[0][j].to_bits());
    }
    let a2 = a1.add(&model.weights.l0_bias);
    for j in 0..4 {
        assert_eq!(a2.get(0, j), stages[1][j].to_bits());
    }
    let a3 = a2.relu(0.01f32.to_bits());

    let b1 = a3.dot(&model.weights.l1_kernel);
    let b2 = b1.add(&model.weights.l1_bias);
    let b3 = b2.relu(0.01f32.to_bits());
    for j in 0..4 {
        assert_eq!(b3.get(0, j), stages[5][j].to_bits());
    }

    let c1 = b3.dot(&model.weights.l2_kernel);
    let c2 = c1.add(&model.weights.l2_bias);
    assert_eq!(c2.get(0, 0), stages[7][0].to_bits());
}

fn input_pairs(model: &ModelData, vals: &[f32]) -> Vec<(String, u32)> {
    model
        .fields
        .iter()
        .zip(vals.iter())
        .map(|(f, v)| (f.clone(), v.to_bits()))
        .collect()
}

#[test]
fn test_norm() {
    let model = fixture_model();
    let raw: Vec<f32> = (0..20).map(|i| i as f32 * 0.3 - 1.0).collect();
    let input = input_pairs(&model, &raw);
    let norm = model.norm(&input).unwrap();
    for i in 0..20 {
        let mean = i as f32 * 0.1;
        let std = 1.0 + i as f32 * 0.05;
        let expected = (raw[i] - mean) / std;
        assert_eq!(norm.get(0, i), expected.to_bits(), "normalization is wrong");
    }
}

#[test]
fn test_norm_mean_zero() {
    // a field whose input equals its mean normalizes to exactly zero
    let model = fixture_model();
    let mut raw: Vec<f32> = (0..20).map(|i| i as f32 * 0.3 - 1.0).collect();
    raw[2] = 0.2; // the recorded mean of the third field
    let input = input_pairs(&model, &raw);
    let norm = model.norm(&input).unwrap();
    assert_eq!(norm.get(0, 2), 0.0f32.to_bits());
    assert_eq!(f32::from_bits(norm.get(0, 2)), 0.0);
}

#[test]
fn test_norm_missing_input_defaults() {
    // a name absent from the input contributes zero before normalization
    let model = fixture_model();
    let input: Vec<(String, u32)> = vec![("confirms_in".to_string(), 2.5f32.to_bits())];
    let norm = model.norm(&input).unwrap();
    assert_eq!(norm.get(0, 0), ((2.5f32 - 0.0) / 1.0).to_bits());
    for i in 1..20 {
        let mean = i as f32 * 0.1;
        let std = 1.0 + i as f32 * 0.05;
        assert_eq!(norm.get(0, i), ((0.0 - mean) / std).to_bits());
    }
}

#[test]
fn test_norm_missing_stat() {
    // a field list naming a feature without statistics is a fatal,
    // per-call error
    let model = fixture_model();
    let raw: Vec<f32> = vec![0.0; 20];
    let input = input_pairs(&model, &raw);

    let mut no_std = fixture_model();
    no_std.norm.std.remove(2);
    let err = no_std.norm(&input).unwrap_err();
    match &err {
        Error::MissingStdData(s) => assert_eq!(s, "hour"),
        _ => panic!("wrong error variant"),
    }
    assert_eq!(err.to_message(), "Missing std field hour ");

    let mut no_mean = fixture_model();
    no_mean.norm.mean.remove(3);
    let err2 = no_mean.norm(&input).unwrap_err();
    match &err2 {
        Error::MissingMeanData(s) => assert_eq!(s, "delta_last"),
        _ => panic!("wrong error variant"),
    }
    assert_eq!(err2.to_message(), "Missing mean field delta_last ");

    assert!(model.norm(&input).is_ok());
}

#[test]
fn test_norm_predict_composes() {
    let model = fixture_model();
    let raw: Vec<f32> = (0..20).map(|i| i as f32 * 0.3 - 1.0).collect();
    let input = input_pairs(&model, &raw);
    let via_pair = model.norm_predict(&input).unwrap();
    let x = model.norm(&input).unwrap();
    assert_eq!(via_pair, model.predict(&x));
}

#[test]
fn test_duplicate_stat_first_wins() {
    // when a name appears twice in a statistics map, the first pair wins
    let mut model = fixture_model();
    model.norm.mean.insert(0, ("confirms_in".to_string(), 7.0f32.to_bits()));
    let input: Vec<(String, u32)> = vec![("confirms_in".to_string(), 7.0f32.to_bits())];
    let norm = model.norm(&input).unwrap();
    // the inserted mean 7.0 shadows the recorded 0.0, so the value
    // normalizes to exactly zero
    assert_eq!(norm.get(0, 0), 0.0f32.to_bits());
}
