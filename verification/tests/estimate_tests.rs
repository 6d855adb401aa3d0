use bitcoin_fee_model::calendar::{day_of_week_utc, hour_utc};
use bitcoin_fee_model::error::Error;
use bitcoin_fee_model::matrix::Matrix;
use bitcoin_fee_model::model_data::{FieldsDescribe, ModelData, Weights};
use bitcoin_fee_model::FeeModel;

pub const BUCKETS: [u64; 16] = [
    13u64, 1, 32, 24, 14, 62, 1174, 453, 197, 291, 333, 3304, 307, 229, 36, 58,
];

fn field_list() -> Vec<String> {
    let mut v = vec![
        "confirms_in".to_string(),
        "day_of_week".to_string(),
        "hour".to_string(),
        "delta_last".to_string(),
    ];
    for i in 0..16 {
        v.push(format!("b{}", i));
    }
    v
}

/// A one-hidden-unit model computing `bias + weight * feature`, with unit
/// standard deviations and zero means.
fn feature_model(feature_idx: usize, weight: f32, bias: f32) -> ModelData {
    let fields = field_list();
    let mut mean = Vec::new();
    let mut std = Vec::new();
    for f in fields.iter() {
        mean.push((f.clone(), 0.0f32.to_bits()));
        std.push((f.clone(), 1.0f32.to_bits()));
    }
    let mut k0 = vec![0.0f32.to_bits(); 20];
    k0[feature_idx] = weight.to_bits();
    ModelData {
        norm: FieldsDescribe { mean, std },
        weights: Weights {
            l0_bias: Matrix::from_array(vec![bias.to_bits()]),
            l0_kernel: Matrix::from_buffer(1, 20, k0),
            l1_bias: Matrix::from_array(vec![0.0f32.to_bits()]),
            l1_kernel: Matrix::from_buffer(1, 1, vec![1.0f32.to_bits()]),
            l2_bias: Matrix::from_array(vec![0.0f32.to_bits()]),
            l2_kernel: Matrix::from_buffer(1, 1, vec![1.0f32.to_bits()]),
        },
        fields,
        alpha: 0.01f32.to_bits(),
    }
}

#[test]
pub fn test_estimate() {
    // a shorter confirmation target must cost a strictly higher fee rate
    let model = FeeModel::new(
        feature_model(0, -1.0, 100.0),
        feature_model(0, -1.0, 50.0),
    );
    let ts = 1613708045u32;
    let one = f32::from_bits(
        model.estimate_with_buckets(1, Some(ts), &BUCKETS, ts - 300).unwrap(),
    );
    let two = f32::from_bits(
        model.estimate_with_buckets(2, Some(ts), &BUCKETS, ts - 300).unwrap(),
    );
    assert!(one > two, "1 block ({}) > 2 ({})", one, two);
}

#[test]
fn test_estimate_routing() {
    let model = FeeModel::new(feature_model(0, 0.0, 9.0), feature_model(0, 0.0, 7.0));
    let ts = 1613708045u32;
    let at_threshold = f32::from_bits(
        model.estimate_with_buckets(2, Some(ts), &BUCKETS, ts - 300).unwrap(),
    );
    let above = f32::from_bits(
        model.estimate_with_buckets(3, Some(ts), &BUCKETS, ts - 300).unwrap(),
    );
    assert_eq!(at_threshold, 9.0);
    assert_eq!(above, 7.0);
}

#[test]
fn test_estimate_delta_feature() {
    // the elapsed-time feature is the timestamp minus the last block's
    let model = FeeModel::new(feature_model(3, 1.0, 0.0), feature_model(3, 1.0, 0.0));
    let ts = 1613708045u32;
    let r = f32::from_bits(
        model.estimate_with_buckets(1, Some(ts), &BUCKETS, ts - 300).unwrap(),
    );
    assert_eq!(r, 300.0);
}

#[test]
fn test_estimate_bucket_feature() {
    let model = FeeModel::new(feature_model(4 + 3, 1.0, 0.0), feature_model(4 + 3, 1.0, 0.0));
    let ts = 1613708045u32;
    let r = f32::from_bits(
        model.estimate_with_buckets(1, Some(ts), &BUCKETS, ts - 300).unwrap(),
    );
    assert_eq!(r, BUCKETS[3] as f32);
}

#[test]
fn test_estimate_calendar_features() {
    let dow_model = FeeModel::new(feature_model(1, 1.0, 0.0), feature_model(1, 1.0, 0.0));
    let hour_model = FeeModel::new(feature_model(2, 1.0, 0.0), feature_model(2, 1.0, 0.0));
    let ts = 1613708045u32; // a Friday, in its fifth hour
    let dow = f32::from_bits(
        dow_model.estimate_with_buckets(1, Some(ts), &BUCKETS, ts - 300).unwrap(),
    );
    let hour = f32::from_bits(
        hour_model.estimate_with_buckets(1, Some(ts), &BUCKETS, ts - 300).unwrap(),
    );
    assert_eq!(dow, 4.0);
    assert_eq!(hour, 4.0);
}

#[test]
fn test_estimate_default_timestamp() {
    let model = FeeModel::new(feature_model(0, 0.0, 9.0), feature_model(0, 0.0, 7.0));
    let r = model.estimate_with_buckets(1, None, &BUCKETS, 0);
    assert_eq!(f32::from_bits(r.unwrap()), 9.0);
}

#[test]
fn test_estimate_missing_stat() {
    let mut low = feature_model(0, -1.0, 100.0);
    low.norm.std.remove(2);
    let model = FeeModel::new(low, feature_model(0, -1.0, 50.0));
    let ts = 1613708045u32;
    let err = model.estimate_with_buckets(1, Some(ts), &BUCKETS, ts - 300).unwrap_err();
    match &err {
        Error::MissingStdData(s) => assert_eq!(s, "hour"),
        _ => panic!("wrong error variant"),
    }
    assert!(model.estimate_with_buckets(5, Some(ts), &BUCKETS, ts - 300).is_ok());
}

#[test]
fn test_calendar() {
    assert_eq!(day_of_week_utc(1613708045), 4);
    assert_eq!(hour_utc(1613708045), 4);
    assert_eq!(day_of_week_utc(0), 3);
    assert_eq!(hour_utc(0), 0);
    assert_eq!(day_of_week_utc(86400 * 4), 0);
}
