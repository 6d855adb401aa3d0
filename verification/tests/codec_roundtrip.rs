use bitcoin_fee_model::codec::{decode, decode_matrix, encode, encode_matrix};
use bitcoin_fee_model::compile::RawModelRecord;
use bitcoin_fee_model::error::DecodeError;
use bitcoin_fee_model::matrix::Matrix;

fn le8_bytes(v: u64) -> Vec<u8> {
    v.to_le_bytes().to_vec()
}

fn le4_bytes(v: u32) -> Vec<u8> {
    v.to_le_bytes().to_vec()
}

fn enc_mat(m: &Matrix) -> Vec<u8> {
    let mut out = Vec::new();
    encode_matrix(&mut out, m);
    out
}

#[test]
fn test_matrix_roundtrip_bits() {
    // negative zero, a subnormal, a NaN payload, and ordinary values all
    // survive the round trip bit for bit
    let entries: Vec<u32> = vec![
        (-0.0f32).to_bits(),
        0x0000_0001,
        0x7fc0_0001,
        1.0f32.to_bits(),
        (-1.5f32).to_bits(),
        f32::MAX.to_bits(),
    ];
    let m = Matrix::from_buffer(3, 2, entries.clone());
    let bytes = enc_mat(&m);
    let back = decode_matrix(&bytes, 3, 2).unwrap();
    for i in 0..2 {
        for j in 0..3 {
            assert_eq!(back.get(i, j), m.get(i, j));
        }
    }
}

#[test]
fn test_flat_roundtrip_bits() {
    let entries: Vec<u32> = vec![(-0.0f32).to_bits(), 0x0000_0001, 25.89434588f32.to_bits()];
    let m = Matrix::from_array(entries.clone());
    let bytes = enc_mat(&m);
    // a height-one matrix is written flat: count then raw values
    let mut expected = le8_bytes(3);
    for e in &entries {
        expected.extend(le4_bytes(*e));
    }
    assert_eq!(bytes, expected);
    let back = decode_matrix(&bytes, 3, 1).unwrap();
    for j in 0..3 {
        assert_eq!(back.get(0, j), entries[j]);
    }
}

#[test]
fn test_row_width_error() {
    // a 2 by 2 matrix whose second row claims three entries
    let mut bytes = le8_bytes(2);
    bytes.extend(le8_bytes(2));
    bytes.extend(le4_bytes(1));
    bytes.extend(le4_bytes(2));
    bytes.extend(le8_bytes(3));
    bytes.extend(le4_bytes(3));
    bytes.extend(le4_bytes(4));
    bytes.extend(le4_bytes(5));
    let err = decode_matrix(&bytes, 2, 2).unwrap_err();
    assert_eq!(err, DecodeError::RowWidth { row: 1, expected: 2, found: 3 });
}

#[test]
fn test_row_count_error() {
    // three well-formed rows where two were expected
    let mut bytes = le8_bytes(3);
    for base in 0..3u32 {
        bytes.extend(le8_bytes(2));
        bytes.extend(le4_bytes(base * 2));
        bytes.extend(le4_bytes(base * 2 + 1));
    }
    let err = decode_matrix(&bytes, 2, 2).unwrap_err();
    assert_eq!(err, DecodeError::RowCount { expected: 2, found: 3 });
}

#[test]
fn test_truncated_error() {
    let m = Matrix::from_array(vec![1u32, 2, 3]);
    let mut bytes = enc_mat(&m);
    bytes.pop();
    let err = decode_matrix(&bytes, 3, 1).unwrap_err();
    assert_eq!(err, DecodeError::Truncated);
}

#[test]
fn test_trailing_error() {
    let m = Matrix::from_array(vec![1u32, 2, 3]);
    let mut bytes = enc_mat(&m);
    bytes.push(0);
    let err = decode_matrix(&bytes, 3, 1).unwrap_err();
    assert_eq!(err, DecodeError::Trailing { extra: 1 });
}

fn sample_record() -> RawModelRecord {
    let fields = vec!["confirms_in".to_string(), "émission".to_string()];
    let mean = vec![
        ("confirms_in".to_string(), 0.5f32.to_bits()),
        ("émission".to_string(), (-0.0f32).to_bits()),
    ];
    let std = vec![
        ("confirms_in".to_string(), 2.0f32.to_bits()),
        ("émission".to_string(), 0x0000_0001),
    ];
    RawModelRecord {
        mean,
        std,
        fields,
        l0_bias: vec![1.0f32.to_bits(), (-2.0f32).to_bits(), 0x7fc0_0001],
        l0_kernel: Matrix::from_buffer(3, 2, vec![1, 2, 3, 4, 5, 6]),
        l1_bias: vec![7u32, 8, 9],
        l1_kernel: Matrix::from_buffer(3, 3, (10u32..19).collect()),
        l2_bias: vec![42u32],
        l2_kernel: Matrix::from_buffer(1, 3, vec![19u32, 20, 21]),
        alpha: 0.01f32.to_bits(),
    }
}

#[test]
fn test_record_roundtrip() {
    let rec = sample_record();
    let bytes = encode(&rec);
    let back = decode(&bytes).unwrap();
    assert_eq!(back.fields, rec.fields);
    assert_eq!(back.mean, rec.mean);
    assert_eq!(back.std, rec.std);
    assert_eq!(back.alpha, rec.alpha);
    assert_eq!(back.l0_bias, rec.l0_bias);
    assert_eq!(back.l1_bias, rec.l1_bias);
    assert_eq!(back.l2_bias, rec.l2_bias);
    for i in 0..2 {
        for j in 0..3 {
            assert_eq!(back.l0_kernel.get(i, j), rec.l0_kernel.get(i, j));
        }
    }
    for i in 0..3 {
        for j in 0..3 {
            assert_eq!(back.l1_kernel.get(i, j), rec.l1_kernel.get(i, j));
        }
    }
    for i in 0..3 {
        assert_eq!(back.l2_kernel.get(i, 0), rec.l2_kernel.get(i, 0));
    }
    // encoding the decoded record gives the same bytes again
    assert_eq!(encode(&back), bytes);
}

#[test]
fn test_record_truncated() {
    let rec = sample_record();
    let mut bytes = encode(&rec);
    bytes.truncate(bytes.len() - 2);
    let err = decode(&bytes).unwrap_err();
    assert_eq!(err, DecodeError::Truncated);
}

#[test]
fn test_record_trailing() {
    let rec = sample_record();
    let mut bytes = encode(&rec);
    bytes.extend([0u8, 0]);
    let err = decode(&bytes).unwrap_err();
    assert_eq!(err, DecodeError::Trailing { extra: 2 });
}

#[test]
fn test_record_unknown_key() {
    // a container whose first tensor key is wrong is rejected
    let rec = sample_record();
    let good = encode(&rec);
    // find the canonical first key and break one byte of it
    let key = b"dense/bias:0";
    let pos = good
        .windows(key.len())
        .position(|w| w == key)
        .expect("key present");
    let mut bytes = good.clone();
    bytes[pos] = b'x';
    let err = decode(&bytes).unwrap_err();
    assert_eq!(err, DecodeError::UnknownKey);
}

#[test]
fn test_record_bad_name() {
    // a field list of one name holding a lone continuation byte
    let mut bytes = le8_bytes(1);
    bytes.extend(le8_bytes(1));
    bytes.push(0x80);
    let err = decode(&bytes).unwrap_err();
    assert_eq!(err, DecodeError::BadName);
}

#[test]
fn test_empty_matrix_roundtrip() {
    let m = Matrix::from_buffer(0, 0, Vec::new());
    let bytes = enc_mat(&m);
    assert_eq!(bytes, le8_bytes(0));
    let back = decode_matrix(&bytes, 0, 0).unwrap();
    assert_eq!(back.width(), 0);
    assert_eq!(back.height(), 0);
}
