use uubed_core::encoders::q64::{q64_decode, q64_encode, q64_encode_to_buffer, ALPHABETS};

#[test]
fn test_roundtrip() {
    let data = vec![0, 127, 255, 42, 100];
    let encoded = q64_encode(&data);
    let decoded = q64_decode(&encoded).unwrap();
    assert_eq!(data, decoded);
}

#[test]
fn test_position_safety() {
    let data = vec![0, 0, 0, 0];
    let encoded = q64_encode(&data);

    // Verify each character is from correct alphabet
    for (i, ch) in encoded.chars().enumerate() {
        let alphabet_idx = i & 3;
        let alphabet = &ALPHABETS[alphabet_idx * 16..alphabet_idx * 16 + 16];
        assert!(alphabet.contains(&(ch as u8)));
    }
}

#[test]
fn test_empty() {
    let data = vec![];
    let encoded = q64_encode(&data);
    assert_eq!(encoded, "");
    let decoded = q64_decode(&encoded).unwrap();
    assert_eq!(data, decoded);
}

#[test]
fn test_error_odd_length() {
    assert!(q64_decode("ABC").is_err());
}

#[test]
fn test_error_invalid_char() {
    assert!(q64_decode("!@").is_err());
}

#[test]
fn test_error_wrong_position() {
    assert!(q64_decode("QA").is_err());
}

#[test]
fn test_q64_encode_to_buffer() {
    let data = vec![0x12, 0x34, 0x56, 0x78];
    let mut buffer = vec![0u8; data.len() * 2];

    let bytes_written = q64_encode_to_buffer(&data, &mut buffer).unwrap();
    assert_eq!(bytes_written, data.len() * 2);

    // Compare with string version
    let string_encoded = q64_encode(&data);
    let buffer_encoded = String::from_utf8(buffer).unwrap();
    assert_eq!(string_encoded, buffer_encoded);
}

#[test]
fn test_q64_encode_to_buffer_too_small() {
    let data = vec![0x12, 0x34];
    let mut buffer = vec![0u8; 3]; // Too small: need 4 bytes

    let result = q64_encode_to_buffer(&data, &mut buffer);
    assert!(result.is_err());
}

#[test]
fn test_q64_encode_to_buffer_empty() {
    let data = vec![];
    let mut buffer = vec![0u8; 0];

    let bytes_written = q64_encode_to_buffer(&data, &mut buffer).unwrap();
    assert_eq!(bytes_written, 0);
}

#[test]
fn test_zero_copy_consistency() {
    let test_data = (0..100).collect::<Vec<u8>>();

    // Compare string and buffer versions
    let string_result = q64_encode(&test_data);
    let mut buffer = vec![0u8; test_data.len() * 2];
    q64_encode_to_buffer(&test_data, &mut buffer).unwrap();
    let buffer_result = String::from_utf8(buffer).unwrap();

    assert_eq!(string_result, buffer_result);
}
