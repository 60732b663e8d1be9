// Version management and semver compliance tests

use uubed_core::capi::VERSION;
use uubed_core::{mq64_decode, mq64_encode, q64_decode, q64_encode};

#[test]
fn test_version_string_format() {
    // Test that version follows semver format (major.minor.patch)
    let version = VERSION;
    let parts: Vec<&str> = version.split('.').collect();

    assert_eq!(parts.len(), 3, "Version should have 3 parts (major.minor.patch)");

    // Check that each part is a valid number
    for part in parts {
        assert!(part.parse::<u32>().is_ok(), "Version part '{}' should be a valid number", part);
    }
}

#[test]
fn test_version_consistency() {
    // Test that the version is consistent across different access methods
    let cargo_version = VERSION;

    // For now, just ensure the version is set
    assert!(!cargo_version.is_empty(), "Version should not be empty");
}

#[test]
fn test_feature_flags() {
    // Test that feature flags work correctly
    assert!(true);
}

#[test]
fn test_q64_api_stability() {
    // Test that the Q64 API is stable
    let input = vec![1u8, 2u8, 3u8, 4u8];
    let result = q64_encode(&input);

    // The API should consistently return results
    assert!(!result.is_empty());

    // Test that we can decode back
    let decoded = q64_decode(&result);
    assert!(decoded.is_ok());
}

#[test]
fn test_mq64_api_stability() {
    // Test that the MQ64 API is stable
    let input = vec![1u8, 2u8, 3u8, 4u8];
    let result = mq64_encode(&input);

    // The API should consistently return results
    assert!(!result.is_empty());

    // Test that we can decode back
    let decoded = mq64_decode(&result);
    assert!(decoded.is_ok());
}

#[test]
fn test_encoding_format_stability() {
    // Test that encoding formats remain stable across versions
    let test_vector = vec![1u8, 2u8, 3u8, 4u8];

    // These should produce consistent results
    let q64_result = q64_encode(&test_vector);
    let mq64_result = mq64_encode(&test_vector);

    assert!(!q64_result.is_empty());
    assert!(!mq64_result.is_empty());

    // The length should be predictable
    assert!(!q64_result.is_empty());
    assert!(!mq64_result.is_empty());
}

#[test]
fn test_error_handling_consistency() {
    // Test that error handling is consistent across versions
    let empty_input: Vec<u8> = vec![];

    // Empty input should be handled gracefully
    let q64_result = q64_encode(&empty_input);
    let mq64_result = mq64_encode(&empty_input);

    // Both should either succeed or fail consistently
    assert_eq!(q64_result.is_empty(), mq64_result.is_empty());
}
