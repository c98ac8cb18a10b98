use settlers4_widescreen_tool::validation::{
    calculate_sha1, validate_gog_version, validation_for_hash,
};

#[test]
fn test_calculate_sha1() {
    let hash = calculate_sha1(b"test content");
    // SHA1 of "test content"
    assert_eq!(hash, "1EEBDF4FDC9FC7BF283031B93F9AEF3338DE9052");
}

#[test]
fn test_validation_result() {
    let result = validate_gog_version(b"fake dll content");
    assert!(!result.is_valid);
    assert!(result.message.contains("Invalid"));
}

#[test]
fn sha1_of_empty_input() {
    assert_eq!(calculate_sha1(b""), "DA39A3EE5E6B4B0D3255BFEF95601890AFD80709");
}

#[test]
fn known_hash_is_valid() {
    let result = validation_for_hash("F4C2B5D0C3B9C2BB250F69CFB18D8B98A9061981".to_string());
    assert!(result.is_valid);
    assert_eq!(result.message, "Valid GOG Gold Edition v2.50.1508 detected");
}

#[test]
fn hash_comparison_is_exact() {
    let result = validation_for_hash("f4c2b5d0c3b9c2bb250f69cfb18d8b98a9061981".to_string());
    assert!(!result.is_valid);
    assert_eq!(
        result.message,
        "Invalid S4.exe hash: f4c2b5d0c3b9c2bb250f69cfb18d8b98a9061981\nThis is not a recognized GOG Gold Edition v2.50.1508 version.\nPatching is not allowed for safety reasons."
    );
}

#[test]
fn invalid_result_carries_the_hash() {
    let result = validate_gog_version(b"test content");
    assert_eq!(result.hash, "1EEBDF4FDC9FC7BF283031B93F9AEF3338DE9052");
    assert!(result.message.starts_with("Invalid S4.exe hash: 1EEBDF4F"));
}

#[test]
fn hashes_are_forty_upper_case_hex_digits() {
    for data in [&b""[..], &b"S4"[..], &[0u8, 255, 16, 171][..]] {
        let hash = calculate_sha1(data);
        assert_eq!(hash.len(), 40);
        assert!(hash.chars().all(|c| c.is_ascii_digit() || ('A'..='F').contains(&c)));
    }
}
