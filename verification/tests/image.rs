use programmer_core::{validate_esp_image, ChipFamily, ErrorCode};

#[test]
fn validates_chip_id() {
    let mut image = vec![0; 24];
    image[0] = 0xE9;
    image[12..14].copy_from_slice(&9_u16.to_le_bytes());
    assert_eq!(
        validate_esp_image(&image, &[ChipFamily::Esp32s3]).unwrap(),
        ChipFamily::Esp32s3
    );
}

#[test]
fn rejects_target_mismatch() {
    let mut image = vec![0; 24];
    image[0] = 0xE9;
    let error = validate_esp_image(&image, &[ChipFamily::Esp32s3]).unwrap_err();
    assert_eq!(error.code, ErrorCode::ChipMismatch);
}

#[test]
fn rejects_short_or_unmarked_images() {
    let mut image = vec![0; 23];
    image[0] = 0xE9;
    assert_eq!(
        validate_esp_image(&image, &ChipFamily::all()).unwrap_err().code,
        ErrorCode::PackageInvalid
    );
    let unmarked = vec![0; 24];
    assert_eq!(
        validate_esp_image(&unmarked, &ChipFamily::all()).unwrap_err().code,
        ErrorCode::PackageInvalid
    );
}

#[test]
fn unknown_chip_id_is_unsupported_and_named() {
    let mut image = vec![0; 24];
    image[0] = 0xE9;
    image[12..14].copy_from_slice(&77_u16.to_le_bytes());
    let error = validate_esp_image(&image, &ChipFamily::all()).unwrap_err();
    assert_eq!(error.code, ErrorCode::PackageUnsupported);
    assert_eq!(error.detail.as_deref(), Some("77"));
}

#[test]
fn chip_names_round_trip() {
    for chip in ChipFamily::all() {
        assert_eq!(ChipFamily::from_name(chip.as_str()).unwrap(), chip);
    }
    assert_eq!(ChipFamily::from_name("ESP32S3").unwrap(), ChipFamily::Esp32s3);
    let error = ChipFamily::from_name("esp8266").unwrap_err();
    assert_eq!(error.code, ErrorCode::PackageUnsupported);
    assert_eq!(error.detail.as_deref(), Some("esp8266"));
}
