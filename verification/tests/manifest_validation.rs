use programmer_core::{
    validate_package, ChipFamily, ErrorCode, FirmwareManifest, FirmwareSegment, HexAddress,
    MonitorPolicy, OtaPolicy, PackageKind, PackageReader, Result, SegmentRole,
};
use sha2::{Digest, Sha256};
use std::collections::HashMap;

struct MemoryReader(HashMap<String, Vec<u8>>);

impl PackageReader for MemoryReader {
    fn read_file(&self, relative_path: &str, _max_bytes: u64) -> Result<Vec<u8>> {
        self.0.get(relative_path).cloned().ok_or_else(|| {
            programmer_core::OperationError::new(ErrorCode::PackageFileMissing, "Файл не найден")
        })
    }
}

fn update_manifest(file: &str, bytes: &[u8]) -> FirmwareManifest {
    FirmwareManifest {
        schema_version: 1,
        package_id: "nova".into(),
        display_name: "NOVA".into(),
        firmware_version: "1.2.3".into(),
        kind: PackageKind::Update,
        target_chips: vec![ChipFamily::Esp32, ChipFamily::Esp32s3],
        partition_table_offset: HexAddress(0x8000),
        monitor: MonitorPolicy {
            baud: 115_200,
            success_marker: "APP_READY".into(),
            success_timeout_ms: 15_000,
        },
        ota: OtaPolicy {
            rollback_enabled: false,
        },
        segments: vec![FirmwareSegment {
            role: SegmentRole::Application,
            file: file.into(),
            offset: None,
            size: bytes.len() as u64,
            sha256: format!("{:x}", Sha256::digest(bytes)),
        }],
    }
}

fn esp32_image() -> Vec<u8> {
    let mut bytes = vec![0; 32];
    bytes[0] = 0xE9;
    bytes
}

#[test]
fn validates_update_package() {
    let bytes = esp32_image();
    let reader = MemoryReader(HashMap::from([("app.bin".into(), bytes.clone())]));
    let package = validate_package(update_manifest("app.bin", &bytes), &reader).unwrap();
    assert_eq!(package.total_bytes, bytes.len() as u64);
    assert_eq!(package.manifest.target_chips[0], ChipFamily::Esp32);
}

#[test]
fn rejects_hash_mismatch() {
    let expected = esp32_image();
    let mut changed = expected.clone();
    changed[31] = 1;
    let reader = MemoryReader(HashMap::from([("app.bin".into(), changed)]));
    let error = validate_package(update_manifest("app.bin", &expected), &reader).unwrap_err();
    assert_eq!(error.code, ErrorCode::HashMismatch);
}

#[test]
fn rejects_traversal_before_read() {
    let bytes = esp32_image();
    let reader = MemoryReader(HashMap::new());
    let error = validate_package(update_manifest("../app.bin", &bytes), &reader).unwrap_err();
    assert_eq!(error.code, ErrorCode::PackagePathInvalid);
}

#[test]
fn accepts_empty_optional_success_marker() {
    let bytes = esp32_image();
    let reader = MemoryReader(HashMap::from([("app.bin".into(), bytes.clone())]));
    let mut manifest = update_manifest("app.bin", &bytes);
    manifest.monitor.success_marker = String::new();
    let package = validate_package(manifest, &reader).unwrap();
    assert!(package.manifest.monitor.success_marker.is_empty());
}

#[test]
fn rejects_unsupported_schema_and_bad_ids() {
    let bytes = esp32_image();
    let mut manifest = update_manifest("app.bin", &bytes);
    manifest.schema_version = 2;
    let error = manifest.validate_structure().unwrap_err();
    assert_eq!(error.code, ErrorCode::PackageUnsupported);
    assert_eq!(error.detail.as_deref(), Some("2"));

    let mut manifest = update_manifest("app.bin", &bytes);
    manifest.package_id = "nova package".into();
    assert_eq!(manifest.validate_structure().unwrap_err().code, ErrorCode::PackageInvalid);
}

#[test]
fn rejects_duplicate_chips_and_missing_segments() {
    let bytes = esp32_image();
    let mut manifest = update_manifest("app.bin", &bytes);
    manifest.target_chips = vec![ChipFamily::Esp32, ChipFamily::Esp32];
    assert_eq!(manifest.validate_structure().unwrap_err().code, ErrorCode::PackageInvalid);

    let mut manifest = update_manifest("app.bin", &bytes);
    manifest.segments.clear();
    assert_eq!(manifest.validate_structure().unwrap_err().code, ErrorCode::PackageInvalid);
}

#[test]
fn rejects_wrong_size_and_missing_file() {
    let bytes = esp32_image();
    let reader = MemoryReader(HashMap::from([("app.bin".into(), bytes[..24].to_vec())]));
    let error = validate_package(update_manifest("app.bin", &bytes), &reader).unwrap_err();
    assert_eq!(error.code, ErrorCode::PackageInvalid);

    let reader = MemoryReader(HashMap::new());
    let error = validate_package(update_manifest("app.bin", &bytes), &reader).unwrap_err();
    assert_eq!(error.code, ErrorCode::PackageFileMissing);
}

#[test]
fn hex_addresses_round_trip() {
    for value in [0_u32, 0x8000, 0xD000, 0xFFFF_FFFF] {
        let text = HexAddress(value).to_hex_string();
        assert_eq!(HexAddress::parse(&text).unwrap(), HexAddress(value));
    }
    assert_eq!(HexAddress(0x1A2B).to_hex_string(), "0x1A2B");
    assert!(HexAddress::parse("8000").is_err());
    assert!(HexAddress::parse("0x").is_err());
    assert!(HexAddress::parse("0x123456789").is_err());
    assert_eq!(HexAddress::parse("0xd000").unwrap(), HexAddress(0xD000));
}
