use programmer_core::packager::{
    check_output_absent, check_source_text, decide_build_chip, dry_run_summary, exit_code, output_name,
    plan_idf_build, plan_manifest, BuildKind, BuildOptions, EncryptedFlag, FlasherArgs,
    FlasherSegment,
};
use programmer_core::{ErrorCode, OperationError, SegmentRole};

fn raw(offset: &str, file: &str) -> Option<FlasherSegment> {
    Some(FlasherSegment {
        offset: offset.into(),
        file: file.into(),
        encrypted: EncryptedFlag::Disabled,
    })
}

fn args(chip: Option<&str>) -> FlasherArgs {
    FlasherArgs {
        flash_files: vec![
            ("0x1000".into(), "bootloader/bootloader.bin".into()),
            ("0x8000".into(), "partition_table/partition-table.bin".into()),
            ("0x10000".into(), "app.bin".into()),
        ],
        app: raw("0x10000", "app.bin"),
        bootloader: raw("0x1000", "bootloader/bootloader.bin"),
        partition_table: raw("0x8000", "partition_table/partition-table.bin"),
        otadata: None,
        chip: chip.map(|value| value.to_string()),
    }
}

fn resolve(file: String) -> programmer_core::Result<String> {
    Ok(format!("/build/{file}"))
}

fn contents(source: String) -> programmer_core::Result<Vec<u8>> {
    match source.as_str() {
        "/build/app.bin" => {
            let mut application = vec![0; 32];
            application[0] = 0xE9;
            Ok(application)
        }
        "/build/bootloader/bootloader.bin" => Ok(b"bootloader".to_vec()),
        "/build/partition_table/partition-table.bin" => Ok(b"partitions".to_vec()),
        _ => Err(OperationError::new(ErrorCode::PackageFileMissing, "missing")),
    }
}

fn options(kind: BuildKind) -> BuildOptions {
    BuildOptions {
        kind,
        build_dir: "/build".into(),
        output_dir: "/package".into(),
        package_id: "nova".into(),
        display_name: "NOVA".into(),
        firmware_version: "1.0.0".into(),
        monitor_baud: 115_200,
        success_marker: "APP_READY".into(),
        success_timeout_ms: 15_000,
        rollback_enabled: false,
        dry_run: false,
        force: false,
    }
}

#[test]
fn builds_factory_package() {
    let build = plan_idf_build(args(Some("esp32")), resolve, contents).unwrap();
    assert_eq!(build.factory_segments.len(), 3);
    assert_eq!(build.chip, "esp32");
    let manifest = plan_manifest(&build, &options(BuildKind::Factory), contents).unwrap();
    assert_eq!(manifest.segments.len(), 3);
    assert_eq!(manifest.package_id, "nova");
    assert_eq!(manifest.segments[0].file, "00-bootloader.bin");
    assert_eq!(manifest.segments[1].file, "01-partition-table.bin");
    assert_eq!(manifest.segments[2].file, "02-application.bin");
    assert_eq!(manifest.segments[2].offset.map(|value| value.0), Some(0x10000));
}

#[test]
fn builds_single_bin_update_package() {
    let build = plan_idf_build(args(Some("esp32")), resolve, contents).unwrap();
    let manifest = plan_manifest(&build, &options(BuildKind::Update), contents).unwrap();
    assert_eq!(manifest.segments.len(), 1);
    assert_eq!(manifest.segments[0].file, "application.bin");
    assert!(manifest.segments[0].offset.is_none());
}

#[test]
fn dry_run_does_not_create_output() {
    let build = plan_idf_build(args(Some("esp32")), resolve, contents).unwrap();
    let manifest = plan_manifest(&build, &options(BuildKind::Factory), contents).unwrap();
    let summary = dry_run_summary(&manifest);
    assert_eq!(summary.segment_count, 3);
    assert_eq!(summary.total_bytes, 10 + 10 + 32);
    assert!(summary.success_marker_configured);
    check_output_absent(false, false).unwrap();
    assert_eq!(check_output_absent(true, false).unwrap_err().code, ErrorCode::PackagePathInvalid);
    check_output_absent(true, true).unwrap();
}

#[test]
fn accepts_legacy_partition_key_and_infers_missing_chip() {
    let build = plan_idf_build(args(None), resolve, contents).unwrap();
    let manifest = plan_manifest(&build, &options(BuildKind::Update), contents).unwrap();
    assert_eq!(manifest.target_chips, [programmer_core::ChipFamily::Esp32]);
    let blank = plan_idf_build(args(Some("  ")), resolve, contents).unwrap();
    assert_eq!(blank.chip, "esp32");
}

#[test]
fn rejects_metadata_and_image_chip_mismatch() {
    let error = plan_idf_build(args(Some("esp32s3")), resolve, contents).unwrap_err();
    assert_eq!(error.code, ErrorCode::ChipMismatch);
    assert_eq!(error.detail.as_deref(), Some("metadata=esp32s3, image=esp32"));
}

#[test]
fn encrypted_and_escaping_segments_are_refused() {
    let mut encrypted = args(None);
    encrypted.app = Some(FlasherSegment {
        offset: "0x10000".into(),
        file: "app.bin".into(),
        encrypted: EncryptedFlag::Enabled,
    });
    let error = plan_idf_build(encrypted, resolve, contents).unwrap_err();
    assert_eq!(error.code, ErrorCode::PackageUnsupported);
    assert_eq!(error.detail.as_deref(), Some("app.bin"));

    let mut missing = args(None);
    missing.partition_table = None;
    assert_eq!(plan_idf_build(missing, resolve, contents).unwrap_err().code, ErrorCode::PackageInvalid);

    for value in ["../app.bin", "/app.bin", "C:app.bin", r"a\b.bin", "./app.bin", "a/../b.bin"] {
        assert_eq!(check_source_text(value).unwrap_err().code, ErrorCode::PackagePathInvalid);
    }
    check_source_text("bootloader/bootloader.bin").unwrap();
}

#[test]
fn extra_flash_files_become_data_segments_in_flash_order() {
    let mut extra = args(None);
    extra.flash_files.push(("0x9000".into(), "nvs.bin".into()));
    let build = plan_idf_build(extra, resolve, contents).unwrap();
    let offsets: Vec<u32> = build.factory_segments.iter().map(|segment| segment.offset.0).collect();
    assert_eq!(offsets, vec![0x1000, 0x8000, 0x9000, 0x10000]);
    assert_eq!(build.factory_segments[2].role, SegmentRole::Data);
    assert_eq!(build.factory_segments[2].source, "/build/nvs.bin");
}

#[test]
fn packager_names_and_exit_codes() {
    assert_eq!(output_name(SegmentRole::OtaData, 12, BuildKind::Factory), "12-ota-data.bin");
    assert_eq!(output_name(SegmentRole::Data, 3, BuildKind::Factory), "03-data.bin");
    assert_eq!(exit_code(ErrorCode::HashMismatch), 4);
    assert_eq!(exit_code(ErrorCode::IoError), 6);
    assert_eq!(exit_code(ErrorCode::PortBusy), 10);
}

fn esp32_image() -> Vec<u8> {
    let mut bytes = vec![0u8; 32];
    bytes[0] = 0xE9;
    bytes
}

#[test]
fn build_chip_is_the_image_chip_unless_a_declared_chip_disagrees() {
    assert_eq!(decide_build_chip(&esp32_image(), None).unwrap().as_str(), "esp32");
    assert_eq!(decide_build_chip(&esp32_image(), Some("  ")).unwrap().as_str(), "esp32");
    assert_eq!(decide_build_chip(&esp32_image(), Some("ESP32")).unwrap().as_str(), "esp32");
    let error = decide_build_chip(&esp32_image(), Some("esp32s3")).unwrap_err();
    assert_eq!(error.code, ErrorCode::ChipMismatch);
    assert_eq!(error.detail.as_deref(), Some("metadata=esp32s3, image=esp32"));
    let error = decide_build_chip(&esp32_image(), Some("esp8266")).unwrap_err();
    assert_eq!(error.code, ErrorCode::PackageUnsupported);
    assert_eq!(error.detail.as_deref(), Some("esp8266"));
    let error = decide_build_chip(&[0u8; 8], None).unwrap_err();
    assert_eq!(error.code, ErrorCode::PackageInvalid);
    assert_eq!(error.detail, None);
}
