use programmer_core::loading::{
    build_direct_factory, build_direct_update, check_direct_file_name, has_bin_extension,
    load_legacy_from, package_id, plan_direct_folder, stem_of, unique_named, DirectPlan,
};
use programmer_core::{
    ChipFamily, ErrorCode, FirmwareManifest, FirmwareSegment, FirmwareSource, HexAddress,
    MonitorPolicy, OperationError, OtaPolicy, PackageKind, SegmentRole,
};
use sha2::{Digest, Sha256};

fn image(chip_id: u16) -> Vec<u8> {
    let mut bytes = vec![0; 64];
    bytes[0] = 0xE9;
    bytes[12..14].copy_from_slice(&chip_id.to_le_bytes());
    bytes
}

fn partition(kind: u8, subtype: u8, offset: u32, size: u32, label: &str) -> [u8; 32] {
    let mut raw = [0xFF; 32];
    raw[0..2].copy_from_slice(&0x50AA_u16.to_le_bytes());
    raw[2] = kind;
    raw[3] = subtype;
    raw[4..8].copy_from_slice(&offset.to_le_bytes());
    raw[8..12].copy_from_slice(&size.to_le_bytes());
    raw[12..12 + label.len()].copy_from_slice(label.as_bytes());
    raw[28..32].copy_from_slice(&0_u32.to_le_bytes());
    raw
}

fn table() -> Vec<u8> {
    let mut bytes = vec![0xFF; 0x1000];
    bytes[..32].copy_from_slice(&partition(1, 0, 0xD000, 0x2000, "otadata"));
    bytes[32..64].copy_from_slice(&partition(0, 0, 0x10000, 0x180000, "factory"));
    bytes
}

fn names(values: &[&str]) -> Vec<String> {
    values.iter().map(|value| value.to_string()).collect()
}

#[test]
fn detects_platformio_factory_without_json() {
    let plan = plan_direct_folder(&names(&["bootloader.bin", "firmware.bin", "partitions.bin"]))
        .unwrap();
    let (bootloader, partitions, application, boot_app0) = match plan {
        DirectPlan::Factory { bootloader, partitions, application, boot_app0 } => {
            (bootloader, partitions, application, boot_app0)
        }
        DirectPlan::Update { .. } => panic!("expected factory"),
    };
    assert!(boot_app0.is_none());
    let package = build_direct_factory(
        Some("nova-build".into()),
        bootloader,
        image(9),
        partitions,
        table(),
        application,
        image(9),
        None,
    )
    .unwrap();
    let summary = package.summary();
    assert_eq!(summary.kind, PackageKind::Factory);
    assert_eq!(summary.source, FirmwareSource::Platformio);
    assert_eq!(summary.segment_count, 4);
    assert_eq!(summary.segments[0].offset.as_deref(), Some("0x0"));
    assert_eq!(summary.segments[2].role, SegmentRole::OtaData);
    assert_eq!(summary.segments[3].offset.as_deref(), Some("0x10000"));
    assert_eq!(summary.display_name, "nova-build");
    assert_eq!(summary.package_id, "nova-build");
    assert_eq!(package.device_partition_table_offset, Some(0x8000));
    assert_eq!(package.segment_bytes("_programmer_otadata.bin").unwrap(), vec![0xFF; 0x2000].as_slice());
}

#[test]
fn detects_arbitrary_single_application_bin() {
    let plan = plan_direct_folder(&names(&["nova-2.0.bin"])).unwrap();
    let application = match plan {
        DirectPlan::Update { application } => application,
        DirectPlan::Factory { .. } => panic!("expected update"),
    };
    let summary = build_direct_update(application, image(0)).unwrap().summary();
    assert_eq!(summary.kind, PackageKind::Update);
    assert_eq!(summary.source, FirmwareSource::Standalone);
    assert!(summary.requires_device_layout);
    assert!(summary.segments[0].offset.is_none());
}

#[test]
fn loads_a_direct_arbitrary_name_application_bin_file() {
    check_direct_file_name("nova client 2.0.BIN").unwrap();
    let package = build_direct_update("nova client 2.0.BIN".into(), image(0)).unwrap();
    let summary = package.summary();
    assert_eq!(summary.kind, PackageKind::Update);
    assert_eq!(summary.source, FirmwareSource::Standalone);
    assert_eq!(summary.display_name, "nova client 2.0");
    assert_eq!(summary.package_id, "nova-client-2.0");
    assert_eq!(summary.segments[0].file, "nova client 2.0.BIN");
    let hash = format!("{:x}", Sha256::digest(image(0)));
    assert_eq!(summary.firmware_version, format!("sha256-{}", &hash[..12]));
}

#[test]
fn rejects_a_direct_non_bin_file() {
    let error = check_direct_file_name("firmware.txt").unwrap_err();
    assert_eq!(error.code, ErrorCode::PackageInvalid);
    assert!(error.message.contains(".bin"));
    assert!(has_bin_extension("A.Bin"));
    assert!(!has_bin_extension(".bi"));
}

#[test]
fn rejects_incomplete_and_ambiguous_direct_folders() {
    let incomplete = plan_direct_folder(&names(&["firmware.bin", "partitions.bin"])).unwrap_err();
    assert_eq!(incomplete.code, ErrorCode::PackageFileMissing);
    assert_eq!(incomplete.detail.as_deref(), Some("не найден bootloader.bin"));

    let ambiguous = plan_direct_folder(&names(&["first.bin", "second.bin"])).unwrap_err();
    assert_eq!(ambiguous.code, ErrorCode::PackageInvalid);
    assert_eq!(ambiguous.detail.as_deref(), Some("first.bin, second.bin"));

    let unknown = plan_direct_folder(&names(&[
        "bootloader.bin",
        "filesystem.bin",
        "firmware.bin",
        "partitions.bin",
    ]))
    .unwrap_err();
    assert_eq!(unknown.code, ErrorCode::PackageInvalid);
    assert_eq!(unknown.detail.as_deref(), Some("filesystem.bin"));

    let empty = plan_direct_folder(&[]).unwrap_err();
    assert_eq!(empty.code, ErrorCode::PackageFileMissing);
}

#[test]
fn two_files_for_one_role_are_refused() {
    let files = names(&["Partitions.bin", "partition-table.bin"]);
    let error = unique_named(&files, &["partitions.bin", "partition-table.bin"]).unwrap_err();
    assert_eq!(error.detail.as_deref(), Some("Partitions.bin, partition-table.bin"));
    assert_eq!(
        unique_named(&files, &["partition-table.bin"]).unwrap().as_deref(),
        Some("partition-table.bin")
    );
}

#[test]
fn bootloader_for_another_chip_is_refused() {
    let error = build_direct_factory(
        None,
        "bootloader.bin".into(),
        image(0),
        "partitions.bin".into(),
        table(),
        "firmware.bin".into(),
        image(9),
        None,
    )
    .unwrap_err();
    assert_eq!(error.code, ErrorCode::ChipMismatch);
    assert_eq!(
        error.detail.as_deref(),
        Some("CHIP_MISMATCH: Чип application BIN отсутствует в target_chips")
    );
}

#[test]
fn boot_app0_needs_an_otadata_partition_and_a_failed_read_is_passed_on() {
    let mut no_ota = vec![0xFF; 0x1000];
    no_ota[..32].copy_from_slice(&partition(0, 0, 0x10000, 0x180000, "factory"));
    let error = build_direct_factory(
        None,
        "bootloader.bin".into(),
        image(9),
        "partitions.bin".into(),
        no_ota,
        "firmware.bin".into(),
        image(9),
        Some(("boot_app0.bin".into(), Ok(vec![0xFF; 0x2000]))),
    )
    .unwrap_err();
    assert_eq!(error.code, ErrorCode::PartitionInvalid);

    let read_error = OperationError::new(ErrorCode::IoError, "read failed");
    let error = build_direct_factory(
        None,
        "bootloader.bin".into(),
        image(9),
        "partitions.bin".into(),
        table(),
        "firmware.bin".into(),
        image(9),
        Some(("boot_app0.bin".into(), Err(read_error.clone()))),
    )
    .unwrap_err();
    assert_eq!(error, read_error);

    let package = build_direct_factory(
        None,
        "bootloader.bin".into(),
        image(9),
        "partitions.bin".into(),
        table(),
        "firmware.bin".into(),
        image(9),
        Some(("boot_app0.bin".into(), Ok(vec![0x11; 0x100]))),
    )
    .unwrap();
    let summary = package.summary();
    assert_eq!(summary.display_name, "Firmware");
    assert_eq!(summary.segments[2].file, "boot_app0.bin");
    assert_eq!(summary.segments[2].offset.as_deref(), Some("0xD000"));
}

fn legacy_manifest(application: &[u8], kind: PackageKind) -> FirmwareManifest {
    FirmwareManifest {
        schema_version: 1,
        package_id: "legacy".into(),
        display_name: "Legacy".into(),
        firmware_version: "1".into(),
        kind,
        target_chips: vec![ChipFamily::Esp32],
        partition_table_offset: HexAddress(0x8000),
        monitor: MonitorPolicy {
            baud: 115_200,
            success_marker: "READY".into(),
            success_timeout_ms: 15_000,
        },
        ota: OtaPolicy {
            rollback_enabled: false,
        },
        segments: vec![FirmwareSegment {
            role: SegmentRole::Application,
            file: "application.bin".into(),
            offset: None,
            size: application.len() as u64,
            sha256: format!("{:x}", Sha256::digest(application)),
        }],
    }
}

#[test]
fn a_loaded_package_gives_bytes_only_for_its_segments() {
    let application = image(0);
    let package = load_legacy_from(
        legacy_manifest(&application, PackageKind::Update),
        vec![
            ("notes.bin".into(), vec![1, 2, 3]),
            ("application.bin".into(), application.clone()),
        ],
    )
    .unwrap();
    let bytes = package.segment_bytes("application.bin").unwrap();
    let segment = &package.validated.manifest.segments[0];
    assert_eq!(bytes.len() as u64, segment.size);
    assert_eq!(format!("{:x}", Sha256::digest(bytes)), segment.sha256);
    let error = package.segment_bytes("notes.bin").unwrap_err();
    assert_eq!(error.code, ErrorCode::PackageFileMissing);
    assert_eq!(error.detail.as_deref(), Some("notes.bin"));
}

#[test]
fn keeps_legacy_manifest_as_optional_compatibility_path() {
    let application = image(0);
    let package = load_legacy_from(
        legacy_manifest(&application, PackageKind::Update),
        vec![("application.bin".into(), application.clone())],
    )
    .unwrap();
    let summary = package.summary();
    assert_eq!(summary.source, FirmwareSource::LegacyManifest);
    assert!(!summary.requires_device_layout);
    assert!(summary.success_marker_configured);
    assert_eq!(package.device_partition_table_offset, Some(0x8000));
    assert_eq!(package.segment_bytes("application.bin").unwrap(), application.as_slice());
    assert_eq!(
        package.segment_bytes("other.bin").unwrap_err().code,
        ErrorCode::PackageFileMissing
    );
}

#[test]
fn names_become_package_ids() {
    assert_eq!(package_id("NOVA client 2.0"), "NOVA-client-2.0");
    assert_eq!(package_id("  ***  "), "firmware");
    assert_eq!(package_id("прошивка v1"), "v1");
    assert_eq!(package_id(&"x".repeat(100)).len(), 64);
    assert_eq!(stem_of("nova.tar.bin"), "nova.tar");
    assert_eq!(stem_of(".bin"), ".bin");
    assert_eq!(stem_of("firmware"), "firmware");
}
