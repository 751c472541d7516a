use programmer_core::loading::{load_legacy_from, LoadedPackage};
use programmer_core::workflow::{FactoryFlow, FlowAction, FlowEvent, FlowPhase, Notice, UpdateFlow};
use programmer_core::{
    parse_partition_table, ChipFamily, ErrorCode, FirmwareManifest, FirmwareSegment, HexAddress,
    MonitorPolicy, OperationError, OperationStage, OtaPolicy, PackageKind, PartitionEntry,
    SegmentRole,
};
use sha2::{Digest, Sha256};

fn image() -> Vec<u8> {
    let mut bytes = vec![0; 64];
    bytes[0] = 0xE9;
    bytes
}

fn entry(kind: u8, subtype: u8, offset: u32, size: u32, label: &str) -> [u8; 32] {
    let mut raw = [0xFF; 32];
    raw[0..2].copy_from_slice(&0x50AA_u16.to_le_bytes());
    raw[2] = kind;
    raw[3] = subtype;
    raw[4..8].copy_from_slice(&offset.to_le_bytes());
    raw[8..12].copy_from_slice(&size.to_le_bytes());
    raw[12..12 + label.len()].copy_from_slice(label.as_bytes());
    raw[28..32].copy_from_slice(&0_u32.to_le_bytes());
    raw
}

fn entries(with_ota: bool) -> Vec<PartitionEntry> {
    let mut table = vec![0xFF; 0x1000];
    let mut rows = vec![entry(0, 0, 0x10000, 0x100000, "factory")];
    if with_ota {
        rows.push(entry(1, 0, 0xD000, 0x2000, "otadata"));
        rows.push(entry(0, 0x10, 0x110000, 0x100000, "ota_0"));
        rows.push(entry(0, 0x11, 0x210000, 0x100000, "ota_1"));
    }
    for (index, row) in rows.iter().enumerate() {
        table[index * 32..(index + 1) * 32].copy_from_slice(row);
    }
    parse_partition_table(&table).unwrap()
}

fn segment(role: SegmentRole, file: &str, offset: Option<u32>, bytes: &[u8]) -> FirmwareSegment {
    FirmwareSegment {
        role,
        file: file.into(),
        offset: offset.map(HexAddress),
        size: bytes.len() as u64,
        sha256: format!("{:x}", Sha256::digest(bytes)),
    }
}

fn package(kind: PackageKind, marker: &str) -> LoadedPackage {
    let application = image();
    let bootloader = b"bootloader".to_vec();
    let segments = match kind {
        PackageKind::Update => vec![segment(SegmentRole::Application, "app.bin", None, &application)],
        PackageKind::Factory => vec![
            segment(SegmentRole::Bootloader, "boot.bin", Some(0x1000), &bootloader),
            segment(SegmentRole::Application, "app.bin", Some(0x10000), &application),
        ],
    };
    let manifest = FirmwareManifest {
        schema_version: 1,
        package_id: "nova".into(),
        display_name: "NOVA".into(),
        firmware_version: "1".into(),
        kind,
        target_chips: vec![ChipFamily::Esp32],
        partition_table_offset: HexAddress(0x8000),
        monitor: MonitorPolicy {
            baud: 115_200,
            success_marker: marker.into(),
            success_timeout_ms: 5_000,
        },
        ota: OtaPolicy {
            rollback_enabled: false,
        },
        segments,
    };
    load_legacy_from(
        manifest,
        vec![("app.bin".into(), application), ("boot.bin".into(), bootloader)],
    )
    .unwrap()
}

fn stages(notices: &[Notice]) -> Vec<OperationStage> {
    notices
        .iter()
        .filter_map(|notice| match notice {
            Notice::State { stage, .. } => Some(*stage),
            Notice::Log { .. } => None,
        })
        .collect()
}

fn update_step(flow: &mut UpdateFlow, event: FlowEvent) -> (Vec<Notice>, FlowAction) {
    assert!(flow.can_take(&event));
    flow.step(event)
}

#[test]
fn update_run_writes_an_ota_slot_and_confirms_the_start() {
    let package = package(PackageKind::Update, "READY");
    let (mut flow, notices, action) = UpdateFlow::start(&package, false).unwrap();
    assert_eq!(stages(&notices), [OperationStage::Detecting, OperationStage::Connecting]);
    assert!(matches!(action, FlowAction::Connect));

    let (_, action) = update_step(
        &mut flow,
        FlowEvent::Connected { chip: ChipFamily::Esp32, flash_size_bytes: 0x400000 },
    );
    assert!(matches!(action, FlowAction::ReadPartitionTable { declared_offset: Some(0x8000) }));

    let (notices, action) =
        update_step(&mut flow, FlowEvent::TableFound { offset: 0x8000, entries: entries(true) });
    match &notices[0] {
        Notice::Log { message, .. } => {
            assert_eq!(message, "Partition table обнаружена по адресу 0x8000")
        }
        Notice::State { .. } => panic!("expected a log line"),
    }
    assert!(matches!(action, FlowAction::ReadRegion { address: 0xD000, size: 0x2000 }));

    let (notices, action) =
        update_step(&mut flow, FlowEvent::OtaDataRead { bytes: vec![0xFF; 0x2000] });
    assert_eq!(stages(&notices), [OperationStage::Writing]);
    match action {
        FlowAction::Write { segments } => {
            assert_eq!(segments.len(), 2);
            assert_eq!(segments[0].address, 0x110000);
            assert_eq!(segments[0].data, image());
            assert_eq!(segments[1].address, 0xD000);
        }
        _ => panic!("expected a write"),
    }

    let (notices, action) = update_step(&mut flow, FlowEvent::Written);
    assert_eq!(stages(&notices), [OperationStage::Verifying, OperationStage::Resetting]);
    assert!(matches!(action, FlowAction::StartMonitor { baud: 115_200, .. }));

    let (notices, action) = update_step(&mut flow, FlowEvent::MonitorStarted);
    assert_eq!(stages(&notices), [OperationStage::Monitoring]);
    assert!(matches!(action, FlowAction::AwaitMarker { timeout_ms: 5_000 }));

    let (notices, action) = update_step(&mut flow, FlowEvent::MarkerMatched);
    assert_eq!(stages(&notices), [OperationStage::Passed]);
    assert!(matches!(action, FlowAction::Finish { boot_confirmed: true, error: None }));
    assert_eq!(flow.phase, FlowPhase::Done);
    assert!(!flow.can_take(&FlowEvent::MarkerMatched));
}

#[test]
fn update_run_needs_confirmation_for_in_place_writes() {
    let package = package(PackageKind::Update, "");
    let (mut flow, _, _) = UpdateFlow::start(&package, false).unwrap();
    update_step(&mut flow, FlowEvent::Connected { chip: ChipFamily::Esp32, flash_size_bytes: 0x400000 });
    let (notices, action) =
        update_step(&mut flow, FlowEvent::TableFound { offset: 0x8000, entries: entries(false) });
    assert_eq!(stages(&notices), [OperationStage::Failed]);
    match action {
        FlowAction::Abort { error } => assert_eq!(error.code, ErrorCode::InPlaceConfirmationRequired),
        _ => panic!("expected an abort"),
    }

    let (mut flow, _, _) = UpdateFlow::start(&package, true).unwrap();
    update_step(&mut flow, FlowEvent::Connected { chip: ChipFamily::Esp32, flash_size_bytes: 0x400000 });
    let (notices, action) =
        update_step(&mut flow, FlowEvent::TableFound { offset: 0x8000, entries: entries(false) });
    assert_eq!(notices.len(), 3);
    assert!(matches!(action, FlowAction::Write { .. }));
    update_step(&mut flow, FlowEvent::Written);
    let (notices, action) = update_step(&mut flow, FlowEvent::MonitorStarted);
    assert_eq!(stages(&notices), [OperationStage::Monitoring, OperationStage::Passed]);
    assert!(matches!(action, FlowAction::Finish { boot_confirmed: false, error: None }));
}

#[test]
fn update_run_refuses_other_chips_and_packages() {
    let package = package(PackageKind::Update, "READY");
    let (mut flow, _, _) = UpdateFlow::start(&package, false).unwrap();
    let (notices, action) = update_step(
        &mut flow,
        FlowEvent::Connected { chip: ChipFamily::Esp32s3, flash_size_bytes: 0x400000 },
    );
    assert_eq!(stages(&notices), [OperationStage::Failed]);
    match action {
        FlowAction::Abort { error } => {
            assert_eq!(error.code, ErrorCode::ChipMismatch);
            assert_eq!(error.detail.as_deref(), Some("обнаружен esp32s3"));
        }
        _ => panic!("expected an abort"),
    }
    let factory = self::package(PackageKind::Factory, "READY");
    assert_eq!(UpdateFlow::start(&factory, false).unwrap_err().code, ErrorCode::PackageInvalid);
}

#[test]
fn update_run_reports_a_missing_marker() {
    let package = package(PackageKind::Update, "READY");
    let (mut flow, _, _) = UpdateFlow::start(&package, false).unwrap();
    update_step(&mut flow, FlowEvent::Connected { chip: ChipFamily::Esp32, flash_size_bytes: 0x400000 });
    update_step(&mut flow, FlowEvent::TableFound { offset: 0x8000, entries: entries(true) });
    update_step(&mut flow, FlowEvent::OtaDataRead { bytes: vec![0xFF; 0x2000] });
    update_step(&mut flow, FlowEvent::Written);
    update_step(&mut flow, FlowEvent::MonitorStarted);
    let (notices, action) = update_step(&mut flow, FlowEvent::MarkerTimedOut);
    assert_eq!(stages(&notices), [OperationStage::Failed]);
    match action {
        FlowAction::Finish { boot_confirmed: false, error: Some(error) } => {
            assert_eq!(error.code, ErrorCode::BootMarkerTimeout)
        }
        _ => panic!("expected an unconfirmed finish"),
    }
}

#[test]
fn factory_run_erases_writes_and_reports_its_verdict() {
    let package = package(PackageKind::Factory, "READY");
    let mut flow = FactoryFlow::new(&package, true, "OPERATOR").unwrap();
    assert_eq!(flow.success_marker, "READY");
    let (notices, action) = flow.begin();
    assert_eq!(stages(&notices), [OperationStage::Detecting, OperationStage::Connecting]);
    assert!(matches!(action, FlowAction::Connect));

    let event = FlowEvent::Connected { chip: ChipFamily::Esp32, flash_size_bytes: 0x400000 };
    assert!(flow.can_take(&event));
    let (notices, action) = flow.step(&package, event);
    assert_eq!(stages(&notices), [OperationStage::Erasing]);
    assert!(matches!(action, FlowAction::EraseAll));

    let (notices, action) = flow.step(&package, FlowEvent::Erased);
    assert_eq!(stages(&notices), [OperationStage::Writing]);
    match action {
        FlowAction::Write { segments } => {
            assert_eq!(segments.len(), 2);
            assert_eq!(segments[0].address, 0x1000);
            assert_eq!(segments[0].data, b"bootloader".to_vec());
            assert_eq!(segments[1].address, 0x10000);
        }
        _ => panic!("expected a write"),
    }
    flow.step(&package, FlowEvent::Written);
    let (_, action) = flow.step(&package, FlowEvent::MonitorStarted);
    assert!(matches!(action, FlowAction::AwaitMarker { timeout_ms: 5_000 }));
    let (_, action) = flow.step(
        &package,
        FlowEvent::MonitorDisconnected { detail: "unplugged".into() },
    );
    let error = match action {
        FlowAction::Abort { error } => error,
        _ => panic!("expected an abort"),
    };
    assert_eq!(error.code, ErrorCode::DeviceDisconnected);
    let verdict = flow.verdict(&Err(error));
    assert!(matches!(verdict, Notice::State { stage: OperationStage::Failed, .. }));
}

#[test]
fn factory_run_refuses_segments_beyond_the_flash() {
    let package = package(PackageKind::Factory, "");
    let mut flow = FactoryFlow::new(&package, false, "").unwrap();
    flow.begin();
    let (notices, action) = flow.step(
        &package,
        FlowEvent::Connected { chip: ChipFamily::Esp32, flash_size_bytes: 0x10000 },
    );
    assert!(notices.is_empty());
    match action {
        FlowAction::Abort { error } => {
            assert_eq!(error.code, ErrorCode::PackageInvalid);
            assert_eq!(error.detail.as_deref(), Some("app.bin"));
        }
        _ => panic!("expected an abort"),
    }
    let update = self::package(PackageKind::Update, "");
    assert!(FactoryFlow::new(&update, false, "").is_err());
    let failure = OperationError::new(ErrorCode::FlashWriteFailed, "write failed");
    let mut flow = FactoryFlow::new(&package, false, "").unwrap();
    flow.begin();
    let (_, action) = flow.step(&package, FlowEvent::Failed { error: failure.clone() });
    assert!(matches!(action, FlowAction::Abort { error } if error == failure));
}
