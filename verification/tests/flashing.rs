use programmer_core::device::ProgressTracker;
use programmer_core::flashing::{
    check_device_chip, discover_partition_table_with, plan_update_segments,
    select_success_marker,
};
use programmer_core::{
    ChipFamily, ErrorCode, FirmwareSource, OperationError, OperationStage, OtaSwitch,
    PartitionEntry, UpdateLayout,
};

fn partition() -> Vec<u8> {
    let mut bytes = vec![0xFF; 0x1000];
    bytes[0..2].copy_from_slice(&0x50AA_u16.to_le_bytes());
    bytes[2] = 0;
    bytes[3] = 0;
    bytes[4..8].copy_from_slice(&0x10000_u32.to_le_bytes());
    bytes[8..12].copy_from_slice(&0x100000_u32.to_le_bytes());
    bytes[12..19].copy_from_slice(b"factory");
    bytes[28..32].copy_from_slice(&0_u32.to_le_bytes());
    bytes
}

#[test]
fn direct_factory_uses_operator_marker_and_legacy_keeps_manifest_policy() {
    assert_eq!(
        select_success_marker(FirmwareSource::Platformio, "", "NOVA_READY"),
        "NOVA_READY"
    );
    assert_eq!(
        select_success_marker(FirmwareSource::LegacyManifest, "LEGACY_READY", "IGNORED"),
        "LEGACY_READY"
    );
}

#[test]
fn discovers_aligned_custom_partition_table() {
    let mut reads = Vec::new();
    let (address, entries) = discover_partition_table_with(None, |address| {
        reads.push(address);
        Ok(if address == 0xA000 {
            partition()
        } else {
            vec![0xFF; 0x1000]
        })
    })
    .unwrap();
    assert_eq!(address, 0xA000);
    assert_eq!(entries[0].label, "factory");
    assert_eq!(reads, vec![0x8000, 0x9000, 0xA000]);
}

#[test]
fn declared_offset_is_not_replaced_by_heuristic() {
    let error =
        discover_partition_table_with(Some(0xB000), |_| Ok(vec![0xFF; 0x1000])).unwrap_err();
    assert_eq!(error.code, ErrorCode::PartitionInvalid);
}

#[test]
fn exhausted_search_reports_the_last_reason() {
    let mut reads = Vec::new();
    let error = discover_partition_table_with(None, |address| {
        reads.push(address);
        Ok(vec![0xFF; 0x1000])
    })
    .unwrap_err();
    assert_eq!(reads.len(), 24);
    assert_eq!(reads[23], 0x1F000);
    assert_eq!(error.message, "Не удалось обнаружить partition table на плате");
    assert_eq!(
        error.detail.as_deref(),
        Some("PARTITION_INVALID: Таблица разделов пуста")
    );
}

#[test]
fn read_failure_is_not_hidden() {
    let error = discover_partition_table_with(None, |_| {
        Err(OperationError::new(
            ErrorCode::FlashVerifyFailed,
            "read failed",
        ))
    })
    .unwrap_err();
    assert_eq!(error.code, ErrorCode::FlashVerifyFailed);
}

#[test]
fn maps_compressed_chunk_progress_to_uncompressed_package_bytes() {
    let mut bridge = ProgressTracker::new(vec![100, 300]);
    let mut events = Vec::new();
    events.push(bridge.init(0x1000, 4));
    events.push(bridge.update(2));
    events.push(bridge.finish());
    events.push(bridge.init(0x10000, 3));
    events.push(bridge.update(2));
    events.push(bridge.finish());

    let percentage = |current: u64, total: u64| current as f32 * 100.0 / total as f32;
    assert_eq!(events[1].current, 50);
    assert_eq!(events[1].total, 400);
    assert_eq!(percentage(events[1].current, events[1].total), 12.5);
    assert_eq!(events[4].current, 300);
    assert_eq!(events.last().unwrap().current, 400);
    assert_eq!(percentage(events.last().unwrap().current, 400), 100.0);
    assert_eq!(events[0].message, "Запись 100 байт по адресу 0x00001000");
    assert_eq!(events[1].message, "Сегмент 1/2");
    assert_eq!(events[2].message, "Сегмент 1 записан");
    assert_eq!(events[3].segment_index, 2);
    assert_eq!(bridge.verifying().stage, OperationStage::Verifying);
}

#[test]
fn device_chip_must_be_a_target() {
    let error =
        check_device_chip(&[ChipFamily::Esp32s3], ChipFamily::Esp32, "Другой чип").unwrap_err();
    assert_eq!(error.code, ErrorCode::ChipMismatch);
    assert_eq!(error.detail.as_deref(), Some("обнаружен esp32"));
    check_device_chip(&[ChipFamily::Esp32, ChipFamily::Esp32s3], ChipFamily::Esp32s3, "x").unwrap();
}

fn app(label: &str, offset: u32) -> PartitionEntry {
    PartitionEntry {
        partition_type: 0,
        subtype: 0x10,
        offset,
        size: 0x100000,
        label: label.into(),
        flags: 0,
    }
}

#[test]
fn in_place_update_needs_confirmation() {
    let layout = UpdateLayout::InPlace { target: app("factory", 0x10000) };
    let error = plan_update_segments(layout.clone(), vec![1, 2, 3], false).unwrap_err();
    assert_eq!(error.code, ErrorCode::InPlaceConfirmationRequired);
    assert_eq!(
        error.detail.as_deref(),
        Some("Обновление будет выполнено in-place в раздел factory")
    );
    let writes = plan_update_segments(layout, vec![1, 2, 3], true).unwrap();
    assert_eq!(writes.len(), 1);
    assert_eq!(writes[0].address, 0x10000);
    assert_eq!(writes[0].data, vec![1, 2, 3]);
}

#[test]
fn ota_update_writes_the_application_then_the_switch() {
    let mut ota_data = app("otadata", 0xD000);
    ota_data.partition_type = 1;
    ota_data.subtype = 0;
    ota_data.size = 0x2000;
    let switch = OtaSwitch {
        target_index: 0,
        target_sequence: 3,
        metadata_sector: 1,
        rollback_enabled: false,
    };
    let layout = UpdateLayout::Ota { target: app("ota_0", 0x110000), ota_data, switch };
    let writes = plan_update_segments(layout, vec![7; 16], false).unwrap();
    assert_eq!(writes.len(), 2);
    assert_eq!(writes[0].address, 0x110000);
    assert_eq!(writes[1].address, 0xE000);
    assert_eq!(writes[1].data.len(), 0x1000);
    assert_eq!(&writes[1].data[0..4], &3_u32.to_le_bytes());
}
