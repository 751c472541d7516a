use programmer_core::logging::{log_line, safe_id};
use programmer_core::models::{AppMode, FactorySessionSummary, PortableSettings};
use programmer_core::reports::{check_record, row_result, session_matches};
use programmer_core::storage::{check_subdir, validate_settings, PortableDataStore};
use programmer_core::{ErrorCode, FirmwareSource, OperationError, PackageKind, PackageSummary};

fn package() -> PackageSummary {
    PackageSummary {
        package_id: "nova".into(),
        display_name: "NOVA".into(),
        firmware_version: "1.0.0".into(),
        kind: PackageKind::Factory,
        target_chips: vec!["esp32".into()],
        segment_count: 3,
        total_bytes: 42,
        monitor_baud: 115_200,
        success_timeout_ms: 15_000,
        success_marker_configured: false,
        source: FirmwareSource::Platformio,
        requires_device_layout: false,
        segments: Vec::new(),
    }
}

#[test]
fn rejects_oversized_factory_marker_before_writing_settings() {
    let settings = PortableSettings {
        factory_success_marker: "Я".repeat(129),
        ..PortableSettings::default()
    };
    let error = validate_settings(&settings).unwrap_err();
    assert_eq!(error.code, ErrorCode::PackageInvalid);
}

#[test]
fn settings_rules() {
    let defaults = PortableSettings::default();
    validate_settings(&defaults).unwrap();
    assert_eq!(defaults.monitor_baud, 115_200);
    let second = PortableSettings {
        schema_version: 1,
        mode: AppMode::Factory,
        last_update_package: Some("update".into()),
        last_factory_package: Some("factory".into()),
        factory_success_marker: "Я".repeat(128),
        monitor_baud: 230_400,
    };
    validate_settings(&second).unwrap();
    let unsupported = PortableSettings { schema_version: 2, ..PortableSettings::default() };
    assert_eq!(validate_settings(&unsupported).unwrap_err().code, ErrorCode::PackageUnsupported);
    let odd_baud = PortableSettings { monitor_baud: 1, ..PortableSettings::default() };
    assert_eq!(validate_settings(&odd_baud).unwrap_err().code, ErrorCode::PackageInvalid);
}

#[test]
fn data_folder_must_be_chosen() {
    let mut store = PortableDataStore::with_root(None);
    assert!(!store.status().writable);
    assert_eq!(store.root().unwrap_err().code, ErrorCode::DataDirectoryUnwritable);
    let status = store.set_root("/data".into());
    assert!(status.writable);
    assert_eq!(status.path.as_deref(), Some("/data"));
    assert_eq!(store.root().unwrap(), "/data");
    check_subdir("logs").unwrap();
    check_subdir("reports").unwrap();
    assert_eq!(check_subdir("..").unwrap_err().code, ErrorCode::InternalError);
}

#[test]
fn writes_sanitized_bounded_operation_log() {
    let line = log_line("2024-01-01T00:00:00+00:00", "INFO", "Validating", "первая\r\nвторая");
    assert!(line.contains("INFO\tValidating\tпервая  вторая"));
    assert_eq!(line.lines().count(), 1);
    assert_eq!(safe_id("op/../1 ✓-x"), "op1-x");
    assert_eq!(safe_id(&"a".repeat(80)).len(), 64);
}

#[test]
fn writes_one_row_and_updates_counters() {
    let mut summary = FactorySessionSummary::opened(
        "session".into(),
        "2024-01-01T00:00:00+00:00".into(),
        &package(),
        "factory.csv".into(),
    );
    assert!(session_matches(&summary, &package()));
    check_record(Some(&summary), &package()).unwrap();
    summary.count(true);
    summary.count(false);
    assert_eq!(summary.total, 2);
    assert_eq!(summary.passed, 1);
    assert_eq!(summary.failed, 1);
    let mut other = package();
    other.firmware_version = "2.0.0".into();
    assert_eq!(check_record(Some(&summary), &other).unwrap_err().code, ErrorCode::InvalidState);
    assert_eq!(check_record(None, &package()).unwrap_err().code, ErrorCode::InvalidState);
    assert_eq!(row_result(None), ("OK", ""));
    let error = OperationError::new(ErrorCode::BootMarkerTimeout, "timeout");
    assert_eq!(row_result(Some(&error)), ("ERROR", "BOOT_MARKER_TIMEOUT"));
}
