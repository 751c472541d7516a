use programmer_core::{ErrorCode, OperationError};

#[test]
fn every_error_code_has_uppercase_public_name() {
    let codes = [
        ErrorCode::PackageInvalid,
        ErrorCode::PackageUnsupported,
        ErrorCode::PackagePathInvalid,
        ErrorCode::PackageFileMissing,
        ErrorCode::HashMismatch,
        ErrorCode::PortBusy,
        ErrorCode::DeviceNotFound,
        ErrorCode::ChipMismatch,
        ErrorCode::FlashConnectFailed,
        ErrorCode::FlashEraseFailed,
        ErrorCode::FlashWriteFailed,
        ErrorCode::FlashVerifyFailed,
        ErrorCode::PartitionInvalid,
        ErrorCode::OtaStateInvalid,
        ErrorCode::BootMarkerTimeout,
        ErrorCode::DeviceDisconnected,
        ErrorCode::DataDirectoryUnwritable,
        ErrorCode::OperationInProgress,
        ErrorCode::InvalidState,
        ErrorCode::InPlaceConfirmationRequired,
        ErrorCode::IoError,
        ErrorCode::InternalError,
    ];
    for code in codes {
        assert!(code
            .as_str()
            .bytes()
            .all(|byte| byte.is_ascii_uppercase() || byte == b'_'));
    }
}

#[test]
fn error_text_is_code_then_message() {
    let error = OperationError::new(ErrorCode::ChipMismatch, "Другой чип");
    assert_eq!(error.display_text(), "CHIP_MISMATCH: Другой чип");
    assert!(!error.retryable);
    assert!(error.detail.is_none());
}

#[test]
fn detail_and_retry_flag_are_kept_apart() {
    let error = OperationError::new(ErrorCode::PortBusy, "busy")
        .with_detail("COM5".to_string())
        .retryable(true);
    assert_eq!(error.code, ErrorCode::PortBusy);
    assert_eq!(error.message, "busy");
    assert_eq!(error.detail.as_deref(), Some("COM5"));
    assert!(error.retryable);
    assert_eq!(ErrorCode::InPlaceConfirmationRequired.as_str(), "IN_PLACE_CONFIRMATION_REQUIRED");
}
