use vstd::prelude::*;

verus! {

/// Stable, machine-readable classification of every failure.
#[derive(Debug, Clone, Copy, PartialEq, Eq, Hash, Structural)]
pub enum ErrorCode {
    PackageInvalid,
    PackageUnsupported,
    PackagePathInvalid,
    PackageFileMissing,
    HashMismatch,
    PortBusy,
    DeviceNotFound,
    ChipMismatch,
    FlashConnectFailed,
    FlashEraseFailed,
    FlashWriteFailed,
    FlashVerifyFailed,
    PartitionInvalid,
    OtaStateInvalid,
    BootMarkerTimeout,
    DeviceDisconnected,
    DataDirectoryUnwritable,
    OperationInProgress,
    InvalidState,
    InPlaceConfirmationRequired,
    IoError,
    InternalError,
}

/// The public name of an error code: the variant name in upper snake case.
pub open spec fn error_code_name(code: ErrorCode) -> Seq<char> {
    match code {
        ErrorCode::PackageInvalid => "PACKAGE_INVALID"@,
        ErrorCode::PackageUnsupported => "PACKAGE_UNSUPPORTED"@,
        ErrorCode::PackagePathInvalid => "PACKAGE_PATH_INVALID"@,
        ErrorCode::PackageFileMissing => "PACKAGE_FILE_MISSING"@,
        ErrorCode::HashMismatch => "HASH_MISMATCH"@,
        ErrorCode::PortBusy => "PORT_BUSY"@,
        ErrorCode::DeviceNotFound => "DEVICE_NOT_FOUND"@,
        ErrorCode::ChipMismatch => "CHIP_MISMATCH"@,
        ErrorCode::FlashConnectFailed => "FLASH_CONNECT_FAILED"@,
        ErrorCode::FlashEraseFailed => "FLASH_ERASE_FAILED"@,
        ErrorCode::FlashWriteFailed => "FLASH_WRITE_FAILED"@,
        ErrorCode::FlashVerifyFailed => "FLASH_VERIFY_FAILED"@,
        ErrorCode::PartitionInvalid => "PARTITION_INVALID"@,
        ErrorCode::OtaStateInvalid => "OTA_STATE_INVALID"@,
        ErrorCode::BootMarkerTimeout => "BOOT_MARKER_TIMEOUT"@,
        ErrorCode::DeviceDisconnected => "DEVICE_DISCONNECTED"@,
        ErrorCode::DataDirectoryUnwritable => "DATA_DIRECTORY_UNWRITABLE"@,
        ErrorCode::OperationInProgress => "OPERATION_IN_PROGRESS"@,
        ErrorCode::InvalidState => "INVALID_STATE"@,
        ErrorCode::InPlaceConfirmationRequired => "IN_PLACE_CONFIRMATION_REQUIRED"@,
        ErrorCode::IoError => "IO_ERROR"@,
        ErrorCode::InternalError => "INTERNAL_ERROR"@,
    }
}

/// A character of a public error name: an ASCII capital letter or `_`.
pub open spec fn is_name_char(c: char) -> bool {
    ('A' <= c && c <= 'Z') || c == '_'
}

/// The public names of error codes are not empty, are made of capital
/// letters and underscores, and name one code each.
pub proof fn lemma_error_code_names(a: ErrorCode, b: ErrorCode)
    ensures
        error_code_name(a).len() > 0,
        forall|i: int| 0 <= i < error_code_name(a).len() ==> is_name_char(#[trigger] error_code_name(a)[i]),
        a != b ==> error_code_name(a) != error_code_name(b),
{
    reveal_strlit("PACKAGE_INVALID");
    reveal_strlit("PACKAGE_UNSUPPORTED");
    reveal_strlit("PACKAGE_PATH_INVALID");
    reveal_strlit("PACKAGE_FILE_MISSING");
    reveal_strlit("HASH_MISMATCH");
    reveal_strlit("PORT_BUSY");
    reveal_strlit("DEVICE_NOT_FOUND");
    reveal_strlit("CHIP_MISMATCH");
    reveal_strlit("FLASH_CONNECT_FAILED");
    reveal_strlit("FLASH_ERASE_FAILED");
    reveal_strlit("FLASH_WRITE_FAILED");
    reveal_strlit("FLASH_VERIFY_FAILED");
    reveal_strlit("PARTITION_INVALID");
    reveal_strlit("OTA_STATE_INVALID");
    reveal_strlit("BOOT_MARKER_TIMEOUT");
    reveal_strlit("DEVICE_DISCONNECTED");
    reveal_strlit("DATA_DIRECTORY_UNWRITABLE");
    reveal_strlit("OPERATION_IN_PROGRESS");
    reveal_strlit("INVALID_STATE");
    reveal_strlit("IN_PLACE_CONFIRMATION_REQUIRED");
    reveal_strlit("IO_ERROR");
    reveal_strlit("INTERNAL_ERROR");
    if error_code_name(a) == error_code_name(b) {
        // The length, the first and the ninth character tell the names apart.
        assert(error_code_name(a).len() == error_code_name(b).len());
        assert(error_code_name(a)[0] == error_code_name(b)[0]);
        assert(error_code_name(a)[8] == error_code_name(b)[8]);
    }
    assert forall|i: int| 0 <= i < error_code_name(a).len() implies is_name_char(
        #[trigger] error_code_name(a)[i],
    ) by {
        assert(i == 0 || i == 1 || i == 2 || i == 3 || i == 4 || i == 5 || i == 6 || i == 7 || i == 8 || i == 9 || i == 10 || i == 11 || i == 12 || i == 13 || i == 14 || i == 15 || i == 16 || i == 17 || i == 18 || i == 19 || i == 20 || i == 21 || i == 22 || i == 23 || i == 24 || i == 25 || i == 26 || i == 27 || i == 28 || i == 29);
    }
}

impl ErrorCode {
    pub fn as_str(self) -> (name: &'static str)
        ensures
            name@ == error_code_name(self),
    {
        match self {
            ErrorCode::PackageInvalid => "PACKAGE_INVALID",
            ErrorCode::PackageUnsupported => "PACKAGE_UNSUPPORTED",
            ErrorCode::PackagePathInvalid => "PACKAGE_PATH_INVALID",
            ErrorCode::PackageFileMissing => "PACKAGE_FILE_MISSING",
            ErrorCode::HashMismatch => "HASH_MISMATCH",
            ErrorCode::PortBusy => "PORT_BUSY",
            ErrorCode::DeviceNotFound => "DEVICE_NOT_FOUND",
            ErrorCode::ChipMismatch => "CHIP_MISMATCH",
            ErrorCode::FlashConnectFailed => "FLASH_CONNECT_FAILED",
            ErrorCode::FlashEraseFailed => "FLASH_ERASE_FAILED",
            ErrorCode::FlashWriteFailed => "FLASH_WRITE_FAILED",
            ErrorCode::FlashVerifyFailed => "FLASH_VERIFY_FAILED",
            ErrorCode::PartitionInvalid => "PARTITION_INVALID",
            ErrorCode::OtaStateInvalid => "OTA_STATE_INVALID",
            ErrorCode::BootMarkerTimeout => "BOOT_MARKER_TIMEOUT",
            ErrorCode::DeviceDisconnected => "DEVICE_DISCONNECTED",
            ErrorCode::DataDirectoryUnwritable => "DATA_DIRECTORY_UNWRITABLE",
            ErrorCode::OperationInProgress => "OPERATION_IN_PROGRESS",
            ErrorCode::InvalidState => "INVALID_STATE",
            ErrorCode::InPlaceConfirmationRequired => "IN_PLACE_CONFIRMATION_REQUIRED",
            ErrorCode::IoError => "IO_ERROR",
            ErrorCode::InternalError => "INTERNAL_ERROR",
        }
    }
}

/// A failure reported to the user: a code, a human-readable message, an
/// optional detail and whether retrying can help.
#[derive(Debug, Clone, PartialEq, Eq)]
pub struct OperationError {
    pub code: ErrorCode,
    pub message: String,
    pub detail: Option<String>,
    pub retryable: bool,
}

/// The result of an operation that can fail with an [`OperationError`].
pub type Result<T> = core::result::Result<T, OperationError>;

/// A failure as contracts speak of it: its code and its message.
pub type Failure = (ErrorCode, Seq<char>);

/// The error carries the code and message of the failure and is not retryable.
pub open spec fn fails_as(e: OperationError, f: Failure) -> bool {
    &&& e.code == f.0
    &&& e.message@ == f.1
    &&& !e.retryable
}

/// An executable result agrees with a specified outcome: the same value on
/// success, the same failure otherwise.
pub open spec fn outcome_is<T>(r: core::result::Result<T, OperationError>, s: core::result::Result<T, Failure>) -> bool {
    match (r, s) {
        (Ok(a), Ok(b)) => a == b,
        (Err(e), Err(f)) => fails_as(e, f),
        _ => false,
    }
}

/// Like [`outcome_is`], comparing successful values by their views.
pub open spec fn outcome_view_is<T: View>(r: core::result::Result<T, OperationError>, s: core::result::Result<T::V, Failure>) -> bool {
    match (r, s) {
        (Ok(a), Ok(b)) => a@ == b,
        (Err(e), Err(f)) => fails_as(e, f),
        _ => false,
    }
}

/// Two errors carry the same code, message, detail and retry flag.
pub open spec fn same_error(a: OperationError, b: OperationError) -> bool {
    &&& a.code == b.code
    &&& a.message@ == b.message@
    &&& a.retryable == b.retryable
    &&& match (a.detail, b.detail) {
        (Some(x), Some(y)) => x@ == y@,
        (None, None) => true,
        _ => false,
    }
}

impl OperationError {
    /// A copy of the error.
    pub fn duplicate(&self) -> (e: OperationError)
        ensures
            same_error(e, *self),
    {
        OperationError {
            code: self.code,
            message: self.message.clone(),
            detail: match &self.detail {
                Some(d) => Some(d.clone()),
                None => None,
            },
            retryable: self.retryable,
        }
    }

    /// An error with the given code and message, no detail, not retryable.
    pub fn new(code: ErrorCode, message: &str) -> (e: OperationError)
        ensures
            e.code == code,
            e.message@ == message@,
            e.detail is None,
            !e.retryable,
    {
        OperationError { code, message: String::from_str(message), detail: None, retryable: false }
    }

    /// The same error with its detail replaced.
    pub fn with_detail(self, detail: String) -> (e: OperationError)
        ensures
            e.code == self.code,
            e.message == self.message,
            e.detail == Some(detail),
            e.retryable == self.retryable,
    {
        let mut e = self;
        e.detail = Some(detail);
        e
    }

    /// The same error with its retry flag replaced.
    pub fn retryable(self, value: bool) -> (e: OperationError)
        ensures
            e.code == self.code,
            e.message == self.message,
            e.detail == self.detail,
            e.retryable == value,
    {
        let mut e = self;
        e.retryable = value;
        e
    }

    /// The text the error displays: its code name, a colon, a space and the message.
    pub fn display_text(&self) -> (s: String)
        ensures
            s@ == error_code_name(self.code) + ": "@ + self.message@,
    {
        let mut s = String::from_str(self.code.as_str());
        s.append(": ");
        s.append(self.message.as_str());
        s
    }
}

} // verus!
