use vstd::prelude::*;
use crate::error::{ErrorCode, OperationError};
use crate::operation::OperationStage;
use crate::package::PackageSummary;

verus! {

/// The workflow the application opens in.
#[derive(Debug, Clone, Copy, PartialEq, Eq, Structural)]
pub enum AppMode {
    Update,
    Factory,
}

/// The monitor baud rate used when settings do not name one.
pub fn default_monitor_baud() -> (b: u32)
    ensures
        b == 115_200,
{
    115_200
}

/// Settings kept in the portable data folder.
#[derive(Debug, Clone, PartialEq, Eq)]
pub struct PortableSettings {
    pub schema_version: u32,
    pub mode: AppMode,
    pub last_update_package: Option<String>,
    pub last_factory_package: Option<String>,
    pub factory_success_marker: String,
    pub monitor_baud: u32,
}

impl Default for PortableSettings {
    /// Schema 1, update mode, no remembered packages, no marker, 115200 baud.
    fn default() -> (s: PortableSettings)
        ensures
            s.schema_version == 1,
            s.mode == AppMode::Update,
            s.last_update_package is None,
            s.last_factory_package is None,
            s.factory_success_marker@ == Seq::<char>::empty(),
            s.monitor_baud == 115_200,
    {
        PortableSettings {
            schema_version: 1,
            mode: AppMode::Update,
            last_update_package: None,
            last_factory_package: None,
            factory_success_marker: String::new(),
            monitor_baud: default_monitor_baud(),
        }
    }
}

/// Where the portable data lives, and whether it can be written.
#[derive(Debug, Clone, PartialEq, Eq)]
pub struct DataDirectoryStatus {
    pub path: Option<String>,
    pub writable: bool,
}

/// A serial port offered to the user.
#[derive(Debug, Clone, PartialEq, Eq)]
pub struct PortCandidate {
    pub port: String,
    pub description: String,
    pub vid: Option<u16>,
    pub pid: Option<u16>,
    pub serial_number: Option<String>,
    pub known_bridge: bool,
}

/// The board found on a port.
#[derive(Debug, Clone, PartialEq, Eq)]
pub struct DetectedDevice {
    pub port: String,
    pub description: String,
    pub chip: String,
    pub mac: String,
    pub flash_size_bytes: u64,
}

/// One line of an operation's log.
#[derive(Debug, Clone, PartialEq, Eq)]
pub struct OperationLog {
    pub timestamp: String,
    pub level: String,
    pub stage: OperationStage,
    pub message: String,
    pub error_code: Option<ErrorCode>,
}

/// Bytes received from the UART, as text and as Base64.
#[derive(Debug, Clone, PartialEq, Eq)]
pub struct SerialData {
    pub text: String,
    pub base64: String,
}

/// What the standalone monitor reports.
#[derive(Debug, Clone, PartialEq, Eq)]
pub enum MonitorEvent {
    Data { data: SerialData },
    Disconnected { port: String, message: String },
}

/// The outcome of a flashing operation.
#[derive(Debug, Clone, PartialEq, Eq)]
pub struct OperationResult {
    pub operation_id: String,
    pub success: bool,
    pub boot_confirmed: bool,
    pub duration_ms: u64,
    pub device: DetectedDevice,
    pub package: PackageSummary,
    pub error: Option<OperationError>,
    pub report_path: Option<String>,
}

/// The counters of a production session.
#[derive(Debug, Clone, PartialEq, Eq)]
pub struct FactorySessionSummary {
    pub session_id: String,
    pub started_at: String,
    pub package_id: String,
    pub firmware_version: String,
    pub total: u64,
    pub passed: u64,
    pub failed: u64,
    pub report_path: String,
}

/// A request to update one board.
#[derive(Debug, Clone, PartialEq, Eq)]
pub struct UpdateRequest {
    pub package_path: String,
    pub port: String,
    pub confirm_in_place: bool,
}

/// A request to program one board in production.
#[derive(Debug, Clone, PartialEq, Eq)]
pub struct FactoryFlashRequest {
    pub package_path: String,
    pub port: String,
    pub full_erase: bool,
    pub success_marker: String,
}

} // verus!
