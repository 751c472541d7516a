//! Verified core of an ESP32 flashing tool: firmware image and package
//! validation, partition tables, OTA slot selection, UART boot markers and
//! the operation state machine.

use vstd::prelude::*;

pub mod bytes;
pub mod device;
pub mod digest;
pub mod error;
pub mod flashing;
pub mod image;
pub mod logging;
pub mod loading;
pub mod manifest;
pub mod marker;
pub mod models;
pub mod operation;
pub mod ordering;
pub mod ota;
pub mod package;
pub mod packager;
pub mod ranges;
pub mod reports;
pub mod serial;
pub mod storage;
pub mod text;
pub mod workflow;

pub use error::{ErrorCode, OperationError, Result};
pub use image::validate_esp_image;
pub use manifest::{
    ChipFamily, FirmwareManifest, FirmwareSegment, HexAddress, MonitorPolicy, OtaPolicy,
    PackageKind, SegmentRole,
};
pub use marker::MarkerDetector;
pub use operation::{OperationStage, OperationStateMachine};
pub use ota::{
    build_otadata_sector, parse_partition_table, select_factory_application, select_update_layout,
    OtaSwitch, PartitionEntry, UpdateLayout,
};
pub use package::{
    validate_package, validate_relative_path, FirmwareSource, PackageReader, PackageSummary,
    SegmentSummary, ValidatedPackage, MAX_PACKAGE_BYTES, MAX_SEGMENT_BYTES,
};

verus! {

/// The name of a package's manifest file.
pub const MANIFEST_FILE_NAME: &'static str = "firmware.json";

/// The one baud rate used for flashing; there is no slower fallback.
pub const FLASH_BAUD: u32 = 921_600;

} // verus!
