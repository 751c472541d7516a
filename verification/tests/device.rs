use programmer_core::device::{detected_device, to_fixed_hex};
use programmer_core::ErrorCode;

#[test]
fn device_is_described_from_the_bootloader_report() {
    let device = detected_device("COM5", "ESP32-S3", "8MB", None, 8 * 1024 * 1024);
    assert_eq!(device.unwrap_err().code, ErrorCode::PackageUnsupported);
    let device = detected_device("COM5", "esp32s3", "8MB", None, 8 * 1024 * 1024).unwrap();
    assert_eq!(device.chip, "esp32s3");
    assert_eq!(device.description, "esp32s3 • 8MB");
    assert_eq!(device.mac, "недоступен");
    assert_eq!(device.flash_size_bytes, 8 * 1024 * 1024);
    let device =
        detected_device("COM5", "ESP32", "4MB", Some("AA:BB".into()), 4 * 1024 * 1024).unwrap();
    assert_eq!(device.chip, "esp32");
    assert_eq!(device.mac, "AA:BB");
}

#[test]
fn addresses_are_written_with_eight_digits() {
    assert_eq!(to_fixed_hex(0x1000, 8), "00001000");
    assert_eq!(to_fixed_hex(0xDEADBEEF, 8), "DEADBEEF");
}
