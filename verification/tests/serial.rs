use programmer_core::serial::{
    check_serial_write, natural_port_key, port_candidate, validate_monitor_baud, MarkerWatch,
    PortKind,
};
use programmer_core::ErrorCode;

#[test]
fn accepts_ui_baud_rates_and_rejects_unbounded_values() {
    for baud in [9_600, 57_600, 115_200, 230_400, 460_800, 921_600] {
        validate_monitor_baud(baud).unwrap();
    }
    let error = validate_monitor_baud(0).unwrap_err();
    assert_eq!(error.code, ErrorCode::PackageInvalid);
}

#[test]
fn refused_baud_rate_is_named() {
    let error = validate_monitor_baud(74_880).unwrap_err();
    assert_eq!(error.detail.as_deref(), Some("74880"));
}

#[test]
fn ports_are_keyed_by_prefix_and_number() {
    assert_eq!(natural_port_key("COM10"), ("COM".to_string(), 10));
    assert_eq!(natural_port_key("COM2"), ("COM".to_string(), 2));
    assert_eq!(natural_port_key("/dev/ttyUSB0"), ("/dev/ttyUSB".to_string(), 0));
    assert_eq!(natural_port_key("tty"), ("tty".to_string(), u32::MAX));
    assert_eq!(natural_port_key("COM1a"), ("COM".to_string(), u32::MAX));
    assert_eq!(natural_port_key("COM99999999999"), ("COM".to_string(), u32::MAX));
}

#[test]
fn usb_ports_are_described_and_bridges_recognised() {
    let candidate = port_candidate(
        "COM3".into(),
        PortKind::Usb {
            vid: 0x10C4,
            pid: 0xEA60,
            serial_number: Some("0001".into()),
            manufacturer: Some("Silicon Labs".into()),
            product: None,
        },
    );
    assert_eq!(candidate.description, "Silicon Labs");
    assert!(candidate.known_bridge);
    assert_eq!(candidate.vid, Some(0x10C4));
    let other = port_candidate("COM4".into(), PortKind::Pci);
    assert_eq!(other.description, "PCI Serial");
    assert!(!other.known_bridge);
}

#[test]
fn serial_commands_are_bounded() {
    assert_eq!(check_serial_write(4097, true).unwrap_err().code, ErrorCode::PackageInvalid);
    assert_eq!(check_serial_write(10, false).unwrap_err().code, ErrorCode::DeviceDisconnected);
    check_serial_write(4096, true).unwrap();
}

#[test]
fn marker_is_reported_once() {
    let mut watch = MarkerWatch::new("READY").unwrap();
    assert!(!watch.observe(b"boot RE"));
    assert!(watch.observe(b"ADY\n"));
    assert!(!watch.observe(b"READY"));
    let mut silent = MarkerWatch::new("").unwrap();
    assert!(!silent.observe(b"READY"));
    assert!(MarkerWatch::new(&"Я".repeat(129)).is_err());
}
