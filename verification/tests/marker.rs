use programmer_core::MarkerDetector;

#[test]
fn matches_across_chunk_boundary() {
    let mut detector = MarkerDetector::new("APP_READY".as_bytes()).unwrap();
    assert!(!detector.feed(b"boot APP_"));
    assert!(detector.feed(b"READY\r\n"));
    assert!(detector.matched());
}

#[test]
fn ignores_binary_noise() {
    let mut detector = MarkerDetector::new("OK".as_bytes()).unwrap();
    assert!(!detector.feed(&[0xFF, 0x00, b'O']));
    assert!(detector.feed(b"K"));
}

#[test]
fn rejects_empty_marker() {
    assert!(MarkerDetector::new(&[]).is_err());
}

#[test]
fn rejects_marker_longer_than_256_bytes() {
    let long = vec![b'x'; 257];
    match MarkerDetector::new(&long) {
        Err(error) => assert_eq!(error.code, programmer_core::ErrorCode::PackageInvalid),
        Ok(_) => panic!("a 257-byte marker was accepted"),
    }
    assert!(MarkerDetector::new(&long[..256]).is_ok());
}

#[test]
fn a_match_stays_matched_over_later_chunks() {
    let mut detector = MarkerDetector::new(b"READY").unwrap();
    assert!(!detector.feed(b"RE"));
    assert!(!detector.feed(b"A"));
    assert!(detector.feed(b"DY"));
    assert!(detector.feed(b"noise"));
    assert!(detector.matched());
}
