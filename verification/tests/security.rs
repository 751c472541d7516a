use programmer_core::{validate_relative_path, ErrorCode, FLASH_BAUD};

#[test]
fn flash_baud_is_fixed_without_fallback() {
    assert_eq!(FLASH_BAUD, 921_600);
}

#[test]
fn package_paths_cannot_escape_the_selected_directory() {
    for value in [
        "../secret.bin",
        "nested/../../secret.bin",
        r"C:\secret.bin",
        r"nested\secret.bin",
        "/absolute.bin",
    ] {
        let error = validate_relative_path(value).unwrap_err();
        assert_eq!(error.code, ErrorCode::PackagePathInvalid, "{value}");
    }
}

#[test]
fn plain_relative_paths_are_accepted() {
    for value in ["app.bin", "nested/app.bin", "a..b/app.bin", "dir/..bin"] {
        validate_relative_path(value).unwrap();
    }
    for value in ["", ".", "./app.bin", "nested/.."] {
        assert!(validate_relative_path(value).is_err(), "{value}");
    }
}
