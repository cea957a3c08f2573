//! Attribute-text normalization, device selection and write-error
//! classification.

use gpumon::pci::{
    classify_write_error, is_active_status, normalize_attribute, vendor_matches, DeviceEntry,
    PciDevice, PciError,
};
use gpumon::text::{str_eq, trim_bytes, trimmed};

#[test]
fn trimmed_strips_ascii_whitespace() {
    assert_eq!(trimmed("  active\n"), "active");
    assert_eq!(trimmed("auto"), "auto");
    assert_eq!(trimmed("\t\r\n "), "");
    assert_eq!(trimmed(""), "");
    assert_eq!(trimmed(" a b \n"), "a b");
}

#[test]
fn trim_bytes_strips_ascii_whitespace() {
    assert_eq!(trim_bytes(&vec![32, 97, 98, 10]), vec![97, 98]);
    assert_eq!(trim_bytes(&vec![10, 9, 13, 32]), Vec::<u8>::new());
    assert_eq!(trim_bytes(&Vec::new()), Vec::<u8>::new());
}

#[test]
fn str_eq_compares_content() {
    assert!(str_eq(&String::from("on"), "on"));
    assert!(!str_eq(&String::from("on "), "on"));
}

#[test]
fn normalize_attribute_trims_and_defaults() {
    assert_eq!(normalize_attribute(&Some(String::from("suspended\n"))), "suspended");
    assert_eq!(normalize_attribute(&Some(String::from("  on "))), "on");
    assert_eq!(normalize_attribute(&None), "unknown");
}

#[test]
fn active_status_gates_telemetry() {
    assert!(is_active_status(&String::from("active")));
    assert!(!is_active_status(&String::from("suspended")));
    assert!(!is_active_status(&String::from("unknown")));
    assert!(!is_active_status(&String::from("active\n")));
}

#[test]
fn vendor_matching_trims_content() {
    assert!(vendor_matches(&Some(String::from("0x10de\n"))));
    assert!(vendor_matches(&Some(String::from(" 0x10de "))));
    assert!(!vendor_matches(&Some(String::from("0x8086\n"))));
    assert!(!vendor_matches(&None));
}

#[test]
fn select_device_takes_first_match() {
    let entries = vec![
        DeviceEntry { path: String::from("/sys/d0"), vendor: Some(String::from("0x8086\n")) },
        DeviceEntry { path: String::from("/sys/d1"), vendor: Some(String::from("0x10de\n")) },
        DeviceEntry { path: String::from("/sys/d2"), vendor: Some(String::from("0x10de\n")) },
    ];
    let dev = PciDevice::select_device(entries).unwrap();
    assert_eq!(dev.address_path, "/sys/d1");
}

#[test]
fn select_device_on_empty_enumeration() {
    let r = PciDevice::select_device(Vec::new());
    assert!(matches!(r, Err(PciError::NotFound)));
}

#[test]
fn select_device_fails_with_not_found() {
    let entries = vec![
        DeviceEntry { path: String::from("/sys/d0"), vendor: Some(String::from("0x8086\n")) },
        DeviceEntry { path: String::from("/sys/d1"), vendor: None },
    ];
    let r = PciDevice::select_device(entries);
    assert!(matches!(r, Err(PciError::NotFound)));
}

#[test]
fn write_errors_are_classified() {
    let e = classify_write_error(true, String::from("/sys/d1/power/control"), String::from("x"));
    match e {
        PciError::PermissionDenied(p) => assert_eq!(p, "/sys/d1/power/control"),
        _ => panic!("expected a permission error"),
    }
    let e = classify_write_error(false, String::from("/sys/d1/power/control"),
        String::from("device gone"));
    match e {
        PciError::IoError(m) => assert_eq!(m, "device gone"),
        _ => panic!("expected an io error"),
    }
}

#[test]
fn error_messages_name_the_cause() {
    assert_eq!(PciError::NotFound.message(), "NVIDIA PCI device not found");
    assert_eq!(
        PciError::PermissionDenied(String::from("/sys/x")).message(),
        "Permission denied accessing /sys/x"
    );
    assert_eq!(PciError::IoError(String::from("boom")).message(), "IO Error: boom");
}
