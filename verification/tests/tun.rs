use r2n::tun::{device_mode_label, device_names, normalize_mtu, TunDeviceMode, TunError, MIN_TUN_MTU};

#[test]
fn normalize_mtu_enforces_windows_safe_floor() {
    assert_eq!(normalize_mtu(MIN_TUN_MTU - 80), MIN_TUN_MTU);
    assert_eq!(normalize_mtu(MIN_TUN_MTU), MIN_TUN_MTU);
    assert_eq!(normalize_mtu(1400), 1400);
}

#[test]
fn device_errors_are_told() {
    assert_eq!(TunError::NotFound.to_text(), "Device not found");
    assert_eq!(
        TunError::Config("x".to_string()).to_text(),
        "Configuration error: x"
    );
    assert_eq!(TunError::Io("y".to_string()).to_text(), "IO error: y");
    assert_eq!(device_mode_label(TunDeviceMode::Tap), "tap");
    assert_eq!(device_mode_label(TunDeviceMode::Tun), "tun");
}

#[test]
fn numbered_devices_are_tried_in_order() {
    let names = device_names("utun7");
    assert_eq!(names.len(), 91);
    assert_eq!((names[0].as_str(), names[1].as_str(), names[90].as_str()), ("utun7", "utun10", "utun99"));
    for name in ["r2n0", "utun", "utunx", "utun99999999999999999999999", "utu1"] {
        assert_eq!(device_names(name).len(), 90);
    }
    assert_eq!(device_names("utun+3")[0], "utun+3");
}
