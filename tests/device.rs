use serial_term::device::{is_possible_arduino_dev, is_standard_baud_rate};

#[test]
fn standard_baud_rates_are_accepted() {
    for rate in [0u32, 50, 9600, 115200, 4000000] {
        assert!(is_standard_baud_rate(rate), "{rate}");
    }
}

#[test]
fn other_baud_rates_are_refused() {
    for rate in [1u32, 9601, 14400, 4000001, u32::MAX] {
        assert!(!is_standard_baud_rate(rate), "{rate}");
    }
}

#[test]
fn usb_and_acm_devices_are_candidates() {
    assert!(is_possible_arduino_dev(b"ttyUSB0"));
    assert!(is_possible_arduino_dev(b"ttyACM12"));
    assert!(is_possible_arduino_dev(b"ttyUSB"));
}

#[test]
fn other_devices_are_not_candidates() {
    assert!(!is_possible_arduino_dev(b"ttyS0"));
    assert!(!is_possible_arduino_dev(b"ttyUS"));
    assert!(!is_possible_arduino_dev(b"cuaUSB0"));
    assert!(!is_possible_arduino_dev(b""));
    assert!(!is_possible_arduino_dev("tty\u{e9}USB".as_bytes()));
}
