use squiggle::hex::{digit_value, read_0x_hex, to_hex};

#[test]
fn numbers_are_read_after_0x() {
    assert_eq!(read_0x_hex("0x0"), Some(0));
    assert_eq!(read_0x_hex("0x24"), Some(0x24));
    assert_eq!(read_0x_hex("0x00000000000000FF"), Some(255));
    assert_eq!(read_0x_hex("0xdeadBEEF"), Some(0xdeadbeef));
    assert_eq!(read_0x_hex("0xFFFFFFFFFFFFFFFF"), Some(u64::MAX));
    assert_eq!(read_0x_hex("0x0102030405060708"), Some(0x0102030405060708));
}

#[test]
fn what_is_no_number_is_refused() {
    assert_eq!(read_0x_hex(""), None);
    assert_eq!(read_0x_hex("0x"), None);
    assert_eq!(read_0x_hex("24"), None);
    assert_eq!(read_0x_hex("0X24"), None);
    assert_eq!(read_0x_hex("x024"), None);
    assert_eq!(read_0x_hex("0x2g"), None);
    assert_eq!(read_0x_hex("0x 24"), None);
    assert_eq!(read_0x_hex("0x-1"), None);
    assert_eq!(read_0x_hex("0x10000000000000000"), None);
    assert_eq!(read_0x_hex("0x00000000000000000"), Some(0));
}

#[test]
fn numbers_are_written_without_padding() {
    assert_eq!(to_hex(0), "0");
    assert_eq!(to_hex(10), "a");
    assert_eq!(to_hex(16), "10");
    assert_eq!(to_hex(0x24), "24");
    assert_eq!(to_hex(0xdeadbeef), "deadbeef");
    assert_eq!(to_hex(u64::MAX), "ffffffffffffffff");
}

#[test]
fn written_numbers_are_read_back() {
    for n in [0u64, 1, 15, 16, 255, 256, 0x1234_5678_9abc_def0, u64::MAX - 1, u64::MAX] {
        let text = format!("0x{}", to_hex(n));
        assert_eq!(read_0x_hex(&text), Some(n));
    }
}

#[test]
fn digits_have_their_values() {
    assert_eq!(digit_value('0'), Some(0));
    assert_eq!(digit_value('9'), Some(9));
    assert_eq!(digit_value('a'), Some(10));
    assert_eq!(digit_value('f'), Some(15));
    assert_eq!(digit_value('A'), Some(10));
    assert_eq!(digit_value('F'), Some(15));
    assert_eq!(digit_value('g'), None);
    assert_eq!(digit_value('G'), None);
    assert_eq!(digit_value('/'), None);
    assert_eq!(digit_value(':'), None);
    assert_eq!(digit_value('@'), None);
    assert_eq!(digit_value('`'), None);
}
