use lua_replace::text::{hex_char_exec, hex_len, push_char, push_dec, push_hex, push_hex_padded, push_repeat};

#[test]
fn hex_digits_and_padding() {
    let mut s = String::new();
    push_hex(&mut s, 0);
    assert_eq!(s, "0");
    let mut s = String::new();
    push_hex(&mut s, 0xDEAD_BEEF);
    assert_eq!(s, "DEADBEEF");
    let mut s = String::new();
    push_hex(&mut s, u64::MAX);
    assert_eq!(s, "FFFFFFFFFFFFFFFF");
    let mut s = String::new();
    push_hex_padded(&mut s, 0xA, 2);
    assert_eq!(s, "0A");
    let mut s = String::from("x");
    push_hex_padded(&mut s, 0x1234, 2);
    assert_eq!(s, "x1234");
    assert_eq!(hex_len(0), 1);
    assert_eq!(hex_len(0xF), 1);
    assert_eq!(hex_len(0x10), 2);
    assert_eq!(hex_len(u64::MAX), 16);
    assert_eq!(hex_char_exec(9), '9');
    assert_eq!(hex_char_exec(10), 'A');
    assert_eq!(hex_char_exec(15), 'F');
}

#[test]
fn hex_and_decimal_read_back() {
    for v in [0u64, 1, 15, 16, 255, 0x1000, 0xFEDC_BA98_7654_3210, u64::MAX] {
        let mut s = String::new();
        push_hex(&mut s, v);
        assert_eq!(u64::from_str_radix(&s, 16).unwrap(), v);
    }
    for v in [0usize, 9, 10, 39, 100, 123456789] {
        let mut s = String::new();
        push_dec(&mut s, v);
        assert_eq!(s, v.to_string());
    }
}

#[test]
fn repeat_and_push() {
    let mut s = String::new();
    push_repeat(&mut s, '─', 3);
    push_char(&mut s, '┼');
    push_repeat(&mut s, 'x', 0);
    assert_eq!(s, "───┼");
}
