use strutil::render::{format_i64, hexlify};

#[test]
fn hexlify_fills_buffer() {
    let mut buffer = [0u8; 6];
    hexlify(&[0x00, 0xFF, 0x1A], &mut buffer);
    assert_eq!(&buffer, b"00ff1a");
}

#[test]
fn hexlify_truncates_to_whole_bytes() {
    let mut buffer = [b'x'; 3];
    hexlify(&[0x00, 0xFF, 0x1A], &mut buffer);
    assert_eq!(&buffer, b"00x");
}

#[test]
fn hexlify_leaves_rest_of_long_buffer() {
    let mut buffer = [b'x'; 8];
    hexlify(&[0xAB, 0x09], &mut buffer);
    assert_eq!(&buffer, b"ab09xxxx");
}

#[test]
fn hexlify_empty_inputs() {
    let mut buffer = [b'x'; 4];
    hexlify(&[], &mut buffer);
    assert_eq!(&buffer, b"xxxx");
    let mut none: [u8; 0] = [];
    hexlify(&[0x12], &mut none);
    let mut one = [b'x'; 1];
    hexlify(&[0x12], &mut one);
    assert_eq!(&one, b"x");
}

#[test]
fn format_zero() {
    let mut buffer = [0u8; 4];
    assert_eq!(format_i64(0, &mut buffer), Some("0"));
}

#[test]
fn format_zero_needs_no_room() {
    let mut buffer: [u8; 0] = [];
    assert_eq!(format_i64(0, &mut buffer), Some("0"));
}

#[test]
fn format_negative() {
    let mut buffer = [0u8; 4];
    assert_eq!(format_i64(-123, &mut buffer), Some("-123"));
}

#[test]
fn format_too_many_digits() {
    let mut buffer = [0u8; 3];
    assert_eq!(format_i64(12345, &mut buffer), None);
}

#[test]
fn format_positive_exact_fit() {
    let mut buffer = [0u8; 3];
    assert_eq!(format_i64(123, &mut buffer), Some("123"));
}

#[test]
fn format_negative_without_room_for_sign() {
    let mut buffer = [0u8; 3];
    assert_eq!(format_i64(-123, &mut buffer), None);
}

#[test]
fn format_nonzero_into_empty_buffer() {
    let mut buffer: [u8; 0] = [];
    assert_eq!(format_i64(7, &mut buffer), None);
    assert_eq!(format_i64(-7, &mut buffer), None);
}

#[test]
fn format_writes_front_and_keeps_rest() {
    let mut buffer = [b'x'; 6];
    assert_eq!(format_i64(-40, &mut buffer), Some("-40"));
    assert_eq!(&buffer, b"-40xxx");
}

#[test]
fn format_extremes() {
    let mut buffer = [0u8; 20];
    assert_eq!(format_i64(i64::MAX, &mut buffer), Some("9223372036854775807"));
    assert_eq!(format_i64(i64::MIN, &mut buffer), Some("-9223372036854775808"));
    let mut short = [0u8; 19];
    assert_eq!(format_i64(i64::MIN, &mut short), None);
    assert_eq!(format_i64(i64::MAX, &mut short), Some("9223372036854775807"));
}
