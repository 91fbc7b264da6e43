use lib::kinds::{
    AttachMode, CursorShape, MouseAction, MouseButton, MouseFormat, MouseTrackingMode, PatchKind,
    SurfaceKind,
};
use lib::text::{
    decode_hex, line_ranges, parse_signed_chars, parse_unsigned_chars, push_decimal, push_hex,
    push_signed_decimal, split_ranges, utf8_bytes,
};

fn chars(s: &str) -> Vec<char> {
    s.chars().collect()
}

#[test]
fn numbers_are_written_and_read_in_decimal() {
    let mut s = String::new();
    push_decimal(&mut s, 0);
    s.push(' ');
    push_decimal(&mut s, 18446744073709551615);
    s.push(' ');
    push_signed_decimal(&mut s, i64::MIN);
    assert_eq!(s, "0 18446744073709551615 -9223372036854775808");
    assert_eq!(parse_unsigned_chars(&chars("4294967295"), u32::MAX as u64), Some(4294967295));
    assert_eq!(parse_unsigned_chars(&chars("4294967296"), u32::MAX as u64), None);
    assert_eq!(parse_unsigned_chars(&chars(""), 10), None);
    assert_eq!(parse_unsigned_chars(&chars("1a"), 100), None);
    assert_eq!(parse_signed_chars(&chars("-42")), Some(-42));
    assert_eq!(parse_signed_chars(&chars("-9223372036854775808")), Some(i64::MIN));
    assert_eq!(parse_signed_chars(&chars("9223372036854775808")), None);
}

#[test]
fn bytes_are_written_and_read_in_hex() {
    let mut s = String::new();
    push_hex(&mut s, &[0x00, 0xab, 0x7f]);
    assert_eq!(s, "00ab7f");
    assert_eq!(decode_hex(&chars("00ab7f")), Some(vec![0x00, 0xab, 0x7f]));
    assert_eq!(decode_hex(&chars("00AB")), Some(vec![0x00, 0xab]));
    assert_eq!(decode_hex(&chars("abc")), None);
    assert_eq!(decode_hex(&chars("zz")), None);
    assert_eq!(utf8_bytes("é"), vec![0xc3, 0xa9]);
}

#[test]
fn text_is_split_into_fields_and_lines() {
    let line = chars("a  b");
    let ranges = split_ranges(&line, 0, line.len(), ' ');
    assert_eq!(ranges, vec![(0, 1), (2, 2), (3, 4)]);
    let text = chars("one\r\ntwo\n\nthree");
    let lines = line_ranges(&text);
    let spelled: Vec<String> = lines.iter().map(|(a, b)| text[*a..*b].iter().collect()).collect();
    assert_eq!(spelled, vec!["one", "two", "", "three"]);
    assert!(line_ranges(&chars("")).is_empty());
}

#[test]
fn enum_codes_round_trip() {
    assert_eq!(SurfaceKind::from_code(1), SurfaceKind::Alternate);
    assert_eq!(SurfaceKind::Alternate.code(), 1);
    assert_eq!(SurfaceKind::from_code(7), SurfaceKind::Other(7));
    assert!(!SurfaceKind::Other(7).known());
    assert_eq!(CursorShape::from_code(1), CursorShape::Beam);
    assert_eq!(MouseTrackingMode::from_code(4), MouseTrackingMode::Any);
    assert_eq!(MouseFormat::from_code(2), MouseFormat::SgrPixels);
    assert_eq!(PatchKind::from_code(PatchKind::ColorOnly.code()), PatchKind::ColorOnly);
    assert!(PatchKind::FullRefreshRequired.known());
    assert_eq!(AttachMode::from_code(0), Some(AttachMode::ReadOnly));
    assert_eq!(AttachMode::from_code(2), None);
    assert_eq!(MouseButton::from_code(1), Some(MouseButton::Left));
    assert_eq!(MouseAction::from_code(9), None);
}
