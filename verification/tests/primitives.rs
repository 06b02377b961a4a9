use zenoh_wire::common::{has_flag, read_header, write_header, DecodeError};
use zenoh_wire::wire_expr::{read_wire_expr, write_wire_expr, WireExpr};
use zenoh_wire::zint::{read_zint, write_zint};

#[test]
fn zint_small_values_are_one_byte() {
    for v in [0u64, 1, 42, 127] {
        let mut buf: Vec<u8> = Vec::new();
        write_zint(&mut buf, v);
        assert_eq!(buf, vec![v as u8]);
        assert_eq!(read_zint(&buf, 0).unwrap(), (v, 1));
    }
}

#[test]
fn zint_boundary_values_roundtrip() {
    for v in [128u64, 129, 16383, 16384, u32::MAX as u64, u64::MAX - 1, u64::MAX] {
        let mut buf: Vec<u8> = Vec::new();
        write_zint(&mut buf, v);
        assert_eq!(read_zint(&buf, 0).unwrap(), (v, buf.len()));
    }
}

#[test]
fn zint_128_concrete_bytes() {
    let mut buf: Vec<u8> = Vec::new();
    write_zint(&mut buf, 128);
    assert_eq!(buf, vec![0x80, 0x01]);
}

#[test]
fn zint_max_is_ten_bytes() {
    let mut buf: Vec<u8> = Vec::new();
    write_zint(&mut buf, u64::MAX);
    assert_eq!(buf.len(), 10);
}

#[test]
fn zint_dangling_continuation_is_truncated() {
    let buf: Vec<u8> = vec![0x80];
    assert_eq!(read_zint(&buf, 0), Err(DecodeError::Truncated));
}

#[test]
fn zint_overflowing_value_is_format_error() {
    // Nine continuation groups of zero followed by 2 encode 2 * 128^9,
    // which exceeds the largest expressible value.
    let mut buf: Vec<u8> = vec![0x80; 9];
    buf.push(0x02);
    assert_eq!(read_zint(&buf, 0), Err(DecodeError::Format));
}

#[test]
fn header_pack_and_split() {
    let h = write_header(0x09, 0x80);
    assert_eq!(h, 0x89);
    assert_eq!(read_header(h), (0x09, 0x80));
    assert!(has_flag(h, 0x80));
    assert!(!has_flag(h, 0x20));
}

#[test]
fn wire_expr_roundtrip_with_suffix() {
    let w = WireExpr { scope: 300, suffix: b"a/b/c".to_vec() };
    let mut buf: Vec<u8> = Vec::new();
    write_wire_expr(&mut buf, &w);
    let (back, n) = read_wire_expr(&buf, 0, true).unwrap();
    assert_eq!(back, w);
    assert_eq!(n, buf.len());
}

#[test]
fn wire_expr_roundtrip_without_suffix() {
    let w = WireExpr { scope: 5, suffix: Vec::new() };
    let mut buf: Vec<u8> = Vec::new();
    write_wire_expr(&mut buf, &w);
    assert_eq!(buf, vec![5]);
    let (back, n) = read_wire_expr(&buf, 0, false).unwrap();
    assert_eq!(back, w);
    assert_eq!(n, 1);
}

#[test]
fn wire_expr_scope_over_width_is_format_error() {
    // 70000 exceeds the scope width.
    let buf: Vec<u8> = vec![0xF0, 0xA2, 0x04];
    assert_eq!(read_wire_expr(&buf, 0, false), Err(DecodeError::Format));
}
