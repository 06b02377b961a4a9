use zenoh_wire::common::DecodeError;
use zenoh_wire::declare::{
    read_declare, read_declare_body, read_declare_key_expr, read_declare_subscriber,
    write_declare_queryable, write_declare_subscriber, DeclareQueryable, DeclareSubscriber,
};
use zenoh_wire::fields::{Mapping, QueryableInfo, SubscriberInfo};
use zenoh_wire::wire_expr::WireExpr;

#[test]
fn subscriber_decoder_rejects_queryable_header() {
    // A decoder for one kind must reject a buffer whose header carries
    // another kind's identifier, not misparse it.
    let q = DeclareQueryable {
        id: 9,
        wire_expr: WireExpr { scope: 0, suffix: b"k".to_vec() },
        mapping: Mapping::Receiver,
        ext_info: QueryableInfo::default(),
    };
    let mut buf: Vec<u8> = Vec::new();
    write_declare_queryable(&mut buf, &q);
    assert_eq!(read_declare_subscriber(&buf, 0), Err(DecodeError::Format));
}

#[test]
fn envelope_decoder_rejects_body_header() {
    let s = DeclareSubscriber {
        id: 1,
        wire_expr: WireExpr { scope: 0, suffix: Vec::new() },
        mapping: Mapping::Receiver,
        ext_info: SubscriberInfo::default(),
    };
    let mut buf: Vec<u8> = Vec::new();
    write_declare_subscriber(&mut buf, &s);
    assert_eq!(read_declare(&buf, 0), Err(DecodeError::Format));
}

#[test]
fn empty_buffer_is_truncated() {
    let buf: Vec<u8> = Vec::new();
    assert_eq!(read_declare(&buf, 0), Err(DecodeError::Truncated));
    assert_eq!(read_declare_body(&buf, 0), Err(DecodeError::Truncated));
    assert_eq!(read_declare_subscriber(&buf, 0), Err(DecodeError::Truncated));
}

#[test]
fn cut_message_is_truncated() {
    let s = DeclareSubscriber {
        id: 300,
        wire_expr: WireExpr { scope: 7, suffix: b"long/suffix".to_vec() },
        mapping: Mapping::Sender,
        ext_info: SubscriberInfo::default(),
    };
    let mut buf: Vec<u8> = Vec::new();
    write_declare_subscriber(&mut buf, &s);
    for cut in 1..buf.len() {
        let shorter = buf[..cut].to_vec();
        assert_eq!(
            read_declare_subscriber(&shorter, 0),
            Err(DecodeError::Truncated),
            "cut at {} must be truncated",
            cut
        );
    }
}

#[test]
fn unknown_body_kind_is_format_error() {
    // Message-kind identifier 0x0A belongs to no declaration kind.
    let buf: Vec<u8> = vec![0x0A, 0, 0];
    assert_eq!(read_declare_body(&buf, 0), Err(DecodeError::Format));
}

#[test]
fn keyexpr_id_over_width_is_format_error() {
    // The identifier 70000 does not fit the key-expression id width.
    let buf: Vec<u8> = vec![0x00, 0xF0, 0xA2, 0x04];
    assert_eq!(read_declare_key_expr(&buf, 0), Err(DecodeError::Format));
}

#[test]
fn suffix_length_overrun_is_truncated() {
    // Header with N set, id 1, scope 0, then a suffix length of 200 with
    // only two bytes following.
    let buf: Vec<u8> = vec![0x20, 1, 0, 200, 0x61, 0x62];
    assert_eq!(read_declare_key_expr(&buf, 0), Err(DecodeError::Truncated));
}
