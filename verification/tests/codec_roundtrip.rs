use zenoh_wire::declare::{
    read_declare, read_declare_body, read_declare_key_expr, read_declare_queryable,
    read_declare_subscriber, read_declare_token, read_undeclare_key_expr,
    read_undeclare_queryable, read_undeclare_subscriber, read_undeclare_token, write_declare,
    write_declare_body, write_declare_key_expr, write_declare_queryable,
    write_declare_subscriber, write_declare_token, write_undeclare_key_expr,
    write_undeclare_queryable, write_undeclare_subscriber, write_undeclare_token, Declare,
    DeclareBody, DeclareKeyExpr, DeclareQueryable, DeclareSubscriber, DeclareToken,
    UndeclareKeyExpr, UndeclareQueryable, UndeclareSubscriber, UndeclareToken,
};
use zenoh_wire::fields::{
    CongestionControl, Mapping, Mode, QoSType, QueryableInfo, Reliability, SubscriberInfo,
    Timestamp,
};
use zenoh_wire::wire_expr::WireExpr;

fn expr(scope: u16, suffix: &[u8]) -> WireExpr {
    WireExpr { scope, suffix: suffix.to_vec() }
}

#[test]
fn keyexpr_literal_concrete_bytes() {
    // Encoding id 5 with the literal "demo/test" must set the N flag, write
    // the id, then the literal; decoding those exact bytes reproduces the
    // message.
    let x = DeclareKeyExpr { id: 5, wire_expr: expr(0, b"demo/test") };
    let mut buf: Vec<u8> = Vec::new();
    write_declare_key_expr(&mut buf, &x);
    let mut expected: Vec<u8> = vec![0x20, 5, 0, 9];
    expected.extend_from_slice(b"demo/test");
    assert_eq!(buf, expected);
    assert_eq!(buf[0] & 0x20, 0x20);
    let (back, n) = read_declare_key_expr(&buf, 0).unwrap();
    assert_eq!(back, x);
    assert_eq!(n, buf.len());
}

#[test]
fn keyexpr_numeric_roundtrip() {
    let x = DeclareKeyExpr { id: 300, wire_expr: expr(77, b"") };
    let mut buf: Vec<u8> = Vec::new();
    write_declare_key_expr(&mut buf, &x);
    assert_eq!(buf[0] & 0x20, 0, "no suffix, N must be clear");
    let (back, n) = read_declare_key_expr(&buf, 0).unwrap();
    assert_eq!(back, x);
    assert_eq!(n, buf.len());
}

#[test]
fn subscriber_roundtrip_default_info() {
    let x = DeclareSubscriber {
        id: 42,
        wire_expr: expr(1, b"a/b"),
        mapping: Mapping::Receiver,
        ext_info: SubscriberInfo::default(),
    };
    let mut buf: Vec<u8> = Vec::new();
    write_declare_subscriber(&mut buf, &x);
    let (back, n) = read_declare_subscriber(&buf, 0).unwrap();
    assert_eq!(back, x);
    assert_eq!(n, buf.len());
}

#[test]
fn subscriber_roundtrip_non_default_info() {
    let x = DeclareSubscriber {
        id: 0xFFFF_FFFF,
        wire_expr: expr(0, b""),
        mapping: Mapping::Sender,
        ext_info: SubscriberInfo { reliability: Reliability::Reliable, mode: Mode::Pull },
    };
    let mut buf: Vec<u8> = Vec::new();
    write_declare_subscriber(&mut buf, &x);
    let (back, n) = read_declare_subscriber(&buf, 0).unwrap();
    assert_eq!(back, x);
    assert_eq!(n, buf.len());
}

#[test]
fn subscriber_roundtrip_both_mappings() {
    for mapping in [Mapping::Sender, Mapping::Receiver] {
        let x = DeclareSubscriber {
            id: 7,
            wire_expr: expr(3, b"k"),
            mapping,
            ext_info: SubscriberInfo::default(),
        };
        let mut buf: Vec<u8> = Vec::new();
        write_declare_subscriber(&mut buf, &x);
        let (back, _) = read_declare_subscriber(&buf, 0).unwrap();
        assert_eq!(back.mapping, mapping);
    }
}

#[test]
fn queryable_roundtrip_non_default_info() {
    let x = DeclareQueryable {
        id: 9,
        wire_expr: expr(2, b"q/r/s"),
        mapping: Mapping::Sender,
        ext_info: QueryableInfo { complete: true, distance: 4 },
    };
    let mut buf: Vec<u8> = Vec::new();
    write_declare_queryable(&mut buf, &x);
    let (back, n) = read_declare_queryable(&buf, 0).unwrap();
    assert_eq!(back, x);
    assert_eq!(n, buf.len());
}

#[test]
fn token_roundtrip() {
    let x = DeclareToken { id: 1000, wire_expr: expr(5, b"tok"), mapping: Mapping::Sender };
    let mut buf: Vec<u8> = Vec::new();
    write_declare_token(&mut buf, &x);
    let (back, n) = read_declare_token(&buf, 0).unwrap();
    assert_eq!(back, x);
    assert_eq!(n, buf.len());
}

#[test]
fn undeclare_roundtrips() {
    let mut buf: Vec<u8> = Vec::new();
    write_undeclare_key_expr(&mut buf, &UndeclareKeyExpr { id: 5 });
    assert_eq!(read_undeclare_key_expr(&buf, 0).unwrap(), (UndeclareKeyExpr { id: 5 }, buf.len()));

    let mut buf: Vec<u8> = Vec::new();
    write_undeclare_subscriber(&mut buf, &UndeclareSubscriber { id: 70000 });
    assert_eq!(
        read_undeclare_subscriber(&buf, 0).unwrap(),
        (UndeclareSubscriber { id: 70000 }, buf.len())
    );

    let mut buf: Vec<u8> = Vec::new();
    write_undeclare_queryable(&mut buf, &UndeclareQueryable { id: 1 });
    assert_eq!(read_undeclare_queryable(&buf, 0).unwrap(), (UndeclareQueryable { id: 1 }, buf.len()));

    let mut buf: Vec<u8> = Vec::new();
    write_undeclare_token(&mut buf, &UndeclareToken { id: 0 });
    assert_eq!(read_undeclare_token(&buf, 0).unwrap(), (UndeclareToken { id: 0 }, buf.len()));
}

#[test]
fn body_roundtrip_every_variant() {
    let bodies = vec![
        DeclareBody::DeclareKeyExpr(DeclareKeyExpr { id: 1, wire_expr: expr(0, b"x") }),
        DeclareBody::UndeclareKeyExpr(UndeclareKeyExpr { id: 2 }),
        DeclareBody::DeclareSubscriber(DeclareSubscriber {
            id: 3,
            wire_expr: expr(1, b""),
            mapping: Mapping::Receiver,
            ext_info: SubscriberInfo { reliability: Reliability::Reliable, mode: Mode::Push },
        }),
        DeclareBody::UndeclareSubscriber(UndeclareSubscriber { id: 4 }),
        DeclareBody::DeclareQueryable(DeclareQueryable {
            id: 5,
            wire_expr: expr(2, b"y/z"),
            mapping: Mapping::Sender,
            ext_info: QueryableInfo::default(),
        }),
        DeclareBody::UndeclareQueryable(UndeclareQueryable { id: 6 }),
        DeclareBody::DeclareToken(DeclareToken {
            id: 7,
            wire_expr: expr(3, b"t"),
            mapping: Mapping::Receiver,
        }),
        DeclareBody::UndeclareToken(UndeclareToken { id: 8 }),
    ];
    for b in bodies {
        let mut buf: Vec<u8> = Vec::new();
        write_declare_body(&mut buf, &b);
        let (back, n) = read_declare_body(&buf, 0).unwrap();
        assert_eq!(back, b);
        assert_eq!(n, buf.len());
    }
}

#[test]
fn declare_roundtrip_no_extensions() {
    let x = Declare {
        body: DeclareBody::UndeclareToken(UndeclareToken { id: 8 }),
        ext_qos: QoSType::default(),
        ext_tstamp: None,
    };
    let mut buf: Vec<u8> = Vec::new();
    write_declare(&mut buf, &x);
    assert_eq!(buf[0], 0x09, "default envelope header has no Z flag");
    let (back, n) = read_declare(&buf, 0).unwrap();
    assert_eq!(back, x);
    assert_eq!(n, buf.len());
}

#[test]
fn declare_roundtrip_qos_only() {
    let x = Declare {
        body: DeclareBody::DeclareKeyExpr(DeclareKeyExpr { id: 5, wire_expr: expr(0, b"demo") }),
        ext_qos: QoSType { priority: 1, congestion: CongestionControl::Block, express: true },
        ext_tstamp: None,
    };
    let mut buf: Vec<u8> = Vec::new();
    write_declare(&mut buf, &x);
    let (back, n) = read_declare(&buf, 0).unwrap();
    assert_eq!(back, x);
    assert_eq!(n, buf.len());
}

#[test]
fn declare_roundtrip_timestamp_only() {
    let x = Declare {
        body: DeclareBody::UndeclareSubscriber(UndeclareSubscriber { id: 12 }),
        ext_qos: QoSType::default(),
        ext_tstamp: Some(Timestamp { time: 123_456_789, id: vec![9, 8, 7, 6] }),
    };
    let mut buf: Vec<u8> = Vec::new();
    write_declare(&mut buf, &x);
    let (back, n) = read_declare(&buf, 0).unwrap();
    assert_eq!(back, x);
    assert_eq!(n, buf.len());
}

#[test]
fn declare_roundtrip_qos_and_timestamp() {
    let x = Declare {
        body: DeclareBody::DeclareSubscriber(DeclareSubscriber {
            id: 77,
            wire_expr: expr(4, b"deep/key"),
            mapping: Mapping::Sender,
            ext_info: SubscriberInfo { reliability: Reliability::Reliable, mode: Mode::Pull },
        }),
        ext_qos: QoSType { priority: 7, congestion: CongestionControl::Drop, express: false },
        ext_tstamp: Some(Timestamp {
            time: u64::MAX,
            id: vec![1, 2, 3, 4, 5, 6, 7, 8, 9, 10, 11, 12, 13, 14, 15, 16],
        }),
    };
    let mut buf: Vec<u8> = Vec::new();
    write_declare(&mut buf, &x);
    let (back, n) = read_declare(&buf, 0).unwrap();
    assert_eq!(back, x);
    assert_eq!(n, buf.len());
}

#[test]
fn declare_roundtrip_at_offset() {
    // Decoders take a starting position: leading bytes stay untouched.
    let x = Declare {
        body: DeclareBody::DeclareToken(DeclareToken {
            id: 3,
            wire_expr: expr(0, b"live"),
            mapping: Mapping::Receiver,
        }),
        ext_qos: QoSType::default(),
        ext_tstamp: None,
    };
    let mut buf: Vec<u8> = vec![0xAA, 0xBB];
    write_declare(&mut buf, &x);
    let (back, n) = read_declare(&buf, 2).unwrap();
    assert_eq!(back, x);
    assert_eq!(2 + n, buf.len());
}
