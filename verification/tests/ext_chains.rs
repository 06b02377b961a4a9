use zenoh_wire::common::DecodeError;
use zenoh_wire::declare::{
    read_declare, read_declare_subscriber, write_declare, write_declare_subscriber, Declare,
    DeclareBody, DeclareSubscriber, UndeclareToken,
};
use zenoh_wire::ext::{write_ext, ZExtBody};
use zenoh_wire::fields::{
    CongestionControl, Mapping, Mode, QoSType, Reliability, SubscriberInfo, Timestamp,
};
use zenoh_wire::wire_expr::WireExpr;

fn plain_expr() -> WireExpr {
    WireExpr { scope: 0, suffix: Vec::new() }
}

/// Start of a subscriber message with the Z flag set: header, id 1, scope 0.
fn subscriber_prefix() -> Vec<u8> {
    vec![0x02 | 0x80, 1, 0]
}

#[test]
fn flag_z_set_iff_info_non_default() {
    let mut buf: Vec<u8> = Vec::new();
    write_declare_subscriber(
        &mut buf,
        &DeclareSubscriber {
            id: 1,
            wire_expr: plain_expr(),
            mapping: Mapping::Receiver,
            ext_info: SubscriberInfo::default(),
        },
    );
    assert_eq!(buf[0] & 0x80, 0, "default info writes no extension");

    let mut buf: Vec<u8> = Vec::new();
    write_declare_subscriber(
        &mut buf,
        &DeclareSubscriber {
            id: 1,
            wire_expr: plain_expr(),
            mapping: Mapping::Receiver,
            ext_info: SubscriberInfo { reliability: Reliability::Reliable, mode: Mode::Push },
        },
    );
    assert_eq!(buf[0] & 0x80, 0x80, "non-default info sets Z");
}

#[test]
fn flag_n_set_iff_suffix() {
    let mut buf: Vec<u8> = Vec::new();
    write_declare_subscriber(
        &mut buf,
        &DeclareSubscriber {
            id: 1,
            wire_expr: WireExpr { scope: 0, suffix: b"s".to_vec() },
            mapping: Mapping::Receiver,
            ext_info: SubscriberInfo::default(),
        },
    );
    assert_eq!(buf[0] & 0x20, 0x20);

    let mut buf: Vec<u8> = Vec::new();
    write_declare_subscriber(
        &mut buf,
        &DeclareSubscriber {
            id: 1,
            wire_expr: plain_expr(),
            mapping: Mapping::Receiver,
            ext_info: SubscriberInfo::default(),
        },
    );
    assert_eq!(buf[0] & 0x20, 0);
}

#[test]
fn flag_m_set_iff_sender_mapping() {
    let mut buf: Vec<u8> = Vec::new();
    write_declare_subscriber(
        &mut buf,
        &DeclareSubscriber {
            id: 1,
            wire_expr: plain_expr(),
            mapping: Mapping::Sender,
            ext_info: SubscriberInfo::default(),
        },
    );
    assert_eq!(buf[0] & 0x40, 0x40);

    let mut buf: Vec<u8> = Vec::new();
    write_declare_subscriber(
        &mut buf,
        &DeclareSubscriber {
            id: 1,
            wire_expr: plain_expr(),
            mapping: Mapping::Receiver,
            ext_info: SubscriberInfo::default(),
        },
    );
    assert_eq!(buf[0] & 0x40, 0);
}

#[test]
fn envelope_flag_z_set_iff_extension_present() {
    let body = DeclareBody::UndeclareToken(UndeclareToken { id: 1 });
    let mut buf: Vec<u8> = Vec::new();
    write_declare(
        &mut buf,
        &Declare { body: body.clone(), ext_qos: QoSType::default(), ext_tstamp: None },
    );
    assert_eq!(buf[0] & 0x80, 0);

    let mut buf: Vec<u8> = Vec::new();
    write_declare(
        &mut buf,
        &Declare {
            body: body.clone(),
            ext_qos: QoSType { priority: 0, congestion: CongestionControl::Drop, express: false },
            ext_tstamp: None,
        },
    );
    assert_eq!(buf[0] & 0x80, 0x80);

    let mut buf: Vec<u8> = Vec::new();
    write_declare(
        &mut buf,
        &Declare {
            body,
            ext_qos: QoSType::default(),
            ext_tstamp: Some(Timestamp { time: 1, id: vec![2] }),
        },
    );
    assert_eq!(buf[0] & 0x80, 0x80);
}

#[test]
fn unknown_skippable_before_recognized() {
    // Chain: unknown unit extension (id 3), then the subscriber info.
    let mut buf = subscriber_prefix();
    write_ext(&mut buf, 0x03, true, &ZExtBody::Unit);
    write_ext(&mut buf, 0x11, false, &ZExtBody::Z64(3));
    let (x, n) = read_declare_subscriber(&buf, 0).unwrap();
    assert_eq!(x.ext_info, SubscriberInfo { reliability: Reliability::Reliable, mode: Mode::Pull });
    assert_eq!(n, buf.len(), "the unknown extension is consumed exactly");
}

#[test]
fn unknown_skippable_after_recognized() {
    // Chain: the subscriber info, then an unknown byte-buffer extension.
    let mut buf = subscriber_prefix();
    write_ext(&mut buf, 0x11, true, &ZExtBody::Z64(3));
    write_ext(&mut buf, 0x2A, false, &ZExtBody::ZBuf(vec![1, 2, 3, 4]));
    let (x, n) = read_declare_subscriber(&buf, 0).unwrap();
    assert_eq!(x.ext_info, SubscriberInfo { reliability: Reliability::Reliable, mode: Mode::Pull });
    assert_eq!(n, buf.len());
}

#[test]
fn unknown_z64_extension_is_skipped() {
    let mut buf = subscriber_prefix();
    write_ext(&mut buf, 0x15, true, &ZExtBody::Z64(999_999));
    write_ext(&mut buf, 0x11, false, &ZExtBody::Z64(1));
    let (x, n) = read_declare_subscriber(&buf, 0).unwrap();
    assert_eq!(x.ext_info, SubscriberInfo { reliability: Reliability::Reliable, mode: Mode::Push });
    assert_eq!(n, buf.len());
}

#[test]
fn duplicate_extension_last_wins() {
    let mut buf = subscriber_prefix();
    write_ext(&mut buf, 0x11, true, &ZExtBody::Z64(0));
    write_ext(&mut buf, 0x11, false, &ZExtBody::Z64(3));
    let (x, _) = read_declare_subscriber(&buf, 0).unwrap();
    assert_eq!(x.ext_info, SubscriberInfo { reliability: Reliability::Reliable, mode: Mode::Pull });

    // And in the other order the earlier value is overwritten by zero.
    let mut buf = subscriber_prefix();
    write_ext(&mut buf, 0x11, true, &ZExtBody::Z64(3));
    write_ext(&mut buf, 0x11, false, &ZExtBody::Z64(0));
    let (x, _) = read_declare_subscriber(&buf, 0).unwrap();
    assert_eq!(x.ext_info, SubscriberInfo::default());
}

#[test]
fn envelope_chain_skips_unknown_extension() {
    // Envelope header with Z, an unknown unit extension, the QoS extension,
    // then a token undeclaration as the body.
    let mut buf: Vec<u8> = vec![0x09 | 0x80];
    write_ext(&mut buf, 0x07, true, &ZExtBody::Unit);
    write_ext(&mut buf, 0x11, false, &ZExtBody::Z64(1));
    buf.push(0x07);
    buf.push(1);
    let (d, n) = read_declare(&buf, 0).unwrap();
    assert_eq!(
        d.ext_qos,
        QoSType { priority: 1, congestion: CongestionControl::Drop, express: false }
    );
    assert_eq!(d.ext_tstamp, None);
    assert_eq!(d.body, DeclareBody::UndeclareToken(UndeclareToken { id: 1 }));
    assert_eq!(n, buf.len());
}

#[test]
fn envelope_chain_decodes_handbuilt_timestamp() {
    // A timestamp extension framed by hand: time 5, clock identifier [9].
    let mut buf: Vec<u8> = vec![0x09 | 0x80];
    write_ext(&mut buf, 0x22, false, &ZExtBody::ZBuf(vec![5, 9]));
    buf.push(0x07);
    buf.push(1);
    let (d, n) = read_declare(&buf, 0).unwrap();
    assert_eq!(d.ext_qos, QoSType::default());
    assert_eq!(d.ext_tstamp, Some(Timestamp { time: 5, id: vec![9] }));
    assert_eq!(n, buf.len());
}

#[test]
fn mandatory_unknown_extension_fails() {
    let mut buf = subscriber_prefix();
    // Kind 0x03 with the mandatory-to-understand bit set.
    write_ext(&mut buf, 0x03 | 0x40, false, &ZExtBody::Unit);
    assert_eq!(read_declare_subscriber(&buf, 0), Err(DecodeError::MandatoryExt));
}

#[test]
fn truncated_extension_chain_fails() {
    let mut buf = subscriber_prefix();
    write_ext(&mut buf, 0x2A, false, &ZExtBody::ZBuf(vec![1, 2, 3, 4]));
    // Cut the last payload byte: the self-described length overruns.
    buf.pop();
    assert_eq!(read_declare_subscriber(&buf, 0), Err(DecodeError::Truncated));
}
