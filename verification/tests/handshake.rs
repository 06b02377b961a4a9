use zenoh_wire::init_syn::{
    accept_init_syn, InitSyn, Output, Resolution, TransportBody, TransportMsg, WhatAmI, ZenohId,
    CLOSE_REASON_INVALID,
};
use zenoh_wire::{Session, Zenoh};

fn sample_init_syn(version: u8, qos: bool) -> InitSyn {
    InitSyn {
        version,
        whatami: WhatAmI::Peer,
        zid: ZenohId { id: 0x1234_5678_9ABC_DEF0 },
        resolution: Resolution { bits: 0x2A },
        batch_size: 8192,
        qos,
    }
}

#[test]
fn accept_valid_init_syn() {
    let msgs = vec![TransportMsg { body: TransportBody::InitSyn(sample_init_syn(8, false)) }];
    let out = accept_init_syn(&msgs, 8).unwrap();
    assert_eq!(out.whatami, WhatAmI::Peer);
    assert_eq!(out.zid, ZenohId { id: 0x1234_5678_9ABC_DEF0 });
    assert_eq!(out.resolution, Resolution { bits: 0x2A });
    assert_eq!(out.batch_size, 8192);
    assert_eq!(out.is_qos, false);
}

#[test]
fn version_mismatch_is_rejected_invalid() {
    let msgs = vec![TransportMsg { body: TransportBody::InitSyn(sample_init_syn(7, false)) }];
    assert_eq!(accept_init_syn(&msgs, 8), Err(CLOSE_REASON_INVALID));
}

#[test]
fn two_messages_are_rejected_invalid() {
    let m = TransportMsg { body: TransportBody::InitSyn(sample_init_syn(8, false)) };
    let msgs = vec![m, m];
    assert_eq!(accept_init_syn(&msgs, 8), Err(CLOSE_REASON_INVALID));
}

#[test]
fn empty_batch_is_rejected_invalid() {
    let msgs: Vec<TransportMsg> = Vec::new();
    assert_eq!(accept_init_syn(&msgs, 8), Err(CLOSE_REASON_INVALID));
}

#[test]
fn wrong_message_kind_is_rejected_invalid() {
    let msgs = vec![TransportMsg { body: TransportBody::KeepAlive }];
    assert_eq!(accept_init_syn(&msgs, 8), Err(CLOSE_REASON_INVALID));
    let msgs = vec![TransportMsg { body: TransportBody::Close(0) }];
    assert_eq!(accept_init_syn(&msgs, 8), Err(CLOSE_REASON_INVALID));
}

#[test]
fn qos_extension_propagates_into_output() {
    let msgs = vec![TransportMsg { body: TransportBody::InitSyn(sample_init_syn(8, true)) }];
    assert_eq!(accept_init_syn(&msgs, 8).unwrap().is_qos, true);
    let msgs = vec![TransportMsg { body: TransportBody::InitSyn(sample_init_syn(8, false)) }];
    assert_eq!(accept_init_syn(&msgs, 8).unwrap().is_qos, false);
}

#[test]
fn session_is_built_from_accept_output() {
    let out = Output {
        whatami: WhatAmI::Client,
        zid: ZenohId { id: 99 },
        resolution: Resolution { bits: 5 },
        batch_size: 100,
        is_qos: true,
    };
    let session = Session::from_output(&out);
    assert_eq!(session.zid, ZenohId { id: 99 });
    assert_eq!(session.whatami, WhatAmI::Client);
    assert_eq!(session.batch_size, 100);
    assert!(session.is_qos);
    let z = Zenoh::new(session);
    assert_eq!(*z.session(), session);
}
