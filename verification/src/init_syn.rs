//! Accept-side validation of the transport establishment handshake's first
//! step: exactly one inbound message is admitted per read, it must be an
//! `InitSyn`, and its protocol version must equal the locally configured
//! one.  Any violation closes the link with the `INVALID` reason; on
//! success the peer's parameters are extracted for the next stage.
//!
//! The link read itself suspends on I/O and stays outside this crate; the
//! decision is a function of the batch of decoded messages the read
//! produced and of the local configuration, and is stated here for every
//! input.
use vstd::prelude::*;

verus! {

/// Close reason surfaced when establishment fails validation.
pub const CLOSE_REASON_INVALID: u8 = 0x02;

/// The role a peer declares for itself.
#[derive(Clone, Copy, Debug, PartialEq, Eq, Structural)]
pub enum WhatAmI {
    Router,
    Peer,
    Client,
}

/// Identity of a peer.
#[derive(Clone, Copy, Debug, PartialEq, Eq, Structural)]
pub struct ZenohId {
    pub id: u128,
}

/// Negotiated bit-widths for numeric identifiers and sequence numbers,
/// carried packed through the handshake.
#[derive(Clone, Copy, Debug, PartialEq, Eq, Structural)]
pub struct Resolution {
    pub bits: u8,
}

/// The initial handshake offer a connecting peer sends: its protocol
/// version, role, identity, resolution, largest batch it accepts, and
/// whether it advertises the quality-of-service capability.
#[derive(Clone, Copy, Debug, PartialEq, Eq, Structural)]
pub struct InitSyn {
    pub version: u8,
    pub whatami: WhatAmI,
    pub zid: ZenohId,
    pub resolution: Resolution,
    pub batch_size: u16,
    pub qos: bool,
}

/// Body of one transport-level message, reduced to what the accept stage
/// distinguishes: the expected kind and everything else.
#[derive(Clone, Copy, Debug, PartialEq, Eq, Structural)]
pub enum TransportBody {
    InitSyn(InitSyn),
    KeepAlive,
    Close(u8),
}

/// One decoded transport-level message.
#[derive(Clone, Copy, Debug, PartialEq, Eq, Structural)]
pub struct TransportMsg {
    pub body: TransportBody,
}

/// What the accept side hands to the next handshake stage once an
/// `InitSyn` passed validation.
#[derive(Clone, Copy, Debug, PartialEq, Eq, Structural)]
pub struct Output {
    pub whatami: WhatAmI,
    pub zid: ZenohId,
    pub resolution: Resolution,
    pub batch_size: u16,
    pub is_qos: bool,
}

/// Whether a batch of messages passes the accept stage: exactly one
/// message, of the `InitSyn` kind, with the locally configured version.
pub open spec fn spec_accept_ok(msgs: Seq<TransportMsg>, local_version: u8) -> bool {
    &&& msgs.len() == 1
    &&& msgs[0].body is InitSyn
    &&& msgs[0].body->InitSyn_0.version == local_version
}

/// The parameters extracted from a valid offer: the peer's role, identity,
/// resolution and batch size, and whether its quality-of-service marker was
/// present.
pub open spec fn spec_accept_output(i: InitSyn) -> Output {
    Output {
        whatami: i.whatami,
        zid: i.zid,
        resolution: i.resolution,
        batch_size: i.batch_size,
        is_qos: i.qos,
    }
}

/// Validates the batch of messages one link read yielded during the accept
/// stage.  Succeeds with the peer's parameters if and only if the batch
/// holds exactly one `InitSyn` carrying the locally configured version;
/// every other batch — empty, more than one message, another message kind,
/// or a version mismatch — is rejected with the `INVALID` close reason.
pub fn accept_init_syn(msgs: &Vec<TransportMsg>, local_version: u8) -> (r: Result<Output, u8>)
    ensures
        spec_accept_ok(msgs@, local_version) ==> r == Ok::<Output, u8>(
            spec_accept_output(msgs@[0].body->InitSyn_0),
        ),
        !spec_accept_ok(msgs@, local_version) ==> r == Err::<Output, u8>(CLOSE_REASON_INVALID),
{
    if msgs.len() != 1 {
        return Err(CLOSE_REASON_INVALID);
    }
    let msg = &msgs[0];
    match &msg.body {
        TransportBody::InitSyn(i) => {
            if i.version != local_version {
                Err(CLOSE_REASON_INVALID)
            } else {
                Ok(
                    Output {
                        whatami: i.whatami,
                        zid: i.zid,
                        resolution: i.resolution,
                        batch_size: i.batch_size,
                        is_qos: i.qos,
                    },
                )
            }
        },
        _ => Err(CLOSE_REASON_INVALID),
    }
}

} // verus!
