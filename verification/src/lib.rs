//! Wire-protocol core of a publish/subscribe overlay network: a binary codec
//! for the declaration control-message family (register/unregister of
//! key-expression interests, subscriptions, queryables and tokens) and the
//! accept-side validation step of the unicast transport establishment
//! handshake.
//!
//! Every encoder states the exact byte sequence it produces and every decoder
//! states the exact outcome for every input buffer; round-trip and
//! flag-invariant laws are proved in the corresponding modules.
use vstd::prelude::*;

pub mod common;
pub mod declare;
pub mod ext;
pub mod fields;
pub mod init_syn;
pub mod wire_expr;
pub mod zint;

verus! {

/// Parameters of an established transport session, settled by the
/// handshake: the peer's identity and role, the negotiated resolution, the
/// batch size, and whether quality of service is in effect.
#[derive(Clone, Copy, Debug, PartialEq, Eq, Structural)]
pub struct Session {
    pub zid: init_syn::ZenohId,
    pub whatami: init_syn::WhatAmI,
    pub resolution: init_syn::Resolution,
    pub batch_size: u16,
    pub is_qos: bool,
}

impl Session {
    /// Builds the session parameters from what the accept stage extracted.
    pub fn from_output(out: &init_syn::Output) -> (s: Session)
        ensures
            s.zid == out.zid,
            s.whatami == out.whatami,
            s.resolution == out.resolution,
            s.batch_size == out.batch_size,
            s.is_qos == out.is_qos,
    {
        Session {
            zid: out.zid,
            whatami: out.whatami,
            resolution: out.resolution,
            batch_size: out.batch_size,
            is_qos: out.is_qos,
        }
    }
}

/// A handle over one established session.
pub struct Zenoh {
    pub session: Session,
}

impl Zenoh {
    /// Wraps an established session in a handle.
    pub fn new(session: Session) -> (z: Zenoh)
        ensures
            z.session == session,
    {
        Zenoh { session }
    }

    /// The session this handle runs over.
    pub fn session(&self) -> (s: &Session)
        ensures
            s == &self.session,
    {
        &self.session
    }
}

} // verus!
