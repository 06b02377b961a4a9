//! Value types carried by declaration messages: the identifier-assignment
//! side, the subscriber and queryable capability infos, the quality-of-service
//! marker and the timestamp.  The fixed-shape extensions pack their value into
//! one integer; packing and unpacking are proved inverse.
use vstd::prelude::*;

verus! {

/// Which side assigned a numeric identifier: the sender of the message, or
/// the receiver that is to resolve it.
#[derive(Clone, Copy, Debug, PartialEq, Eq, Structural)]
pub enum Mapping {
    Sender,
    Receiver,
}

/// The default identifier assignment.
pub open spec fn spec_mapping_default() -> Mapping {
    Mapping::Receiver
}

impl Default for Mapping {
    fn default() -> (r: Self)
        ensures
            r == spec_mapping_default(),
    {
        Mapping::Receiver
    }
}

/// Delivery guarantee requested by a subscriber.
#[derive(Clone, Copy, Debug, PartialEq, Eq, Structural)]
pub enum Reliability {
    BestEffort,
    Reliable,
}

/// How a subscriber obtains samples.
#[derive(Clone, Copy, Debug, PartialEq, Eq, Structural)]
pub enum Mode {
    Push,
    Pull,
}

/// Capability info attached to a subscriber declaration.  Its absence on the
/// wire stands for this type's default value.
#[derive(Clone, Copy, Debug, PartialEq, Eq, Structural)]
pub struct SubscriberInfo {
    pub reliability: Reliability,
    pub mode: Mode,
}

/// The value an absent subscriber-info extension stands for.
pub open spec fn spec_sub_info_default() -> SubscriberInfo {
    SubscriberInfo { reliability: Reliability::BestEffort, mode: Mode::Push }
}

impl Default for SubscriberInfo {
    fn default() -> (r: Self)
        ensures
            r == spec_sub_info_default(),
    {
        SubscriberInfo { reliability: Reliability::BestEffort, mode: Mode::Push }
    }
}

/// The packed-integer form of a subscriber info.
pub open spec fn spec_sub_info_z64(i: SubscriberInfo) -> u64 {
    (if i.reliability == Reliability::Reliable {
        1int
    } else {
        0int
    } + if i.mode == Mode::Pull {
        2int
    } else {
        0int
    }) as u64
}

/// The subscriber info a packed integer stands for; bits beyond the known
/// ones are ignored.
pub open spec fn spec_sub_info_from_z64(v: u64) -> SubscriberInfo {
    SubscriberInfo {
        reliability: if v % 2 == 1 {
            Reliability::Reliable
        } else {
            Reliability::BestEffort
        },
        mode: if (v / 2) % 2 == 1 {
            Mode::Pull
        } else {
            Mode::Push
        },
    }
}

/// Packing a subscriber info and unpacking it yields it back.
pub proof fn lemma_sub_info_pack_unpack(i: SubscriberInfo)
    ensures
        spec_sub_info_from_z64(spec_sub_info_z64(i)) == i,
{
}

/// Packs a subscriber info for the wire.
pub fn sub_info_to_z64(i: &SubscriberInfo) -> (v: u64)
    ensures
        v == spec_sub_info_z64(*i),
{
    let low: u64 = if i.reliability == Reliability::Reliable {
        1
    } else {
        0
    };
    let high: u64 = if i.mode == Mode::Pull {
        2
    } else {
        0
    };
    low + high
}

/// Unpacks a subscriber info from the wire.
pub fn sub_info_from_z64(v: u64) -> (i: SubscriberInfo)
    ensures
        i == spec_sub_info_from_z64(v),
{
    SubscriberInfo {
        reliability: if v % 2 == 1 {
            Reliability::Reliable
        } else {
            Reliability::BestEffort
        },
        mode: if (v / 2) % 2 == 1 {
            Mode::Pull
        } else {
            Mode::Push
        },
    }
}

/// Capability info attached to a queryable declaration: whether the queryable
/// answers completely, and its distance.  Its absence on the wire stands for
/// this type's default value.
#[derive(Clone, Copy, Debug, PartialEq, Eq, Structural)]
pub struct QueryableInfo {
    pub complete: bool,
    pub distance: u32,
}

/// The value an absent queryable-info extension stands for.
pub open spec fn spec_qbl_info_default() -> QueryableInfo {
    QueryableInfo { complete: false, distance: 0 }
}

impl Default for QueryableInfo {
    fn default() -> (r: Self)
        ensures
            r == spec_qbl_info_default(),
    {
        QueryableInfo { complete: false, distance: 0 }
    }
}

/// The packed-integer form of a queryable info.
pub open spec fn spec_qbl_info_z64(i: QueryableInfo) -> u64 {
    (if i.complete {
        1int
    } else {
        0int
    } + 2 * i.distance) as u64
}

/// The queryable info a packed integer stands for; bits beyond the known
/// ones are ignored.
pub open spec fn spec_qbl_info_from_z64(v: u64) -> QueryableInfo {
    QueryableInfo { complete: v % 2 == 1, distance: ((v / 2) % 0x1_0000_0000) as u32 }
}

/// Packing a queryable info and unpacking it yields it back.
pub proof fn lemma_qbl_info_pack_unpack(i: QueryableInfo)
    ensures
        spec_qbl_info_from_z64(spec_qbl_info_z64(i)) == i,
{
    let c: int = if i.complete {
        1
    } else {
        0
    };
    let v: int = c + 2 * i.distance;
    assert(v / 2 == i.distance);
    assert((i.distance as int) % 0x1_0000_0000int == i.distance as int);
}

/// Packs a queryable info for the wire.
pub fn qbl_info_to_z64(i: &QueryableInfo) -> (v: u64)
    ensures
        v == spec_qbl_info_z64(*i),
{
    let low: u64 = if i.complete {
        1
    } else {
        0
    };
    low + 2 * (i.distance as u64)
}

/// Unpacks a queryable info from the wire.
pub fn qbl_info_from_z64(v: u64) -> (i: QueryableInfo)
    ensures
        i == spec_qbl_info_from_z64(v),
{
    QueryableInfo { complete: v % 2 == 1, distance: ((v / 2) % 0x1_0000_0000) as u32 }
}

/// What a sender may do when a congested link cannot take a message.
#[derive(Clone, Copy, Debug, PartialEq, Eq, Structural)]
pub enum CongestionControl {
    Drop,
    Block,
}

/// Quality-of-service marker of a declare envelope: a priority level below
/// [`PRIORITY_LEVELS`], a congestion-control choice and an express bit.
#[derive(Clone, Copy, Debug, PartialEq, Eq, Structural)]
pub struct QoSType {
    pub priority: u8,
    pub congestion: CongestionControl,
    pub express: bool,
}

/// Count of priority levels; a priority is always below this.
pub const PRIORITY_LEVELS: u8 = 8;

/// The default priority level.
pub const PRIORITY_DEFAULT: u8 = 5;

/// Whether a quality-of-service marker is well formed.
pub open spec fn spec_qos_wf(q: QoSType) -> bool {
    q.priority < PRIORITY_LEVELS
}

/// The value an absent quality-of-service extension stands for.
pub open spec fn spec_qos_default() -> QoSType {
    QoSType { priority: PRIORITY_DEFAULT, congestion: CongestionControl::Drop, express: false }
}

impl Default for QoSType {
    fn default() -> (r: Self)
        ensures
            r == spec_qos_default(),
    {
        QoSType { priority: PRIORITY_DEFAULT, congestion: CongestionControl::Drop, express: false }
    }
}

/// The packed-integer form of a quality-of-service marker.
pub open spec fn spec_qos_z64(q: QoSType) -> u64 {
    (q.priority + if q.congestion == CongestionControl::Block {
        8int
    } else {
        0int
    } + if q.express {
        16int
    } else {
        0int
    }) as u64
}

/// The quality-of-service marker a packed integer stands for; bits beyond
/// the known ones are ignored.
pub open spec fn spec_qos_from_z64(v: u64) -> QoSType {
    QoSType {
        priority: (v % 8) as u8,
        congestion: if (v / 8) % 2 == 1 {
            CongestionControl::Block
        } else {
            CongestionControl::Drop
        },
        express: (v / 16) % 2 == 1,
    }
}

/// Packing a well-formed quality-of-service marker and unpacking it yields
/// it back.
pub proof fn lemma_qos_pack_unpack(q: QoSType)
    requires
        spec_qos_wf(q),
    ensures
        spec_qos_from_z64(spec_qos_z64(q)) == q,
{
    let c: int = if q.congestion == CongestionControl::Block {
        1
    } else {
        0
    };
    let e: int = if q.express {
        1
    } else {
        0
    };
    let v: int = q.priority + 8 * c + 16 * e;
    assert(v % 8 == q.priority);
    assert(v / 8 == c + 2 * e);
    assert(v / 16 == e);
}

/// Packs a quality-of-service marker for the wire.
pub fn qos_to_z64(q: &QoSType) -> (v: u64)
    requires
        spec_qos_wf(*q),
    ensures
        v == spec_qos_z64(*q),
{
    let c: u64 = if q.congestion == CongestionControl::Block {
        8
    } else {
        0
    };
    let e: u64 = if q.express {
        16
    } else {
        0
    };
    q.priority as u64 + c + e
}

/// Unpacks a quality-of-service marker from the wire.
pub fn qos_from_z64(v: u64) -> (q: QoSType)
    ensures
        q == spec_qos_from_z64(v),
        spec_qos_wf(q),
{
    QoSType {
        priority: (v % 8) as u8,
        congestion: if (v / 8) % 2 == 1 {
            CongestionControl::Block
        } else {
            CongestionControl::Drop
        },
        express: (v / 16) % 2 == 1,
    }
}

/// Largest identifier a timestamp may carry, in bytes.
pub const TIMESTAMP_ID_MAX_LEN: usize = 16;

/// A point in time paired with the identifier of the clock that produced it.
#[derive(Clone, Debug, PartialEq, Eq)]
pub struct Timestamp {
    pub time: u64,
    pub id: Vec<u8>,
}

/// Mathematical model of a [`Timestamp`].
#[verifier::ext_equal]
pub struct TimestampModel {
    pub time: u64,
    pub id: Seq<u8>,
}

impl View for Timestamp {
    type V = TimestampModel;

    open spec fn view(&self) -> TimestampModel {
        TimestampModel { time: self.time, id: self.id@ }
    }
}

/// Whether a timestamp is well formed: its clock identifier fits the wire
/// limit.
pub open spec fn spec_timestamp_wf(t: TimestampModel) -> bool {
    t.id.len() <= TIMESTAMP_ID_MAX_LEN
}

} // verus!
