//! The declaration message family: eight body kinds (declare/undeclare of
//! key expressions, subscribers, queryables and tokens) and the declare
//! envelope that wraps one body together with optional quality-of-service
//! and timestamp extensions.
//!
//! Every encoder's output is stated byte for byte and every decoder is
//! stated as a total function of its input; the round-trip and header-flag
//! laws stand beside the codecs.
use vstd::prelude::*;

use crate::common::{
    lemma_header_bits, spec_has_flag, spec_mid, DecodeError, FLAG_M, FLAG_N, FLAG_Z, MID_MASK,
};
use crate::ext::{
    lemma_skip_ext_body_len, lemma_z64_chain_single, read_z64_ext_chain, skip_ext_body, skip_exts,
    spec_dec_z64_ext_chain, spec_enc_ext, spec_ext_header, spec_ext_kind, spec_skip_ext_body,
    spec_skip_exts, write_ext, ZExtBody, ZExtBodyModel, EXT_FLAG_MORE,
};
use crate::fields::{
    lemma_qos_pack_unpack, qbl_info_from_z64, qbl_info_to_z64, qos_from_z64, qos_to_z64,
    spec_qbl_info_default, spec_qbl_info_from_z64, spec_qbl_info_z64, spec_qos_default,
    spec_qos_from_z64, spec_qos_wf, spec_qos_z64, spec_sub_info_default, spec_sub_info_from_z64,
    spec_sub_info_z64, spec_timestamp_wf, sub_info_from_z64, sub_info_to_z64, Mapping, QoSType,
    QueryableInfo, SubscriberInfo, Timestamp, TimestampModel, TIMESTAMP_ID_MAX_LEN,
};
use crate::wire_expr::{
    lemma_wire_expr_round_trip, read_bytes, read_wire_expr, spec_dec_wire_expr, spec_enc_wire_expr,
    spec_has_suffix, spec_wire_expr_wf, write_wire_expr, WireExpr, WireExprModel,
};
use crate::zint::{lemma_dec_zint_len, lemma_zint_round_trip, read_zint, spec_dec_zint, spec_enc_zint, write_zint};

verus! {

/// Message-kind identifier of a key-expression declaration.
pub const MID_D_KEYEXPR: u8 = 0x00;

/// Message-kind identifier of a key-expression undeclaration.
pub const MID_U_KEYEXPR: u8 = 0x01;

/// Message-kind identifier of a subscriber declaration.
pub const MID_D_SUBSCRIBER: u8 = 0x02;

/// Message-kind identifier of a subscriber undeclaration.
pub const MID_U_SUBSCRIBER: u8 = 0x03;

/// Message-kind identifier of a queryable declaration.
pub const MID_D_QUERYABLE: u8 = 0x04;

/// Message-kind identifier of a queryable undeclaration.
pub const MID_U_QUERYABLE: u8 = 0x05;

/// Message-kind identifier of a token declaration.
pub const MID_D_TOKEN: u8 = 0x06;

/// Message-kind identifier of a token undeclaration.
pub const MID_U_TOKEN: u8 = 0x07;

/// Message-kind identifier of the declare envelope.
pub const MID_DECLARE: u8 = 0x09;

/// Extension kind of the subscriber-info and queryable-info extensions
/// (identifier 1, packed-integer payload), within their message's namespace.
pub const EXT_INFO_KIND: u8 = 0x11;

/// Extension kind of the envelope's quality-of-service extension
/// (identifier 1, packed-integer payload).
pub const EXT_QOS_KIND: u8 = 0x11;

/// Extension kind of the envelope's timestamp extension (identifier 2,
/// length-prefixed payload).
pub const EXT_TSTAMP_KIND: u8 = 0x22;

// ---------------------------------------------------------------------------
// DeclareKeyExpr
// ---------------------------------------------------------------------------

/// Binds a numeric identifier to a key expression for the declaring session.
#[derive(Clone, Debug, PartialEq, Eq)]
pub struct DeclareKeyExpr {
    pub id: u16,
    pub wire_expr: WireExpr,
}

/// Mathematical model of a [`DeclareKeyExpr`].
#[verifier::ext_equal]
pub struct DeclareKeyExprModel {
    pub id: u16,
    pub wire_expr: WireExprModel,
}

impl View for DeclareKeyExpr {
    type V = DeclareKeyExprModel;

    open spec fn view(&self) -> DeclareKeyExprModel {
        DeclareKeyExprModel { id: self.id, wire_expr: self.wire_expr@ }
    }
}

/// Whether a key-expression declaration is well formed.
pub open spec fn spec_keyexpr_wf(x: DeclareKeyExprModel) -> bool {
    spec_wire_expr_wf(x.wire_expr)
}

/// Header byte of an encoded key-expression declaration.
pub open spec fn spec_keyexpr_header(x: DeclareKeyExprModel) -> u8 {
    MID_D_KEYEXPR | (if spec_has_suffix(x.wire_expr) {
        FLAG_N
    } else {
        0
    })
}

/// Byte sequence of an encoded key-expression declaration.
pub open spec fn spec_enc_keyexpr(x: DeclareKeyExprModel) -> Seq<u8> {
    seq![spec_keyexpr_header(x)] + spec_enc_zint(x.id as u64) + spec_enc_wire_expr(x.wire_expr)
}

/// Functional decoder of a key-expression declaration.
pub open spec fn spec_dec_keyexpr(s: Seq<u8>) -> Result<(DeclareKeyExprModel, int), DecodeError> {
    if s.len() == 0 {
        Err(DecodeError::Truncated)
    } else {
        let h = s[0];
        if spec_mid(h) != MID_D_KEYEXPR {
            Err(DecodeError::Format)
        } else {
            match spec_dec_zint(s.skip(1)) {
                Ok(t) => {
                    if t.0 > u16::MAX {
                        Err(DecodeError::Format)
                    } else {
                        match spec_dec_wire_expr(s.skip(1 + t.1), spec_has_flag(h, FLAG_N)) {
                            Ok(w) => {
                                let x = DeclareKeyExprModel {
                                    id: t.0 as u16,
                                    wire_expr: w.0,
                                };
                                if spec_has_flag(h, FLAG_Z) {
                                    match spec_skip_exts(s.skip(1 + t.1 + w.1)) {
                                        Ok(n) => Ok((x, 1 + t.1 + w.1 + n)),
                                        Err(e) => Err(e),
                                    }
                                } else {
                                    Ok((x, 1 + t.1 + w.1))
                                }
                            },
                            Err(e) => Err(e),
                        }
                    }
                },
                Err(e) => Err(e),
            }
        }
    }
}

/// Round trip: decoding an encoded key-expression declaration, whatever
/// follows it, yields it back.
pub proof fn lemma_keyexpr_round_trip(x: DeclareKeyExprModel, rest: Seq<u8>)
    requires
        spec_keyexpr_wf(x),
    ensures
        spec_dec_keyexpr(spec_enc_keyexpr(x) + rest) == Ok::<(DeclareKeyExprModel, int), DecodeError>(
            (x, spec_enc_keyexpr(x).len() as int),
        ),
{
    let s = spec_enc_keyexpr(x) + rest;
    let h = spec_keyexpr_header(x);
    let nb: u8 = if spec_has_suffix(x.wire_expr) {
        FLAG_N
    } else {
        0
    };
    assert((nb == 0 || nb == 0x20) ==> ((0x00u8 | nb) & 0x1f == 0x00 && (((0x00u8 | nb) & 0x20
        != 0) <==> nb == 0x20) && (0x00u8 | nb) & 0x80 == 0)) by (bit_vector);
    assert(s[0] == h);
    let e_id = spec_enc_zint(x.id as u64);
    let e_we = spec_enc_wire_expr(x.wire_expr);
    lemma_zint_round_trip(x.id as u64, e_we + rest);
    assert(s.skip(1) =~= e_id + (e_we + rest));
    lemma_wire_expr_round_trip(x.wire_expr, rest);
    assert(s.skip(1 + e_id.len() as int) =~= e_we + rest);
    let dec = spec_dec_keyexpr(s);
    assert(dec is Ok);
    assert(dec->Ok_0.0 =~= x);
}

/// Appends an encoded key-expression declaration to `buf`.
pub fn write_declare_key_expr(buf: &mut Vec<u8>, x: &DeclareKeyExpr)
    ensures
        final(buf)@ == old(buf)@ + spec_enc_keyexpr(x@),
{
    let nb: u8 = if x.wire_expr.has_suffix() {
        FLAG_N
    } else {
        0
    };
    buf.push(MID_D_KEYEXPR | nb);
    write_zint(buf, x.id as u64);
    write_wire_expr(buf, &x.wire_expr);
    assert(buf@ =~= old(buf)@ + spec_enc_keyexpr(x@));
}

/// Reads a key-expression declaration from `buf` starting at `pos`; on
/// success returns the message and the count of bytes consumed.  A header
/// byte of any other message kind is rejected as a format error.
pub fn read_declare_key_expr(buf: &Vec<u8>, pos: usize) -> (r: Result<
    (DeclareKeyExpr, usize),
    DecodeError,
>)
    requires
        pos <= buf.len(),
    ensures
        match r {
            Ok(t) => {
                &&& pos + t.1 <= buf.len()
                &&& spec_dec_keyexpr(buf@.skip(pos as int)) == Ok::<
                    (DeclareKeyExprModel, int),
                    DecodeError,
                >((t.0@, t.1 as int))
            },
            Err(e) => spec_dec_keyexpr(buf@.skip(pos as int)) == Err::<
                (DeclareKeyExprModel, int),
                DecodeError,
            >(e),
        },
        pos < buf.len() && spec_mid(buf@[pos as int]) != MID_D_KEYEXPR ==> r == Err::<
            (DeclareKeyExpr, usize),
            DecodeError,
        >(DecodeError::Format),
{
    let ghost s = buf@.skip(pos as int);
    if pos == buf.len() {
        return Err(DecodeError::Truncated);
    }
    let h = buf[pos];
    assert(s[0] == h);
    if h & MID_MASK != MID_D_KEYEXPR {
        return Err(DecodeError::Format);
    }
    proof {
        assert(s.skip(1) =~= buf@.skip(pos as int + 1));
    }
    let (id_z, n1) = match read_zint(buf, pos + 1) {
        Ok(t) => t,
        Err(e) => { return Err(e); },
    };
    if id_z > u16::MAX as u64 {
        return Err(DecodeError::Format);
    }
    proof {
        assert(s.skip(1 + n1) =~= buf@.skip(pos as int + 1 + n1));
    }
    let (we, n2) = match read_wire_expr(buf, pos + 1 + n1, h & FLAG_N != 0) {
        Ok(t) => t,
        Err(e) => { return Err(e); },
    };
    let x = DeclareKeyExpr { id: id_z as u16, wire_expr: we };
    if h & FLAG_Z != 0 {
        proof {
            assert(s.skip(1 + n1 + n2) =~= buf@.skip(pos as int + 1 + n1 + n2));
        }
        match skip_exts(buf, pos + 1 + n1 + n2) {
            Ok(n3) => Ok((x, 1 + n1 + n2 + n3)),
            Err(e) => Err(e),
        }
    } else {
        Ok((x, 1 + n1 + n2))
    }
}

// ---------------------------------------------------------------------------
// The Undeclare family: messages that carry an identifier and nothing else
// ---------------------------------------------------------------------------

/// Byte sequence of an encoded identifier-only message of kind `mid_v`.
pub open spec fn spec_enc_undeclare(mid_v: u8, id: u64) -> Seq<u8> {
    seq![mid_v] + spec_enc_zint(id)
}

/// Functional decoder of an identifier-only message of kind `mid_v` whose
/// identifier must not exceed `max`.  An extension chain flagged by `Z` is
/// skipped whole: such messages declare no extensions of their own, but
/// unknown skippable ones must still be consumed exactly.
pub open spec fn spec_dec_undeclare(s: Seq<u8>, mid_v: u8, max: u64) -> Result<
    (u64, int),
    DecodeError,
> {
    if s.len() == 0 {
        Err(DecodeError::Truncated)
    } else {
        let h = s[0];
        if spec_mid(h) != mid_v {
            Err(DecodeError::Format)
        } else {
            match spec_dec_zint(s.skip(1)) {
                Ok(t) => {
                    if t.0 > max {
                        Err(DecodeError::Format)
                    } else if spec_has_flag(h, FLAG_Z) {
                        match spec_skip_exts(s.skip(1 + t.1)) {
                            Ok(n) => Ok((t.0, 1 + t.1 + n)),
                            Err(e) => Err(e),
                        }
                    } else {
                        Ok((t.0, 1 + t.1))
                    }
                },
                Err(e) => Err(e),
            }
        }
    }
}

/// Round trip for the identifier-only messages.
pub proof fn lemma_undeclare_round_trip(mid_v: u8, id: u64, max: u64, rest: Seq<u8>)
    requires
        mid_v <= MID_MASK,
        id <= max,
    ensures
        spec_dec_undeclare(spec_enc_undeclare(mid_v, id) + rest, mid_v, max) == Ok::<
            (u64, int),
            DecodeError,
        >((id, spec_enc_undeclare(mid_v, id).len() as int)),
{
    let s = spec_enc_undeclare(mid_v, id) + rest;
    assert(s[0] == mid_v);
    assert(mid_v <= 0x1f ==> mid_v & 0x1f == mid_v && mid_v & 0x80 == 0) by (bit_vector);
    lemma_zint_round_trip(id, rest);
    assert(s.skip(1) =~= spec_enc_zint(id) + rest);
}

/// Appends an identifier-only message of kind `mid_v` to `buf`.
fn write_undeclare_raw(buf: &mut Vec<u8>, mid_v: u8, id: u64)
    ensures
        final(buf)@ == old(buf)@ + spec_enc_undeclare(mid_v, id),
{
    buf.push(mid_v);
    write_zint(buf, id);
    assert(buf@ =~= old(buf)@ + spec_enc_undeclare(mid_v, id));
}

/// Reads an identifier-only message of kind `mid_v` from `buf` at `pos`.
fn read_undeclare_raw(buf: &Vec<u8>, pos: usize, mid_v: u8, max: u64) -> (r: Result<
    (u64, usize),
    DecodeError,
>)
    requires
        pos <= buf.len(),
    ensures
        match r {
            Ok(t) => {
                &&& pos + t.1 <= buf.len()
                &&& t.0 <= max
                &&& spec_dec_undeclare(buf@.skip(pos as int), mid_v, max) == Ok::<
                    (u64, int),
                    DecodeError,
                >((t.0, t.1 as int))
            },
            Err(e) => spec_dec_undeclare(buf@.skip(pos as int), mid_v, max) == Err::<
                (u64, int),
                DecodeError,
            >(e),
        },
{
    let ghost s = buf@.skip(pos as int);
    if pos == buf.len() {
        return Err(DecodeError::Truncated);
    }
    let h = buf[pos];
    assert(s[0] == h);
    if h & MID_MASK != mid_v {
        return Err(DecodeError::Format);
    }
    proof {
        assert(s.skip(1) =~= buf@.skip(pos as int + 1));
    }
    let (id_z, n1) = match read_zint(buf, pos + 1) {
        Ok(t) => t,
        Err(e) => { return Err(e); },
    };
    if id_z > max {
        return Err(DecodeError::Format);
    }
    if h & FLAG_Z != 0 {
        proof {
            assert(s.skip(1 + n1) =~= buf@.skip(pos as int + 1 + n1));
        }
        match skip_exts(buf, pos + 1 + n1) {
            Ok(n2) => Ok((id_z, 1 + n1 + n2)),
            Err(e) => Err(e),
        }
    } else {
        Ok((id_z, 1 + n1))
    }
}

/// Withdraws a key-expression binding.
#[derive(Clone, Copy, Debug, PartialEq, Eq, Structural)]
pub struct UndeclareKeyExpr {
    pub id: u16,
}

/// Withdraws a subscriber declaration.
#[derive(Clone, Copy, Debug, PartialEq, Eq, Structural)]
pub struct UndeclareSubscriber {
    pub id: u32,
}

/// Withdraws a queryable declaration.
#[derive(Clone, Copy, Debug, PartialEq, Eq, Structural)]
pub struct UndeclareQueryable {
    pub id: u32,
}

/// Withdraws a token declaration.
#[derive(Clone, Copy, Debug, PartialEq, Eq, Structural)]
pub struct UndeclareToken {
    pub id: u32,
}

/// Byte sequence of an encoded key-expression undeclaration.
pub open spec fn spec_enc_undeclare_key_expr(x: UndeclareKeyExpr) -> Seq<u8> {
    spec_enc_undeclare(MID_U_KEYEXPR, x.id as u64)
}

/// Functional decoder of a key-expression undeclaration.
pub open spec fn spec_dec_undeclare_key_expr(s: Seq<u8>) -> Result<
    (UndeclareKeyExpr, int),
    DecodeError,
> {
    match spec_dec_undeclare(s, MID_U_KEYEXPR, u16::MAX as u64) {
        Ok(t) => Ok((UndeclareKeyExpr { id: t.0 as u16 }, t.1)),
        Err(e) => Err(e),
    }
}

/// Byte sequence of an encoded subscriber undeclaration.
pub open spec fn spec_enc_undeclare_subscriber(x: UndeclareSubscriber) -> Seq<u8> {
    spec_enc_undeclare(MID_U_SUBSCRIBER, x.id as u64)
}

/// Functional decoder of a subscriber undeclaration.
pub open spec fn spec_dec_undeclare_subscriber(s: Seq<u8>) -> Result<
    (UndeclareSubscriber, int),
    DecodeError,
> {
    match spec_dec_undeclare(s, MID_U_SUBSCRIBER, u32::MAX as u64) {
        Ok(t) => Ok((UndeclareSubscriber { id: t.0 as u32 }, t.1)),
        Err(e) => Err(e),
    }
}

/// Byte sequence of an encoded queryable undeclaration.
pub open spec fn spec_enc_undeclare_queryable(x: UndeclareQueryable) -> Seq<u8> {
    spec_enc_undeclare(MID_U_QUERYABLE, x.id as u64)
}

/// Functional decoder of a queryable undeclaration.
pub open spec fn spec_dec_undeclare_queryable(s: Seq<u8>) -> Result<
    (UndeclareQueryable, int),
    DecodeError,
> {
    match spec_dec_undeclare(s, MID_U_QUERYABLE, u32::MAX as u64) {
        Ok(t) => Ok((UndeclareQueryable { id: t.0 as u32 }, t.1)),
        Err(e) => Err(e),
    }
}

/// Byte sequence of an encoded token undeclaration.
pub open spec fn spec_enc_undeclare_token(x: UndeclareToken) -> Seq<u8> {
    spec_enc_undeclare(MID_U_TOKEN, x.id as u64)
}

/// Functional decoder of a token undeclaration.
pub open spec fn spec_dec_undeclare_token(s: Seq<u8>) -> Result<
    (UndeclareToken, int),
    DecodeError,
> {
    match spec_dec_undeclare(s, MID_U_TOKEN, u32::MAX as u64) {
        Ok(t) => Ok((UndeclareToken { id: t.0 as u32 }, t.1)),
        Err(e) => Err(e),
    }
}

/// Appends an encoded key-expression undeclaration to `buf`.
pub fn write_undeclare_key_expr(buf: &mut Vec<u8>, x: &UndeclareKeyExpr)
    ensures
        final(buf)@ == old(buf)@ + spec_enc_undeclare_key_expr(*x),
{
    write_undeclare_raw(buf, MID_U_KEYEXPR, x.id as u64);
}

/// Reads a key-expression undeclaration from `buf` starting at `pos`.
pub fn read_undeclare_key_expr(buf: &Vec<u8>, pos: usize) -> (r: Result<
    (UndeclareKeyExpr, usize),
    DecodeError,
>)
    requires
        pos <= buf.len(),
    ensures
        match r {
            Ok(t) => {
                &&& pos + t.1 <= buf.len()
                &&& spec_dec_undeclare_key_expr(buf@.skip(pos as int)) == Ok::<
                    (UndeclareKeyExpr, int),
                    DecodeError,
                >((t.0, t.1 as int))
            },
            Err(e) => spec_dec_undeclare_key_expr(buf@.skip(pos as int)) == Err::<
                (UndeclareKeyExpr, int),
                DecodeError,
            >(e),
        },
{
    match read_undeclare_raw(buf, pos, MID_U_KEYEXPR, u16::MAX as u64) {
        Ok((id, n)) => Ok((UndeclareKeyExpr { id: id as u16 }, n)),
        Err(e) => Err(e),
    }
}

/// Appends an encoded subscriber undeclaration to `buf`.
pub fn write_undeclare_subscriber(buf: &mut Vec<u8>, x: &UndeclareSubscriber)
    ensures
        final(buf)@ == old(buf)@ + spec_enc_undeclare_subscriber(*x),
{
    write_undeclare_raw(buf, MID_U_SUBSCRIBER, x.id as u64);
}

/// Reads a subscriber undeclaration from `buf` starting at `pos`.
pub fn read_undeclare_subscriber(buf: &Vec<u8>, pos: usize) -> (r: Result<
    (UndeclareSubscriber, usize),
    DecodeError,
>)
    requires
        pos <= buf.len(),
    ensures
        match r {
            Ok(t) => {
                &&& pos + t.1 <= buf.len()
                &&& spec_dec_undeclare_subscriber(buf@.skip(pos as int)) == Ok::<
                    (UndeclareSubscriber, int),
                    DecodeError,
                >((t.0, t.1 as int))
            },
            Err(e) => spec_dec_undeclare_subscriber(buf@.skip(pos as int)) == Err::<
                (UndeclareSubscriber, int),
                DecodeError,
            >(e),
        },
{
    match read_undeclare_raw(buf, pos, MID_U_SUBSCRIBER, u32::MAX as u64) {
        Ok((id, n)) => Ok((UndeclareSubscriber { id: id as u32 }, n)),
        Err(e) => Err(e),
    }
}

/// Appends an encoded queryable undeclaration to `buf`.
pub fn write_undeclare_queryable(buf: &mut Vec<u8>, x: &UndeclareQueryable)
    ensures
        final(buf)@ == old(buf)@ + spec_enc_undeclare_queryable(*x),
{
    write_undeclare_raw(buf, MID_U_QUERYABLE, x.id as u64);
}

/// Reads a queryable undeclaration from `buf` starting at `pos`.
pub fn read_undeclare_queryable(buf: &Vec<u8>, pos: usize) -> (r: Result<
    (UndeclareQueryable, usize),
    DecodeError,
>)
    requires
        pos <= buf.len(),
    ensures
        match r {
            Ok(t) => {
                &&& pos + t.1 <= buf.len()
                &&& spec_dec_undeclare_queryable(buf@.skip(pos as int)) == Ok::<
                    (UndeclareQueryable, int),
                    DecodeError,
                >((t.0, t.1 as int))
            },
            Err(e) => spec_dec_undeclare_queryable(buf@.skip(pos as int)) == Err::<
                (UndeclareQueryable, int),
                DecodeError,
            >(e),
        },
{
    match read_undeclare_raw(buf, pos, MID_U_QUERYABLE, u32::MAX as u64) {
        Ok((id, n)) => Ok((UndeclareQueryable { id: id as u32 }, n)),
        Err(e) => Err(e),
    }
}

/// Appends an encoded token undeclaration to `buf`.
pub fn write_undeclare_token(buf: &mut Vec<u8>, x: &UndeclareToken)
    ensures
        final(buf)@ == old(buf)@ + spec_enc_undeclare_token(*x),
{
    write_undeclare_raw(buf, MID_U_TOKEN, x.id as u64);
}

/// Reads a token undeclaration from `buf` starting at `pos`.
pub fn read_undeclare_token(buf: &Vec<u8>, pos: usize) -> (r: Result<
    (UndeclareToken, usize),
    DecodeError,
>)
    requires
        pos <= buf.len(),
    ensures
        match r {
            Ok(t) => {
                &&& pos + t.1 <= buf.len()
                &&& spec_dec_undeclare_token(buf@.skip(pos as int)) == Ok::<
                    (UndeclareToken, int),
                    DecodeError,
                >((t.0, t.1 as int))
            },
            Err(e) => spec_dec_undeclare_token(buf@.skip(pos as int)) == Err::<
                (UndeclareToken, int),
                DecodeError,
            >(e),
        },
{
    match read_undeclare_raw(buf, pos, MID_U_TOKEN, u32::MAX as u64) {
        Ok((id, n)) => Ok((UndeclareToken { id: id as u32 }, n)),
        Err(e) => Err(e),
    }
}

// ---------------------------------------------------------------------------
// The declare-item family: messages that carry an identifier, a wire
// expression, a mapping, and at most one declared packed-integer extension
// ---------------------------------------------------------------------------

/// Header byte of an encoded declare item.
pub open spec fn spec_item_header(
    mid_v: u8,
    we: WireExprModel,
    mapping: Mapping,
    has_ext: bool,
) -> u8 {
    mid_v | (if spec_has_suffix(we) {
        FLAG_N
    } else {
        0
    }) | (if mapping == Mapping::Sender {
        FLAG_M
    } else {
        0
    }) | (if has_ext {
        FLAG_Z
    } else {
        0
    })
}

/// Byte sequence of an encoded declare item of kind `mid_v`: header,
/// identifier, wire expression, then the declared extension when one is
/// present.
pub open spec fn spec_enc_item(
    mid_v: u8,
    id: u32,
    we: WireExprModel,
    mapping: Mapping,
    ext: Option<u64>,
) -> Seq<u8> {
    seq![spec_item_header(mid_v, we, mapping, ext is Some)] + spec_enc_zint(id as u64)
        + spec_enc_wire_expr(we) + match ext {
        Some(v) => spec_enc_ext(EXT_INFO_KIND, false, ZExtBodyModel::Z64(v)),
        None => Seq::empty(),
    }
}

/// Functional decoder of a declare item of kind `mid_v`.  When `with_info`
/// holds, the message declares the packed-integer info extension and an
/// extension chain is decoded for it; otherwise a flagged chain is skipped
/// whole.
pub open spec fn spec_dec_item(s: Seq<u8>, mid_v: u8, with_info: bool) -> Result<
    ((u32, WireExprModel, Mapping, Option<u64>), int),
    DecodeError,
> {
    if s.len() == 0 {
        Err(DecodeError::Truncated)
    } else {
        let h = s[0];
        if spec_mid(h) != mid_v {
            Err(DecodeError::Format)
        } else {
            match spec_dec_zint(s.skip(1)) {
                Ok(t) => {
                    if t.0 > u32::MAX {
                        Err(DecodeError::Format)
                    } else {
                        match spec_dec_wire_expr(s.skip(1 + t.1), spec_has_flag(h, FLAG_N)) {
                            Ok(w) => {
                                let mapping = if spec_has_flag(h, FLAG_M) {
                                    Mapping::Sender
                                } else {
                                    Mapping::Receiver
                                };
                                let base = 1 + t.1 + w.1;
                                if spec_has_flag(h, FLAG_Z) {
                                    if with_info {
                                        match spec_dec_z64_ext_chain(
                                            s.skip(base),
                                            EXT_INFO_KIND,
                                            None,
                                        ) {
                                            Ok(c) => Ok(
                                                ((t.0 as u32, w.0, mapping, c.0), base + c.1),
                                            ),
                                            Err(e) => Err(e),
                                        }
                                    } else {
                                        match spec_skip_exts(s.skip(base)) {
                                            Ok(n) => Ok(
                                                ((t.0 as u32, w.0, mapping, None), base + n),
                                            ),
                                            Err(e) => Err(e),
                                        }
                                    }
                                } else {
                                    Ok(((t.0 as u32, w.0, mapping, None), base))
                                }
                            },
                            Err(e) => Err(e),
                        }
                    }
                },
                Err(e) => Err(e),
            }
        }
    }
}

/// Round trip for the declare items.
pub proof fn lemma_item_round_trip(
    mid_v: u8,
    id: u32,
    we: WireExprModel,
    mapping: Mapping,
    ext: Option<u64>,
    with_info: bool,
    rest: Seq<u8>,
)
    requires
        mid_v <= MID_MASK,
        spec_wire_expr_wf(we),
        ext is Some ==> with_info,
    ensures
        spec_dec_item(spec_enc_item(mid_v, id, we, mapping, ext) + rest, mid_v, with_info) == Ok::<
            ((u32, WireExprModel, Mapping, Option<u64>), int),
            DecodeError,
        >(((id, we, mapping, ext), spec_enc_item(mid_v, id, we, mapping, ext).len() as int)),
{
    let s = spec_enc_item(mid_v, id, we, mapping, ext) + rest;
    let nb: u8 = if spec_has_suffix(we) {
        FLAG_N
    } else {
        0
    };
    let mb: u8 = if mapping == Mapping::Sender {
        FLAG_M
    } else {
        0
    };
    let zb: u8 = if ext is Some {
        FLAG_Z
    } else {
        0
    };
    let h = spec_item_header(mid_v, we, mapping, ext is Some);
    assert(h == mid_v | nb | mb | zb);
    lemma_header_bits(mid_v, nb, mb, zb);
    assert(s[0] == h);
    let e_id = spec_enc_zint(id as u64);
    let e_we = spec_enc_wire_expr(we);
    let e_ext = match ext {
        Some(v) => spec_enc_ext(EXT_INFO_KIND, false, ZExtBodyModel::Z64(v)),
        None => Seq::<u8>::empty(),
    };
    lemma_zint_round_trip(id as u64, e_we + (e_ext + rest));
    assert(s.skip(1) =~= e_id + (e_we + (e_ext + rest)));
    lemma_wire_expr_round_trip(we, e_ext + rest);
    assert(s.skip(1 + e_id.len() as int) =~= e_we + (e_ext + rest));
    let base = 1 + e_id.len() as int + e_we.len() as int;
    match ext {
        Some(v) => {
            assert(0x11u8 & (0x40u8 | 0x80u8) == 0 && 0x11u8 & 0x30 == 0x10) by (bit_vector);
            lemma_z64_chain_single(EXT_INFO_KIND, v, rest, None);
            assert(s.skip(base) =~= e_ext + rest);
        },
        None => {
        },
    }
    let dec = spec_dec_item(s, mid_v, with_info);
    assert(dec is Ok);
    assert(dec->Ok_0.0.1 =~= we);
}

/// Appends an encoded declare item of kind `mid_v` to `buf`.
fn write_item_raw(buf: &mut Vec<u8>, mid_v: u8, id: u32, we: &WireExpr, mapping: Mapping, ext: Option<u64>)
    ensures
        final(buf)@ == old(buf)@ + spec_enc_item(mid_v, id, we@, mapping, ext),
{
    let nb: u8 = if we.has_suffix() {
        FLAG_N
    } else {
        0
    };
    let mb: u8 = if mapping == Mapping::Sender {
        FLAG_M
    } else {
        0
    };
    let zb: u8 = if ext.is_some() {
        FLAG_Z
    } else {
        0
    };
    buf.push(mid_v | nb | mb | zb);
    write_zint(buf, id as u64);
    write_wire_expr(buf, we);
    match ext {
        Some(v) => {
            proof {
                assert(0x11u8 & 0x80 == 0 && 0x11u8 & 0x30 == 0x10) by (bit_vector);
            }
            write_ext(buf, EXT_INFO_KIND, false, &ZExtBody::Z64(v));
        },
        None => {
        },
    }
    assert(buf@ =~= old(buf)@ + spec_enc_item(mid_v, id, we@, mapping, ext));
}

/// Reads a declare item of kind `mid_v` from `buf` starting at `pos`.
fn read_item_raw(buf: &Vec<u8>, pos: usize, mid_v: u8, with_info: bool) -> (r: Result<
    ((u32, WireExpr, Mapping, Option<u64>), usize),
    DecodeError,
>)
    requires
        pos <= buf.len(),
    ensures
        match r {
            Ok(t) => {
                &&& pos + t.1 <= buf.len()
                &&& spec_dec_item(buf@.skip(pos as int), mid_v, with_info) == Ok::<
                    ((u32, WireExprModel, Mapping, Option<u64>), int),
                    DecodeError,
                >(((t.0.0, t.0.1@, t.0.2, t.0.3), t.1 as int))
            },
            Err(e) => spec_dec_item(buf@.skip(pos as int), mid_v, with_info) == Err::<
                ((u32, WireExprModel, Mapping, Option<u64>), int),
                DecodeError,
            >(e),
        },
{
    let ghost s = buf@.skip(pos as int);
    if pos == buf.len() {
        return Err(DecodeError::Truncated);
    }
    let h = buf[pos];
    assert(s[0] == h);
    if h & MID_MASK != mid_v {
        return Err(DecodeError::Format);
    }
    proof {
        assert(s.skip(1) =~= buf@.skip(pos as int + 1));
    }
    let (id_z, n1) = match read_zint(buf, pos + 1) {
        Ok(t) => t,
        Err(e) => { return Err(e); },
    };
    if id_z > u32::MAX as u64 {
        return Err(DecodeError::Format);
    }
    proof {
        assert(s.skip(1 + n1) =~= buf@.skip(pos as int + 1 + n1));
    }
    let (we, n2) = match read_wire_expr(buf, pos + 1 + n1, h & FLAG_N != 0) {
        Ok(t) => t,
        Err(e) => { return Err(e); },
    };
    let mapping = if h & FLAG_M != 0 {
        Mapping::Sender
    } else {
        Mapping::Receiver
    };
    let id: u32 = id_z as u32;
    if h & FLAG_Z != 0 {
        proof {
            assert(s.skip(1 + n1 + n2) =~= buf@.skip(pos as int + 1 + n1 + n2));
        }
        if with_info {
            match read_z64_ext_chain(buf, pos + 1 + n1 + n2, EXT_INFO_KIND, None) {
                Ok((opt, n3)) => Ok(((id, we, mapping, opt), 1 + n1 + n2 + n3)),
                Err(e) => Err(e),
            }
        } else {
            match skip_exts(buf, pos + 1 + n1 + n2) {
                Ok(n3) => Ok(((id, we, mapping, None), 1 + n1 + n2 + n3)),
                Err(e) => Err(e),
            }
        }
    } else {
        Ok(((id, we, mapping, None), 1 + n1 + n2))
    }
}

// ---------------------------------------------------------------------------
// DeclareSubscriber
// ---------------------------------------------------------------------------

/// Registers a subscription on a key expression.
#[derive(Clone, Debug, PartialEq, Eq)]
pub struct DeclareSubscriber {
    pub id: u32,
    pub wire_expr: WireExpr,
    pub mapping: Mapping,
    pub ext_info: SubscriberInfo,
}

/// Mathematical model of a [`DeclareSubscriber`].
#[verifier::ext_equal]
pub struct DeclareSubscriberModel {
    pub id: u32,
    pub wire_expr: WireExprModel,
    pub mapping: Mapping,
    pub ext_info: SubscriberInfo,
}

impl View for DeclareSubscriber {
    type V = DeclareSubscriberModel;

    open spec fn view(&self) -> DeclareSubscriberModel {
        DeclareSubscriberModel {
            id: self.id,
            wire_expr: self.wire_expr@,
            mapping: self.mapping,
            ext_info: self.ext_info,
        }
    }
}

/// Whether a subscriber declaration is well formed.
pub open spec fn spec_subscriber_wf(x: DeclareSubscriberModel) -> bool {
    spec_wire_expr_wf(x.wire_expr)
}

/// The extension value a subscriber declaration puts on the wire: the packed
/// info when it differs from the default, nothing otherwise.
pub open spec fn spec_subscriber_ext(x: DeclareSubscriberModel) -> Option<u64> {
    if x.ext_info != spec_sub_info_default() {
        Some(spec_sub_info_z64(x.ext_info))
    } else {
        None
    }
}

/// Byte sequence of an encoded subscriber declaration.
pub open spec fn spec_enc_subscriber(x: DeclareSubscriberModel) -> Seq<u8> {
    spec_enc_item(MID_D_SUBSCRIBER, x.id, x.wire_expr, x.mapping, spec_subscriber_ext(x))
}

/// Functional decoder of a subscriber declaration.
pub open spec fn spec_dec_subscriber(s: Seq<u8>) -> Result<
    (DeclareSubscriberModel, int),
    DecodeError,
> {
    match spec_dec_item(s, MID_D_SUBSCRIBER, true) {
        Ok(t) => Ok(
            (
                DeclareSubscriberModel {
                    id: t.0.0,
                    wire_expr: t.0.1,
                    mapping: t.0.2,
                    ext_info: match t.0.3 {
                        Some(v) => spec_sub_info_from_z64(v),
                        None => spec_sub_info_default(),
                    },
                },
                t.1,
            ),
        ),
        Err(e) => Err(e),
    }
}

/// Round trip: decoding an encoded subscriber declaration, whatever follows
/// it, yields it back.
pub proof fn lemma_subscriber_round_trip(x: DeclareSubscriberModel, rest: Seq<u8>)
    requires
        spec_subscriber_wf(x),
    ensures
        spec_dec_subscriber(spec_enc_subscriber(x) + rest) == Ok::<
            (DeclareSubscriberModel, int),
            DecodeError,
        >((x, spec_enc_subscriber(x).len() as int)),
{
    lemma_item_round_trip(
        MID_D_SUBSCRIBER,
        x.id,
        x.wire_expr,
        x.mapping,
        spec_subscriber_ext(x),
        true,
        rest,
    );
    crate::fields::lemma_sub_info_pack_unpack(x.ext_info);
    let dec = spec_dec_subscriber(spec_enc_subscriber(x) + rest);
    assert(dec is Ok);
    assert(dec->Ok_0.0 =~= x);
}

/// Appends an encoded subscriber declaration to `buf`.
pub fn write_declare_subscriber(buf: &mut Vec<u8>, x: &DeclareSubscriber)
    ensures
        final(buf)@ == old(buf)@ + spec_enc_subscriber(x@),
{
    let ext: Option<u64> = if x.ext_info != SubscriberInfo::default() {
        Some(sub_info_to_z64(&x.ext_info))
    } else {
        None
    };
    write_item_raw(buf, MID_D_SUBSCRIBER, x.id, &x.wire_expr, x.mapping, ext);
}

/// Reads a subscriber declaration from `buf` starting at `pos`; on success
/// returns the message and the count of bytes consumed.  A header byte of
/// any other message kind is rejected as a format error.
pub fn read_declare_subscriber(buf: &Vec<u8>, pos: usize) -> (r: Result<
    (DeclareSubscriber, usize),
    DecodeError,
>)
    requires
        pos <= buf.len(),
    ensures
        match r {
            Ok(t) => {
                &&& pos + t.1 <= buf.len()
                &&& spec_dec_subscriber(buf@.skip(pos as int)) == Ok::<
                    (DeclareSubscriberModel, int),
                    DecodeError,
                >((t.0@, t.1 as int))
            },
            Err(e) => spec_dec_subscriber(buf@.skip(pos as int)) == Err::<
                (DeclareSubscriberModel, int),
                DecodeError,
            >(e),
        },
        pos < buf.len() && spec_mid(buf@[pos as int]) != MID_D_SUBSCRIBER ==> r == Err::<
            (DeclareSubscriber, usize),
            DecodeError,
        >(DecodeError::Format),
{
    match read_item_raw(buf, pos, MID_D_SUBSCRIBER, true) {
        Ok(((id, we, mapping, opt), n)) => {
            let ext_info = match opt {
                Some(v) => sub_info_from_z64(v),
                None => SubscriberInfo::default(),
            };
            Ok((DeclareSubscriber { id, wire_expr: we, mapping, ext_info }, n))
        },
        Err(e) => Err(e),
    }
}

// ---------------------------------------------------------------------------
// DeclareQueryable
// ---------------------------------------------------------------------------

/// Registers a queryable on a key expression.
#[derive(Clone, Debug, PartialEq, Eq)]
pub struct DeclareQueryable {
    pub id: u32,
    pub wire_expr: WireExpr,
    pub mapping: Mapping,
    pub ext_info: QueryableInfo,
}

/// Mathematical model of a [`DeclareQueryable`].
#[verifier::ext_equal]
pub struct DeclareQueryableModel {
    pub id: u32,
    pub wire_expr: WireExprModel,
    pub mapping: Mapping,
    pub ext_info: QueryableInfo,
}

impl View for DeclareQueryable {
    type V = DeclareQueryableModel;

    open spec fn view(&self) -> DeclareQueryableModel {
        DeclareQueryableModel {
            id: self.id,
            wire_expr: self.wire_expr@,
            mapping: self.mapping,
            ext_info: self.ext_info,
        }
    }
}

/// Whether a queryable declaration is well formed.
pub open spec fn spec_queryable_wf(x: DeclareQueryableModel) -> bool {
    spec_wire_expr_wf(x.wire_expr)
}

/// The extension value a queryable declaration puts on the wire.
pub open spec fn spec_queryable_ext(x: DeclareQueryableModel) -> Option<u64> {
    if x.ext_info != spec_qbl_info_default() {
        Some(spec_qbl_info_z64(x.ext_info))
    } else {
        None
    }
}

/// Byte sequence of an encoded queryable declaration.
pub open spec fn spec_enc_queryable(x: DeclareQueryableModel) -> Seq<u8> {
    spec_enc_item(MID_D_QUERYABLE, x.id, x.wire_expr, x.mapping, spec_queryable_ext(x))
}

/// Functional decoder of a queryable declaration.
pub open spec fn spec_dec_queryable(s: Seq<u8>) -> Result<
    (DeclareQueryableModel, int),
    DecodeError,
> {
    match spec_dec_item(s, MID_D_QUERYABLE, true) {
        Ok(t) => Ok(
            (
                DeclareQueryableModel {
                    id: t.0.0,
                    wire_expr: t.0.1,
                    mapping: t.0.2,
                    ext_info: match t.0.3 {
                        Some(v) => spec_qbl_info_from_z64(v),
                        None => spec_qbl_info_default(),
                    },
                },
                t.1,
            ),
        ),
        Err(e) => Err(e),
    }
}

/// Round trip: decoding an encoded queryable declaration, whatever follows
/// it, yields it back.
pub proof fn lemma_queryable_round_trip(x: DeclareQueryableModel, rest: Seq<u8>)
    requires
        spec_queryable_wf(x),
    ensures
        spec_dec_queryable(spec_enc_queryable(x) + rest) == Ok::<
            (DeclareQueryableModel, int),
            DecodeError,
        >((x, spec_enc_queryable(x).len() as int)),
{
    lemma_item_round_trip(
        MID_D_QUERYABLE,
        x.id,
        x.wire_expr,
        x.mapping,
        spec_queryable_ext(x),
        true,
        rest,
    );
    crate::fields::lemma_qbl_info_pack_unpack(x.ext_info);
    let dec = spec_dec_queryable(spec_enc_queryable(x) + rest);
    assert(dec is Ok);
    assert(dec->Ok_0.0 =~= x);
}

/// Appends an encoded queryable declaration to `buf`.
pub fn write_declare_queryable(buf: &mut Vec<u8>, x: &DeclareQueryable)
    ensures
        final(buf)@ == old(buf)@ + spec_enc_queryable(x@),
{
    let ext: Option<u64> = if x.ext_info != QueryableInfo::default() {
        Some(qbl_info_to_z64(&x.ext_info))
    } else {
        None
    };
    write_item_raw(buf, MID_D_QUERYABLE, x.id, &x.wire_expr, x.mapping, ext);
}

/// Reads a queryable declaration from `buf` starting at `pos`; on success
/// returns the message and the count of bytes consumed.  A header byte of
/// any other message kind is rejected as a format error.
pub fn read_declare_queryable(buf: &Vec<u8>, pos: usize) -> (r: Result<
    (DeclareQueryable, usize),
    DecodeError,
>)
    requires
        pos <= buf.len(),
    ensures
        match r {
            Ok(t) => {
                &&& pos + t.1 <= buf.len()
                &&& spec_dec_queryable(buf@.skip(pos as int)) == Ok::<
                    (DeclareQueryableModel, int),
                    DecodeError,
                >((t.0@, t.1 as int))
            },
            Err(e) => spec_dec_queryable(buf@.skip(pos as int)) == Err::<
                (DeclareQueryableModel, int),
                DecodeError,
            >(e),
        },
        pos < buf.len() && spec_mid(buf@[pos as int]) != MID_D_QUERYABLE ==> r == Err::<
            (DeclareQueryable, usize),
            DecodeError,
        >(DecodeError::Format),
{
    match read_item_raw(buf, pos, MID_D_QUERYABLE, true) {
        Ok(((id, we, mapping, opt), n)) => {
            let ext_info = match opt {
                Some(v) => qbl_info_from_z64(v),
                None => QueryableInfo::default(),
            };
            Ok((DeclareQueryable { id, wire_expr: we, mapping, ext_info }, n))
        },
        Err(e) => Err(e),
    }
}

// ---------------------------------------------------------------------------
// DeclareToken
// ---------------------------------------------------------------------------

/// Registers a liveliness token on a key expression.
#[derive(Clone, Debug, PartialEq, Eq)]
pub struct DeclareToken {
    pub id: u32,
    pub wire_expr: WireExpr,
    pub mapping: Mapping,
}

/// Mathematical model of a [`DeclareToken`].
#[verifier::ext_equal]
pub struct DeclareTokenModel {
    pub id: u32,
    pub wire_expr: WireExprModel,
    pub mapping: Mapping,
}

impl View for DeclareToken {
    type V = DeclareTokenModel;

    open spec fn view(&self) -> DeclareTokenModel {
        DeclareTokenModel { id: self.id, wire_expr: self.wire_expr@, mapping: self.mapping }
    }
}

/// Whether a token declaration is well formed.
pub open spec fn spec_token_wf(x: DeclareTokenModel) -> bool {
    spec_wire_expr_wf(x.wire_expr)
}

/// Byte sequence of an encoded token declaration.
pub open spec fn spec_enc_token(x: DeclareTokenModel) -> Seq<u8> {
    spec_enc_item(MID_D_TOKEN, x.id, x.wire_expr, x.mapping, None)
}

/// Functional decoder of a token declaration.
pub open spec fn spec_dec_token(s: Seq<u8>) -> Result<(DeclareTokenModel, int), DecodeError> {
    match spec_dec_item(s, MID_D_TOKEN, false) {
        Ok(t) => Ok((DeclareTokenModel { id: t.0.0, wire_expr: t.0.1, mapping: t.0.2 }, t.1)),
        Err(e) => Err(e),
    }
}

/// Round trip: decoding an encoded token declaration, whatever follows it,
/// yields it back.
pub proof fn lemma_token_round_trip(x: DeclareTokenModel, rest: Seq<u8>)
    requires
        spec_token_wf(x),
    ensures
        spec_dec_token(spec_enc_token(x) + rest) == Ok::<(DeclareTokenModel, int), DecodeError>(
            (x, spec_enc_token(x).len() as int),
        ),
{
    lemma_item_round_trip(MID_D_TOKEN, x.id, x.wire_expr, x.mapping, None, false, rest);
    let dec = spec_dec_token(spec_enc_token(x) + rest);
    assert(dec is Ok);
    assert(dec->Ok_0.0 =~= x);
}

/// Appends an encoded token declaration to `buf`.
pub fn write_declare_token(buf: &mut Vec<u8>, x: &DeclareToken)
    ensures
        final(buf)@ == old(buf)@ + spec_enc_token(x@),
{
    write_item_raw(buf, MID_D_TOKEN, x.id, &x.wire_expr, x.mapping, None);
}

/// Reads a token declaration from `buf` starting at `pos`; on success
/// returns the message and the count of bytes consumed.  A header byte of
/// any other message kind is rejected as a format error.
pub fn read_declare_token(buf: &Vec<u8>, pos: usize) -> (r: Result<
    (DeclareToken, usize),
    DecodeError,
>)
    requires
        pos <= buf.len(),
    ensures
        match r {
            Ok(t) => {
                &&& pos + t.1 <= buf.len()
                &&& spec_dec_token(buf@.skip(pos as int)) == Ok::<
                    (DeclareTokenModel, int),
                    DecodeError,
                >((t.0@, t.1 as int))
            },
            Err(e) => spec_dec_token(buf@.skip(pos as int)) == Err::<
                (DeclareTokenModel, int),
                DecodeError,
            >(e),
        },
{
    match read_item_raw(buf, pos, MID_D_TOKEN, false) {
        Ok(((id, we, mapping, _), n)) => Ok((DeclareToken { id, wire_expr: we, mapping }, n)),
        Err(e) => Err(e),
    }
}

// ---------------------------------------------------------------------------
// DeclareBody: the closed family of declaration kinds
// ---------------------------------------------------------------------------

/// One declaration of any of the eight kinds.
#[derive(Clone, Debug, PartialEq, Eq)]
pub enum DeclareBody {
    DeclareKeyExpr(DeclareKeyExpr),
    UndeclareKeyExpr(UndeclareKeyExpr),
    DeclareSubscriber(DeclareSubscriber),
    UndeclareSubscriber(UndeclareSubscriber),
    DeclareQueryable(DeclareQueryable),
    UndeclareQueryable(UndeclareQueryable),
    DeclareToken(DeclareToken),
    UndeclareToken(UndeclareToken),
}

/// Mathematical model of a [`DeclareBody`].
#[verifier::ext_equal]
pub enum DeclareBodyModel {
    DeclareKeyExpr(DeclareKeyExprModel),
    UndeclareKeyExpr(UndeclareKeyExpr),
    DeclareSubscriber(DeclareSubscriberModel),
    UndeclareSubscriber(UndeclareSubscriber),
    DeclareQueryable(DeclareQueryableModel),
    UndeclareQueryable(UndeclareQueryable),
    DeclareToken(DeclareTokenModel),
    UndeclareToken(UndeclareToken),
}

impl View for DeclareBody {
    type V = DeclareBodyModel;

    open spec fn view(&self) -> DeclareBodyModel {
        match self {
            DeclareBody::DeclareKeyExpr(x) => DeclareBodyModel::DeclareKeyExpr(x@),
            DeclareBody::UndeclareKeyExpr(x) => DeclareBodyModel::UndeclareKeyExpr(*x),
            DeclareBody::DeclareSubscriber(x) => DeclareBodyModel::DeclareSubscriber(x@),
            DeclareBody::UndeclareSubscriber(x) => DeclareBodyModel::UndeclareSubscriber(*x),
            DeclareBody::DeclareQueryable(x) => DeclareBodyModel::DeclareQueryable(x@),
            DeclareBody::UndeclareQueryable(x) => DeclareBodyModel::UndeclareQueryable(*x),
            DeclareBody::DeclareToken(x) => DeclareBodyModel::DeclareToken(x@),
            DeclareBody::UndeclareToken(x) => DeclareBodyModel::UndeclareToken(*x),
        }
    }
}

/// Whether a declaration body is well formed.
pub open spec fn spec_body_wf(b: DeclareBodyModel) -> bool {
    match b {
        DeclareBodyModel::DeclareKeyExpr(x) => spec_keyexpr_wf(x),
        DeclareBodyModel::UndeclareKeyExpr(_) => true,
        DeclareBodyModel::DeclareSubscriber(x) => spec_subscriber_wf(x),
        DeclareBodyModel::UndeclareSubscriber(_) => true,
        DeclareBodyModel::DeclareQueryable(x) => spec_queryable_wf(x),
        DeclareBodyModel::UndeclareQueryable(_) => true,
        DeclareBodyModel::DeclareToken(x) => spec_token_wf(x),
        DeclareBodyModel::UndeclareToken(_) => true,
    }
}

/// Byte sequence of an encoded declaration body.
pub open spec fn spec_enc_body(b: DeclareBodyModel) -> Seq<u8> {
    match b {
        DeclareBodyModel::DeclareKeyExpr(x) => spec_enc_keyexpr(x),
        DeclareBodyModel::UndeclareKeyExpr(x) => spec_enc_undeclare_key_expr(x),
        DeclareBodyModel::DeclareSubscriber(x) => spec_enc_subscriber(x),
        DeclareBodyModel::UndeclareSubscriber(x) => spec_enc_undeclare_subscriber(x),
        DeclareBodyModel::DeclareQueryable(x) => spec_enc_queryable(x),
        DeclareBodyModel::UndeclareQueryable(x) => spec_enc_undeclare_queryable(x),
        DeclareBodyModel::DeclareToken(x) => spec_enc_token(x),
        DeclareBodyModel::UndeclareToken(x) => spec_enc_undeclare_token(x),
    }
}

/// Functional decoder of a declaration body: the message-kind identifier in
/// the first header byte selects the kind, and an identifier outside the
/// family is a format error.
pub open spec fn spec_dec_body(s: Seq<u8>) -> Result<(DeclareBodyModel, int), DecodeError> {
    if s.len() == 0 {
        Err(DecodeError::Truncated)
    } else {
        let m = spec_mid(s[0]);
        if m == MID_D_KEYEXPR {
            match spec_dec_keyexpr(s) {
                Ok(t) => Ok((DeclareBodyModel::DeclareKeyExpr(t.0), t.1)),
                Err(e) => Err(e),
            }
        } else if m == MID_U_KEYEXPR {
            match spec_dec_undeclare_key_expr(s) {
                Ok(t) => Ok((DeclareBodyModel::UndeclareKeyExpr(t.0), t.1)),
                Err(e) => Err(e),
            }
        } else if m == MID_D_SUBSCRIBER {
            match spec_dec_subscriber(s) {
                Ok(t) => Ok((DeclareBodyModel::DeclareSubscriber(t.0), t.1)),
                Err(e) => Err(e),
            }
        } else if m == MID_U_SUBSCRIBER {
            match spec_dec_undeclare_subscriber(s) {
                Ok(t) => Ok((DeclareBodyModel::UndeclareSubscriber(t.0), t.1)),
                Err(e) => Err(e),
            }
        } else if m == MID_D_QUERYABLE {
            match spec_dec_queryable(s) {
                Ok(t) => Ok((DeclareBodyModel::DeclareQueryable(t.0), t.1)),
                Err(e) => Err(e),
            }
        } else if m == MID_U_QUERYABLE {
            match spec_dec_undeclare_queryable(s) {
                Ok(t) => Ok((DeclareBodyModel::UndeclareQueryable(t.0), t.1)),
                Err(e) => Err(e),
            }
        } else if m == MID_D_TOKEN {
            match spec_dec_token(s) {
                Ok(t) => Ok((DeclareBodyModel::DeclareToken(t.0), t.1)),
                Err(e) => Err(e),
            }
        } else if m == MID_U_TOKEN {
            match spec_dec_undeclare_token(s) {
                Ok(t) => Ok((DeclareBodyModel::UndeclareToken(t.0), t.1)),
                Err(e) => Err(e),
            }
        } else {
            Err(DecodeError::Format)
        }
    }
}

/// Round trip: decoding any encoded declaration body, whatever follows it,
/// yields it back.  Every variant carries its identifier, its wire
/// expression when it has one, its mapping when it has one, and its
/// capability info whether default or not.
pub proof fn lemma_body_round_trip(b: DeclareBodyModel, rest: Seq<u8>)
    requires
        spec_body_wf(b),
    ensures
        spec_dec_body(spec_enc_body(b) + rest) == Ok::<(DeclareBodyModel, int), DecodeError>(
            (b, spec_enc_body(b).len() as int),
        ),
{
    let s = spec_enc_body(b) + rest;
    match b {
        DeclareBodyModel::DeclareKeyExpr(x) => {
            let nb: u8 = if spec_has_suffix(x.wire_expr) {
                FLAG_N
            } else {
                0
            };
            assert((nb == 0 || nb == 0x20) ==> (0x00u8 | nb) & 0x1f == 0x00) by (bit_vector);
            assert(s[0] == spec_keyexpr_header(x));
            lemma_keyexpr_round_trip(x, rest);
        },
        DeclareBodyModel::UndeclareKeyExpr(x) => {
            assert(0x01u8 & 0x1f == 0x01) by (bit_vector);
            assert(s[0] == MID_U_KEYEXPR);
            lemma_undeclare_round_trip(MID_U_KEYEXPR, x.id as u64, u16::MAX as u64, rest);
        },
        DeclareBodyModel::DeclareSubscriber(x) => {
            let nb: u8 = if spec_has_suffix(x.wire_expr) {
                FLAG_N
            } else {
                0
            };
            let mb: u8 = if x.mapping == Mapping::Sender {
                FLAG_M
            } else {
                0
            };
            let zb: u8 = if spec_subscriber_ext(x) is Some {
                FLAG_Z
            } else {
                0
            };
            lemma_header_bits(MID_D_SUBSCRIBER, nb, mb, zb);
            assert(s[0] == spec_item_header(
                MID_D_SUBSCRIBER,
                x.wire_expr,
                x.mapping,
                spec_subscriber_ext(x) is Some,
            ));
            lemma_subscriber_round_trip(x, rest);
        },
        DeclareBodyModel::UndeclareSubscriber(x) => {
            assert(0x03u8 & 0x1f == 0x03) by (bit_vector);
            assert(s[0] == MID_U_SUBSCRIBER);
            lemma_undeclare_round_trip(MID_U_SUBSCRIBER, x.id as u64, u32::MAX as u64, rest);
        },
        DeclareBodyModel::DeclareQueryable(x) => {
            let nb: u8 = if spec_has_suffix(x.wire_expr) {
                FLAG_N
            } else {
                0
            };
            let mb: u8 = if x.mapping == Mapping::Sender {
                FLAG_M
            } else {
                0
            };
            let zb: u8 = if spec_queryable_ext(x) is Some {
                FLAG_Z
            } else {
                0
            };
            lemma_header_bits(MID_D_QUERYABLE, nb, mb, zb);
            assert(s[0] == spec_item_header(
                MID_D_QUERYABLE,
                x.wire_expr,
                x.mapping,
                spec_queryable_ext(x) is Some,
            ));
            lemma_queryable_round_trip(x, rest);
        },
        DeclareBodyModel::UndeclareQueryable(x) => {
            assert(0x05u8 & 0x1f == 0x05) by (bit_vector);
            assert(s[0] == MID_U_QUERYABLE);
            lemma_undeclare_round_trip(MID_U_QUERYABLE, x.id as u64, u32::MAX as u64, rest);
        },
        DeclareBodyModel::DeclareToken(x) => {
            let nb: u8 = if spec_has_suffix(x.wire_expr) {
                FLAG_N
            } else {
                0
            };
            let mb: u8 = if x.mapping == Mapping::Sender {
                FLAG_M
            } else {
                0
            };
            lemma_header_bits(MID_D_TOKEN, nb, mb, 0);
            assert(s[0] == spec_item_header(MID_D_TOKEN, x.wire_expr, x.mapping, false));
            lemma_token_round_trip(x, rest);
        },
        DeclareBodyModel::UndeclareToken(x) => {
            assert(0x07u8 & 0x1f == 0x07) by (bit_vector);
            assert(s[0] == MID_U_TOKEN);
            lemma_undeclare_round_trip(MID_U_TOKEN, x.id as u64, u32::MAX as u64, rest);
        },
    }
}

/// Appends an encoded declaration body to `buf`.
pub fn write_declare_body(buf: &mut Vec<u8>, b: &DeclareBody)
    ensures
        final(buf)@ == old(buf)@ + spec_enc_body(b@),
{
    match b {
        DeclareBody::DeclareKeyExpr(x) => write_declare_key_expr(buf, x),
        DeclareBody::UndeclareKeyExpr(x) => write_undeclare_key_expr(buf, x),
        DeclareBody::DeclareSubscriber(x) => write_declare_subscriber(buf, x),
        DeclareBody::UndeclareSubscriber(x) => write_undeclare_subscriber(buf, x),
        DeclareBody::DeclareQueryable(x) => write_declare_queryable(buf, x),
        DeclareBody::UndeclareQueryable(x) => write_undeclare_queryable(buf, x),
        DeclareBody::DeclareToken(x) => write_declare_token(buf, x),
        DeclareBody::UndeclareToken(x) => write_undeclare_token(buf, x),
    }
}

/// Reads one declaration body from `buf` starting at `pos`; the first
/// header byte selects the kind, and an identifier outside the family is
/// rejected as a format error.
pub fn read_declare_body(buf: &Vec<u8>, pos: usize) -> (r: Result<
    (DeclareBody, usize),
    DecodeError,
>)
    requires
        pos <= buf.len(),
    ensures
        match r {
            Ok(t) => {
                &&& pos + t.1 <= buf.len()
                &&& spec_dec_body(buf@.skip(pos as int)) == Ok::<
                    (DeclareBodyModel, int),
                    DecodeError,
                >((t.0@, t.1 as int))
            },
            Err(e) => spec_dec_body(buf@.skip(pos as int)) == Err::<
                (DeclareBodyModel, int),
                DecodeError,
            >(e),
        },
{
    let ghost s = buf@.skip(pos as int);
    if pos == buf.len() {
        return Err(DecodeError::Truncated);
    }
    let m = buf[pos] & MID_MASK;
    assert(m == spec_mid(s[0]));
    if m == MID_D_KEYEXPR {
        match read_declare_key_expr(buf, pos) {
            Ok((x, n)) => Ok((DeclareBody::DeclareKeyExpr(x), n)),
            Err(e) => Err(e),
        }
    } else if m == MID_U_KEYEXPR {
        match read_undeclare_key_expr(buf, pos) {
            Ok((x, n)) => Ok((DeclareBody::UndeclareKeyExpr(x), n)),
            Err(e) => Err(e),
        }
    } else if m == MID_D_SUBSCRIBER {
        match read_declare_subscriber(buf, pos) {
            Ok((x, n)) => Ok((DeclareBody::DeclareSubscriber(x), n)),
            Err(e) => Err(e),
        }
    } else if m == MID_U_SUBSCRIBER {
        match read_undeclare_subscriber(buf, pos) {
            Ok((x, n)) => Ok((DeclareBody::UndeclareSubscriber(x), n)),
            Err(e) => Err(e),
        }
    } else if m == MID_D_QUERYABLE {
        match read_declare_queryable(buf, pos) {
            Ok((x, n)) => Ok((DeclareBody::DeclareQueryable(x), n)),
            Err(e) => Err(e),
        }
    } else if m == MID_U_QUERYABLE {
        match read_undeclare_queryable(buf, pos) {
            Ok((x, n)) => Ok((DeclareBody::UndeclareQueryable(x), n)),
            Err(e) => Err(e),
        }
    } else if m == MID_D_TOKEN {
        match read_declare_token(buf, pos) {
            Ok((x, n)) => Ok((DeclareBody::DeclareToken(x), n)),
            Err(e) => Err(e),
        }
    } else if m == MID_U_TOKEN {
        match read_undeclare_token(buf, pos) {
            Ok((x, n)) => Ok((DeclareBody::UndeclareToken(x), n)),
            Err(e) => Err(e),
        }
    } else {
        Err(DecodeError::Format)
    }
}

// ---------------------------------------------------------------------------
// The Declare envelope
// ---------------------------------------------------------------------------

/// Byte sequence of a timestamp extension's payload: the time, then the
/// clock identifier's bytes, framed by the extension's own length prefix.
pub open spec fn spec_ts_payload(t: TimestampModel) -> Seq<u8> {
    spec_enc_zint(t.time) + t.id
}

/// Functional decoder of a timestamp extension's payload, over exactly the
/// window the length prefix frames.
pub open spec fn spec_dec_ts_payload(w: Seq<u8>) -> Result<TimestampModel, DecodeError> {
    match spec_dec_zint(w) {
        Ok(t) => {
            if w.len() - t.1 <= TIMESTAMP_ID_MAX_LEN {
                Ok(TimestampModel { time: t.0, id: w.skip(t.1) })
            } else {
                Err(DecodeError::Format)
            }
        },
        Err(e) => Err(e),
    }
}

/// Round trip of the timestamp payload.
pub proof fn lemma_ts_payload_round_trip(t: TimestampModel)
    requires
        spec_timestamp_wf(t),
    ensures
        spec_dec_ts_payload(spec_ts_payload(t)) == Ok::<TimestampModel, DecodeError>(t),
{
    lemma_zint_round_trip(t.time, t.id);
    let w = spec_ts_payload(t);
    assert(w.skip(spec_enc_zint(t.time).len() as int) =~= t.id);
    assert(spec_dec_ts_payload(w)->Ok_0 =~= t);
}

/// Ghost image of an optional timestamp.
pub open spec fn spec_ts_opt(ts: Option<Timestamp>) -> Option<TimestampModel> {
    match ts {
        Some(t) => Some(t@),
        None => None,
    }
}

/// Decodes the envelope's extension chain, recognizing the
/// quality-of-service and timestamp kinds; each occurrence overwrites the
/// value seen so far, anything else is skipped if it is not mandatory.
pub open spec fn spec_dec_declare_exts(
    s: Seq<u8>,
    qos: QoSType,
    ts: Option<TimestampModel>,
) -> Result<((QoSType, Option<TimestampModel>), int), DecodeError>
    decreases s.len(),
{
    if s.len() == 0 {
        Err(DecodeError::Truncated)
    } else {
        let h = s[0];
        if spec_ext_kind(h) == EXT_QOS_KIND {
            match spec_dec_zint(s.skip(1)) {
                Ok(t) => {
                    let q2 = spec_qos_from_z64(t.0);
                    if h & EXT_FLAG_MORE != 0 {
                        proof {
                            lemma_dec_zint_len(s.skip(1));
                        }
                        match spec_dec_declare_exts(s.skip(1 + t.1), q2, ts) {
                            Ok(r) => Ok((r.0, 1 + t.1 + r.1)),
                            Err(e) => Err(e),
                        }
                    } else {
                        Ok(((q2, ts), 1 + t.1))
                    }
                },
                Err(e) => Err(e),
            }
        } else if spec_ext_kind(h) == EXT_TSTAMP_KIND {
            match spec_dec_zint(s.skip(1)) {
                Ok(t) => {
                    if t.0 <= s.len() - 1 - t.1 {
                        match spec_dec_ts_payload(s.subrange(1 + t.1, 1 + t.1 + t.0)) {
                            Ok(ts2) => {
                                if h & EXT_FLAG_MORE != 0 {
                                    proof {
                                        lemma_dec_zint_len(s.skip(1));
                                    }
                                    match spec_dec_declare_exts(
                                        s.skip(1 + t.1 + t.0),
                                        qos,
                                        Some(ts2),
                                    ) {
                                        Ok(r) => Ok((r.0, 1 + t.1 + t.0 + r.1)),
                                        Err(e) => Err(e),
                                    }
                                } else {
                                    Ok(((qos, Some(ts2)), 1 + t.1 + t.0))
                                }
                            },
                            Err(e) => Err(e),
                        }
                    } else {
                        Err(DecodeError::Truncated)
                    }
                },
                Err(e) => Err(e),
            }
        } else {
            match spec_skip_ext_body(h, s.skip(1)) {
                Ok(n) => {
                    if h & EXT_FLAG_MORE != 0 {
                        proof {
                            lemma_skip_ext_body_len(h, s.skip(1));
                        }
                        match spec_dec_declare_exts(s.skip(1 + n), qos, ts) {
                            Ok(r) => Ok((r.0, 1 + n + r.1)),
                            Err(e) => Err(e),
                        }
                    } else {
                        Ok(((qos, ts), 1 + n))
                    }
                },
                Err(e) => Err(e),
            }
        }
    }
}

/// A declare envelope: one declaration body, a quality-of-service marker
/// (written only when it differs from the default) and an optional
/// timestamp (whose absence is meaningful).
#[derive(Clone, Debug, PartialEq, Eq)]
pub struct Declare {
    pub body: DeclareBody,
    pub ext_qos: QoSType,
    pub ext_tstamp: Option<Timestamp>,
}

/// Mathematical model of a [`Declare`].
#[verifier::ext_equal]
pub struct DeclareModel {
    pub body: DeclareBodyModel,
    pub ext_qos: QoSType,
    pub ext_tstamp: Option<TimestampModel>,
}

impl View for Declare {
    type V = DeclareModel;

    open spec fn view(&self) -> DeclareModel {
        DeclareModel {
            body: self.body@,
            ext_qos: self.ext_qos,
            ext_tstamp: spec_ts_opt(self.ext_tstamp),
        }
    }
}

/// Whether a declare envelope is well formed.
pub open spec fn spec_declare_wf(x: DeclareModel) -> bool {
    &&& spec_body_wf(x.body)
    &&& spec_qos_wf(x.ext_qos)
    &&& match x.ext_tstamp {
        Some(t) => spec_timestamp_wf(t),
        None => true,
    }
}

/// Header byte of an encoded declare envelope: the continuation-flag bit is
/// set exactly when at least one extension follows.
pub open spec fn spec_declare_header(x: DeclareModel) -> u8 {
    MID_DECLARE | (if x.ext_qos != spec_qos_default() || x.ext_tstamp is Some {
        FLAG_Z
    } else {
        0
    })
}

/// Byte sequence of the envelope's extension chain: the quality-of-service
/// extension when non-default, then the timestamp extension when present,
/// each carrying a continuation bit exactly when it is not the last.
pub open spec fn spec_enc_declare_exts(x: DeclareModel) -> Seq<u8> {
    (if x.ext_qos != spec_qos_default() {
        spec_enc_ext(EXT_QOS_KIND, x.ext_tstamp is Some, ZExtBodyModel::Z64(spec_qos_z64(x.ext_qos)))
    } else {
        Seq::<u8>::empty()
    }) + (match x.ext_tstamp {
        Some(t) => spec_enc_ext(EXT_TSTAMP_KIND, false, ZExtBodyModel::ZBuf(spec_ts_payload(t))),
        None => Seq::<u8>::empty(),
    })
}

/// Byte sequence of an encoded declare envelope: header, extensions, then
/// the body, which self-delimits through its own header.
pub open spec fn spec_enc_declare(x: DeclareModel) -> Seq<u8> {
    seq![spec_declare_header(x)] + spec_enc_declare_exts(x) + spec_enc_body(x.body)
}

/// Functional decoder of a declare envelope.
pub open spec fn spec_dec_declare(s: Seq<u8>) -> Result<(DeclareModel, int), DecodeError> {
    if s.len() == 0 {
        Err(DecodeError::Truncated)
    } else {
        let h = s[0];
        if spec_mid(h) != MID_DECLARE {
            Err(DecodeError::Format)
        } else if spec_has_flag(h, FLAG_Z) {
            match spec_dec_declare_exts(s.skip(1), spec_qos_default(), None) {
                Ok(e) => {
                    match spec_dec_body(s.skip(1 + e.1)) {
                        Ok(b) => Ok(
                            (
                                DeclareModel {
                                    body: b.0,
                                    ext_qos: e.0.0,
                                    ext_tstamp: e.0.1,
                                },
                                1 + e.1 + b.1,
                            ),
                        ),
                        Err(er) => Err(er),
                    }
                },
                Err(er) => Err(er),
            }
        } else {
            match spec_dec_body(s.skip(1)) {
                Ok(b) => Ok(
                    (
                        DeclareModel {
                            body: b.0,
                            ext_qos: spec_qos_default(),
                            ext_tstamp: None,
                        },
                        1 + b.1,
                    ),
                ),
                Err(er) => Err(er),
            }
        }
    }
}

/// Round trip: decoding an encoded declare envelope, whatever follows it,
/// yields it back — body, quality of service (default or not) and timestamp
/// (present or absent) alike.
#[verifier::rlimit(50)]
pub proof fn lemma_declare_round_trip(x: DeclareModel, rest: Seq<u8>)
    requires
        spec_declare_wf(x),
    ensures
        spec_dec_declare(spec_enc_declare(x) + rest) == Ok::<(DeclareModel, int), DecodeError>(
            (x, spec_enc_declare(x).len() as int),
        ),
{
    let s = spec_enc_declare(x) + rest;
    let h = spec_declare_header(x);
    let zb: u8 = if x.ext_qos != spec_qos_default() || x.ext_tstamp is Some {
        FLAG_Z
    } else {
        0
    };
    assert((zb == 0 || zb == 0x80) ==> ((0x09u8 | zb) & 0x1f == 0x09 && (((0x09u8 | zb) & 0x80
        != 0) <==> zb == 0x80))) by (bit_vector);
    assert(s[0] == h);
    let e_chain = spec_enc_declare_exts(x);
    let e_body = spec_enc_body(x.body);
    lemma_body_round_trip(x.body, rest);
    if x.ext_qos != spec_qos_default() || x.ext_tstamp is Some {
        assert(s.skip(1) =~= e_chain + (e_body + rest));
        lemma_declare_exts_round_trip(x, e_body + rest);
        assert(s.skip(1 + e_chain.len() as int) =~= e_body + rest);
        let dec = spec_dec_declare(s);
        assert(dec is Ok);
        assert(dec->Ok_0.0 =~= x);
    } else {
        assert(s.skip(1) =~= e_body + rest);
        let dec = spec_dec_declare(s);
        assert(dec is Ok);
        assert(dec->Ok_0.0 =~= x);
    }
}

/// Decoding the extension chain the encoder produces yields the envelope's
/// own quality of service and timestamp.
proof fn lemma_declare_exts_round_trip(x: DeclareModel, rest: Seq<u8>)
    requires
        spec_declare_wf(x),
        x.ext_qos != spec_qos_default() || x.ext_tstamp is Some,
    ensures
        spec_dec_declare_exts(spec_enc_declare_exts(x) + rest, spec_qos_default(), None) == Ok::<
            ((QoSType, Option<TimestampModel>), int),
            DecodeError,
        >(((x.ext_qos, x.ext_tstamp), spec_enc_declare_exts(x).len() as int)),
{
    let s = spec_enc_declare_exts(x) + rest;
    assert((0x11u8 | 0x80u8) & 0x3f == 0x11 && 0x11u8 & 0x3f == 0x11 && (0x11u8 | 0x80u8) & 0x80
        != 0 && 0x11u8 & 0x80 == 0 && 0x22u8 & 0x3f == 0x22 && 0x22u8 & 0x80
        == 0) by (bit_vector);
    if x.ext_qos != spec_qos_default() {
        let qv = spec_qos_z64(x.ext_qos);
        let e_qos = spec_enc_ext(EXT_QOS_KIND, x.ext_tstamp is Some, ZExtBodyModel::Z64(qv));
        lemma_qos_pack_unpack(x.ext_qos);
        match x.ext_tstamp {
            Some(t) => {
                let e_ts = spec_enc_ext(
                    EXT_TSTAMP_KIND,
                    false,
                    ZExtBodyModel::ZBuf(spec_ts_payload(t)),
                );
                assert(s[0] == spec_ext_header(EXT_QOS_KIND, true));
                lemma_zint_round_trip(qv, e_ts + rest);
                assert(s.skip(1) =~= spec_enc_zint(qv) + (e_ts + rest));
                let n1 = 1 + spec_enc_zint(qv).len() as int;
                assert(s.skip(n1) =~= e_ts + rest);
                lemma_ts_ext_step(t, x.ext_qos, rest);
                assert(spec_dec_declare_exts(s, spec_qos_default(), None) == Ok::<
                    ((QoSType, Option<TimestampModel>), int),
                    DecodeError,
                >(((x.ext_qos, x.ext_tstamp), spec_enc_declare_exts(x).len() as int)));
            },
            None => {
                assert(s[0] == spec_ext_header(EXT_QOS_KIND, false));
                lemma_zint_round_trip(qv, rest);
                assert(s.skip(1) =~= spec_enc_zint(qv) + rest);
            },
        }
    } else {
        let t = x.ext_tstamp->Some_0;
        assert(s =~= spec_enc_ext(EXT_TSTAMP_KIND, false, ZExtBodyModel::ZBuf(spec_ts_payload(t)))
            + rest);
        lemma_ts_ext_step(t, spec_qos_default(), rest);
    }
}

/// One timestamp extension at the head of the remaining chain, with its
/// continuation bit clear, ends the chain with that timestamp.
proof fn lemma_ts_ext_step(t: TimestampModel, qos: QoSType, rest: Seq<u8>)
    requires
        spec_timestamp_wf(t),
    ensures
        spec_dec_declare_exts(
            spec_enc_ext(EXT_TSTAMP_KIND, false, ZExtBodyModel::ZBuf(spec_ts_payload(t))) + rest,
            qos,
            None,
        ) == Ok::<((QoSType, Option<TimestampModel>), int), DecodeError>(
            ((qos, Some(t)), spec_enc_ext(
                EXT_TSTAMP_KIND,
                false,
                ZExtBodyModel::ZBuf(spec_ts_payload(t)),
            ).len() as int),
        ),
{
    let p = spec_ts_payload(t);
    let s = spec_enc_ext(EXT_TSTAMP_KIND, false, ZExtBodyModel::ZBuf(p)) + rest;
    crate::zint::lemma_enc_zint_len(t.time);
    assert(p.len() <= 26);
    assert(0x22u8 & 0x3f == 0x22 && 0x22u8 & 0x80 == 0 && 0x11u8 != 0x22u8) by (bit_vector);
    assert(s[0] == EXT_TSTAMP_KIND);
    lemma_zint_round_trip(p.len() as u64, p + rest);
    assert(s.skip(1) =~= spec_enc_zint(p.len() as u64) + (p + rest));
    let n = spec_enc_zint(p.len() as u64).len() as int;
    assert(s.subrange(1 + n, 1 + n + p.len() as int) =~= p);
    lemma_ts_payload_round_trip(t);
}

/// Reads the envelope's extension chain from `buf` starting at `pos`,
/// carrying the values decoded so far; on success returns the final
/// quality of service and timestamp and the count of bytes consumed.
#[verifier::rlimit(50)]
fn read_declare_exts(buf: &Vec<u8>, pos: usize, qos: QoSType, ts: Option<Timestamp>) -> (r: Result<
    ((QoSType, Option<Timestamp>), usize),
    DecodeError,
>)
    requires
        pos <= buf.len(),
    ensures
        match r {
            Ok(t) => {
                &&& pos + t.1 <= buf.len()
                &&& spec_dec_declare_exts(buf@.skip(pos as int), qos, spec_ts_opt(ts)) == Ok::<
                    ((QoSType, Option<TimestampModel>), int),
                    DecodeError,
                >(((t.0.0, spec_ts_opt(t.0.1)), t.1 as int))
            },
            Err(e) => spec_dec_declare_exts(buf@.skip(pos as int), qos, spec_ts_opt(ts)) == Err::<
                ((QoSType, Option<TimestampModel>), int),
                DecodeError,
            >(e),
        },
    decreases buf.len() - pos,
{
    let ghost s = buf@.skip(pos as int);
    if pos == buf.len() {
        return Err(DecodeError::Truncated);
    }
    let h = buf[pos];
    assert(s[0] == h);
    proof {
        assert(s.skip(1) =~= buf@.skip(pos as int + 1));
    }
    if h & crate::ext::EXT_KIND_MASK == EXT_QOS_KIND {
        match read_zint(buf, pos + 1) {
            Ok((v, n)) => {
                let q2 = qos_from_z64(v);
                if h & EXT_FLAG_MORE != 0 {
                    proof {
                        assert(s.skip(1 + n) =~= buf@.skip(pos as int + 1 + n));
                    }
                    match read_declare_exts(buf, pos + 1 + n, q2, ts) {
                        Ok((w, m)) => Ok((w, 1 + n + m)),
                        Err(e) => Err(e),
                    }
                } else {
                    Ok(((q2, ts), 1 + n))
                }
            },
            Err(e) => Err(e),
        }
    } else if h & crate::ext::EXT_KIND_MASK == EXT_TSTAMP_KIND {
        match read_zint(buf, pos + 1) {
            Ok((len_z, n)) => {
                let rem: usize = buf.len() - pos - 1 - n;
                if len_z <= rem as u64 {
                    let len: usize = len_z as usize;
                    let w = read_bytes(buf, pos + 1 + n, len);
                    proof {
                        assert(w@ =~= s.subrange(1 + n, 1 + n + len_z as int));
                        assert(w@.skip(0) =~= w@);
                    }
                    match read_zint(&w, 0) {
                        Ok((time, k)) => {
                            if w.len() - k <= TIMESTAMP_ID_MAX_LEN {
                                let id = read_bytes(&w, k, len - k);
                                let ts2 = Timestamp { time, id };
                                proof {
                                    assert(ts2@.id =~= w@.skip(k as int));
                                    assert(spec_dec_ts_payload(w@) == Ok::<
                                        TimestampModel,
                                        DecodeError,
                                    >(ts2@));
                                }
                                if h & EXT_FLAG_MORE != 0 {
                                    proof {
                                        assert(s.skip(1 + n + len_z as int) =~= buf@.skip(
                                            pos as int + 1 + n + len as int,
                                        ));
                                    }
                                    match read_declare_exts(buf, pos + 1 + n + len, qos, Some(ts2)) {
                                        Ok((wres, m)) => Ok((wres, 1 + n + len + m)),
                                        Err(e) => Err(e),
                                    }
                                } else {
                                    Ok(((qos, Some(ts2)), 1 + n + len))
                                }
                            } else {
                                Err(DecodeError::Format)
                            }
                        },
                        Err(e) => Err(e),
                    }
                } else {
                    Err(DecodeError::Truncated)
                }
            },
            Err(e) => Err(e),
        }
    } else {
        match skip_ext_body(buf, pos + 1, h) {
            Ok(n) => {
                if h & EXT_FLAG_MORE != 0 {
                    proof {
                        assert(s.skip(1 + n) =~= buf@.skip(pos as int + 1 + n));
                    }
                    match read_declare_exts(buf, pos + 1 + n, qos, ts) {
                        Ok((w, m)) => Ok((w, 1 + n + m)),
                        Err(e) => Err(e),
                    }
                } else {
                    Ok(((qos, ts), 1 + n))
                }
            },
            Err(e) => Err(e),
        }
    }
}

/// Appends an encoded declare envelope to `buf`.  The quality-of-service
/// marker is written only when it differs from the default, the timestamp
/// only when present, and the continuation-flag bit of the header is set
/// exactly when at least one of the two is written.
pub fn write_declare(buf: &mut Vec<u8>, x: &Declare)
    requires
        spec_qos_wf(x.ext_qos),
    ensures
        final(buf)@ == old(buf)@ + spec_enc_declare(x@),
{
    let has_qos = x.ext_qos != QoSType::default();
    let has_ts = x.ext_tstamp.is_some();
    let zb: u8 = if has_qos || has_ts {
        FLAG_Z
    } else {
        0
    };
    buf.push(MID_DECLARE | zb);
    if has_qos {
        proof {
            assert(0x11u8 & 0x80 == 0 && 0x11u8 & 0x30 == 0x10) by (bit_vector);
        }
        let body = ZExtBody::Z64(qos_to_z64(&x.ext_qos));
        write_ext(buf, EXT_QOS_KIND, has_ts, &body);
    }
    match &x.ext_tstamp {
        Some(t) => {
            let mut p: Vec<u8> = Vec::new();
            write_zint(&mut p, t.time);
            let ghost p0 = p@;
            let mut i: usize = 0;
            while i < t.id.len()
                invariant
                    i <= t.id.len(),
                    p@ == p0 + t.id@.take(i as int),
                decreases t.id.len() - i,
            {
                p.push(t.id[i]);
                assert(t.id@.take(i + 1) =~= t.id@.take(i as int).push(t.id@[i as int]));
                i += 1;
            }
            assert(p@ =~= spec_ts_payload(t@));
            let plen: usize = p.len();
            assert(p@.len() == plen);
            proof {
                assert(0x22u8 & 0x80 == 0 && 0x22u8 & 0x30 == 0x20) by (bit_vector);
            }
            let body = ZExtBody::ZBuf(p);
            write_ext(buf, EXT_TSTAMP_KIND, false, &body);
        },
        None => {
        },
    }
    write_declare_body(buf, &x.body);
    assert(buf@ =~= old(buf)@ + spec_enc_declare(x@));
}

/// Reads a declare envelope from `buf` starting at `pos`; on success
/// returns the message and the count of bytes consumed.  A header byte of
/// any other message kind is rejected as a format error.
pub fn read_declare(buf: &Vec<u8>, pos: usize) -> (r: Result<(Declare, usize), DecodeError>)
    requires
        pos <= buf.len(),
    ensures
        match r {
            Ok(t) => {
                &&& pos + t.1 <= buf.len()
                &&& spec_dec_declare(buf@.skip(pos as int)) == Ok::<
                    (DeclareModel, int),
                    DecodeError,
                >((t.0@, t.1 as int))
            },
            Err(e) => spec_dec_declare(buf@.skip(pos as int)) == Err::<
                (DeclareModel, int),
                DecodeError,
            >(e),
        },
        pos < buf.len() && spec_mid(buf@[pos as int]) != MID_DECLARE ==> r == Err::<
            (Declare, usize),
            DecodeError,
        >(DecodeError::Format),
{
    let ghost s = buf@.skip(pos as int);
    if pos == buf.len() {
        return Err(DecodeError::Truncated);
    }
    let h = buf[pos];
    assert(s[0] == h);
    if h & MID_MASK != MID_DECLARE {
        return Err(DecodeError::Format);
    }
    if h & FLAG_Z != 0 {
        proof {
            assert(s.skip(1) =~= buf@.skip(pos as int + 1));
        }
        match read_declare_exts(buf, pos + 1, QoSType::default(), None) {
            Ok(((q, t), n1)) => {
                proof {
                    assert(s.skip(1 + n1) =~= buf@.skip(pos as int + 1 + n1));
                }
                match read_declare_body(buf, pos + 1 + n1) {
                    Ok((b, n2)) => Ok(
                        (Declare { body: b, ext_qos: q, ext_tstamp: t }, 1 + n1 + n2),
                    ),
                    Err(e) => Err(e),
                }
            },
            Err(e) => Err(e),
        }
    } else {
        proof {
            assert(s.skip(1) =~= buf@.skip(pos as int + 1));
        }
        match read_declare_body(buf, pos + 1) {
            Ok((b, n2)) => Ok(
                (
                    Declare { body: b, ext_qos: QoSType::default(), ext_tstamp: None },
                    1 + n2,
                ),
            ),
            Err(e) => Err(e),
        }
    }
}

// ---------------------------------------------------------------------------
// Header-flag invariants
// ---------------------------------------------------------------------------

/// Flag invariant of the key-expression declaration header: `N` is set
/// exactly when the wire expression carries a literal suffix, and no
/// extension chain is ever flagged.
pub proof fn lemma_keyexpr_flags(x: DeclareKeyExprModel)
    ensures
        spec_has_flag(spec_enc_keyexpr(x)[0], FLAG_N) <==> spec_has_suffix(x.wire_expr),
        !spec_has_flag(spec_enc_keyexpr(x)[0], FLAG_Z),
{
    let nb: u8 = if spec_has_suffix(x.wire_expr) {
        FLAG_N
    } else {
        0
    };
    assert((nb == 0 || nb == 0x20) ==> ((((0x00u8 | nb) & 0x20 != 0) <==> nb == 0x20) && (0x00u8
        | nb) & 0x80 == 0)) by (bit_vector);
}

/// Flag invariant of the declare-item headers (subscriber, queryable,
/// token): `N` is set exactly when the wire expression carries a literal
/// suffix, `M` exactly when the identifier was mapped by the sender, and
/// `Z` exactly when a declared extension is written.
pub proof fn lemma_item_flags(
    mid_v: u8,
    id: u32,
    we: WireExprModel,
    mapping: Mapping,
    ext: Option<u64>,
)
    requires
        mid_v <= MID_MASK,
    ensures
        spec_has_flag(spec_enc_item(mid_v, id, we, mapping, ext)[0], FLAG_N) <==> spec_has_suffix(
            we,
        ),
        spec_has_flag(spec_enc_item(mid_v, id, we, mapping, ext)[0], FLAG_M) <==> mapping
            == Mapping::Sender,
        spec_has_flag(spec_enc_item(mid_v, id, we, mapping, ext)[0], FLAG_Z) <==> ext is Some,
{
    let nb: u8 = if spec_has_suffix(we) {
        FLAG_N
    } else {
        0
    };
    let mb: u8 = if mapping == Mapping::Sender {
        FLAG_M
    } else {
        0
    };
    let zb: u8 = if ext is Some {
        FLAG_Z
    } else {
        0
    };
    lemma_header_bits(mid_v, nb, mb, zb);
}

/// Flag invariant of the subscriber declaration: `Z` is set exactly when
/// the capability info differs from its default.
pub proof fn lemma_subscriber_flags(x: DeclareSubscriberModel)
    ensures
        spec_has_flag(spec_enc_subscriber(x)[0], FLAG_Z) <==> x.ext_info
            != spec_sub_info_default(),
        spec_has_flag(spec_enc_subscriber(x)[0], FLAG_N) <==> spec_has_suffix(x.wire_expr),
        spec_has_flag(spec_enc_subscriber(x)[0], FLAG_M) <==> x.mapping == Mapping::Sender,
{
    lemma_item_flags(MID_D_SUBSCRIBER, x.id, x.wire_expr, x.mapping, spec_subscriber_ext(x));
}

/// Flag invariant of the queryable declaration: `Z` is set exactly when
/// the capability info differs from its default.
pub proof fn lemma_queryable_flags(x: DeclareQueryableModel)
    ensures
        spec_has_flag(spec_enc_queryable(x)[0], FLAG_Z) <==> x.ext_info != spec_qbl_info_default(),
        spec_has_flag(spec_enc_queryable(x)[0], FLAG_N) <==> spec_has_suffix(x.wire_expr),
        spec_has_flag(spec_enc_queryable(x)[0], FLAG_M) <==> x.mapping == Mapping::Sender,
{
    lemma_item_flags(MID_D_QUERYABLE, x.id, x.wire_expr, x.mapping, spec_queryable_ext(x));
}

/// Flag invariant of the token declaration: it declares no extensions, so
/// `Z` is never set.
pub proof fn lemma_token_flags(x: DeclareTokenModel)
    ensures
        !spec_has_flag(spec_enc_token(x)[0], FLAG_Z),
        spec_has_flag(spec_enc_token(x)[0], FLAG_N) <==> spec_has_suffix(x.wire_expr),
        spec_has_flag(spec_enc_token(x)[0], FLAG_M) <==> x.mapping == Mapping::Sender,
{
    lemma_item_flags(MID_D_TOKEN, x.id, x.wire_expr, x.mapping, None);
}

/// Flag invariant of the declare envelope: `Z` is set exactly when at
/// least one extension differs from its default — a non-default quality of
/// service or a present timestamp.
pub proof fn lemma_declare_flags(x: DeclareModel)
    ensures
        spec_has_flag(spec_enc_declare(x)[0], FLAG_Z) <==> (x.ext_qos != spec_qos_default()
            || x.ext_tstamp is Some),
{
    let zb: u8 = if x.ext_qos != spec_qos_default() || x.ext_tstamp is Some {
        FLAG_Z
    } else {
        0
    };
    assert((zb == 0 || zb == 0x80) ==> (((0x09u8 | zb) & 0x80 != 0) <==> zb
        == 0x80)) by (bit_vector);
}

} // verus!

