//! The chained-extension mechanism shared by the whole message family.
//!
//! An extension is self-framing: one header byte holding the extension
//! identifier (low bits), the shape of its payload (unit, packed integer, or
//! length-prefixed bytes), a mandatory-to-understand flag, and a continuation
//! flag that chains to the next extension.  A decoder that does not recognize
//! an extension's kind can still consume it exactly, unless the extension is
//! marked mandatory, in which case decoding fails rather than losing
//! semantics.
use vstd::prelude::*;

use crate::common::DecodeError;
use crate::zint::{
    lemma_dec_zint_len, lemma_zint_round_trip, read_zint, spec_dec_zint, spec_enc_zint, write_zint,
};

verus! {

/// Mask of the extension identifier within the extension header byte.
pub const EXT_ID_MASK: u8 = 0x0f;

/// Mask of the payload-shape bits within the extension header byte.
pub const EXT_ENC_MASK: u8 = 0x30;

/// Payload shape: no payload at all.
pub const EXT_ENC_UNIT: u8 = 0x00;

/// Payload shape: one packed integer.
pub const EXT_ENC_Z64: u8 = 0x10;

/// Payload shape: length-prefixed bytes.
pub const EXT_ENC_ZBUF: u8 = 0x20;

/// Mask of an extension's kind: its identifier together with its payload
/// shape.  Two extensions are of the same kind when these bits agree.
pub const EXT_KIND_MASK: u8 = 0x3f;

/// Extension header flag: the extension is mandatory to understand.
pub const EXT_FLAG_MANDATORY: u8 = 0x40;

/// Extension header flag: another extension follows this one.
pub const EXT_FLAG_MORE: u8 = 0x80;

/// The kind bits of an extension header byte.
pub open spec fn spec_ext_kind(h: u8) -> u8 {
    h & EXT_KIND_MASK
}

/// Payload of an extension whose kind the caller does not interpret.
#[derive(Clone, Debug, PartialEq, Eq)]
pub enum ZExtBody {
    Unit,
    Z64(u64),
    ZBuf(Vec<u8>),
}

/// Mathematical model of a [`ZExtBody`].
#[verifier::ext_equal]
pub enum ZExtBodyModel {
    Unit,
    Z64(u64),
    ZBuf(Seq<u8>),
}

impl View for ZExtBody {
    type V = ZExtBodyModel;

    open spec fn view(&self) -> ZExtBodyModel {
        match self {
            ZExtBody::Unit => ZExtBodyModel::Unit,
            ZExtBody::Z64(v) => ZExtBodyModel::Z64(*v),
            ZExtBody::ZBuf(p) => ZExtBodyModel::ZBuf(p@),
        }
    }
}

/// Whether `kind` is a well-formed extension kind for `body`: the
/// continuation bit is not part of a kind, and the payload-shape bits agree
/// with the payload actually carried.
pub open spec fn spec_ext_wf(kind: u8, body: ZExtBodyModel) -> bool {
    &&& kind & EXT_FLAG_MORE == 0
    &&& match body {
        ZExtBodyModel::Unit => kind & EXT_ENC_MASK == EXT_ENC_UNIT,
        ZExtBodyModel::Z64(_) => kind & EXT_ENC_MASK == EXT_ENC_Z64,
        ZExtBodyModel::ZBuf(p) => kind & EXT_ENC_MASK == EXT_ENC_ZBUF && p.len() <= u64::MAX,
    }
}

/// Byte sequence of an extension's payload.
pub open spec fn spec_enc_ext_body(body: ZExtBodyModel) -> Seq<u8> {
    match body {
        ZExtBodyModel::Unit => Seq::empty(),
        ZExtBodyModel::Z64(v) => spec_enc_zint(v),
        ZExtBodyModel::ZBuf(p) => spec_enc_zint(p.len() as u64) + p,
    }
}

/// The header byte of an extension of kind `kind`, with the continuation bit
/// set when further extensions follow.
pub open spec fn spec_ext_header(kind: u8, more: bool) -> u8 {
    if more {
        kind | EXT_FLAG_MORE
    } else {
        kind
    }
}

/// Byte sequence of one whole extension: header byte, then payload.
pub open spec fn spec_enc_ext(kind: u8, more: bool, body: ZExtBodyModel) -> Seq<u8> {
    seq![spec_ext_header(kind, more)] + spec_enc_ext_body(body)
}

/// Appends one whole extension to `buf`.
pub fn write_ext(buf: &mut Vec<u8>, kind: u8, more: bool, body: &ZExtBody)
    requires
        spec_ext_wf(kind, body@),
    ensures
        final(buf)@ == old(buf)@ + spec_enc_ext(kind, more, body@),
{
    let h: u8 = if more {
        kind | EXT_FLAG_MORE
    } else {
        kind
    };
    buf.push(h);
    match body {
        ZExtBody::Unit => {
            assert(buf@ =~= old(buf)@ + spec_enc_ext(kind, more, body@));
        },
        ZExtBody::Z64(v) => {
            write_zint(buf, *v);
            assert(buf@ =~= old(buf)@ + spec_enc_ext(kind, more, body@));
        },
        ZExtBody::ZBuf(p) => {
            write_zint(buf, p.len() as u64);
            let ghost mid = buf@;
            let mut i: usize = 0;
            while i < p.len()
                invariant
                    i <= p.len(),
                    buf@ == mid + p@.take(i as int),
                decreases p.len() - i,
            {
                buf.push(p[i]);
                assert(p@.take(i + 1) =~= p@.take(i as int).push(p@[i as int]));
                i += 1;
            }
            assert(p@.take(p.len() as int) =~= p@);
            assert(buf@ =~= old(buf)@ + spec_enc_ext(kind, more, body@));
        },
    }
}

/// What an unrecognized extension's payload occupies, given its header byte
/// `h` and the bytes `s` that follow the header: the count of bytes to skip,
/// or the error mandated (mandatory-to-understand extensions are never
/// skipped).
pub open spec fn spec_skip_ext_body(h: u8, s: Seq<u8>) -> Result<int, DecodeError> {
    if h & EXT_FLAG_MANDATORY != 0 {
        Err(DecodeError::MandatoryExt)
    } else if h & EXT_ENC_MASK == EXT_ENC_UNIT {
        Ok(0)
    } else if h & EXT_ENC_MASK == EXT_ENC_Z64 {
        match spec_dec_zint(s) {
            Ok(t) => Ok(t.1),
            Err(e) => Err(e),
        }
    } else if h & EXT_ENC_MASK == EXT_ENC_ZBUF {
        match spec_dec_zint(s) {
            Ok(t) => {
                if t.0 <= s.len() - t.1 {
                    Ok(t.1 + t.0)
                } else {
                    Err(DecodeError::Truncated)
                }
            },
            Err(e) => Err(e),
        }
    } else {
        Err(DecodeError::Format)
    }
}

/// A successful skip consumes no more than the buffer.
pub proof fn lemma_skip_ext_body_len(h: u8, s: Seq<u8>)
    ensures
        spec_skip_ext_body(h, s) matches Ok(n) ==> 0 <= n <= s.len(),
{
    lemma_dec_zint_len(s);
}

/// Skipping an extension that was produced by the encoder consumes exactly
/// its payload, whatever follows it.
pub proof fn lemma_skip_enc_ext_body(h: u8, body: ZExtBodyModel, rest: Seq<u8>)
    requires
        h & EXT_FLAG_MANDATORY == 0,
        spec_ext_wf(h & EXT_KIND_MASK, body),
        h & EXT_ENC_MASK == (h & EXT_KIND_MASK) & EXT_ENC_MASK,
    ensures
        spec_skip_ext_body(h, spec_enc_ext_body(body) + rest) == Ok::<int, DecodeError>(
            spec_enc_ext_body(body).len() as int,
        ),
{
    match body {
        ZExtBodyModel::Unit => {
        },
        ZExtBodyModel::Z64(v) => {
            lemma_zint_round_trip(v, rest);
            assert(spec_enc_zint(v) + rest =~= spec_enc_ext_body(body) + rest);
        },
        ZExtBodyModel::ZBuf(p) => {
            lemma_zint_round_trip(p.len() as u64, p + rest);
            assert(spec_enc_zint(p.len() as u64) + (p + rest) =~= spec_enc_ext_body(body) + rest);
        },
    }
}

/// Consumes a whole extension chain of which no kind is recognized: one
/// extension after another while the continuation bit stays set.
pub open spec fn spec_skip_exts(s: Seq<u8>) -> Result<int, DecodeError>
    decreases s.len(),
{
    if s.len() == 0 {
        Err(DecodeError::Truncated)
    } else {
        let h = s[0];
        match spec_skip_ext_body(h, s.skip(1)) {
            Ok(n) => {
                if h & EXT_FLAG_MORE != 0 {
                    proof {
                        lemma_skip_ext_body_len(h, s.skip(1));
                    }
                    match spec_skip_exts(s.skip(1 + n)) {
                        Ok(m) => Ok(1 + n + m),
                        Err(e) => Err(e),
                    }
                } else {
                    Ok(1 + n)
                }
            },
            Err(e) => Err(e),
        }
    }
}

/// How the header byte of an extension of kind `kind` reads back.
pub proof fn lemma_ext_header_bits(kind: u8, more: bool)
    requires
        kind & (EXT_FLAG_MANDATORY | EXT_FLAG_MORE) == 0,
    ensures
        spec_ext_kind(spec_ext_header(kind, more)) == kind,
        spec_ext_header(kind, more) & EXT_FLAG_MORE != 0 <==> more,
        spec_ext_header(kind, more) & EXT_FLAG_MANDATORY == 0,
        spec_ext_header(kind, more) & EXT_ENC_MASK == kind & EXT_ENC_MASK,
{
    assert(kind & (0x40u8 | 0x80u8) == 0 ==> (kind & 0x3f == kind && (kind | 0x80) & 0x3f == kind
        && kind & 0x80 == 0 && (kind | 0x80) & 0x80 != 0 && kind & 0x40 == 0 && (kind | 0x80) & 0x40
        == 0 && (kind | 0x80) & 0x30 == kind & 0x30)) by (bit_vector);
}

/// Decodes an extension chain of which one packed-integer kind is
/// recognized: the chain is walked in order, each occurrence of `kind`
/// overwrites the value seen so far (last occurrence wins), every other
/// extension is skipped if it is not mandatory, and the walk ends with the
/// first extension whose continuation bit is clear.
pub open spec fn spec_dec_z64_ext_chain(s: Seq<u8>, kind: u8, cur: Option<u64>) -> Result<
    (Option<u64>, int),
    DecodeError,
>
    decreases s.len(),
{
    if s.len() == 0 {
        Err(DecodeError::Truncated)
    } else {
        let h = s[0];
        if spec_ext_kind(h) == kind {
            match spec_dec_zint(s.skip(1)) {
                Ok(t) => {
                    if h & EXT_FLAG_MORE != 0 {
                        proof {
                            lemma_dec_zint_len(s.skip(1));
                        }
                        match spec_dec_z64_ext_chain(s.skip(1 + t.1), kind, Some(t.0)) {
                            Ok(r) => Ok((r.0, 1 + t.1 + r.1)),
                            Err(e) => Err(e),
                        }
                    } else {
                        Ok((Some(t.0), 1 + t.1))
                    }
                },
                Err(e) => Err(e),
            }
        } else {
            match spec_skip_ext_body(h, s.skip(1)) {
                Ok(n) => {
                    if h & EXT_FLAG_MORE != 0 {
                        proof {
                            lemma_skip_ext_body_len(h, s.skip(1));
                        }
                        match spec_dec_z64_ext_chain(s.skip(1 + n), kind, cur) {
                            Ok(r) => Ok((r.0, 1 + n + r.1)),
                            Err(e) => Err(e),
                        }
                    } else {
                        Ok((cur, 1 + n))
                    }
                },
                Err(e) => Err(e),
            }
        }
    }
}

/// Decoding a chain that consists of one extension of the recognized kind
/// yields that extension's value, whatever was seen before.
pub proof fn lemma_z64_chain_single(kind: u8, v: u64, rest: Seq<u8>, cur: Option<u64>)
    requires
        kind & (EXT_FLAG_MANDATORY | EXT_FLAG_MORE) == 0,
        kind & EXT_ENC_MASK == EXT_ENC_Z64,
    ensures
        spec_dec_z64_ext_chain(spec_enc_ext(kind, false, ZExtBodyModel::Z64(v)) + rest, kind, cur)
            == Ok::<(Option<u64>, int), DecodeError>(
            (Some(v), spec_enc_ext(kind, false, ZExtBodyModel::Z64(v)).len() as int),
        ),
{
    let s = spec_enc_ext(kind, false, ZExtBodyModel::Z64(v)) + rest;
    lemma_ext_header_bits(kind, false);
    assert(s[0] == kind);
    lemma_zint_round_trip(v, rest);
    assert(s.skip(1) =~= spec_enc_zint(v) + rest);
}

/// Last occurrence wins: a chain holding two extensions of the recognized
/// kind decodes to the value of the later one.
pub proof fn lemma_z64_chain_last_wins(kind: u8, a: u64, b: u64, rest: Seq<u8>, cur: Option<u64>)
    requires
        kind & (EXT_FLAG_MANDATORY | EXT_FLAG_MORE) == 0,
        kind & EXT_ENC_MASK == EXT_ENC_Z64,
    ensures
        spec_dec_z64_ext_chain(
            spec_enc_ext(kind, true, ZExtBodyModel::Z64(a)) + spec_enc_ext(
                kind,
                false,
                ZExtBodyModel::Z64(b),
            ) + rest,
            kind,
            cur,
        ) == Ok::<(Option<u64>, int), DecodeError>(
            (Some(b), (spec_enc_ext(kind, true, ZExtBodyModel::Z64(a)) + spec_enc_ext(
                kind,
                false,
                ZExtBodyModel::Z64(b),
            )).len() as int),
        ),
{
    let e1 = spec_enc_ext(kind, true, ZExtBodyModel::Z64(a));
    let e2 = spec_enc_ext(kind, false, ZExtBodyModel::Z64(b));
    let s = e1 + e2 + rest;
    lemma_ext_header_bits(kind, true);
    assert(s[0] == spec_ext_header(kind, true));
    lemma_zint_round_trip(a, e2 + rest);
    assert(s.skip(1) =~= spec_enc_zint(a) + (e2 + rest));
    lemma_z64_chain_single(kind, b, rest, Some(a));
    assert(s.skip(1 + spec_enc_zint(a).len() as int) =~= e2 + rest);
}

/// An unrecognized but skippable extension ahead of the recognized one is
/// consumed exactly, and the recognized one still decodes.
pub proof fn lemma_z64_chain_skip_unknown_first(
    kind: u8,
    v: u64,
    uk: u8,
    ubody: ZExtBodyModel,
    rest: Seq<u8>,
    cur: Option<u64>,
)
    requires
        kind & (EXT_FLAG_MANDATORY | EXT_FLAG_MORE) == 0,
        kind & EXT_ENC_MASK == EXT_ENC_Z64,
        spec_ext_wf(uk, ubody),
        uk & EXT_FLAG_MANDATORY == 0,
        uk != kind,
    ensures
        spec_dec_z64_ext_chain(
            spec_enc_ext(uk, true, ubody) + spec_enc_ext(kind, false, ZExtBodyModel::Z64(v))
                + rest,
            kind,
            cur,
        ) == Ok::<(Option<u64>, int), DecodeError>(
            (Some(v), (spec_enc_ext(uk, true, ubody) + spec_enc_ext(
                kind,
                false,
                ZExtBodyModel::Z64(v),
            )).len() as int),
        ),
{
    let e1 = spec_enc_ext(uk, true, ubody);
    let e2 = spec_enc_ext(kind, false, ZExtBodyModel::Z64(v));
    let s = e1 + e2 + rest;
    assert(uk & 0x80 == 0 && uk & 0x40 == 0 ==> uk & (0x40u8 | 0x80u8) == 0) by (bit_vector);
    lemma_ext_header_bits(uk, true);
    let h1 = spec_ext_header(uk, true);
    assert(s[0] == h1);
    lemma_skip_enc_ext_body(h1, ubody, e2 + rest);
    assert(s.skip(1) =~= spec_enc_ext_body(ubody) + (e2 + rest));
    lemma_z64_chain_single(kind, v, rest, cur);
    assert(s.skip(1 + spec_enc_ext_body(ubody).len() as int) =~= e2 + rest);
}

/// An unrecognized but skippable extension after the recognized one is
/// consumed exactly and does not disturb what was decoded before it.
pub proof fn lemma_z64_chain_skip_unknown_second(
    kind: u8,
    v: u64,
    uk: u8,
    ubody: ZExtBodyModel,
    rest: Seq<u8>,
    cur: Option<u64>,
)
    requires
        kind & (EXT_FLAG_MANDATORY | EXT_FLAG_MORE) == 0,
        kind & EXT_ENC_MASK == EXT_ENC_Z64,
        spec_ext_wf(uk, ubody),
        uk & EXT_FLAG_MANDATORY == 0,
        uk != kind,
    ensures
        spec_dec_z64_ext_chain(
            spec_enc_ext(kind, true, ZExtBodyModel::Z64(v)) + spec_enc_ext(uk, false, ubody)
                + rest,
            kind,
            cur,
        ) == Ok::<(Option<u64>, int), DecodeError>(
            (Some(v), (spec_enc_ext(kind, true, ZExtBodyModel::Z64(v)) + spec_enc_ext(
                uk,
                false,
                ubody,
            )).len() as int),
        ),
{
    let e1 = spec_enc_ext(kind, true, ZExtBodyModel::Z64(v));
    let e2 = spec_enc_ext(uk, false, ubody);
    let s = e1 + e2 + rest;
    lemma_ext_header_bits(kind, true);
    assert(s[0] == spec_ext_header(kind, true));
    lemma_zint_round_trip(v, e2 + rest);
    assert(s.skip(1) =~= spec_enc_zint(v) + (e2 + rest));
    let s2 = e2 + rest;
    assert(s.skip(1 + spec_enc_zint(v).len() as int) =~= s2);
    assert(uk & 0x80 == 0 && uk & 0x40 == 0 ==> uk & (0x40u8 | 0x80u8) == 0) by (bit_vector);
    lemma_ext_header_bits(uk, false);
    assert(s2[0] == spec_ext_header(uk, false));
    lemma_skip_enc_ext_body(spec_ext_header(uk, false), ubody, rest);
    assert(s2.skip(1) =~= spec_enc_ext_body(ubody) + rest);
    assert(spec_dec_z64_ext_chain(s2, kind, Some(v)) == Ok::<(Option<u64>, int), DecodeError>(
        (Some(v), e2.len() as int),
    ));
}

/// Consumes the payload of one unrecognized extension with header byte `h`,
/// starting at `pos`; on success returns the count of bytes skipped.
pub fn skip_ext_body(buf: &Vec<u8>, pos: usize, h: u8) -> (r: Result<usize, DecodeError>)
    requires
        pos <= buf.len(),
    ensures
        match r {
            Ok(n) => {
                &&& pos + n <= buf.len()
                &&& spec_skip_ext_body(h, buf@.skip(pos as int)) == Ok::<int, DecodeError>(n as int)
            },
            Err(e) => spec_skip_ext_body(h, buf@.skip(pos as int)) == Err::<int, DecodeError>(e),
        },
{
    let ghost s = buf@.skip(pos as int);
    if h & EXT_FLAG_MANDATORY != 0 {
        return Err(DecodeError::MandatoryExt);
    }
    let enc = h & EXT_ENC_MASK;
    if enc == EXT_ENC_UNIT {
        Ok(0)
    } else if enc == EXT_ENC_Z64 {
        match read_zint(buf, pos) {
            Ok((_, n)) => Ok(n),
            Err(e) => Err(e),
        }
    } else if enc == EXT_ENC_ZBUF {
        match read_zint(buf, pos) {
            Ok((len_z, n)) => {
                let rem: usize = buf.len() - pos - n;
                if len_z <= rem as u64 {
                    Ok(n + len_z as usize)
                } else {
                    Err(DecodeError::Truncated)
                }
            },
            Err(e) => Err(e),
        }
    } else {
        Err(DecodeError::Format)
    }
}

/// Consumes a whole extension chain of which no kind is recognized, starting
/// at the first extension header byte at `pos`; on success returns the count
/// of bytes skipped.
pub fn skip_exts(buf: &Vec<u8>, pos: usize) -> (r: Result<usize, DecodeError>)
    requires
        pos <= buf.len(),
    ensures
        match r {
            Ok(n) => {
                &&& pos + n <= buf.len()
                &&& spec_skip_exts(buf@.skip(pos as int)) == Ok::<int, DecodeError>(n as int)
            },
            Err(e) => spec_skip_exts(buf@.skip(pos as int)) == Err::<int, DecodeError>(e),
        },
    decreases buf.len() - pos,
{
    let ghost s = buf@.skip(pos as int);
    if pos == buf.len() {
        return Err(DecodeError::Truncated);
    }
    let h = buf[pos];
    assert(s[0] == h);
    proof {
        assert(s.skip(1) =~= buf@.skip(pos as int + 1));
    }
    match skip_ext_body(buf, pos + 1, h) {
        Ok(n) => {
            if h & EXT_FLAG_MORE != 0 {
                proof {
                    assert(s.skip(1 + n) =~= buf@.skip(pos as int + 1 + n));
                }
                match skip_exts(buf, pos + 1 + n) {
                    Ok(m) => Ok(1 + n + m),
                    Err(e) => Err(e),
                }
            } else {
                Ok(1 + n)
            }
        },
        Err(e) => Err(e),
    }
}

/// Decodes an extension chain starting at `pos`, recognizing one
/// packed-integer kind; on success returns the last value of that kind seen
/// (or `cur` when none occurred) and the count of bytes consumed.
pub fn read_z64_ext_chain(buf: &Vec<u8>, pos: usize, kind: u8, cur: Option<u64>) -> (r: Result<
    (Option<u64>, usize),
    DecodeError,
>)
    requires
        pos <= buf.len(),
    ensures
        match r {
            Ok(t) => {
                &&& pos + t.1 <= buf.len()
                &&& spec_dec_z64_ext_chain(buf@.skip(pos as int), kind, cur) == Ok::<
                    (Option<u64>, int),
                    DecodeError,
                >((t.0, t.1 as int))
            },
            Err(e) => spec_dec_z64_ext_chain(buf@.skip(pos as int), kind, cur) == Err::<
                (Option<u64>, int),
                DecodeError,
            >(e),
        },
    decreases buf.len() - pos,
{
    let ghost s = buf@.skip(pos as int);
    if pos == buf.len() {
        return Err(DecodeError::Truncated);
    }
    let h = buf[pos];
    assert(s[0] == h);
    proof {
        assert(s.skip(1) =~= buf@.skip(pos as int + 1));
    }
    if (h & EXT_KIND_MASK) == kind {
        match read_zint(buf, pos + 1) {
            Ok((v, n)) => {
                if h & EXT_FLAG_MORE != 0 {
                    proof {
                        assert(s.skip(1 + n) =~= buf@.skip(pos as int + 1 + n));
                    }
                    match read_z64_ext_chain(buf, pos + 1 + n, kind, Some(v)) {
                        Ok((w, m)) => Ok((w, 1 + n + m)),
                        Err(e) => Err(e),
                    }
                } else {
                    Ok((Some(v), 1 + n))
                }
            },
            Err(e) => Err(e),
        }
    } else {
        match skip_ext_body(buf, pos + 1, h) {
            Ok(n) => {
                if h & EXT_FLAG_MORE != 0 {
                    proof {
                        assert(s.skip(1 + n) =~= buf@.skip(pos as int + 1 + n));
                    }
                    match read_z64_ext_chain(buf, pos + 1 + n, kind, cur) {
                        Ok((w, m)) => Ok((w, 1 + n + m)),
                        Err(e) => Err(e),
                    }
                } else {
                    Ok((cur, 1 + n))
                }
            },
            Err(e) => Err(e),
        }
    }
}

} // verus!
