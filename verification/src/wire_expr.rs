//! Key-expression references on the wire: a numeric scope identifier,
//! optionally followed by a literal suffix.  Whether the suffix is present is
//! not stored here but signalled by the `N` flag of the enclosing message
//! header, so the decoder takes that condition as a parameter.
use vstd::prelude::*;

use crate::common::DecodeError;
use crate::zint::{
    lemma_dec_zint_len, lemma_zint_round_trip, read_zint, spec_dec_zint, spec_enc_zint, write_zint,
};

verus! {

/// A key-expression reference: a session-scoped numeric identifier plus an
/// optional literal suffix (empty when the reference is purely numeric).
#[derive(Clone, Debug, PartialEq, Eq)]
pub struct WireExpr {
    pub scope: u16,
    pub suffix: Vec<u8>,
}

/// Mathematical model of a [`WireExpr`].
#[verifier::ext_equal]
pub struct WireExprModel {
    pub scope: u16,
    pub suffix: Seq<u8>,
}

impl View for WireExpr {
    type V = WireExprModel;

    open spec fn view(&self) -> WireExprModel {
        WireExprModel { scope: self.scope, suffix: self.suffix@ }
    }
}

/// Whether the reference carries a literal suffix.
pub open spec fn spec_has_suffix(w: WireExprModel) -> bool {
    w.suffix.len() != 0
}

/// Whether the reference is well formed: its suffix length is expressible on
/// the wire.
pub open spec fn spec_wire_expr_wf(w: WireExprModel) -> bool {
    w.suffix.len() <= u64::MAX
}

impl WireExpr {
    /// Whether the reference carries a literal suffix.
    pub fn has_suffix(&self) -> (r: bool)
        ensures
            r == spec_has_suffix(self@),
    {
        self.suffix.len() != 0
    }
}

/// Byte sequence of the encoding of `w`: the scope identifier, then, when a
/// suffix is present, its length and its bytes.
pub open spec fn spec_enc_wire_expr(w: WireExprModel) -> Seq<u8> {
    if spec_has_suffix(w) {
        spec_enc_zint(w.scope as u64) + spec_enc_zint(w.suffix.len() as u64) + w.suffix
    } else {
        spec_enc_zint(w.scope as u64)
    }
}

/// Functional decoder, parameterized by the enclosing header's "a literal
/// suffix follows" condition.
pub open spec fn spec_dec_wire_expr(s: Seq<u8>, has_suffix: bool) -> Result<
    (WireExprModel, int),
    DecodeError,
> {
    match spec_dec_zint(s) {
        Ok(sc) => {
            if sc.0 > u16::MAX {
                Err(DecodeError::Format)
            } else if has_suffix {
                match spec_dec_zint(s.skip(sc.1)) {
                    Ok(ln) => {
                        if ln.0 <= s.len() - sc.1 - ln.1 {
                            Ok(
                                (
                                    WireExprModel {
                                        scope: sc.0 as u16,
                                        suffix: s.subrange(
                                            sc.1 + ln.1,
                                            sc.1 + ln.1 + ln.0 as int,
                                        ),
                                    },
                                    sc.1 + ln.1 + ln.0 as int,
                                ),
                            )
                        } else {
                            Err(DecodeError::Truncated)
                        }
                    },
                    Err(e) => Err(e),
                }
            } else {
                Ok((WireExprModel { scope: sc.0 as u16, suffix: Seq::empty() }, sc.1))
            }
        },
        Err(e) => Err(e),
    }
}

/// Round trip: decoding an encoding under the condition the encoder derived,
/// whatever follows it, yields the encoded reference back.
pub proof fn lemma_wire_expr_round_trip(w: WireExprModel, rest: Seq<u8>)
    requires
        w.suffix.len() <= u64::MAX,
    ensures
        spec_dec_wire_expr(spec_enc_wire_expr(w) + rest, spec_has_suffix(w)) == Ok::<
            (WireExprModel, int),
            DecodeError,
        >((w, spec_enc_wire_expr(w).len() as int)),
{
    let s = spec_enc_wire_expr(w) + rest;
    let e_scope = spec_enc_zint(w.scope as u64);
    if spec_has_suffix(w) {
        let e_len = spec_enc_zint(w.suffix.len() as u64);
        assert(s =~= e_scope + (e_len + (w.suffix + rest)));
        lemma_zint_round_trip(w.scope as u64, e_len + (w.suffix + rest));
        assert(s.skip(e_scope.len() as int) =~= e_len + (w.suffix + rest));
        lemma_zint_round_trip(w.suffix.len() as u64, w.suffix + rest);
        let n1 = e_scope.len() as int;
        let n2 = e_len.len() as int;
        let ln = w.suffix.len() as int;
        assert(s.subrange(n1 + n2, n1 + n2 + ln) =~= w.suffix);
        let decoded = WireExprModel {
            scope: w.scope,
            suffix: s.subrange(n1 + n2, n1 + n2 + ln),
        };
        assert(decoded =~= w);
    } else {
        lemma_zint_round_trip(w.scope as u64, rest);
        assert(s =~= e_scope + rest);
        let decoded = WireExprModel { scope: w.scope, suffix: Seq::empty() };
        assert(decoded =~= w);
    }
}

/// Appends the encoding of `w` to `buf`, writing the suffix exactly when it
/// is non-empty.
pub fn write_wire_expr(buf: &mut Vec<u8>, w: &WireExpr)
    ensures
        final(buf)@ == old(buf)@ + spec_enc_wire_expr(w@),
{
    write_zint(buf, w.scope as u64);
    if w.suffix.len() != 0 {
        write_zint(buf, w.suffix.len() as u64);
        let mut i: usize = 0;
        while i < w.suffix.len()
            invariant
                i <= w.suffix.len(),
                buf@ == old(buf)@ + spec_enc_zint(w.scope as u64) + spec_enc_zint(
                    w.suffix.len() as u64,
                ) + w.suffix@.take(i as int),
            decreases w.suffix.len() - i,
        {
            buf.push(w.suffix[i]);
            assert(w.suffix@.take(i + 1) =~= w.suffix@.take(i as int).push(w.suffix@[i as int]));
            i += 1;
        }
        assert(w.suffix@.take(w.suffix.len() as int) =~= w.suffix@);
        assert(buf@ =~= old(buf)@ + spec_enc_wire_expr(w@));
    } else {
        assert(buf@ =~= old(buf)@ + spec_enc_wire_expr(w@));
    }
}

/// Copies `len` bytes of `buf` starting at `pos` into a fresh vector.
pub(crate) fn read_bytes(buf: &Vec<u8>, pos: usize, len: usize) -> (r: Vec<u8>)
    requires
        pos + len <= buf.len(),
    ensures
        r@ == buf@.subrange(pos as int, pos + len),
{
    let mut out: Vec<u8> = Vec::new();
    let mut i: usize = 0;
    while i < len
        invariant
            i <= len,
            pos + len <= buf.len(),
            out@ == buf@.subrange(pos as int, pos + i),
        decreases len - i,
    {
        out.push(buf[pos + i]);
        assert(buf@.subrange(pos as int, pos + i + 1) =~= buf@.subrange(pos as int, pos + i).push(
            buf@[pos + i],
        ));
        i += 1;
    }
    out
}

/// Reads a wire expression from `buf` starting at `pos` under the given
/// "a literal suffix follows" condition; on success returns the reference and
/// the count of bytes consumed.
pub fn read_wire_expr(buf: &Vec<u8>, pos: usize, has_suffix: bool) -> (r: Result<
    (WireExpr, usize),
    DecodeError,
>)
    requires
        pos <= buf.len(),
    ensures
        match r {
            Ok(t) => {
                &&& pos + t.1 <= buf.len()
                &&& spec_dec_wire_expr(buf@.skip(pos as int), has_suffix) == Ok::<
                    (WireExprModel, int),
                    DecodeError,
                >((t.0@, t.1 as int))
            },
            Err(e) => spec_dec_wire_expr(buf@.skip(pos as int), has_suffix) == Err::<
                (WireExprModel, int),
                DecodeError,
            >(e),
        },
{
    let ghost s = buf@.skip(pos as int);
    let (scope_z, n1) = match read_zint(buf, pos) {
        Ok(t) => t,
        Err(e) => { return Err(e); },
    };
    if scope_z > u16::MAX as u64 {
        return Err(DecodeError::Format);
    }
    let scope: u16 = scope_z as u16;
    if has_suffix {
        proof {
            assert(s.skip(n1 as int) =~= buf@.skip(pos + n1));
        }
        let (len_z, n2) = match read_zint(buf, pos + n1) {
            Ok(t) => t,
            Err(e) => { return Err(e); },
        };
        proof {
            lemma_dec_zint_len(s);
            lemma_dec_zint_len(s.skip(n1 as int));
        }
        let rem: usize = buf.len() - pos - n1 - n2;
        if len_z <= rem as u64 {
            let len: usize = len_z as usize;
            let suffix = read_bytes(buf, pos + n1 + n2, len);
            let we = WireExpr { scope, suffix };
            proof {
                assert(s.subrange(n1 + n2, n1 + n2 + len_z as int) =~= buf@.subrange(
                    pos + n1 + n2,
                    pos + n1 + n2 + len_z as int,
                ));
                assert(we@ =~= spec_dec_wire_expr(s, has_suffix)->Ok_0.0);
            }
            Ok((we, n1 + n2 + len))
        } else {
            Err(DecodeError::Truncated)
        }
    } else {
        let we = WireExpr { scope, suffix: Vec::new() };
        proof {
            assert(we@ =~= spec_dec_wire_expr(s, has_suffix)->Ok_0.0);
        }
        Ok((we, n1))
    }
}

} // verus!
