//! Variable-length encoding of unsigned integers: seven value bits per byte,
//! least-significant group first, the high bit of a byte set while further
//! groups follow.  Every numeric field of the message family (identifiers,
//! lengths, packed extension values) travels in this form.
use vstd::prelude::*;

use crate::common::DecodeError;

verus! {

/// Byte sequence of the variable-length encoding of `v`.
pub open spec fn spec_enc_zint(v: u64) -> Seq<u8>
    decreases v,
{
    if v < 128 {
        seq![v as u8]
    } else {
        seq![(v % 128 + 128) as u8] + spec_enc_zint(v / 128)
    }
}

/// Functional decoder: the value read from the front of `s` and the count of
/// bytes it occupies, or the error mandated for `s`.
pub open spec fn spec_dec_zint(s: Seq<u8>) -> Result<(u64, int), DecodeError>
    decreases s.len(),
{
    if s.len() == 0 {
        Err(DecodeError::Truncated)
    } else if s[0] < 128 {
        Ok((s[0] as u64, 1))
    } else {
        match spec_dec_zint(s.skip(1)) {
            Ok(hi) => {
                let v: int = s[0] - 128 + 128 * hi.0;
                if v <= u64::MAX {
                    Ok((v as u64, hi.1 + 1))
                } else {
                    Err(DecodeError::Format)
                }
            },
            Err(e) => Err(e),
        }
    }
}

/// An encoding occupies between one and ten bytes.
pub proof fn lemma_enc_zint_len(v: u64)
    ensures
        1 <= spec_enc_zint(v).len() <= 10,
{
    let v1: u64 = v / 128;
    let v2: u64 = v1 / 128;
    let v3: u64 = v2 / 128;
    let v4: u64 = v3 / 128;
    let v5: u64 = v4 / 128;
    let v6: u64 = v5 / 128;
    let v7: u64 = v6 / 128;
    let v8: u64 = v7 / 128;
    let v9: u64 = v8 / 128;
    assert(v1 < 0x200000000000000);
    assert(v2 < 0x4000000000000);
    assert(v3 < 0x80000000000);
    assert(v4 < 0x1000000000);
    assert(v5 < 0x20000000);
    assert(v6 < 0x400000);
    assert(v7 < 0x8000);
    assert(v8 < 0x100);
    assert(v9 < 2);
    assert(spec_enc_zint(v9).len() == 1);
    assert(spec_enc_zint(v8).len() <= 1 + spec_enc_zint(v9).len());
    assert(spec_enc_zint(v7).len() <= 1 + spec_enc_zint(v8).len());
    assert(spec_enc_zint(v6).len() <= 1 + spec_enc_zint(v7).len());
    assert(spec_enc_zint(v5).len() <= 1 + spec_enc_zint(v6).len());
    assert(spec_enc_zint(v4).len() <= 1 + spec_enc_zint(v5).len());
    assert(spec_enc_zint(v3).len() <= 1 + spec_enc_zint(v4).len());
    assert(spec_enc_zint(v2).len() <= 1 + spec_enc_zint(v3).len());
    assert(spec_enc_zint(v1).len() <= 1 + spec_enc_zint(v2).len());
    assert(spec_enc_zint(v).len() <= 1 + spec_enc_zint(v1).len());
    assert(spec_enc_zint(v).len() >= 1);
}

/// A successful decode consumes at least one byte and no more than the buffer.
pub proof fn lemma_dec_zint_len(s: Seq<u8>)
    ensures
        spec_dec_zint(s) matches Ok(r) ==> 1 <= r.1 <= s.len(),
    decreases s.len(),
{
    if s.len() > 0 && s[0] >= 128 {
        lemma_dec_zint_len(s.skip(1));
    }
}

/// Round trip: decoding an encoding, whatever follows it, yields the encoded
/// value and consumes exactly the encoding.
pub proof fn lemma_zint_round_trip(v: u64, rest: Seq<u8>)
    ensures
        spec_dec_zint(spec_enc_zint(v) + rest) == Ok::<(u64, int), DecodeError>(
            (v, spec_enc_zint(v).len() as int),
        ),
    decreases v,
{
    let s = spec_enc_zint(v) + rest;
    if v < 128 {
        assert(s[0] == v as u8);
    } else {
        let b: u8 = (v % 128 + 128) as u8;
        assert(s[0] == b);
        assert(b >= 128);
        lemma_zint_round_trip(v / 128, rest);
        assert(s.skip(1) =~= spec_enc_zint(v / 128) + rest);
        assert(s[0] - 128 + 128 * (v / 128) == v);
    }
}

/// Appends the variable-length encoding of `v` to `buf`.
pub fn write_zint(buf: &mut Vec<u8>, v: u64)
    ensures
        final(buf)@ == old(buf)@ + spec_enc_zint(v),
    decreases v,
{
    if v < 128 {
        buf.push(v as u8);
        assert(buf@ =~= old(buf)@ + spec_enc_zint(v));
    } else {
        buf.push((v % 128 + 128) as u8);
        write_zint(buf, v / 128);
        assert(buf@ =~= old(buf)@ + spec_enc_zint(v));
    }
}

/// Reads a variable-length integer from `buf` starting at `pos`; on success
/// returns the value and the count of bytes consumed.
pub fn read_zint(buf: &Vec<u8>, pos: usize) -> (r: Result<(u64, usize), DecodeError>)
    requires
        pos <= buf.len(),
    ensures
        match r {
            Ok(t) => {
                &&& pos + t.1 <= buf.len()
                &&& spec_dec_zint(buf@.skip(pos as int)) == Ok::<(u64, int), DecodeError>(
                    (t.0, t.1 as int),
                )
            },
            Err(e) => spec_dec_zint(buf@.skip(pos as int)) == Err::<(u64, int), DecodeError>(e),
        },
    decreases buf.len() - pos,
{
    let ghost s = buf@.skip(pos as int);
    if pos == buf.len() {
        assert(s.len() == 0);
        return Err(DecodeError::Truncated);
    }
    let b = buf[pos];
    assert(s[0] == b);
    if b < 128 {
        Ok((b as u64, 1))
    } else {
        proof {
            assert(s.skip(1) =~= buf@.skip(pos as int + 1));
        }
        match read_zint(buf, pos + 1) {
            Ok((hi, n)) => {
                let low: u8 = b - 128;
                let total: u128 = (hi as u128) * 128 + (low as u128);
                if total <= u64::MAX as u128 {
                    Ok((total as u64, n + 1))
                } else {
                    Err(DecodeError::Format)
                }
            },
            Err(e) => Err(e),
        }
    }
}

} // verus!
