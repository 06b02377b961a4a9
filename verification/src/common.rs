//! Shared pieces of the codec: the error taxonomy, the layout of the one-byte
//! message header (message-kind identifier in the low bits, flags in the high
//! bits) and small helpers over it.
use vstd::prelude::*;

verus! {

/// Outcome of a failed decode.
///
/// Decoders never panic: every malformed input is reported through one of
/// these variants and the caller decides whether to drop a message or close
/// a link.
#[derive(Clone, Copy, Debug, PartialEq, Eq, Structural)]
pub enum DecodeError {
    /// Fewer bytes were available than a field requires.
    Truncated,
    /// A header carries an unexpected message-kind identifier, or a value is
    /// outside its known range.
    Format,
    /// An extension marked mandatory-to-understand has an unrecognized kind.
    MandatoryExt,
}

/// Mask of the message-kind identifier within the header byte.
pub const MID_MASK: u8 = 0x1f;

/// Header flag: the accompanying wire expression carries a literal suffix.
pub const FLAG_N: u8 = 0x20;

/// Header flag: the numeric identifier was assigned by the sender.
pub const FLAG_M: u8 = 0x40;

/// Header flag: one or more chained extensions follow the body.
pub const FLAG_Z: u8 = 0x80;

/// Message-kind identifier held in the low bits of a header byte.
pub open spec fn spec_mid(h: u8) -> u8 {
    h & MID_MASK
}

/// Whether flag `f` is set in header byte `h`.
pub open spec fn spec_has_flag(h: u8, f: u8) -> bool {
    h & f != 0
}

/// How the bits of a header byte built from a message-kind identifier and
/// the three flag positions read back.
pub proof fn lemma_header_bits(id: u8, n: u8, m: u8, z: u8)
    requires
        id <= MID_MASK,
        n == 0 || n == FLAG_N,
        m == 0 || m == FLAG_M,
        z == 0 || z == FLAG_Z,
    ensures
        spec_mid(id | n | m | z) == id,
        spec_has_flag(id | n | m | z, FLAG_N) <==> n == FLAG_N,
        spec_has_flag(id | n | m | z, FLAG_M) <==> m == FLAG_M,
        spec_has_flag(id | n | m | z, FLAG_Z) <==> z == FLAG_Z,
{
    assert((id <= 0x1f && (n == 0 || n == 0x20) && (m == 0 || m == 0x40) && (z == 0 || z
        == 0x80)) ==> ((id | n | m | z) & 0x1f == id && (((id | n | m | z) & 0x20 != 0) <==> n
        == 0x20) && (((id | n | m | z) & 0x40 != 0) <==> m == 0x40) && (((id | n | m | z) & 0x80
        != 0) <==> z == 0x80))) by (bit_vector);
}

/// Packs a message-kind identifier and flag bits into one header byte.
pub fn write_header(kind: u8, flags: u8) -> (h: u8)
    requires
        kind & MID_MASK == kind,
        flags & MID_MASK == 0,
    ensures
        h == kind | flags,
        spec_mid(h) == kind,
        forall|f: u8| f & MID_MASK == 0 ==> (spec_has_flag(h, f) <==> flags & f != 0),
{
    proof {
        assert forall|f: u8| f & MID_MASK == 0 implies ((kind | flags) & f != 0 <==> flags & f
            != 0) by {
            let k = kind;
            let fl = flags;
            assert(k & 0x1f == k && fl & 0x1f == 0 && f & 0x1f == 0 ==> ((k | fl) & f != 0 <==> fl
                & f != 0)) by (bit_vector);
        }
        assert(kind & 0x1f == kind && flags & 0x1f == 0 ==> (kind | flags) & 0x1f
            == kind) by (bit_vector);
    }
    kind | flags
}

/// Splits a header byte into its message-kind identifier and its flag bits.
pub fn read_header(h: u8) -> (r: (u8, u8))
    ensures
        r.0 == spec_mid(h),
        r.1 == h & !MID_MASK,
        r.0 | r.1 == h,
{
    proof {
        assert((h & 0x1f) | (h & !0x1f) == h) by (bit_vector);
    }
    (h & MID_MASK, h & !MID_MASK)
}

/// Tests one flag bit of a header byte.
pub fn has_flag(h: u8, f: u8) -> (r: bool)
    ensures
        r == spec_has_flag(h, f),
{
    h & f != 0
}

} // verus!
