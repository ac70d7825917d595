//! The record layer of the wire format: one attribute record is a 16-bit
//! little-endian kind, a 16-bit little-endian payload length, the payload
//! bytes, and zero padding up to the 4-byte alignment unit.

use vstd::prelude::*;

verus! {

/// Flag bit of the 16-bit kind field marking a payload that is itself a
/// concatenation of attribute records.
pub const NLA_F_NESTED: u16 = 0x8000;

/// Mask selecting the true attribute kind: the kind with the nested flag
/// stripped.
pub const NLA_KIND_MASK: u16 = 0x7fff;

/// Number of zero bytes that follow a payload of `plen` bytes to reach the
/// next 4-byte boundary.
pub open spec fn pad_len(plen: nat) -> nat {
    if plen % 4 == 0 {
        0
    } else {
        (4 - plen % 4) as nat
    }
}

/// Total length of one record on the wire: 4 header bytes, the payload, and
/// its padding.
pub open spec fn record_len(plen: nat) -> nat {
    4 + plen + pad_len(plen)
}

/// A sequence of `n` zero bytes.
pub open spec fn zero_bytes(n: nat) -> Seq<u8> {
    Seq::new(n, |i: int| 0u8)
}

/// The bytes of one record: kind, payload length, payload, padding.
pub open spec fn record_bytes(kind: u16, payload: Seq<u8>) -> Seq<u8>
    recommends
        payload.len() <= 0xffff,
{
    vstd::bytes::spec_u16_to_le_bytes(kind) + vstd::bytes::spec_u16_to_le_bytes(
        payload.len() as u16,
    ) + payload + zero_bytes(pad_len(payload.len()))
}

pub proof fn lemma_record_bytes_len(kind: u16, payload: Seq<u8>)
    ensures
        record_bytes(kind, payload).len() == record_len(payload.len()),
{
    vstd::bytes::lemma_auto_spec_u16_to_from_le_bytes();
}

/// Padding that a payload of `plen` bytes needs to reach the next 4-byte
/// boundary.
pub fn pad_for(plen: usize) -> (r: usize)
    ensures
        r == pad_len(plen as nat),
{
    if plen % 4 == 0 {
        0
    } else {
        4 - plen % 4
    }
}

/// Appends the two little-endian bytes of `v`.
pub fn append_u16_le(out: &mut Vec<u8>, v: u16)
    ensures
        final(out)@ == old(out)@ + vstd::bytes::spec_u16_to_le_bytes(v),
{
    let bs = vstd::bytes::u16_to_le_bytes(v);
    out.push(bs[0]);
    out.push(bs[1]);
    proof {
        assert(out@ =~= old(out)@ + vstd::bytes::spec_u16_to_le_bytes(v));
    }
}

/// Appends the four little-endian bytes of `v`.
pub fn append_u32_le(out: &mut Vec<u8>, v: u32)
    ensures
        final(out)@ == old(out)@ + vstd::bytes::spec_u32_to_le_bytes(v),
{
    let bs = vstd::bytes::u32_to_le_bytes(v);
    out.push(bs[0]);
    out.push(bs[1]);
    out.push(bs[2]);
    out.push(bs[3]);
    proof {
        assert(out@ =~= old(out)@ + vstd::bytes::spec_u32_to_le_bytes(v));
    }
}

/// Appends `n` zero bytes.
pub fn append_zeros(out: &mut Vec<u8>, n: usize)
    ensures
        final(out)@ == old(out)@ + zero_bytes(n as nat),
{
    let ghost base = out@;
    let mut i: usize = 0;
    while i < n
        invariant
            i <= n,
            out@ == base + zero_bytes(i as nat),
        decreases n - i,
    {
        out.push(0u8);
        i = i + 1;
        proof {
            assert(out@ =~= base + zero_bytes(i as nat));
        }
    }
    proof {
        assert(out@ =~= old(out)@ + zero_bytes(n as nat));
    }
}

} // verus!
