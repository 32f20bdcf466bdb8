//! Big-endian reads from a byte slice and writes to a byte vector.
//!
//! The reads and writes themselves are made by the `bytes` crate: a `&[u8]` is
//! its simplest `Buf`, a `Vec<u8>` its simplest `BufMut`. Each function here
//! holds one call into it, and its contract is taken on trust from the crate's
//! source.

use bytes::Buf;
use bytes::BufMut;
use vstd::prelude::*;

verus! {

/// The 16-bit number whose big-endian bytes are `hi`, `lo`.
pub open spec fn spec_u16_be(hi: u8, lo: u8) -> u16 {
    (hi as int * 256 + lo as int) as u16
}

/// The 32-bit number whose big-endian bytes are `b0`, `b1`, `b2`, `b3`.
pub open spec fn spec_u32_be(b0: u8, b1: u8, b2: u8, b3: u8) -> u32 {
    (b0 as int * 16777216 + b1 as int * 65536 + b2 as int * 256 + b3 as int) as u32
}

/// The two big-endian bytes of `v`.
pub open spec fn spec_u16_bytes(v: u16) -> Seq<u8> {
    seq![(v as int / 256) as u8, (v as int % 256) as u8]
}

/// `Buf::try_get_u8` on a byte slice: with at least one byte left it hands out
/// the first byte and moves the slice past it; with none it fails and leaves
/// the slice as it was.
#[verifier::external_body]
pub(crate) fn try_get_u8(buf: &mut &[u8]) -> (r: Option<u8>)
    ensures
        old(buf)@.len() >= 1 ==> r == Some(old(buf)@[0]) && final(buf)@ == old(buf)@.skip(1),
        old(buf)@.len() < 1 ==> r.is_none() && final(buf)@ == old(buf)@,
{
    buf.try_get_u8().ok()
}

/// `Buf::try_get_u16` on a byte slice: with at least two bytes left it hands
/// out the first two as a big-endian number and moves the slice past them;
/// with fewer it fails and leaves the slice as it was.
#[verifier::external_body]
pub(crate) fn try_get_u16(buf: &mut &[u8]) -> (r: Option<u16>)
    ensures
        old(buf)@.len() >= 2 ==> r == Some(spec_u16_be(old(buf)@[0], old(buf)@[1])) && final(buf)@
            == old(buf)@.skip(2),
        old(buf)@.len() < 2 ==> r.is_none() && final(buf)@ == old(buf)@,
{
    buf.try_get_u16().ok()
}

/// `Buf::try_get_u32` on a byte slice: with at least four bytes left it hands
/// out the first four as a big-endian number and moves the slice past them;
/// with fewer it fails and leaves the slice as it was.
#[verifier::external_body]
pub(crate) fn try_get_u32(buf: &mut &[u8]) -> (r: Option<u32>)
    ensures
        old(buf)@.len() >= 4 ==> r == Some(
            spec_u32_be(old(buf)@[0], old(buf)@[1], old(buf)@[2], old(buf)@[3]),
        ) && final(buf)@ == old(buf)@.skip(4),
        old(buf)@.len() < 4 ==> r.is_none() && final(buf)@ == old(buf)@,
{
    buf.try_get_u32().ok()
}

/// `Buf::try_copy_to_slice` on a byte slice: when the slice holds at least as
/// many bytes as `dst`, `dst` is overwritten with the first of them and the
/// slice moves past them; otherwise the call fails and changes nothing.
#[verifier::external_body]
pub(crate) fn try_copy_to_slice(buf: &mut &[u8], dst: &mut Vec<u8>) -> (ok: bool)
    ensures
        ok == (old(buf)@.len() >= old(dst)@.len()),
        ok ==> final(dst)@ == old(buf)@.take(old(dst)@.len() as int) && final(buf)@ == old(
            buf,
        )@.skip(old(dst)@.len() as int),
        !ok ==> final(dst)@ == old(dst)@ && final(buf)@ == old(buf)@,
{
    buf.try_copy_to_slice(&mut dst[..]).is_ok()
}

/// `Buf::copy_to_bytes` on a byte slice: the first `len` bytes are handed out
/// and the slice moves past them. The call panics when fewer than `len` bytes
/// are left, so that is required of the caller.
#[verifier::external_body]
pub(crate) fn copy_to_bytes(buf: &mut &[u8], len: usize) -> (r: Vec<u8>)
    requires
        len <= old(buf)@.len(),
    ensures
        r@ == old(buf)@.take(len as int),
        final(buf)@ == old(buf)@.skip(len as int),
{
    buf.copy_to_bytes(len).to_vec()
}

/// `Buf::advance` on a byte slice: the slice moves past its first `cnt` bytes.
/// The call panics when fewer than `cnt` bytes are left, so that is required
/// of the caller.
#[verifier::external_body]
pub(crate) fn advance(buf: &mut &[u8], cnt: usize)
    requires
        cnt <= old(buf)@.len(),
    ensures
        final(buf)@ == old(buf)@.skip(cnt as int),
{
    buf.advance(cnt)
}

/// `BufMut::put_u8` on a byte vector: the byte is appended.
#[verifier::external_body]
pub(crate) fn put_u8(b: &mut Vec<u8>, n: u8)
    ensures
        final(b)@ == old(b)@.push(n),
{
    b.put_u8(n)
}

/// `BufMut::put_u16` on a byte vector: the two big-endian bytes of the number
/// are appended.
#[verifier::external_body]
pub(crate) fn put_u16(b: &mut Vec<u8>, n: u16)
    ensures
        final(b)@ == old(b)@ + spec_u16_bytes(n),
{
    b.put_u16(n)
}

/// `BufMut::put_slice` on a byte vector: the bytes of `src` are appended.
#[verifier::external_body]
pub(crate) fn put_slice(b: &mut Vec<u8>, src: &[u8])
    ensures
        final(b)@ == old(b)@ + src@,
{
    b.put_slice(src)
}

} // verus!
