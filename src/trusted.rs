//! The calls into outside crates, and into std functions that carry no
//! specification, each behind a contract that states what the call promises.
use std::io::Read;
use std::io::Write;

use bitvec::prelude::BitVec;
use bitvec::prelude::Lsb0;
use byteorder::ByteOrder;
use vstd::prelude::*;
use vstd::utf8::decode_utf8;
use vstd::utf8::valid_utf8;

verus! {

/// The number that `b` spells with its least significant byte first.
pub open spec fn le_value(b: Seq<u8>) -> nat
    decreases b.len(),
{
    if b.len() == 0 {
        0
    } else {
        b[0] as nat + 256 * le_value(b.drop_first())
    }
}

/// Bit `i` of `b`, counting from the least significant bit of `b[0]`: byte
/// `i / 8`, position `i % 8`.
pub open spec fn bit_of(b: Seq<u8>, i: int) -> bool {
    (b[i / 8] >> ((i % 8) as u8)) & 1u8 == 1u8
}

/// The Snappy frame stream that the frame encoder writes for `b`.
pub uninterp spec fn snappy_framed(b: Seq<u8>) -> Seq<u8>;

/// What the Snappy frame decoder makes of `b`: `None` where it fails.
pub uninterp spec fn snappy_unframed(b: Seq<u8>) -> Option<Seq<u8>>;

/// Relies on byteorder's `LittleEndian::read_u64`: the first eight bytes of
/// `b`, least significant first. It panics on fewer than eight.
#[verifier::external_body]
pub(crate) fn read_le_u64(b: &[u8]) -> (r: u64)
    requires
        b@.len() >= 8,
    ensures
        r as nat == le_value(b@.subrange(0, 8)),
{
    byteorder::LittleEndian::read_u64(b)
}

/// Relies on byteorder's `LittleEndian::write_u64`: eight bytes, least
/// significant first.
#[verifier::external_body]
pub(crate) fn le_u64_bytes(v: u64) -> (r: Vec<u8>)
    ensures
        r@.len() == 8,
        le_value(r@) == v as nat,
{
    let mut b = vec![0u8; 8];
    byteorder::LittleEndian::write_u64(&mut b, v);
    b
}

/// Relies on bitvec's `BitVec<u8, Lsb0>`: collected from bools, it keeps bit
/// `i` in byte `i / 8` at position `i % 8`, in as many bytes as hold a bit.
/// The unused high bits of the last byte are left unspecified. It panics past
/// `usize::MAX / 8` bits.
#[verifier::external_body]
pub(crate) fn pack_bits(bits: &[bool]) -> (r: Vec<u8>)
    requires
        bits@.len() <= usize::MAX / 8,
    ensures
        r@.len() == (bits@.len() + 7) / 8,
        forall|i: int| 0 <= i < bits@.len() ==> bit_of(r@, i) == bits@[i],
{
    bits.iter().copied().collect::<BitVec<u8, Lsb0>>().into_vec()
}

/// Relies on snap's `write::FrameEncoder` over a `Vec<u8>`: the Snappy frame
/// stream of `b`, a function of `b` alone, which `read::FrameDecoder` turns
/// back into `b`. The encoder fails only where its inner writer fails or a
/// block does not compress into its worst-case buffer; a `Vec` never fails a
/// write, and blocks are cut to fit, so no failure reaches the caller.
#[verifier::external_body]
pub(crate) fn snappy_frame(b: &[u8]) -> (r: Vec<u8>)
    ensures
        r@ == snappy_framed(b@),
        snappy_unframed(r@) == Some(b@),
{
    let mut w = snap::write::FrameEncoder::new(Vec::new());
    w.write_all(b).unwrap();
    w.into_inner().ok().unwrap()
}

/// Relies on snap's `read::FrameDecoder`: the bytes that a Snappy frame stream
/// holds, or `None` where the stream is malformed.
#[verifier::external_body]
pub(crate) fn snappy_unframe(b: &[u8]) -> (r: Option<Vec<u8>>)
    ensures
        match r {
            Some(out) => snappy_unframed(b@) == Some(out@),
            None => snappy_unframed(b@) is None,
        },
{
    let mut out = Vec::new();
    match snap::read::FrameDecoder::new(b).read_to_end(&mut out) {
        Ok(_) => Some(out),
        Err(_) => None,
    }
}

/// Relies on `String::from_utf8`: it succeeds exactly on valid UTF-8, and then
/// holds the characters that the bytes encode.
#[verifier::external_body]
pub(crate) fn utf8_string(b: &[u8]) -> (r: Option<String>)
    ensures
        match r {
            Some(s) => valid_utf8(b@) && s@ == decode_utf8(b@),
            None => !valid_utf8(b@),
        },
{
    String::from_utf8(b.to_vec()).ok()
}

/// Relies on `uuid::Uuid::new_v4`: a random identifier, as its 128 bits.
/// Nothing is promised of its value.
#[verifier::external_body]
pub(crate) fn fresh_id() -> (r: u128) {
    uuid::Uuid::new_v4().as_u128()
}

} // verus!
