//! SCALE primitives used by the voting-session layouts: fixed-width
//! little-endian integers and the compact length prefix.

use parity_scale_codec::{Compact, Decode, Encode};
use vstd::prelude::*;
use vstd::slice::slice_subrange;

verus! {

/// Value of the two little-endian bytes at the front of `s`.
pub open spec fn le_u16_value(s: Seq<u8>) -> int {
    s[0] + 256 * s[1]
}

/// Value of the four little-endian bytes at the front of `s`.
pub open spec fn le_u32_value(s: Seq<u8>) -> int {
    s[0] + 256 * s[1] + 65536 * s[2] + 16777216 * s[3]
}

/// Value of the eight little-endian bytes at the front of `s`.
pub open spec fn le_u64_value(s: Seq<u8>) -> int {
    le_u32_value(s) + 0x1_0000_0000 * le_u32_value(s.skip(4))
}

/// Little-endian bytes of a 16-bit value.
pub open spec fn le_u16_bytes(v: int) -> Seq<u8> {
    seq![(v % 256) as u8, ((v / 256) % 256) as u8]
}

/// Little-endian bytes of a 32-bit value.
pub open spec fn le_u32_bytes(v: int) -> Seq<u8> {
    seq![
        (v % 256) as u8,
        ((v / 256) % 256) as u8,
        ((v / 65536) % 256) as u8,
        ((v / 16777216) % 256) as u8,
    ]
}

/// Little-endian bytes of a 64-bit value.
pub open spec fn le_u64_bytes(v: int) -> Seq<u8> {
    le_u32_bytes(v % 0x1_0000_0000) + le_u32_bytes(v / 0x1_0000_0000)
}

/// Compact-encoded `u32` at the front of `s`: the value and the number of
/// bytes it takes, or `None` where the bytes are short or not the canonical
/// encoding of a 32-bit value.
#[verifier::opaque]
pub open spec fn compact_u32_prefix(s: Seq<u8>) -> Option<(u32, nat)> {
    if s.len() == 0 {
        None
    } else {
        let p = s[0];
        if p % 4 == 0 {
            Some(((p / 4) as u32, 1nat))
        } else if p % 4 == 1 {
            if s.len() < 2 {
                None
            } else {
                let x = le_u16_value(s) / 4;
                if x > 63 { Some((x as u32, 2nat)) } else { None }
            }
        } else if p % 4 == 2 {
            if s.len() < 4 {
                None
            } else {
                let x = le_u32_value(s) / 4;
                if x > 16383 { Some((x as u32, 4nat)) } else { None }
            }
        } else if p / 4 == 0 && s.len() >= 5 {
            let x = le_u32_value(s.drop_first());
            if x > 0x3fff_ffff { Some((x as u32, 5nat)) } else { None }
        } else {
            None
        }
    }
}

/// Canonical compact encoding of a `u32`.
#[verifier::opaque]
pub open spec fn compact_u32_bytes(v: u32) -> Seq<u8> {
    if v <= 63 {
        seq![(v * 4) as u8]
    } else if v <= 0x3fff {
        le_u16_bytes(v * 4 + 1)
    } else if v <= 0x3fff_ffff {
        le_u32_bytes(v * 4 + 2)
    } else {
        seq![3u8] + le_u32_bytes(v as int)
    }
}

proof fn lemma_le_u16_roundtrip(w: int, rest: Seq<u8>)
    requires
        0 <= w < 0x1_0000,
    ensures
        le_u16_value(le_u16_bytes(w) + rest) == w,
        (le_u16_bytes(w) + rest)[0] == w % 256,
{
    let b = le_u16_bytes(w) + rest;
    assert(b[0] == w % 256);
    assert(b[1] == (w / 256) % 256);
    assert((w / 256) % 256 == w / 256);
    assert(w % 256 + 256 * (w / 256) == w);
}

pub proof fn lemma_le_u32_roundtrip(w: int, rest: Seq<u8>)
    requires
        0 <= w < 0x1_0000_0000,
    ensures
        le_u32_value(le_u32_bytes(w) + rest) == w,
        (le_u32_bytes(w) + rest)[0] == w % 256,
{
    let b = le_u32_bytes(w) + rest;
    assert(b[0] == w % 256);
    assert(b[1] == (w / 256) % 256);
    assert(b[2] == (w / 65536) % 256);
    assert(b[3] == (w / 16777216) % 256);
    assert(w % 256 + 256 * ((w / 256) % 256) + 65536 * ((w / 65536) % 256) + 16777216 * ((
    w / 16777216) % 256) == w) by (nonlinear_arith)
        requires
            0 <= w < 0x1_0000_0000,
    {
        assert(w / 16777216 < 256);
        assert(w == 256 * (w / 256) + w % 256);
        assert(w / 256 == 256 * (w / 65536) + (w / 256) % 256);
        assert(w / 65536 == 256 * (w / 16777216) + (w / 65536) % 256);
    }
}

proof fn lemma_compact_mode1(v: u32, rest: Seq<u8>)
    requires
        63 < v <= 0x3fff,
    ensures
        compact_u32_prefix(compact_u32_bytes(v) + rest) == Some((v, 2nat)),
        compact_u32_bytes(v).len() == 2,
{
    reveal(compact_u32_prefix);
    reveal(compact_u32_bytes);
    let w = v * 4 + 1;
    let b = compact_u32_bytes(v) + rest;
    lemma_le_u16_roundtrip(w, rest);
    assert(b[0] % 4 == 1) by (nonlinear_arith)
        requires
            b[0] == w % 256,
            w == v * 4 + 1,
    ;
    assert(le_u16_value(b) / 4 == v);
}

proof fn lemma_compact_mode2(v: u32, rest: Seq<u8>)
    requires
        0x3fff < v <= 0x3fff_ffff,
    ensures
        compact_u32_prefix(compact_u32_bytes(v) + rest) == Some((v, 4nat)),
        compact_u32_bytes(v).len() == 4,
{
    reveal(compact_u32_prefix);
    reveal(compact_u32_bytes);
    let w = v * 4 + 2;
    let b = compact_u32_bytes(v) + rest;
    lemma_le_u32_roundtrip(w, rest);
    assert(b[0] % 4 == 2) by (nonlinear_arith)
        requires
            b[0] == w % 256,
            w == v * 4 + 2,
    ;
    assert(le_u32_value(b) / 4 == v);
}

proof fn lemma_compact_mode3(v: u32, rest: Seq<u8>)
    requires
        0x3fff_ffff < v,
    ensures
        compact_u32_prefix(compact_u32_bytes(v) + rest) == Some((v, 5nat)),
        compact_u32_bytes(v).len() == 5,
{
    reveal(compact_u32_prefix);
    reveal(compact_u32_bytes);
    let b = compact_u32_bytes(v) + rest;
    lemma_le_u32_roundtrip(v as int, rest);
    assert(b.drop_first() =~= le_u32_bytes(v as int) + rest);
    assert(b[0] == 3);
}

/// Eight little-endian bytes of a 64-bit value, followed by anything, read
/// back as that value.
pub proof fn lemma_le_u64_roundtrip(v: int, rest: Seq<u8>)
    requires
        0 <= v < 0x1_0000_0000_0000_0000,
    ensures
        le_u64_value(le_u64_bytes(v) + rest) == v,
        le_u64_bytes(v).len() == 8,
{
    let lo = v % 0x1_0000_0000;
    let hi = v / 0x1_0000_0000;
    let b = le_u64_bytes(v) + rest;
    assert(b =~= le_u32_bytes(lo) + (le_u32_bytes(hi) + rest));
    lemma_le_u32_roundtrip(lo, le_u32_bytes(hi) + rest);
    assert(b.skip(4) =~= le_u32_bytes(hi) + rest);
    lemma_le_u32_roundtrip(hi, rest);
}

/// Two little-endian bytes of a 16-bit value read back as that value.
pub proof fn lemma_le_u16_value_of_bytes(v: int)
    requires
        0 <= v < 0x1_0000,
    ensures
        le_u16_value(le_u16_bytes(v)) == v,
        le_u16_bytes(v).len() == 2,
{
    lemma_le_u16_roundtrip(v, Seq::empty());
    assert(le_u16_bytes(v) + Seq::<u8>::empty() =~= le_u16_bytes(v));
}

/// A compact value takes at least one byte and no more than there are.
pub proof fn lemma_compact_u32_prefix_len(s: Seq<u8>)
    ensures
        compact_u32_prefix(s) matches Some((_, n)) ==> 1 <= n <= s.len(),
{
    reveal(compact_u32_prefix);
}

/// A compact-encoded value, followed by anything, decodes to that value and
/// takes exactly its encoding's bytes.
pub proof fn lemma_compact_u32_roundtrip(v: u32, rest: Seq<u8>)
    ensures
        compact_u32_prefix(compact_u32_bytes(v) + rest) == Some((v, compact_u32_bytes(v).len())),
{
    reveal(compact_u32_prefix);
    reveal(compact_u32_bytes);
    if v <= 63 {
        let b = compact_u32_bytes(v) + rest;
        assert(b[0] == v * 4);
    } else if v <= 0x3fff {
        lemma_compact_mode1(v, rest);
    } else if v <= 0x3fff_ffff {
        lemma_compact_mode2(v, rest);
    } else {
        lemma_compact_mode3(v, rest);
    }
}

/// `Compact::<u32>::decode` of parity-scale-codec on a byte slice. The
/// contract claims that it fails exactly where `compact_u32_prefix` has no
/// value, and otherwise returns that value and the number of input bytes it
/// left unread.
#[verifier::external_body]
fn codec_decode_compact_u32(input: &[u8]) -> (r: Option<(u32, usize)>)
    ensures
        match compact_u32_prefix(input@) {
            None => r is None,
            Some((v, n)) => r == Some((v, (input@.len() - n) as usize)),
        },
{
    let mut cursor = input;
    match <Compact<u32> as Decode>::decode(&mut cursor) {
        Ok(c) => Some((c.0, cursor.len())),
        Err(_) => None,
    }
}

/// `Compact(v).encode()` of parity-scale-codec for a `u32`. The contract
/// claims the canonical encoding `compact_u32_bytes(v)`.
#[verifier::external_body]
fn codec_encode_compact_u32(v: u32) -> (r: Vec<u8>)
    ensures
        r@ == compact_u32_bytes(v),
{
    Compact(v).encode()
}

/// `u16::decode` of parity-scale-codec on a byte slice. The contract claims
/// that it succeeds exactly when the slice holds at least two bytes, with the
/// little-endian value of the first two.
#[verifier::external_body]
fn codec_decode_u16(input: &[u8]) -> (r: Option<u16>)
    ensures
        r is Some <==> input@.len() >= 2,
        r matches Some(v) ==> v == le_u16_value(input@),
{
    let mut cursor = input;
    <u16 as Decode>::decode(&mut cursor).ok()
}

/// `u16::encode` of parity-scale-codec: the two little-endian bytes.
#[verifier::external_body]
fn codec_encode_u16(v: u16) -> (r: Vec<u8>)
    ensures
        r@ == le_u16_bytes(v as int),
{
    v.encode()
}

/// `u32::decode` of parity-scale-codec on a byte slice. The contract claims
/// that it succeeds exactly when the slice holds at least four bytes, with the
/// little-endian value of the first four.
#[verifier::external_body]
fn codec_decode_u32(input: &[u8]) -> (r: Option<u32>)
    ensures
        r is Some <==> input@.len() >= 4,
        r matches Some(v) ==> v == le_u32_value(input@),
{
    let mut cursor = input;
    <u32 as Decode>::decode(&mut cursor).ok()
}

/// `u32::encode` of parity-scale-codec: the four little-endian bytes.
#[verifier::external_body]
fn codec_encode_u32(v: u32) -> (r: Vec<u8>)
    ensures
        r@ == le_u32_bytes(v as int),
{
    v.encode()
}

/// `u64::decode` of parity-scale-codec on a byte slice. The contract claims
/// that it succeeds exactly when the slice holds at least eight bytes, with the
/// little-endian value of the first eight.
#[verifier::external_body]
fn codec_decode_u64(input: &[u8]) -> (r: Option<u64>)
    ensures
        r is Some <==> input@.len() >= 8,
        r matches Some(v) ==> v == le_u64_value(input@),
{
    let mut cursor = input;
    <u64 as Decode>::decode(&mut cursor).ok()
}

/// `u64::encode` of parity-scale-codec: the eight little-endian bytes.
#[verifier::external_body]
fn codec_encode_u64(v: u64) -> (r: Vec<u8>)
    ensures
        r@ == le_u64_bytes(v as int),
{
    v.encode()
}

/// Reads a compact-encoded `u32` at `pos`; on success returns the value and
/// the position just after it.
pub fn read_compact_u32(s: &[u8], pos: usize) -> (r: Option<(u32, usize)>)
    requires
        pos <= s@.len(),
    ensures
        match compact_u32_prefix(s@.skip(pos as int)) {
            None => r is None,
            Some((v, n)) => r == Some((v, (pos + n) as usize)),
        },
{
    let rest = slice_subrange(s, pos, s.len());
    assert(rest@ == s@.skip(pos as int));
    proof {
        lemma_compact_u32_prefix_len(rest@);
    }
    match codec_decode_compact_u32(rest) {
        None => None,
        Some((v, remaining)) => Some((v, s.len() - remaining)),
    }
}

/// Reads a little-endian `u32` at `pos`; on success returns the value and the
/// position just after it.
pub fn read_u32(s: &[u8], pos: usize) -> (r: Option<(u32, usize)>)
    requires
        pos <= s@.len(),
    ensures
        r is Some <==> pos + 4 <= s@.len(),
        r matches Some((v, end)) ==> v == le_u32_value(s@.skip(pos as int)) && end == pos + 4,
{
    let rest = slice_subrange(s, pos, s.len());
    assert(rest@ == s@.skip(pos as int));
    match codec_decode_u32(rest) {
        None => None,
        Some(v) => Some((v, pos + 4)),
    }
}

/// Little-endian `u16` at the front of `s`, if it holds two bytes.
pub fn decode_u16(s: &[u8]) -> (r: Option<u16>)
    ensures
        r is Some <==> s@.len() >= 2,
        r matches Some(v) ==> v == le_u16_value(s@),
{
    codec_decode_u16(s)
}

/// Little-endian `u64` at the front of `s`, if it holds eight bytes.
pub fn decode_u64(s: &[u8]) -> (r: Option<u64>)
    ensures
        r is Some <==> s@.len() >= 8,
        r matches Some(v) ==> v == le_u64_value(s@),
{
    codec_decode_u64(s)
}

/// The two little-endian bytes of `v`.
pub fn encode_u16(v: u16) -> (r: Vec<u8>)
    ensures
        r@ == le_u16_bytes(v as int),
{
    codec_encode_u16(v)
}

/// The eight little-endian bytes of `v`.
pub fn encode_u64(v: u64) -> (r: Vec<u8>)
    ensures
        r@ == le_u64_bytes(v as int),
{
    codec_encode_u64(v)
}

/// Appends the compact encoding of `v` to `out`.
pub fn push_compact_u32(out: &mut Vec<u8>, v: u32)
    ensures
        final(out)@ == old(out)@ + compact_u32_bytes(v),
{
    let mut e = codec_encode_compact_u32(v);
    out.append(&mut e);
}

/// Appends the four little-endian bytes of `v` to `out`.
pub fn push_u32(out: &mut Vec<u8>, v: u32)
    ensures
        final(out)@ == old(out)@ + le_u32_bytes(v as int),
{
    let mut e = codec_encode_u32(v);
    out.append(&mut e);
}

} // verus!
