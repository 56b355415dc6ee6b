//! Wire format of the fixed-width scalars: little-endian, no framing.

use vstd::prelude::*;

use crate::error::Error;
use vstd::bytes::lemma_auto_spec_u32_to_from_le_bytes;
use vstd::bytes::lemma_auto_spec_u64_to_from_le_bytes;
use vstd::bytes::spec_u32_from_le_bytes;
use vstd::bytes::spec_u32_to_le_bytes;
use vstd::bytes::spec_u64_from_le_bytes;
use vstd::bytes::spec_u64_to_le_bytes;

verus! {

/// Wire form of a `u64`: its eight little-endian bytes.
pub open spec fn spec_ser_u64(x: u64) -> Seq<u8> {
    spec_u64_to_le_bytes(x)
}

/// Parse one `u64` from a prefix of `s`.
pub open spec fn spec_parse_u64(s: Seq<u8>) -> Result<(u64, Seq<u8>), Error> {
    if s.len() < 8 {
        Err(Error::UnexpectedEnd)
    } else {
        Ok((spec_u64_from_le_bytes(s.take(8)), s.skip(8)))
    }
}

/// Wire form of a `u32`: its four little-endian bytes.
pub open spec fn spec_ser_u32(x: u32) -> Seq<u8> {
    spec_u32_to_le_bytes(x)
}

/// Parse one `u32` from a prefix of `s`.
pub open spec fn spec_parse_u32(s: Seq<u8>) -> Result<(u32, Seq<u8>), Error> {
    if s.len() < 4 {
        Err(Error::UnexpectedEnd)
    } else {
        Ok((spec_u32_from_le_bytes(s.take(4)), s.skip(4)))
    }
}

/// Round trip: a serialized `u64` parses back, leaving the trailing bytes.
pub proof fn lemma_u64_round_trip(x: u64, rest: Seq<u8>)
    ensures
        spec_parse_u64(spec_ser_u64(x) + rest) == Ok::<(u64, Seq<u8>), Error>((x, rest)),
{
    lemma_auto_spec_u64_to_from_le_bytes();
    let s = spec_ser_u64(x) + rest;
    assert(s.take(8) =~= spec_ser_u64(x));
    assert(s.skip(8) =~= rest);
}

/// Round trip: a serialized `u32` parses back, leaving the trailing bytes.
pub proof fn lemma_u32_round_trip(x: u32, rest: Seq<u8>)
    ensures
        spec_parse_u32(spec_ser_u32(x) + rest) == Ok::<(u32, Seq<u8>), Error>((x, rest)),
{
    lemma_auto_spec_u32_to_from_le_bytes();
    let s = spec_ser_u32(x) + rest;
    assert(s.take(4) =~= spec_ser_u32(x));
    assert(s.skip(4) =~= rest);
}

/// The serialized form of a `u64` is eight bytes long.
pub proof fn lemma_ser_u64_len(x: u64)
    ensures
        spec_ser_u64(x).len() == 8,
{
    lemma_auto_spec_u64_to_from_le_bytes();
}

/// The serialized form of a `u32` is four bytes long.
pub proof fn lemma_ser_u32_len(x: u32)
    ensures
        spec_ser_u32(x).len() == 4,
{
    lemma_auto_spec_u32_to_from_le_bytes();
}

/// Decode one `u64` from a prefix of `s`.
pub fn u64_from_bytes<'a>(s: &'a [u8]) -> (r: Result<(u64, &'a [u8]), Error>)
    ensures
        match r {
            Ok(p) => spec_parse_u64(s@) == Ok::<(u64, Seq<u8>), Error>((p.0, p.1@)),
            Err(e) => spec_parse_u64(s@) == Err::<(u64, Seq<u8>), Error>(e),
        },
{
    if s.len() < 8 {
        return Err(Error::UnexpectedEnd);
    }
    let head = vstd::slice::slice_subrange(s, 0, 8);
    proof {
        assert(head@ =~= s@.take(8));
    }
    let x = vstd::bytes::u64_from_le_bytes(head);
    let rem = vstd::slice::slice_subrange(s, 8, s.len());
    proof {
        assert(rem@ =~= s@.skip(8));
    }
    Ok((x, rem))
}

/// Decode one `u32` from a prefix of `s`.
pub fn u32_from_bytes<'a>(s: &'a [u8]) -> (r: Result<(u32, &'a [u8]), Error>)
    ensures
        match r {
            Ok(p) => spec_parse_u32(s@) == Ok::<(u32, Seq<u8>), Error>((p.0, p.1@)),
            Err(e) => spec_parse_u32(s@) == Err::<(u32, Seq<u8>), Error>(e),
        },
{
    if s.len() < 4 {
        return Err(Error::UnexpectedEnd);
    }
    let head = vstd::slice::slice_subrange(s, 0, 4);
    proof {
        assert(head@ =~= s@.take(4));
    }
    let x = vstd::bytes::u32_from_le_bytes(head);
    let rem = vstd::slice::slice_subrange(s, 4, s.len());
    proof {
        assert(rem@ =~= s@.skip(4));
    }
    Ok((x, rem))
}

/// Encode a `u64` as its eight little-endian bytes.
pub fn u64_to_bytes(x: u64) -> (r: Vec<u8>)
    ensures
        r@ == spec_ser_u64(x),
        r@.len() == 8,
{
    vstd::bytes::u64_to_le_bytes(x)
}

/// Encode a `u32` as its four little-endian bytes.
pub fn u32_to_bytes(x: u32) -> (r: Vec<u8>)
    ensures
        r@ == spec_ser_u32(x),
        r@.len() == 4,
{
    vstd::bytes::u32_to_le_bytes(x)
}

} // verus!
