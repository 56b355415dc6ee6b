//! Fixed-size hash identifiers and their wire format.
//!
//! An account or contract hash is a fixed 32-byte identifier. It travels as
//! its raw bytes with no framing; decoding consumes exactly 32 bytes.

use vstd::prelude::*;

use crate::error::Error;

verus! {

/// Byte width of a hash identifier.
pub const HASH_LENGTH: usize = 32;

/// Parse a fixed run of `n` bytes from a prefix of `s`.
pub open spec fn spec_parse_fixed(s: Seq<u8>, n: nat) -> Result<(Seq<u8>, Seq<u8>), Error> {
    if s.len() < n {
        Err(Error::UnexpectedEnd)
    } else {
        Ok((s.take(n as int), s.skip(n as int)))
    }
}

/// Round trip: a run of `n` bytes followed by anything parses back to
/// exactly those bytes and the trailing remainder.
pub proof fn lemma_fixed_round_trip(b: Seq<u8>, rest: Seq<u8>)
    ensures
        spec_parse_fixed(b + rest, b.len()) == Ok::<(Seq<u8>, Seq<u8>), Error>((b, rest)),
{
    let s = b + rest;
    assert(s.take(b.len() as int) =~= b);
    assert(s.skip(b.len() as int) =~= rest);
}

/// Decode a fixed run of `n` bytes from a prefix of `s`.
pub fn take_fixed<'a>(s: &'a [u8], n: usize) -> (r: Result<(Vec<u8>, &'a [u8]), Error>)
    ensures
        match r {
            Ok(p) => spec_parse_fixed(s@, n as nat) == Ok::<(Seq<u8>, Seq<u8>), Error>(
                (p.0@, p.1@),
            ) && p.0@.len() == n,
            Err(e) => spec_parse_fixed(s@, n as nat) == Err::<(Seq<u8>, Seq<u8>), Error>(e),
        },
{
    if s.len() < n {
        return Err(Error::UnexpectedEnd);
    }
    let head = vstd::slice::slice_subrange(s, 0, n);
    let v = vstd::slice::slice_to_vec(head);
    proof {
        assert(v@ =~= s@.take(n as int));
    }
    let rem = vstd::slice::slice_subrange(s, n, s.len());
    proof {
        assert(rem@ =~= s@.skip(n as int));
    }
    Ok((v, rem))
}

/// An account identifier: 32 raw bytes.
pub struct AccountHash {
    pub bytes: Vec<u8>,
}

/// A contract identifier: 32 raw bytes.
pub struct ContractHash {
    pub bytes: Vec<u8>,
}

impl View for AccountHash {
    type V = Seq<u8>;

    open spec fn view(&self) -> Seq<u8> {
        self.bytes@
    }
}

impl View for ContractHash {
    type V = Seq<u8>;

    open spec fn view(&self) -> Seq<u8> {
        self.bytes@
    }
}

impl AccountHash {
    /// The identifier holds exactly 32 bytes.
    pub open spec fn wf(&self) -> bool {
        self@.len() == HASH_LENGTH
    }

    /// Wrap 32 raw bytes as an account identifier.
    pub fn new(bytes: Vec<u8>) -> (r: AccountHash)
        requires
            bytes@.len() == HASH_LENGTH,
        ensures
            r.wf(),
            r@ == bytes@,
    {
        AccountHash { bytes }
    }

    /// Exact length of the wire form: the 32 raw bytes.
    pub fn serialized_length(&self) -> (r: usize)
        requires
            self.wf(),
        ensures
            r == self@.len(),
    {
        self.bytes.len()
    }

    /// Encode as the raw bytes.
    pub fn to_bytes(&self) -> (r: Result<Vec<u8>, Error>)
        requires
            self.wf(),
        ensures
            r is Ok,
            r matches Ok(b) ==> b@ == self@,
    {
        let out = vstd::slice::slice_to_vec(self.bytes.as_slice());
        Ok(out)
    }

    /// Decode an account identifier from a prefix of `s`.
    pub fn from_bytes<'a>(s: &'a [u8]) -> (r: Result<(AccountHash, &'a [u8]), Error>)
        ensures
            match r {
                Ok(p) => spec_parse_fixed(s@, HASH_LENGTH as nat) == Ok::<
                    (Seq<u8>, Seq<u8>),
                    Error,
                >((p.0@, p.1@)) && p.0.wf(),
                Err(e) => spec_parse_fixed(s@, HASH_LENGTH as nat) == Err::<
                    (Seq<u8>, Seq<u8>),
                    Error,
                >(e),
            },
    {
        match take_fixed(s, HASH_LENGTH) {
            Ok((bytes, rem)) => Ok((AccountHash { bytes }, rem)),
            Err(e) => Err(e),
        }
    }
}

impl ContractHash {
    /// The identifier holds exactly 32 bytes.
    pub open spec fn wf(&self) -> bool {
        self@.len() == HASH_LENGTH
    }

    /// Wrap 32 raw bytes as a contract identifier.
    pub fn new(bytes: Vec<u8>) -> (r: ContractHash)
        requires
            bytes@.len() == HASH_LENGTH,
        ensures
            r.wf(),
            r@ == bytes@,
    {
        ContractHash { bytes }
    }

    /// Exact length of the wire form: the 32 raw bytes.
    pub fn serialized_length(&self) -> (r: usize)
        requires
            self.wf(),
        ensures
            r == self@.len(),
    {
        self.bytes.len()
    }

    /// Encode as the raw bytes.
    pub fn to_bytes(&self) -> (r: Result<Vec<u8>, Error>)
        requires
            self.wf(),
        ensures
            r is Ok,
            r matches Ok(b) ==> b@ == self@,
    {
        let out = vstd::slice::slice_to_vec(self.bytes.as_slice());
        Ok(out)
    }

    /// Decode a contract identifier from a prefix of `s`.
    pub fn from_bytes<'a>(s: &'a [u8]) -> (r: Result<(ContractHash, &'a [u8]), Error>)
        ensures
            match r {
                Ok(p) => spec_parse_fixed(s@, HASH_LENGTH as nat) == Ok::<
                    (Seq<u8>, Seq<u8>),
                    Error,
                >((p.0@, p.1@)) && p.0.wf(),
                Err(e) => spec_parse_fixed(s@, HASH_LENGTH as nat) == Err::<
                    (Seq<u8>, Seq<u8>),
                    Error,
                >(e),
            },
    {
        match take_fixed(s, HASH_LENGTH) {
            Ok((bytes, rem)) => Ok((ContractHash { bytes }, rem)),
            Err(e) => Err(e),
        }
    }
}

} // verus!
