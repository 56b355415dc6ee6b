//! Wire format of the unsigned big integers.
//!
//! A big integer of byte width `w` travels as one length byte holding the
//! count `n` of its significant little-endian bytes (its full `w`-byte
//! little-endian form with trailing zero bytes stripped), followed by exactly
//! those `n` bytes. Decoding accepts any length byte up to `w`, padding the
//! value back to full width with zeros; a length byte above `w` is malformed.

use vstd::prelude::*;

use crate::error::Error;

verus! {

/// Width in bytes of a 512-bit integer.
pub const WIDTH_U512: usize = 64;

/// Width in bytes of a 256-bit integer.
pub const WIDTH_U256: usize = 32;

/// The number of significant bytes of a little-endian byte string: its
/// length with trailing zero bytes stripped.
pub open spec fn sig_len(le: Seq<u8>) -> nat
    decreases le.len(),
{
    if le.len() == 0 {
        0
    } else if le.last() != 0 {
        le.len()
    } else {
        sig_len(le.drop_last())
    }
}

/// `b` padded with zero bytes up to length `width`.
pub open spec fn pad_to(b: Seq<u8>, width: nat) -> Seq<u8> {
    b + Seq::new((width - b.len()) as nat, |i: int| 0u8)
}

/// Wire form of a little-endian big integer: one length byte holding the
/// count of significant bytes, then exactly those bytes.
pub open spec fn spec_ser_big(le: Seq<u8>) -> Seq<u8> {
    seq![sig_len(le) as u8] + le.take(sig_len(le) as int)
}

/// Parse one big integer of byte width `width` from a prefix of `s`,
/// returning its full little-endian form (padded back to `width`) and the
/// unconsumed remainder.
pub open spec fn spec_parse_big(s: Seq<u8>, width: nat) -> Result<(Seq<u8>, Seq<u8>), Error> {
    if s.len() == 0 {
        Err(Error::UnexpectedEnd)
    } else {
        let n = s[0] as int;
        if n > width {
            Err(Error::Formatting)
        } else if s.len() - 1 < n {
            Err(Error::UnexpectedEnd)
        } else {
            Ok((pad_to(s.subrange(1, 1 + n), width), s.skip(1 + n)))
        }
    }
}

pub proof fn lemma_sig_len_le(le: Seq<u8>)
    ensures
        sig_len(le) <= le.len(),
    decreases le.len(),
{
    if le.len() > 0 && le.last() == 0 {
        lemma_sig_len_le(le.drop_last());
    }
}

/// Every byte at or beyond the significant length is zero.
pub proof fn lemma_sig_len_zeros(le: Seq<u8>, i: int)
    requires
        sig_len(le) <= i < le.len(),
    ensures
        le[i] == 0,
    decreases le.len(),
{
    if le.last() != 0 {
        // sig_len(le) == le.len(): no such i exists.
    } else if i == le.len() - 1 {
    } else {
        lemma_sig_len_zeros(le.drop_last(), i);
    }
}

/// The encoding of a `width`-byte integer occupies `1 + sig_len` bytes.
pub proof fn lemma_ser_big_len(le: Seq<u8>)
    ensures
        spec_ser_big(le).len() == 1 + sig_len(le),
{
    lemma_sig_len_le(le);
}

/// Round trip: parsing an encoding followed by anything yields back the
/// encoded value and exactly that trailing remainder.
pub proof fn lemma_big_round_trip(le: Seq<u8>, rest: Seq<u8>, width: nat)
    requires
        le.len() == width,
        width <= 255,
    ensures
        spec_parse_big(spec_ser_big(le) + rest, width) == Ok::<(Seq<u8>, Seq<u8>), Error>(
            (le, rest),
        ),
{
    lemma_sig_len_le(le);
    let n = sig_len(le) as int;
    let s = spec_ser_big(le) + rest;
    assert(s[0] == n as u8);
    assert(s.subrange(1, 1 + n) =~= le.take(n));
    assert(pad_to(le.take(n), width) =~= le) by {
        assert forall|i: int| n <= i < width implies le[i] == 0 by {
            lemma_sig_len_zeros(le, i);
        }
    }
    assert(s.skip(1 + n) =~= rest);
}

/// Truncation: every proper prefix of an encoding fails to parse with
/// `UnexpectedEnd`.
pub proof fn lemma_big_truncation(le: Seq<u8>, k: int, width: nat)
    requires
        le.len() == width,
        width <= 255,
        0 <= k < spec_ser_big(le).len(),
    ensures
        spec_parse_big(spec_ser_big(le).take(k), width) == Err::<(Seq<u8>, Seq<u8>), Error>(
            Error::UnexpectedEnd,
        ),
{
    lemma_sig_len_le(le);
    let n = sig_len(le) as int;
    let t = spec_ser_big(le).take(k);
    if k == 0 {
        assert(t.len() == 0);
    } else {
        assert(t[0] == n as u8);
        assert(t.len() - 1 < n);
    }
}

/// Number of significant bytes of `b`: its length minus its trailing zero
/// bytes.
pub fn sig_len_exec(b: &Vec<u8>) -> (r: usize)
    ensures
        r == sig_len(b@),
{
    let mut i: usize = b.len();
    proof {
        assert(b@.take(i as int) =~= b@);
    }
    while i > 0 && b[i - 1] == 0
        invariant
            i <= b@.len(),
            sig_len(b@) == sig_len(b@.take(i as int)),
        decreases i,
    {
        assert(b@.take(i as int).drop_last() =~= b@.take(i - 1));
        i = i - 1;
    }
    proof {
        if i > 0 {
            assert(b@.take(i as int).last() == b@[i - 1]);
        }
        assert(b@.take(i as int).len() == i);
    }
    i
}

/// Encode a full-width little-endian byte string into its wire form.
pub fn big_to_bytes(le: &Vec<u8>) -> (r: Vec<u8>)
    requires
        le@.len() <= 255,
    ensures
        r@ == spec_ser_big(le@),
{
    let n = sig_len_exec(le);
    proof {
        lemma_sig_len_le(le@);
    }
    let mut out: Vec<u8> = Vec::new();
    out.push(n as u8);
    let mut j: usize = 0;
    while j < n
        invariant
            j <= n,
            n == sig_len(le@) <= le@.len() <= 255,
            out@ == seq![n as u8] + le@.take(j as int),
        decreases n - j,
    {
        out.push(le[j]);
        assert(seq![n as u8] + le@.take(j + 1) =~= (seq![n as u8] + le@.take(j as int)).push(
            le@[j as int],
        ));
        j = j + 1;
    }
    assert(out@ =~= spec_ser_big(le@));
    out
}

/// Decode one big integer of byte width `width` from a prefix of `s`,
/// returning its full-width little-endian form and the remainder.
pub fn big_from_bytes<'a>(s: &'a [u8], width: usize) -> (r: Result<(Vec<u8>, &'a [u8]), Error>)
    requires
        width <= 255,
    ensures
        match r {
            Ok(p) => spec_parse_big(s@, width as nat) == Ok::<(Seq<u8>, Seq<u8>), Error>(
                (p.0@, p.1@),
            ) && p.0@.len() == width,
            Err(e) => spec_parse_big(s@, width as nat) == Err::<(Seq<u8>, Seq<u8>), Error>(e),
        },
{
    if s.len() == 0 {
        return Err(Error::UnexpectedEnd);
    }
    let n = s[0] as usize;
    if n > width {
        return Err(Error::Formatting);
    }
    if s.len() - 1 < n {
        return Err(Error::UnexpectedEnd);
    }
    let mut v: Vec<u8> = Vec::new();
    let mut j: usize = 0;
    while j < n
        invariant
            j <= n <= 255,
            n + 1 <= s@.len(),
            v@ == s@.subrange(1, 1 + j as int),
        decreases n - j,
    {
        v.push(s[1 + j]);
        assert(s@.subrange(1, 2 + j as int) =~= s@.subrange(1, 1 + j as int).push(
            s@[1 + j as int],
        ));
        j = j + 1;
    }
    while v.len() < width
        invariant
            n <= v@.len() <= width,
            v@.subrange(0, n as int) == s@.subrange(1, 1 + n),
            forall|i: int| n <= i < v@.len() ==> v@[i] == 0,
        decreases width - v.len(),
    {
        v.push(0u8);
    }
    proof {
        assert(v@ =~= pad_to(s@.subrange(1, 1 + n), width as nat));
    }
    let rem = vstd::slice::slice_subrange(s, 1 + n, s.len());
    proof {
        assert(rem@ =~= s@.skip(1 + n));
    }
    Ok((v, rem))
}

/// An unsigned 512-bit integer, held as its 64 little-endian bytes.
pub struct U512 {
    pub le_bytes: Vec<u8>,
}

/// An unsigned 256-bit integer, held as its 32 little-endian bytes.
pub struct U256 {
    pub le_bytes: Vec<u8>,
}

impl View for U512 {
    type V = Seq<u8>;

    open spec fn view(&self) -> Seq<u8> {
        self.le_bytes@
    }
}

impl View for U256 {
    type V = Seq<u8>;

    open spec fn view(&self) -> Seq<u8> {
        self.le_bytes@
    }
}

impl U512 {
    /// The value holds exactly its full 64 little-endian bytes.
    pub open spec fn wf(&self) -> bool {
        self@.len() == WIDTH_U512
    }

    /// The integer with the given low 64 bits and zeros above.
    pub fn from_u64(x: u64) -> (r: U512)
        ensures
            r.wf(),
            r@ == pad_to(vstd::bytes::spec_u64_to_le_bytes(x), WIDTH_U512 as nat),
    {
        let mut le_bytes = vstd::bytes::u64_to_le_bytes(x);
        while le_bytes.len() < WIDTH_U512
            invariant
                8 <= le_bytes@.len() <= WIDTH_U512,
                le_bytes@.subrange(0, 8) == vstd::bytes::spec_u64_to_le_bytes(x),
                forall|i: int| 8 <= i < le_bytes@.len() ==> le_bytes@[i] == 0,
            decreases WIDTH_U512 - le_bytes.len(),
        {
            le_bytes.push(0u8);
            assert(le_bytes@.subrange(0, 8) =~= vstd::bytes::spec_u64_to_le_bytes(x));
        }
        proof {
            assert(le_bytes@ =~= pad_to(vstd::bytes::spec_u64_to_le_bytes(x), WIDTH_U512 as nat));
        }
        U512 { le_bytes }
    }

    /// Exact length of the wire form: one length byte plus the significant
    /// bytes.
    pub fn serialized_length(&self) -> (r: usize)
        requires
            self.wf(),
        ensures
            r == spec_ser_big(self@).len(),
    {
        proof {
            lemma_ser_big_len(self@);
            lemma_sig_len_le(self@);
        }
        1 + sig_len_exec(&self.le_bytes)
    }

    /// Encode into a fresh buffer holding exactly the wire form.
    pub fn to_bytes(&self) -> (r: Result<Vec<u8>, Error>)
        requires
            self.wf(),
        ensures
            r is Ok,
            r matches Ok(b) ==> b@ == spec_ser_big(self@),
    {
        Ok(big_to_bytes(&self.le_bytes))
    }

    /// Decode one value from a prefix of `s`, returning it and the
    /// unconsumed remainder.
    pub fn from_bytes<'a>(s: &'a [u8]) -> (r: Result<(U512, &'a [u8]), Error>)
        ensures
            match r {
                Ok(p) => spec_parse_big(s@, WIDTH_U512 as nat) == Ok::<
                    (Seq<u8>, Seq<u8>),
                    Error,
                >((p.0@, p.1@)) && p.0.wf(),
                Err(e) => spec_parse_big(s@, WIDTH_U512 as nat) == Err::<
                    (Seq<u8>, Seq<u8>),
                    Error,
                >(e),
            },
    {
        match big_from_bytes(s, WIDTH_U512) {
            Ok((le_bytes, rem)) => Ok((U512 { le_bytes }, rem)),
            Err(e) => Err(e),
        }
    }
}

impl U256 {
    /// The value holds exactly its full 32 little-endian bytes.
    pub open spec fn wf(&self) -> bool {
        self@.len() == WIDTH_U256
    }

    /// The integer with the given low 64 bits and zeros above.
    pub fn from_u64(x: u64) -> (r: U256)
        ensures
            r.wf(),
            r@ == pad_to(vstd::bytes::spec_u64_to_le_bytes(x), WIDTH_U256 as nat),
    {
        let mut le_bytes = vstd::bytes::u64_to_le_bytes(x);
        while le_bytes.len() < WIDTH_U256
            invariant
                8 <= le_bytes@.len() <= WIDTH_U256,
                le_bytes@.subrange(0, 8) == vstd::bytes::spec_u64_to_le_bytes(x),
                forall|i: int| 8 <= i < le_bytes@.len() ==> le_bytes@[i] == 0,
            decreases WIDTH_U256 - le_bytes.len(),
        {
            le_bytes.push(0u8);
            assert(le_bytes@.subrange(0, 8) =~= vstd::bytes::spec_u64_to_le_bytes(x));
        }
        proof {
            assert(le_bytes@ =~= pad_to(vstd::bytes::spec_u64_to_le_bytes(x), WIDTH_U256 as nat));
        }
        U256 { le_bytes }
    }

    /// Exact length of the wire form: one length byte plus the significant
    /// bytes.
    pub fn serialized_length(&self) -> (r: usize)
        requires
            self.wf(),
        ensures
            r == spec_ser_big(self@).len(),
    {
        proof {
            lemma_ser_big_len(self@);
            lemma_sig_len_le(self@);
        }
        1 + sig_len_exec(&self.le_bytes)
    }

    /// Encode into a fresh buffer holding exactly the wire form.
    pub fn to_bytes(&self) -> (r: Result<Vec<u8>, Error>)
        requires
            self.wf(),
        ensures
            r is Ok,
            r matches Ok(b) ==> b@ == spec_ser_big(self@),
    {
        Ok(big_to_bytes(&self.le_bytes))
    }

    /// Decode one value from a prefix of `s`, returning it and the
    /// unconsumed remainder.
    pub fn from_bytes<'a>(s: &'a [u8]) -> (r: Result<(U256, &'a [u8]), Error>)
        ensures
            match r {
                Ok(p) => spec_parse_big(s@, WIDTH_U256 as nat) == Ok::<
                    (Seq<u8>, Seq<u8>),
                    Error,
                >((p.0@, p.1@)) && p.0.wf(),
                Err(e) => spec_parse_big(s@, WIDTH_U256 as nat) == Err::<
                    (Seq<u8>, Seq<u8>),
                    Error,
                >(e),
            },
    {
        match big_from_bytes(s, WIDTH_U256) {
            Ok((le_bytes, rem)) => Ok((U256 { le_bytes }, rem)),
            Err(e) => Err(e),
        }
    }
}

} // verus!
