//! The tagged union codec: a settlement method with three alternatives,
//! encoded with a one-byte discriminant prefix.
//!
//! On the wire, discriminant `0` selects `CSPR` (one 512-bit amount), `1`
//! selects `ERC20` (a contract hash then a 256-bit amount), and `2` selects
//! `CEP47` (a contract hash then a 256-bit token identifier). `ERC20` and
//! `CEP47` deliberately share one byte layout: only the discriminant tells
//! them apart. Any other discriminant is rejected, never defaulted.

use vstd::prelude::*;

use crate::bigint::U256;
use crate::bigint::U512;
use crate::bigint::WIDTH_U256;
use crate::bigint::WIDTH_U512;
use crate::bigint::lemma_big_round_trip;
use crate::bigint::lemma_big_truncation;
use crate::bigint::lemma_ser_big_len;
use crate::bigint::lemma_sig_len_le;
use crate::bigint::spec_parse_big;
use crate::bigint::spec_ser_big;
use crate::error::Error;
use crate::hash::ContractHash;
use crate::hash::HASH_LENGTH;
use crate::hash::lemma_fixed_round_trip;
use crate::hash::spec_parse_fixed;

verus! {

/// A settlement method: exactly one variant is active at a time.
pub enum Payment {
    /// Payment in the native token.
    CSPR { amount: U512 },
    /// Payment in a fungible token held by a contract.
    ERC20 { contract_hash: ContractHash, amount: U256 },
    /// Payment with a token of a collection held by a contract.
    CEP47 { collection: ContractHash, token_id: U256 },
}

/// The mathematical shape of a `Payment`: each field as its byte sequence.
pub enum PaymentView {
    /// Payment in the native token.
    CSPR { amount: Seq<u8> },
    /// Payment in a fungible token held by a contract.
    ERC20 { contract_hash: Seq<u8>, amount: Seq<u8> },
    /// Payment with a token of a collection held by a contract.
    CEP47 { collection: Seq<u8>, token_id: Seq<u8> },
}

impl View for Payment {
    type V = PaymentView;

    open spec fn view(&self) -> PaymentView {
        match self {
            Payment::CSPR { amount } => PaymentView::CSPR { amount: amount@ },
            Payment::ERC20 { contract_hash, amount } => PaymentView::ERC20 {
                contract_hash: contract_hash@,
                amount: amount@,
            },
            Payment::CEP47 { collection, token_id } => PaymentView::CEP47 {
                collection: collection@,
                token_id: token_id@,
            },
        }
    }
}

impl PaymentView {
    /// Every field holds its full fixed width.
    pub open spec fn wf(self) -> bool {
        match self {
            PaymentView::CSPR { amount } => amount.len() == WIDTH_U512,
            PaymentView::ERC20 { contract_hash, amount } => contract_hash.len() == HASH_LENGTH
                && amount.len() == WIDTH_U256,
            PaymentView::CEP47 { collection, token_id } => collection.len() == HASH_LENGTH
                && token_id.len() == WIDTH_U256,
        }
    }
}

/// Wire form of a settlement method: the discriminant byte, then the active
/// variant's fields in declaration order.
pub open spec fn spec_ser_payment(v: PaymentView) -> Seq<u8> {
    match v {
        PaymentView::CSPR { amount } => seq![0u8] + spec_ser_big(amount),
        PaymentView::ERC20 { contract_hash, amount } => seq![1u8] + contract_hash + spec_ser_big(
            amount,
        ),
        PaymentView::CEP47 { collection, token_id } => seq![2u8] + collection + spec_ser_big(
            token_id,
        ),
    }
}

/// Parse one settlement method from a prefix of `s`: read the discriminant
/// byte, then the selected variant's fields.
pub open spec fn spec_parse_payment(s: Seq<u8>) -> Result<(PaymentView, Seq<u8>), Error> {
    if s.len() == 0 {
        Err(Error::UnexpectedEnd)
    } else {
        let tag = s[0];
        let r0 = s.skip(1);
        if tag == 0 {
            match spec_parse_big(r0, WIDTH_U512 as nat) {
                Ok((amount, rem)) => Ok((PaymentView::CSPR { amount }, rem)),
                Err(e) => Err(e),
            }
        } else if tag == 1 {
            match spec_parse_fixed(r0, HASH_LENGTH as nat) {
                Ok((contract_hash, r1)) => match spec_parse_big(r1, WIDTH_U256 as nat) {
                    Ok((amount, rem)) => Ok((PaymentView::ERC20 { contract_hash, amount }, rem)),
                    Err(e) => Err(e),
                },
                Err(e) => Err(e),
            }
        } else if tag == 2 {
            match spec_parse_fixed(r0, HASH_LENGTH as nat) {
                Ok((collection, r1)) => match spec_parse_big(r1, WIDTH_U256 as nat) {
                    Ok((token_id, rem)) => Ok((PaymentView::CEP47 { collection, token_id }, rem)),
                    Err(e) => Err(e),
                },
                Err(e) => Err(e),
            }
        } else {
            Err(Error::UnknownDiscriminant)
        }
    }
}

/// Round-trip law: parsing the encoding of any well-formed settlement
/// method, followed by any trailing bytes, yields back exactly that value
/// and exactly those trailing bytes.
pub proof fn lemma_payment_round_trip(v: PaymentView, rest: Seq<u8>)
    requires
        v.wf(),
    ensures
        spec_parse_payment(spec_ser_payment(v) + rest) == Ok::<(PaymentView, Seq<u8>), Error>(
            (v, rest),
        ),
{
    let s = spec_ser_payment(v) + rest;
    match v {
        PaymentView::CSPR { amount } => {
            assert(s[0] == 0u8);
            assert(s.skip(1) =~= spec_ser_big(amount) + rest);
            lemma_big_round_trip(amount, rest, WIDTH_U512 as nat);
        },
        PaymentView::ERC20 { contract_hash, amount } => {
            assert(s[0] == 1u8);
            assert(s.skip(1) =~= contract_hash + (spec_ser_big(amount) + rest));
            lemma_fixed_round_trip(contract_hash, spec_ser_big(amount) + rest);
            lemma_big_round_trip(amount, rest, WIDTH_U256 as nat);
        },
        PaymentView::CEP47 { collection, token_id } => {
            assert(s[0] == 2u8);
            assert(s.skip(1) =~= collection + (spec_ser_big(token_id) + rest));
            lemma_fixed_round_trip(collection, spec_ser_big(token_id) + rest);
            lemma_big_round_trip(token_id, rest, WIDTH_U256 as nat);
        },
    }
}

/// Discriminant rejection law: a buffer whose first byte is outside the
/// valid set fails with `UnknownDiscriminant`, whatever follows it.
pub proof fn lemma_payment_unknown_discriminant(s: Seq<u8>)
    requires
        s.len() > 0,
        s[0] >= 3,
    ensures
        spec_parse_payment(s) == Err::<(PaymentView, Seq<u8>), Error>(Error::UnknownDiscriminant),
{
}

/// Truncation rejection law: every proper prefix of a valid encoding,
/// including the empty buffer, fails with `UnexpectedEnd`.
pub proof fn lemma_payment_truncation(v: PaymentView, k: int)
    requires
        v.wf(),
        0 <= k < spec_ser_payment(v).len(),
    ensures
        spec_parse_payment(spec_ser_payment(v).take(k)) == Err::<(PaymentView, Seq<u8>), Error>(
            Error::UnexpectedEnd,
        ),
{
    let t = spec_ser_payment(v).take(k);
    if k == 0 {
        assert(t.len() == 0);
    } else {
        match v {
            PaymentView::CSPR { amount } => {
                assert(t[0] == 0u8);
                assert(t.skip(1) =~= spec_ser_big(amount).take(k - 1));
                lemma_big_truncation(amount, k - 1, WIDTH_U512 as nat);
            },
            PaymentView::ERC20 { contract_hash, amount } => {
                assert(t[0] == 1u8);
                lemma_tail_truncation(contract_hash, amount, t, k);
            },
            PaymentView::CEP47 { collection, token_id } => {
                assert(t[0] == 2u8);
                lemma_tail_truncation(collection, token_id, t, k);
            },
        }
    }
}

/// A truncated hash-then-integer tail fails to parse with `UnexpectedEnd`.
proof fn lemma_tail_truncation(h: Seq<u8>, a: Seq<u8>, t: Seq<u8>, k: int)
    requires
        h.len() == HASH_LENGTH,
        a.len() == WIDTH_U256,
        1 <= k < 1 + h.len() + spec_ser_big(a).len(),
        t == (seq![t[0]] + h + spec_ser_big(a)).take(k),
    ensures
        ({
            match spec_parse_fixed(t.skip(1), HASH_LENGTH as nat) {
                Ok((hh, r1)) => spec_parse_big(r1, WIDTH_U256 as nat) == Err::<
                    (Seq<u8>, Seq<u8>),
                    Error,
                >(Error::UnexpectedEnd),
                Err(e) => e == Error::UnexpectedEnd,
            }
        }),
{
    if k - 1 < HASH_LENGTH {
        assert(t.skip(1).len() == k - 1);
    } else {
        assert(t.skip(1) =~= h + spec_ser_big(a).take(k - 1 - HASH_LENGTH));
        let tail = spec_ser_big(a).take(k - 1 - HASH_LENGTH);
        assert(t.skip(1).take(HASH_LENGTH as int) =~= h);
        assert(t.skip(1).skip(HASH_LENGTH as int) =~= tail);
        lemma_big_truncation(a, k - 1 - HASH_LENGTH, WIDTH_U256 as nat);
    }
}

/// Variant byte-layout distinction law: with identical field values, the
/// `ERC20` and `CEP47` encodings agree on every byte after the leading
/// discriminant, which is `1` for the one and `2` for the other.
pub proof fn lemma_payment_variant_layout(h: Seq<u8>, a: Seq<u8>)
    ensures
        spec_ser_payment(PaymentView::ERC20 { contract_hash: h, amount: a })[0] == 1u8,
        spec_ser_payment(PaymentView::CEP47 { collection: h, token_id: a })[0] == 2u8,
        spec_ser_payment(PaymentView::ERC20 { contract_hash: h, amount: a }).skip(1)
            == spec_ser_payment(PaymentView::CEP47 { collection: h, token_id: a }).skip(1),
{
    let e = spec_ser_payment(PaymentView::ERC20 { contract_hash: h, amount: a });
    let c = spec_ser_payment(PaymentView::CEP47 { collection: h, token_id: a });
    assert(e.skip(1) =~= h + spec_ser_big(a));
    assert(c.skip(1) =~= h + spec_ser_big(a));
}

impl Payment {
    /// Every field holds its full fixed width.
    pub open spec fn wf(&self) -> bool {
        self@.wf()
    }

    /// Exact length of the wire form: one discriminant byte plus the active
    /// variant's field lengths.
    pub fn serialized_length(&self) -> (r: usize)
        requires
            self.wf(),
        ensures
            r == spec_ser_payment(self@).len(),
    {
        match self {
            Payment::CSPR { amount } => {
                proof {
                    lemma_ser_big_len(amount@);
                    lemma_sig_len_le(amount@);
                }
                1 + amount.serialized_length()
            },
            Payment::ERC20 { contract_hash, amount } => {
                proof {
                    lemma_ser_big_len(amount@);
                    lemma_sig_len_le(amount@);
                }
                1 + contract_hash.serialized_length() + amount.serialized_length()
            },
            Payment::CEP47 { collection, token_id } => {
                proof {
                    lemma_ser_big_len(token_id@);
                    lemma_sig_len_le(token_id@);
                }
                1 + collection.serialized_length() + token_id.serialized_length()
            },
        }
    }

    /// Encode into a fresh buffer holding exactly the wire form: the
    /// discriminant byte at offset zero, then the fields. The buffer's
    /// length always equals `serialized_length`.
    pub fn to_bytes(&self) -> (r: Result<Vec<u8>, Error>)
        requires
            self.wf(),
        ensures
            r is Ok,
            r matches Ok(b) ==> b@ == spec_ser_payment(self@),
    {
        let mut out: Vec<u8> = Vec::new();
        match self {
            Payment::CSPR { amount } => {
                out.push(0u8);
                let mut body = crate::bigint::big_to_bytes(&amount.le_bytes);
                out.append(&mut body);
                proof {
                    assert(out@ =~= spec_ser_payment(self@));
                }
            },
            Payment::ERC20 { contract_hash, amount } => {
                out.push(1u8);
                let mut hash_bytes = vstd::slice::slice_to_vec(contract_hash.bytes.as_slice());
                out.append(&mut hash_bytes);
                let mut body = crate::bigint::big_to_bytes(&amount.le_bytes);
                out.append(&mut body);
                proof {
                    assert(out@ =~= spec_ser_payment(self@));
                }
            },
            Payment::CEP47 { collection, token_id } => {
                out.push(2u8);
                let mut hash_bytes = vstd::slice::slice_to_vec(collection.bytes.as_slice());
                out.append(&mut hash_bytes);
                let mut body = crate::bigint::big_to_bytes(&token_id.le_bytes);
                out.append(&mut body);
                proof {
                    assert(out@ =~= spec_ser_payment(self@));
                }
            },
        }
        Ok(out)
    }

    /// Decode one settlement method from a prefix of `bytes`, returning it
    /// and the unconsumed remainder.
    pub fn from_bytes<'a>(bytes: &'a [u8]) -> (r: Result<(Payment, &'a [u8]), Error>)
        ensures
            match r {
                Ok(p) => spec_parse_payment(bytes@) == Ok::<(PaymentView, Seq<u8>), Error>(
                    (p.0@, p.1@),
                ) && p.0.wf(),
                Err(e) => spec_parse_payment(bytes@) == Err::<(PaymentView, Seq<u8>), Error>(e),
            },
    {
        if bytes.len() == 0 {
            return Err(Error::UnexpectedEnd);
        }
        let tag = bytes[0];
        let rem0 = vstd::slice::slice_subrange(bytes, 1, bytes.len());
        proof {
            assert(rem0@ =~= bytes@.skip(1));
        }
        if tag == 0 {
            match U512::from_bytes(rem0) {
                Ok((amount, rem)) => Ok((Payment::CSPR { amount }, rem)),
                Err(e) => Err(e),
            }
        } else if tag == 1 {
            match ContractHash::from_bytes(rem0) {
                Ok((contract_hash, rem1)) => match U256::from_bytes(rem1) {
                    Ok((amount, rem)) => Ok((Payment::ERC20 { contract_hash, amount }, rem)),
                    Err(e) => Err(e),
                },
                Err(e) => Err(e),
            }
        } else if tag == 2 {
            match ContractHash::from_bytes(rem0) {
                Ok((collection, rem1)) => match U256::from_bytes(rem1) {
                    Ok((token_id, rem)) => Ok((Payment::CEP47 { collection, token_id }, rem)),
                    Err(e) => Err(e),
                },
                Err(e) => Err(e),
            }
        } else {
            Err(Error::UnknownDiscriminant)
        }
    }
}

} // verus!
