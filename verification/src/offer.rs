//! The composite record codec: one bid record (`OfferItem`) and the
//! aggregate that owns an ordered sequence of them (`Offer`).
//!
//! An `OfferItem` encodes its maker, price and logical timestamp in
//! declaration order with no extra framing. An `Offer` encodes its
//! identifier, the asset's token identifier, and then the bid sequence,
//! which travels as a four-byte little-endian element count followed by each
//! element in order. Decoding mirrors encoding field by field, threading the
//! unconsumed remainder forward, and stops exactly at the recorded element
//! count however many bytes remain.

use vstd::prelude::*;

use crate::bigint::U256;
use crate::bigint::U512;
use crate::bigint::WIDTH_U256;
use crate::bigint::WIDTH_U512;
use crate::bigint::lemma_big_round_trip;
use crate::bigint::lemma_big_truncation;
use crate::bigint::lemma_ser_big_len;
use crate::bigint::lemma_sig_len_le;
use crate::bigint::spec_parse_big;
use crate::bigint::spec_ser_big;
use crate::error::Error;
use crate::hash::AccountHash;
use crate::hash::HASH_LENGTH;
use crate::hash::lemma_fixed_round_trip;
use crate::hash::spec_parse_fixed;
use crate::scalars::lemma_ser_u32_len;
use crate::scalars::lemma_ser_u64_len;
use crate::scalars::lemma_u32_round_trip;
use crate::scalars::lemma_u64_round_trip;
use crate::scalars::spec_parse_u32;
use crate::scalars::spec_parse_u64;
use crate::scalars::spec_ser_u32;
use crate::scalars::spec_ser_u64;

verus! {

/// One bid record: who bid, how much, and a logical timestamp.
pub struct OfferItem {
    /// The bidding account's identifier.
    pub maker: AccountHash,
    /// The amount bid.
    pub price: U512,
    /// A logical timestamp or sequence counter.
    pub offer_time: u64,
}

/// The aggregate: what is offered on, and the bids placed so far, in bid
/// order, duplicates permitted.
pub struct Offer {
    /// Unique identifier of this aggregate.
    pub id: U256,
    /// The asset being offered on.
    pub token_id: U256,
    /// The bids, in insertion order.
    pub offers: Vec<OfferItem>,
}

/// The mathematical shape of an `OfferItem`.
pub struct OfferItemView {
    /// The bidding account's identifier.
    pub maker: Seq<u8>,
    /// The amount bid.
    pub price: Seq<u8>,
    /// A logical timestamp or sequence counter.
    pub offer_time: u64,
}

/// The mathematical shape of an `Offer`.
pub struct OfferView {
    /// Unique identifier of this aggregate.
    pub id: Seq<u8>,
    /// The asset being offered on.
    pub token_id: Seq<u8>,
    /// The bids, in insertion order.
    pub offers: Seq<OfferItemView>,
}

impl View for OfferItem {
    type V = OfferItemView;

    open spec fn view(&self) -> OfferItemView {
        OfferItemView { maker: self.maker@, price: self.price@, offer_time: self.offer_time }
    }
}

/// The views of a sequence of bid records, elementwise.
pub open spec fn views_of(items: Seq<OfferItem>) -> Seq<OfferItemView> {
    items.map_values(|it: OfferItem| it@)
}

impl View for Offer {
    type V = OfferView;

    open spec fn view(&self) -> OfferView {
        OfferView { id: self.id@, token_id: self.token_id@, offers: views_of(self.offers@) }
    }
}

impl OfferItemView {
    /// Every field holds its full fixed width.
    pub open spec fn wf(self) -> bool {
        self.maker.len() == HASH_LENGTH && self.price.len() == WIDTH_U512
    }
}

impl OfferView {
    /// The scalar fields hold their full width, every bid is well-formed,
    /// and the bid count fits the wire's four-byte count field.
    pub open spec fn wf(self) -> bool {
        &&& self.id.len() == WIDTH_U256
        &&& self.token_id.len() == WIDTH_U256
        &&& self.offers.len() <= u32::MAX
        &&& forall|i: int| 0 <= i < self.offers.len() ==> self.offers[i].wf()
    }
}

/// Wire form of one bid record: maker, price, then timestamp, concatenated.
pub open spec fn spec_ser_item(v: OfferItemView) -> Seq<u8> {
    v.maker + spec_ser_big(v.price) + spec_ser_u64(v.offer_time)
}

/// Parse one bid record from a prefix of `s`.
pub open spec fn spec_parse_item(s: Seq<u8>) -> Result<(OfferItemView, Seq<u8>), Error> {
    match spec_parse_fixed(s, HASH_LENGTH as nat) {
        Ok((maker, s1)) => match spec_parse_big(s1, WIDTH_U512 as nat) {
            Ok((price, s2)) => match spec_parse_u64(s2) {
                Ok((offer_time, s3)) => Ok((OfferItemView { maker, price, offer_time }, s3)),
                Err(e) => Err(e),
            },
            Err(e) => Err(e),
        },
        Err(e) => Err(e),
    }
}

/// Wire form of a bid sequence's elements: each element in order, with no
/// separators; the element count travels separately, before them.
pub open spec fn spec_ser_items(items: Seq<OfferItemView>) -> Seq<u8>
    decreases items.len(),
{
    if items.len() == 0 {
        Seq::empty()
    } else {
        spec_ser_item(items[0]) + spec_ser_items(items.skip(1))
    }
}

/// Parse exactly `n` bid records from a prefix of `s`.
pub open spec fn spec_parse_items(s: Seq<u8>, n: nat) -> Result<(Seq<OfferItemView>, Seq<u8>), Error>
    decreases n,
{
    if n == 0 {
        Ok((Seq::empty(), s))
    } else {
        match spec_parse_item(s) {
            Ok((v, rem)) => match spec_parse_items(rem, (n - 1) as nat) {
                Ok((vs, rem2)) => Ok((seq![v] + vs, rem2)),
                Err(e) => Err(e),
            },
            Err(e) => Err(e),
        }
    }
}

/// Wire form of the aggregate: identifier, token identifier, four-byte bid
/// count, then each bid in order.
pub open spec fn spec_ser_offer(v: OfferView) -> Seq<u8> {
    spec_ser_big(v.id) + spec_ser_big(v.token_id) + spec_ser_u32(v.offers.len() as u32)
        + spec_ser_items(v.offers)
}

/// Parse one aggregate from a prefix of `s`.
pub open spec fn spec_parse_offer(s: Seq<u8>) -> Result<(OfferView, Seq<u8>), Error> {
    match spec_parse_big(s, WIDTH_U256 as nat) {
        Ok((id, s1)) => match spec_parse_big(s1, WIDTH_U256 as nat) {
            Ok((token_id, s2)) => match spec_parse_u32(s2) {
                Ok((count, s3)) => match spec_parse_items(s3, count as nat) {
                    Ok((offers, s4)) => Ok((OfferView { id, token_id, offers }, s4)),
                    Err(e) => Err(e),
                },
                Err(e) => Err(e),
            },
            Err(e) => Err(e),
        },
        Err(e) => Err(e),
    }
}

/// A well-formed bid record's wire form is between 41 and 105 bytes.
pub proof fn lemma_ser_item_len(v: OfferItemView)
    requires
        v.wf(),
    ensures
        HASH_LENGTH + 1 <= spec_ser_item(v).len() <= HASH_LENGTH + 1 + WIDTH_U512 + 8,
        spec_ser_item(v).len() == HASH_LENGTH + spec_ser_big(v.price).len() + 8,
{
    lemma_ser_big_len(v.price);
    lemma_sig_len_le(v.price);
    lemma_ser_u64_len(v.offer_time);
}

/// Serializing a concatenation of bid sequences concatenates their wire
/// forms.
pub proof fn lemma_ser_items_append(a: Seq<OfferItemView>, b: Seq<OfferItemView>)
    ensures
        spec_ser_items(a + b) == spec_ser_items(a) + spec_ser_items(b),
    decreases a.len(),
{
    if a.len() == 0 {
        assert(a + b =~= b);
        assert(spec_ser_items(a) + spec_ser_items(b) =~= spec_ser_items(b));
    } else {
        assert((a + b).skip(1) =~= a.skip(1) + b);
        lemma_ser_items_append(a.skip(1), b);
        assert(spec_ser_items(a + b) =~= spec_ser_items(a) + spec_ser_items(b));
    }
}

/// Extending a bid sequence by one element appends that element's wire form.
pub proof fn lemma_ser_items_push(items: Seq<OfferItemView>, v: OfferItemView)
    ensures
        spec_ser_items(items.push(v)) == spec_ser_items(items) + spec_ser_item(v),
{
    assert(items.push(v) =~= items + seq![v]);
    lemma_ser_items_append(items, seq![v]);
    let single = seq![v];
    assert(single.skip(1) =~= Seq::<OfferItemView>::empty());
    assert(spec_ser_items(single.skip(1)) =~= Seq::<u8>::empty());
    assert(single[0] == v);
    assert(spec_ser_items(single) == spec_ser_item(single[0]) + spec_ser_items(single.skip(1)));
    assert(spec_ser_items(single) =~= spec_ser_item(v));
}

/// Round trip of one bid record: its encoding followed by anything parses
/// back to the record and the trailing bytes.
pub proof fn lemma_item_round_trip(v: OfferItemView, rest: Seq<u8>)
    requires
        v.wf(),
    ensures
        spec_parse_item(spec_ser_item(v) + rest) == Ok::<(OfferItemView, Seq<u8>), Error>(
            (v, rest),
        ),
{
    let s = spec_ser_item(v) + rest;
    assert(s =~= v.maker + (spec_ser_big(v.price) + (spec_ser_u64(v.offer_time) + rest)));
    lemma_fixed_round_trip(v.maker, spec_ser_big(v.price) + (spec_ser_u64(v.offer_time) + rest));
    lemma_big_round_trip(v.price, spec_ser_u64(v.offer_time) + rest, WIDTH_U512 as nat);
    lemma_u64_round_trip(v.offer_time, rest);
}

/// Round trip of a bid sequence: its elements' encodings followed by
/// anything parse back, in order, leaving the trailing bytes.
pub proof fn lemma_items_round_trip(items: Seq<OfferItemView>, rest: Seq<u8>)
    requires
        forall|i: int| 0 <= i < items.len() ==> items[i].wf(),
    ensures
        spec_parse_items(spec_ser_items(items) + rest, items.len()) == Ok::<
            (Seq<OfferItemView>, Seq<u8>),
            Error,
        >((items, rest)),
    decreases items.len(),
{
    if items.len() == 0 {
        assert(spec_ser_items(items) + rest =~= rest);
        assert(items =~= Seq::<OfferItemView>::empty());
    } else {
        let s = spec_ser_items(items) + rest;
        assert(s =~= spec_ser_item(items[0]) + (spec_ser_items(items.skip(1)) + rest));
        lemma_item_round_trip(items[0], spec_ser_items(items.skip(1)) + rest);
        lemma_items_round_trip(items.skip(1), rest);
        assert(seq![items[0]] + items.skip(1) =~= items);
    }
}

/// Truncation of one bid record: every proper prefix of its encoding fails
/// with `UnexpectedEnd`.
pub proof fn lemma_item_truncation(v: OfferItemView, k: int)
    requires
        v.wf(),
        0 <= k < spec_ser_item(v).len(),
    ensures
        spec_parse_item(spec_ser_item(v).take(k)) == Err::<(OfferItemView, Seq<u8>), Error>(
            Error::UnexpectedEnd,
        ),
{
    lemma_ser_item_len(v);
    lemma_ser_u64_len(v.offer_time);
    let t = spec_ser_item(v).take(k);
    let big = spec_ser_big(v.price);
    if k < HASH_LENGTH {
        assert(t.len() == k);
    } else {
        assert(t =~= v.maker + (big + spec_ser_u64(v.offer_time)).take(k - HASH_LENGTH));
        assert(t.take(HASH_LENGTH as int) =~= v.maker);
        assert(t.skip(HASH_LENGTH as int) =~= (big + spec_ser_u64(v.offer_time)).take(
            k - HASH_LENGTH,
        ));
        let k1 = k - HASH_LENGTH;
        let t1 = (big + spec_ser_u64(v.offer_time)).take(k1);
        if k1 < big.len() {
            assert(t1 =~= big.take(k1));
            lemma_big_truncation(v.price, k1, WIDTH_U512 as nat);
        } else {
            assert(t1 =~= big + spec_ser_u64(v.offer_time).take(k1 - big.len()));
            assert(t1.take(big.len() as int) =~= big);
            assert(t1.skip(big.len() as int) =~= spec_ser_u64(v.offer_time).take(k1 - big.len()));
            lemma_big_round_trip(v.price, spec_ser_u64(v.offer_time).take(k1 - big.len()),
                WIDTH_U512 as nat);
            assert(t1.skip(big.len() as int).len() == k1 - big.len() < 8);
        }
    }
}

/// Truncation of a bid sequence: cutting anywhere inside the elements'
/// encodings fails with `UnexpectedEnd`.
pub proof fn lemma_items_truncation(items: Seq<OfferItemView>, k: int)
    requires
        forall|i: int| 0 <= i < items.len() ==> items[i].wf(),
        0 <= k < spec_ser_items(items).len(),
    ensures
        spec_parse_items(spec_ser_items(items).take(k), items.len()) == Err::<
            (Seq<OfferItemView>, Seq<u8>),
            Error,
        >(Error::UnexpectedEnd),
    decreases items.len(),
{
    let t = spec_ser_items(items).take(k);
    let head = spec_ser_item(items[0]);
    let tail = spec_ser_items(items.skip(1));
    if k < head.len() {
        assert(t =~= head.take(k));
        lemma_item_truncation(items[0], k);
    } else {
        assert(t =~= head + tail.take(k - head.len()));
        lemma_item_round_trip(items[0], tail.take(k - head.len()));
        assert(t.take(head.len() as int) + t.skip(head.len() as int) =~= t);
        lemma_items_truncation(items.skip(1), k - head.len());
    }
}

/// Round-trip law: parsing the encoding of any well-formed aggregate,
/// followed by any trailing bytes, yields back exactly that aggregate and
/// exactly those trailing bytes.
pub proof fn lemma_offer_round_trip(v: OfferView, rest: Seq<u8>)
    requires
        v.wf(),
    ensures
        spec_parse_offer(spec_ser_offer(v) + rest) == Ok::<(OfferView, Seq<u8>), Error>((v, rest)),
{
    let count = v.offers.len() as u32;
    let s = spec_ser_offer(v) + rest;
    assert(s =~= spec_ser_big(v.id) + (spec_ser_big(v.token_id) + (spec_ser_u32(count) + (
    spec_ser_items(v.offers) + rest))));
    lemma_big_round_trip(v.id, spec_ser_big(v.token_id) + (spec_ser_u32(count) + (spec_ser_items(
        v.offers,
    ) + rest)), WIDTH_U256 as nat);
    lemma_big_round_trip(v.token_id, spec_ser_u32(count) + (spec_ser_items(v.offers) + rest),
        WIDTH_U256 as nat);
    lemma_u32_round_trip(count, spec_ser_items(v.offers) + rest);
    lemma_items_round_trip(v.offers, rest);
}

/// Truncation rejection law: every proper prefix of a valid aggregate
/// encoding, including the empty buffer, fails with `UnexpectedEnd`.
pub proof fn lemma_offer_truncation(v: OfferView, k: int)
    requires
        v.wf(),
        0 <= k < spec_ser_offer(v).len(),
    ensures
        spec_parse_offer(spec_ser_offer(v).take(k)) == Err::<(OfferView, Seq<u8>), Error>(
            Error::UnexpectedEnd,
        ),
{
    let count = v.offers.len() as u32;
    let a = spec_ser_big(v.id);
    let b = spec_ser_big(v.token_id);
    let c = spec_ser_u32(count);
    let d = spec_ser_items(v.offers);
    lemma_ser_u32_len(count);
    let t = spec_ser_offer(v).take(k);
    if k < a.len() {
        assert(t =~= a.take(k));
        lemma_big_truncation(v.id, k, WIDTH_U256 as nat);
    } else {
        let k1 = k - a.len();
        assert(t =~= a + (b + (c + d)).take(k1));
        assert(t.take(a.len() as int) =~= a);
        assert(t.skip(a.len() as int) =~= (b + (c + d)).take(k1));
        lemma_big_round_trip(v.id, (b + (c + d)).take(k1), WIDTH_U256 as nat);
        let t1 = (b + (c + d)).take(k1);
        if k1 < b.len() {
            assert(t1 =~= b.take(k1));
            lemma_big_truncation(v.token_id, k1, WIDTH_U256 as nat);
        } else {
            let k2 = k1 - b.len();
            assert(t1 =~= b + (c + d).take(k2));
            assert(t1.take(b.len() as int) =~= b);
            assert(t1.skip(b.len() as int) =~= (c + d).take(k2));
            lemma_big_round_trip(v.token_id, (c + d).take(k2), WIDTH_U256 as nat);
            let t2 = (c + d).take(k2);
            if k2 < 4 {
                assert(t2.len() == k2);
            } else {
                let k3 = k2 - 4;
                assert(t2 =~= c + d.take(k3));
                assert(t2.take(4) =~= c);
                assert(t2.skip(4) =~= d.take(k3));
                lemma_u32_round_trip(count, d.take(k3));
                lemma_items_truncation(v.offers, k3);
            }
        }
    }
}

impl OfferItem {
    /// Every field holds its full fixed width.
    pub open spec fn wf(&self) -> bool {
        self@.wf()
    }

    /// Exact length of the wire form: the sum of the fields' lengths.
    pub fn serialized_length(&self) -> (r: usize)
        requires
            self.wf(),
        ensures
            r == spec_ser_item(self@).len(),
            r <= 105,
    {
        proof {
            lemma_ser_item_len(self@);
            lemma_ser_big_len(self.price@);
            lemma_sig_len_le(self.price@);
        }
        self.maker.serialized_length() + self.price.serialized_length() + 8
    }

    /// Encode into a fresh buffer holding exactly the wire form: maker,
    /// price, then timestamp. The buffer's length always equals
    /// `serialized_length`.
    pub fn to_bytes(&self) -> (r: Result<Vec<u8>, Error>)
        requires
            self.wf(),
        ensures
            r is Ok,
            r matches Ok(b) ==> b@ == spec_ser_item(self@),
    {
        let mut out = vstd::slice::slice_to_vec(self.maker.bytes.as_slice());
        let mut body = crate::bigint::big_to_bytes(&self.price.le_bytes);
        out.append(&mut body);
        let mut time = crate::scalars::u64_to_bytes(self.offer_time);
        out.append(&mut time);
        proof {
            assert(out@ =~= spec_ser_item(self@));
        }
        Ok(out)
    }

    /// Decode one bid record from a prefix of `s`, returning it and the
    /// unconsumed remainder.
    pub fn from_bytes<'a>(s: &'a [u8]) -> (r: Result<(OfferItem, &'a [u8]), Error>)
        ensures
            match r {
                Ok(p) => spec_parse_item(s@) == Ok::<(OfferItemView, Seq<u8>), Error>(
                    (p.0@, p.1@),
                ) && p.0.wf(),
                Err(e) => spec_parse_item(s@) == Err::<(OfferItemView, Seq<u8>), Error>(e),
            },
    {
        match AccountHash::from_bytes(s) {
            Ok((maker, s1)) => match U512::from_bytes(s1) {
                Ok((price, s2)) => match crate::scalars::u64_from_bytes(s2) {
                    Ok((offer_time, s3)) => Ok((OfferItem { maker, price, offer_time }, s3)),
                    Err(e) => Err(e),
                },
                Err(e) => Err(e),
            },
            Err(e) => Err(e),
        }
    }
}

/// Exact length of the wire form of a bid sequence's elements, as a 64-bit
/// count.
fn items_ser_len(items: &Vec<OfferItem>) -> (r: u64)
    requires
        items@.len() <= u32::MAX,
        forall|i: int| 0 <= i < items@.len() ==> (#[trigger] items@[i])@.wf(),
    ensures
        r == spec_ser_items(views_of(items@)).len(),
        r <= 105 * items@.len(),
{
    let mut total: u64 = 0;
    let mut i: usize = 0;
    proof {
        assert(views_of(items@).take(0) =~= Seq::<OfferItemView>::empty());
    }
    while i < items.len()
        invariant
            i <= items@.len() <= u32::MAX,
            forall|j: int| 0 <= j < items@.len() ==> (#[trigger] items@[j])@.wf(),
            total == spec_ser_items(views_of(items@).take(i as int)).len(),
            total <= 105 * i,
        decreases items@.len() - i,
    {
        let l = items[i].serialized_length();
        proof {
            assert(views_of(items@)[i as int] == items@[i as int]@);
            assert(views_of(items@).take(i + 1) =~= views_of(items@).take(i as int).push(
                items@[i as int]@,
            ));
            lemma_ser_items_push(views_of(items@).take(i as int), items@[i as int]@);
            assert(l <= 105);
            assert(105 * (i + 1) == 105 * i + 105);
        }
        total = total + l as u64;
        i = i + 1;
    }
    proof {
        assert(views_of(items@).take(items@.len() as int) =~= views_of(items@));
    }
    total
}

impl Offer {
    /// The scalar fields hold their full width, every bid is well-formed,
    /// and the bid count fits the wire's four-byte count field.
    pub open spec fn wf(&self) -> bool {
        self@.wf()
    }

    /// Exact length of the wire form: the sum of the fields' lengths, the
    /// bid sequence's length being its count field plus its elements'
    /// lengths.
    pub fn serialized_length(&self) -> (r: usize)
        requires
            self.wf(),
            spec_ser_offer(self@).len() <= usize::MAX,
        ensures
            r == spec_ser_offer(self@).len(),
    {
        proof {
            lemma_ser_big_len(self.id@);
            lemma_sig_len_le(self.id@);
            lemma_ser_big_len(self.token_id@);
            lemma_sig_len_le(self.token_id@);
            lemma_ser_u32_len(self.offers@.len() as u32);
            assert forall|j: int| 0 <= j < self.offers@.len() implies (
            #[trigger] self.offers@[j])@.wf() by {
                assert(views_of(self.offers@)[j] == self.offers@[j]@);
            }
        }
        let a = self.id.serialized_length();
        let b = self.token_id.serialized_length();
        let items_len = items_ser_len(&self.offers);
        proof {
            assert(items_len <= 105 * self.offers@.len());
            assert(105 * self.offers@.len() <= 105 * 0x1_0000_0000int);
        }
        let total: u64 = a as u64 + b as u64 + 4u64 + items_len;
        total as usize
    }

    /// Encode into a fresh buffer holding exactly the wire form, or fail
    /// with `AllocationError` when that buffer would exceed the wire's
    /// addressable size. On success the buffer's length always equals
    /// `serialized_length`.
    pub fn to_bytes(&self) -> (r: Result<Vec<u8>, Error>)
        requires
            self.wf(),
        ensures
            match r {
                Ok(b) => b@ == spec_ser_offer(self@) && b@.len() <= u32::MAX,
                Err(e) => e == Error::AllocationError && spec_ser_offer(self@).len() > u32::MAX,
            },
    {
        proof {
            lemma_ser_big_len(self.id@);
            lemma_sig_len_le(self.id@);
            lemma_ser_big_len(self.token_id@);
            lemma_sig_len_le(self.token_id@);
            lemma_ser_u32_len(self.offers@.len() as u32);
            assert forall|j: int| 0 <= j < self.offers@.len() implies (
            #[trigger] self.offers@[j])@.wf() by {
                assert(views_of(self.offers@)[j] == self.offers@[j]@);
            }
        }
        let a = self.id.serialized_length();
        let b = self.token_id.serialized_length();
        let items_len = items_ser_len(&self.offers);
        proof {
            assert(items_len <= 105 * self.offers@.len());
            assert(105 * self.offers@.len() <= 105 * 0x1_0000_0000int);
        }
        let total: u64 = a as u64 + b as u64 + 4u64 + items_len;
        if total > 0xffff_ffffu64 {
            return Err(Error::AllocationError);
        }
        let count: u32 = self.offers.len() as u32;
        let mut out = crate::bigint::big_to_bytes(&self.id.le_bytes);
        let mut tok = crate::bigint::big_to_bytes(&self.token_id.le_bytes);
        out.append(&mut tok);
        let mut cnt = crate::scalars::u32_to_bytes(count);
        out.append(&mut cnt);
        let ghost head: Seq<u8> = spec_ser_big(self.id@) + spec_ser_big(self.token_id@)
            + spec_ser_u32(count);
        proof {
            assert(out@ =~= head);
            assert(views_of(self.offers@).take(0) =~= Seq::<OfferItemView>::empty());
        }
        let mut i: usize = 0;
        while i < self.offers.len()
            invariant
                i <= self.offers@.len(),
                forall|j: int| 0 <= j < self.offers@.len() ==> (#[trigger] self.offers@[j])@.wf(),
                out@ == head + spec_ser_items(views_of(self.offers@).take(i as int)),
            decreases self.offers@.len() - i,
        {
            match self.offers[i].to_bytes() {
                Ok(mut item_bytes) => {
                    out.append(&mut item_bytes);
                },
                Err(e) => {
                    return Err(e);
                },
            }
            proof {
                assert(views_of(self.offers@)[i as int] == self.offers@[i as int]@);
                assert(views_of(self.offers@).take(i + 1) =~= views_of(self.offers@).take(
                    i as int,
                ).push(self.offers@[i as int]@));
                lemma_ser_items_push(views_of(self.offers@).take(i as int),
                    self.offers@[i as int]@);
                assert(out@ =~= head + spec_ser_items(views_of(self.offers@).take(i + 1)));
            }
            i = i + 1;
        }
        proof {
            assert(views_of(self.offers@).take(self.offers@.len() as int) =~= views_of(
                self.offers@,
            ));
            assert(out@ =~= spec_ser_offer(self@));
        }
        Ok(out)
    }

    /// Decode one aggregate from a prefix of `s`, returning it and the
    /// unconsumed remainder. Decoding reads exactly as many bids as the
    /// recorded count, however many bytes remain after them.
    pub fn from_bytes<'a>(s: &'a [u8]) -> (r: Result<(Offer, &'a [u8]), Error>)
        ensures
            match r {
                Ok(p) => spec_parse_offer(s@) == Ok::<(OfferView, Seq<u8>), Error>((p.0@, p.1@))
                    && p.0.wf(),
                Err(e) => spec_parse_offer(s@) == Err::<(OfferView, Seq<u8>), Error>(e),
            },
    {
        let (id, s1) = match U256::from_bytes(s) {
            Ok(p) => p,
            Err(e) => {
                return Err(e);
            },
        };
        let (token_id, s2) = match U256::from_bytes(s1) {
            Ok(p) => p,
            Err(e) => {
                return Err(e);
            },
        };
        let (count, s3) = match crate::scalars::u32_from_bytes(s2) {
            Ok(p) => p,
            Err(e) => {
                return Err(e);
            },
        };
        let mut offers: Vec<OfferItem> = Vec::new();
        let mut rem: &[u8] = s3;
        let mut i: u32 = 0;
        proof {
            assert(views_of(offers@) =~= Seq::<OfferItemView>::empty());
            assert(Seq::<OfferItemView>::empty() + views_of(offers@) =~= views_of(offers@));
        }
        while i < count
            invariant
                i <= count,
                id@.len() == WIDTH_U256,
                token_id@.len() == WIDTH_U256,
                views_of(offers@).len() == i,
                forall|j: int| 0 <= j < offers@.len() ==> (#[trigger] offers@[j])@.wf(),
                spec_parse_offer(s@) == (match spec_parse_items(rem@, (count - i) as nat) {
                    Ok(p) => Ok::<(OfferView, Seq<u8>), Error>(
                        (
                            OfferView {
                                id: id@,
                                token_id: token_id@,
                                offers: views_of(offers@) + p.0,
                            },
                            p.1,
                        ),
                    ),
                    Err(e) => Err::<(OfferView, Seq<u8>), Error>(e),
                }),
            decreases count - i,
        {
            match OfferItem::from_bytes(rem) {
                Ok((item, rem2)) => {
                    proof {
                        let n = (count - i) as nat;
                        if let Ok((vs, r2)) = spec_parse_items(rem2@, (n - 1) as nat) {
                            assert(spec_parse_items(rem@, n) == Ok::<
                                (Seq<OfferItemView>, Seq<u8>),
                                Error,
                            >((seq![item@] + vs, r2)));
                            assert(views_of(offers@.push(item)) =~= views_of(offers@).push(
                                item@,
                            ));
                            assert(views_of(offers@) + (seq![item@] + vs) =~= views_of(
                                offers@,
                            ).push(item@) + vs);
                        }
                    }
                    offers.push(item);
                    rem = rem2;
                    i = i + 1;
                },
                Err(e) => {
                    return Err(e);
                },
            }
        }
        proof {
            assert(views_of(offers@) + Seq::<OfferItemView>::empty() =~= views_of(offers@));
        }
        Ok((Offer { id, token_id, offers }, rem))
    }
}

} // verus!
