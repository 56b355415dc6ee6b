use marketplace_codec::bigint::{U256, U512};
use marketplace_codec::error::Error;
use marketplace_codec::hash::AccountHash;
use marketplace_codec::offer::{Offer, OfferItem};

fn sample_maker() -> Vec<u8> {
    let mut h: Vec<u8> = Vec::new();
    for i in 0..32u8 {
        h.push(i.wrapping_mul(11).wrapping_add(1));
    }
    h
}

fn sample_item() -> OfferItem {
    OfferItem {
        maker: AccountHash::new(sample_maker()),
        price: U512::from_u64(100),
        offer_time: 1234,
    }
}

#[test]
fn item_round_trip() {
    let item = sample_item();
    let bytes = item.to_bytes().unwrap();
    assert_eq!(bytes.len(), item.serialized_length());
    let (decoded, rem) = OfferItem::from_bytes(&bytes).unwrap();
    assert!(rem.is_empty());
    assert_eq!(decoded.maker.bytes, sample_maker());
    assert_eq!(decoded.price.le_bytes, U512::from_u64(100).le_bytes);
    assert_eq!(decoded.offer_time, 1234);
}

#[test]
fn item_concrete_layout() {
    let item = sample_item();
    let bytes = item.to_bytes().unwrap();
    // 32 maker bytes, length byte 1, one price byte, 8 timestamp bytes.
    assert_eq!(bytes.len(), 32 + 2 + 8);
    assert_eq!(&bytes[..32], sample_maker().as_slice());
    assert_eq!(bytes[32], 1u8);
    assert_eq!(bytes[33], 100u8);
    assert_eq!(&bytes[34..], &[0xD2, 0x04, 0, 0, 0, 0, 0, 0]);
}

#[test]
fn empty_offer_round_trip() {
    let offer = Offer {
        id: U256::from_u64(1),
        token_id: U256::from_u64(100),
        offers: Vec::new(),
    };
    let bytes = offer.to_bytes().unwrap();
    assert_eq!(bytes.len(), offer.serialized_length());
    let (decoded, rem) = Offer::from_bytes(&bytes).unwrap();
    assert!(rem.is_empty());
    assert_eq!(decoded.id.le_bytes, U256::from_u64(1).le_bytes);
    assert_eq!(decoded.token_id.le_bytes, U256::from_u64(100).le_bytes);
    assert_eq!(decoded.offers.len(), 0);
}

#[test]
fn two_item_offer_round_trip() {
    // Two identical bids: duplicates are permitted and order is kept.
    let offer = Offer {
        id: U256::from_u64(1),
        token_id: U256::from_u64(100),
        offers: vec![sample_item(), sample_item()],
    };
    let bytes = offer.to_bytes().unwrap();
    assert_eq!(bytes.len(), offer.serialized_length());
    let (decoded, rem) = Offer::from_bytes(&bytes).unwrap();
    assert!(rem.is_empty());
    assert_eq!(decoded.offers.len(), 2);
    for item in &decoded.offers {
        assert_eq!(item.maker.bytes, sample_maker());
        assert_eq!(item.price.le_bytes, U512::from_u64(100).le_bytes);
        assert_eq!(item.offer_time, 1234);
    }
}

#[test]
fn offer_order_is_kept() {
    let mut first = sample_item();
    first.offer_time = 1;
    let mut second = sample_item();
    second.offer_time = 2;
    let offer = Offer {
        id: U256::from_u64(5),
        token_id: U256::from_u64(6),
        offers: vec![first, second],
    };
    let bytes = offer.to_bytes().unwrap();
    let (decoded, _) = Offer::from_bytes(&bytes).unwrap();
    assert_eq!(decoded.offers[0].offer_time, 1);
    assert_eq!(decoded.offers[1].offer_time, 2);
}

#[test]
fn offer_round_trip_with_remainder() {
    let offer = Offer {
        id: U256::from_u64(42),
        token_id: U256::from_u64(7),
        offers: vec![sample_item()],
    };
    let mut bytes = offer.to_bytes().unwrap();
    bytes.push(0x55);
    let (decoded, rem) = Offer::from_bytes(&bytes).unwrap();
    assert_eq!(rem, &[0x55]);
    assert_eq!(decoded.offers.len(), 1);
}

#[test]
fn offer_concrete_layout() {
    let offer = Offer {
        id: U256::from_u64(1),
        token_id: U256::from_u64(100),
        offers: Vec::new(),
    };
    let bytes = offer.to_bytes().unwrap();
    // id: [1, 1]; token_id: [1, 100]; count: 0 as four bytes.
    assert_eq!(bytes, vec![1u8, 1u8, 1u8, 100u8, 0u8, 0u8, 0u8, 0u8]);
}

#[test]
fn offer_empty_buffer_rejected() {
    assert!(matches!(Offer::from_bytes(&[]), Err(Error::UnexpectedEnd)));
}

#[test]
fn offer_truncation_rejected_at_every_cut() {
    let offer = Offer {
        id: U256::from_u64(300),
        token_id: U256::from_u64(100),
        offers: vec![sample_item(), sample_item()],
    };
    let bytes = offer.to_bytes().unwrap();
    for k in 0..bytes.len() {
        assert!(matches!(Offer::from_bytes(&bytes[..k]), Err(Error::UnexpectedEnd)));
    }
}

#[test]
fn item_truncation_rejected_at_every_cut() {
    let bytes = sample_item().to_bytes().unwrap();
    for k in 0..bytes.len() {
        assert!(matches!(OfferItem::from_bytes(&bytes[..k]), Err(Error::UnexpectedEnd)));
    }
}

#[test]
fn offer_count_overruns_buffer_rejected() {
    // A recorded count of one bid with no bytes after the count.
    let bytes = vec![1u8, 1u8, 1u8, 100u8, 1u8, 0u8, 0u8, 0u8];
    assert!(matches!(Offer::from_bytes(&bytes), Err(Error::UnexpectedEnd)));
}

#[test]
fn offer_oversized_id_prefix_rejected() {
    // A 256-bit identifier cannot have more than 32 significant bytes.
    assert!(matches!(Offer::from_bytes(&[40u8, 0u8]), Err(Error::Formatting)));
}
