use marketplace_codec::bigint::{U256, U512};
use marketplace_codec::error::Error;
use marketplace_codec::hash::ContractHash;
use marketplace_codec::payment::Payment;

fn sample_hash() -> Vec<u8> {
    let mut h: Vec<u8> = Vec::new();
    for i in 0..32u8 {
        h.push(i.wrapping_mul(7).wrapping_add(3));
    }
    h
}

#[test]
fn cspr_concrete_encoding() {
    // `CSPR { amount: 123 }` encodes to the discriminant byte `0` followed
    // by the big-integer form of 123: length byte 1, then 123.
    let p = Payment::CSPR { amount: U512::from_u64(123) };
    let bytes = p.to_bytes().unwrap();
    assert_eq!(bytes, vec![0u8, 1u8, 123u8]);
    assert_eq!(p.serialized_length(), 3);
}

#[test]
fn cspr_concrete_round_trip() {
    let p = Payment::CSPR { amount: U512::from_u64(123) };
    let bytes = p.to_bytes().unwrap();
    let (decoded, rem) = Payment::from_bytes(&bytes).unwrap();
    assert!(rem.is_empty());
    match decoded {
        Payment::CSPR { amount } => {
            assert_eq!(amount.le_bytes, U512::from_u64(123).le_bytes);
        }
        _ => panic!("wrong variant"),
    }
}

#[test]
fn erc20_round_trip() {
    let p = Payment::ERC20 {
        contract_hash: ContractHash::new(sample_hash()),
        amount: U256::from_u64(77),
    };
    let bytes = p.to_bytes().unwrap();
    assert_eq!(bytes.len(), p.serialized_length());
    let (decoded, rem) = Payment::from_bytes(&bytes).unwrap();
    assert!(rem.is_empty());
    match decoded {
        Payment::ERC20 { contract_hash, amount } => {
            assert_eq!(contract_hash.bytes, sample_hash());
            assert_eq!(amount.le_bytes, U256::from_u64(77).le_bytes);
        }
        _ => panic!("wrong variant"),
    }
}

#[test]
fn cep47_round_trip_with_remainder() {
    let p = Payment::CEP47 {
        collection: ContractHash::new(sample_hash()),
        token_id: U256::from_u64(9),
    };
    let mut bytes = p.to_bytes().unwrap();
    bytes.push(0xAA);
    bytes.push(0xBB);
    let (decoded, rem) = Payment::from_bytes(&bytes).unwrap();
    assert_eq!(rem, &[0xAA, 0xBB]);
    match decoded {
        Payment::CEP47 { collection, token_id } => {
            assert_eq!(collection.bytes, sample_hash());
            assert_eq!(token_id.le_bytes, U256::from_u64(9).le_bytes);
        }
        _ => panic!("wrong variant"),
    }
}

#[test]
fn zero_amount_round_trip() {
    let p = Payment::CSPR { amount: U512::from_u64(0) };
    let bytes = p.to_bytes().unwrap();
    // Zero has no significant bytes: discriminant, then length byte 0.
    assert_eq!(bytes, vec![0u8, 0u8]);
    let (decoded, rem) = Payment::from_bytes(&bytes).unwrap();
    assert!(rem.is_empty());
    match decoded {
        Payment::CSPR { amount } => {
            assert_eq!(amount.le_bytes, vec![0u8; 64]);
        }
        _ => panic!("wrong variant"),
    }
}

#[test]
fn unknown_discriminant_rejected() {
    // Any first byte at or above 3 is rejected, whatever follows it.
    assert!(matches!(Payment::from_bytes(&[3u8]), Err(Error::UnknownDiscriminant)));
    assert!(matches!(Payment::from_bytes(&[3u8, 1, 123]), Err(Error::UnknownDiscriminant)));
    assert!(matches!(Payment::from_bytes(&[17u8, 0, 0, 0]), Err(Error::UnknownDiscriminant)));
    assert!(matches!(Payment::from_bytes(&[255u8]), Err(Error::UnknownDiscriminant)));
}

#[test]
fn empty_buffer_rejected() {
    assert!(matches!(Payment::from_bytes(&[]), Err(Error::UnexpectedEnd)));
}

#[test]
fn truncation_rejected_at_every_cut() {
    let p = Payment::ERC20 {
        contract_hash: ContractHash::new(sample_hash()),
        amount: U256::from_u64(0x0102030405060708),
    };
    let bytes = p.to_bytes().unwrap();
    for k in 0..bytes.len() {
        assert!(matches!(Payment::from_bytes(&bytes[..k]), Err(Error::UnexpectedEnd)));
    }
}

#[test]
fn cspr_truncation_rejected() {
    let p = Payment::CSPR { amount: U512::from_u64(u64::MAX) };
    let bytes = p.to_bytes().unwrap();
    for k in 0..bytes.len() {
        assert!(matches!(Payment::from_bytes(&bytes[..k]), Err(Error::UnexpectedEnd)));
    }
}

#[test]
fn oversized_length_prefix_rejected() {
    // A 512-bit amount cannot have more than 64 significant bytes.
    assert!(matches!(Payment::from_bytes(&[0u8, 65u8]), Err(Error::Formatting)));
    // A 256-bit amount cannot have more than 32 significant bytes.
    let mut buf = vec![1u8];
    buf.extend(sample_hash());
    buf.push(33u8);
    assert!(matches!(Payment::from_bytes(&buf), Err(Error::Formatting)));
}

#[test]
fn variant_layouts_differ_only_in_discriminant() {
    let erc20 = Payment::ERC20 {
        contract_hash: ContractHash::new(sample_hash()),
        amount: U256::from_u64(1),
    };
    let cep47 = Payment::CEP47 {
        collection: ContractHash::new(sample_hash()),
        token_id: U256::from_u64(1),
    };
    let a = erc20.to_bytes().unwrap();
    let b = cep47.to_bytes().unwrap();
    assert_eq!(a[0], 1u8);
    assert_eq!(b[0], 2u8);
    assert_eq!(a[1..], b[1..]);
}

#[test]
fn non_canonical_padding_accepted() {
    // The decoder accepts a big integer padded with an explicit zero byte,
    // as the wire convention allows, reading the same value.
    let canonical = Payment::from_bytes(&[0u8, 1u8, 5u8]).unwrap().0;
    let padded = Payment::from_bytes(&[0u8, 2u8, 5u8, 0u8]).unwrap().0;
    match (canonical, padded) {
        (Payment::CSPR { amount: a }, Payment::CSPR { amount: b }) => {
            assert_eq!(a.le_bytes, b.le_bytes);
        }
        _ => panic!("wrong variant"),
    }
}
