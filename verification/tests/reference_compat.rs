//! The library's wire format against the chain runtime's own encoder: the
//! same values must serialize to the same bytes.

use casper_types::account::AccountHash as CasperAccountHash;
use casper_types::bytesrepr::ToBytes;
use casper_types::{ContractHash as CasperContractHash, U256 as CasperU256, U512 as CasperU512};

use marketplace_codec::bigint::{U256, U512};
use marketplace_codec::hash::{AccountHash, ContractHash};
use marketplace_codec::offer::{Offer, OfferItem};
use marketplace_codec::payment::Payment;

const CONTRACT_HASH_STR: &str =
    "contract-033a6a5f47f9f247e1a3bd1307ea5d94a232ddec05aaa6b91363589e94728381";
const ACCOUNT_HASH_STR: &str =
    "account-hash-ad7e091267d82c3b9ed1987cb780a005a550e6b3d1ca333b743e2dba70680877";

#[test]
fn u512_encoding_matches_reference() {
    for v in [0u64, 1, 123, 255, 256, 0xDEAD_BEEF, u64::MAX] {
        let ours = U512::from_u64(v).to_bytes().unwrap();
        let theirs = CasperU512::from(v).to_bytes().unwrap();
        assert_eq!(ours, theirs);
    }
}

#[test]
fn u256_encoding_matches_reference() {
    for v in [0u64, 1, 100, 4096, u64::MAX] {
        let ours = U256::from_u64(v).to_bytes().unwrap();
        let theirs = CasperU256::from(v).to_bytes().unwrap();
        assert_eq!(ours, theirs);
    }
}

#[test]
fn serialized_length_matches_reference() {
    for v in [0u64, 1, 123, 70000, u64::MAX] {
        assert_eq!(
            U512::from_u64(v).serialized_length(),
            CasperU512::from(v).serialized_length()
        );
        assert_eq!(
            U256::from_u64(v).serialized_length(),
            CasperU256::from(v).serialized_length()
        );
    }
}

#[test]
fn payment_encoding_matches_reference_layout() {
    // The reference runtime has no `Payment` type; its encoding is the
    // discriminant byte followed by each field's reference encoding.
    let contract = CasperContractHash::from_formatted_str(CONTRACT_HASH_STR).unwrap();
    let p = Payment::ERC20 {
        contract_hash: ContractHash::new(contract.value().to_vec()),
        amount: U256::from_u64(1),
    };
    let mut expected = vec![1u8];
    expected.extend(contract.to_bytes().unwrap());
    expected.extend(CasperU256::from(1u64).to_bytes().unwrap());
    assert_eq!(p.to_bytes().unwrap(), expected);
}

#[test]
fn cspr_encoding_matches_reference_layout() {
    let p = Payment::CSPR { amount: U512::from_u64(123) };
    let mut expected = vec![0u8];
    expected.extend(CasperU512::from(123u64).to_bytes().unwrap());
    assert_eq!(p.to_bytes().unwrap(), expected);
}

#[test]
fn offer_encoding_matches_reference_layout() {
    // An `Offer`'s reference encoding: id, token_id, then the bid sequence
    // as a four-byte count followed by each bid's fields.
    let account = CasperAccountHash::from_formatted_str(ACCOUNT_HASH_STR).unwrap();
    let item = OfferItem {
        maker: AccountHash::new(account.value().to_vec()),
        price: U512::from_u64(100),
        offer_time: 1234,
    };
    let offer = Offer {
        id: U256::from_u64(1),
        token_id: U256::from_u64(100),
        offers: vec![item],
    };
    let mut expected: Vec<u8> = Vec::new();
    expected.extend(CasperU256::from(1u64).to_bytes().unwrap());
    expected.extend(CasperU256::from(100u64).to_bytes().unwrap());
    expected.extend(1u32.to_bytes().unwrap());
    expected.extend(account.to_bytes().unwrap());
    expected.extend(CasperU512::from(100u64).to_bytes().unwrap());
    expected.extend(1234u64.to_bytes().unwrap());
    assert_eq!(offer.to_bytes().unwrap(), expected);
}

#[test]
fn decoded_value_matches_reference_value() {
    // Decode with the library, re-encode the value with the reference
    // encoder: the wire bytes agree.
    let bytes = CasperU512::from(987654321u64).to_bytes().unwrap();
    let (v, rem) = U512::from_bytes(&bytes).unwrap();
    assert!(rem.is_empty());
    let theirs = CasperU512::from_little_endian(&v.le_bytes);
    assert_eq!(theirs, CasperU512::from(987654321u64));
}
