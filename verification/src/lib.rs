//! A verified binary codec for a marketplace's on-chain values.
//!
//! Two families of values share one codec discipline: a tagged union of
//! settlement methods (`Payment`) and a composite bid record with a nested
//! variable-length sequence (`Offer` / `OfferItem`). Every encodable type
//! reports its exact serialized length, encodes into a fresh buffer, and
//! decodes by consuming a prefix of an input slice, returning the remainder.

pub mod bigint;
pub mod error;
pub mod hash;
pub mod offer;
pub mod payment;
pub mod scalars;
