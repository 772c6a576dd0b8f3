//! Addresses and derivation paths as the wallet sees them.
//!
//! A raw chain address is carried as its plain bytes. Once an address has
//! been recognized by a lookup engine, it is replaced by the structured
//! derivation path ("addressing") that produced it.

use vstd::prelude::*;

verus! {

/// A BIP44-style derivation path: account, then internal/external chain,
/// then address index within the chain.
#[derive(Clone, Copy, Debug, PartialEq, Eq, Structural)]
pub struct Bip44Addressing {
    pub account: u32,
    pub change: u32,
    pub index: u32,
}

/// A randomized-scheme derivation path: two derivation levels.
#[derive(Clone, Copy, Debug, PartialEq, Eq, Structural)]
pub struct RIndexAddressing {
    pub account: u32,
    pub index: u32,
}

/// Mathematical value of an [`Address`].
pub ghost enum AddressV {
    Bip44(Bip44Addressing),
    RIndex(RIndexAddressing),
    Raw(Seq<u8>),
}

/// How an output address is known to the wallet: either through one of the
/// two derivation schemes, or only as raw chain bytes.
#[derive(Clone, Debug, PartialEq, Eq)]
pub enum Address {
    Bip44(Bip44Addressing),
    RIndex(RIndexAddressing),
    Raw(Vec<u8>),
}

impl View for Address {
    type V = AddressV;

    open spec fn view(&self) -> AddressV {
        match self {
            Address::Bip44(a) => AddressV::Bip44(*a),
            Address::RIndex(a) => AddressV::RIndex(*a),
            Address::Raw(bytes) => AddressV::Raw(bytes@),
        }
    }
}

impl Address {
    /// Copies the addressing value.
    pub fn duplicate(&self) -> (r: Address)
        ensures
            r@ == self@,
    {
        match self {
            Address::Bip44(a) => Address::Bip44(*a),
            Address::RIndex(a) => Address::RIndex(*a),
            Address::Raw(bytes) => Address::Raw(crate::bytes::copy_bytes(bytes)),
        }
    }

    /// Wraps raw chain address bytes.
    pub fn from_raw(bytes: Vec<u8>) -> (r: Address)
        ensures
            r@ == AddressV::Raw(bytes@),
    {
        Address::Raw(bytes)
    }
}

} // verus!
