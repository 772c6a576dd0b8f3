//! The randomized (two-level) address lookup engine.
//!
//! Under this scheme every address of the wallet carries its own derivation
//! payload, encrypted with the wallet's key. Recognition decrypts the
//! payload, re-derives the address from the recovered path, and compares
//! the result byte for byte with the credited address: a mismatch is a
//! broken invariant — a bug or tampering — and is fatal, never a mere
//! miss. A payload that cannot be read at all (malformed, oversized or
//! undersized) means the address is simply not ours: a non-fatal miss, a
//! policy kept as specified.
//!
//! Decrypting and re-deriving are the business of a cryptographic scheme
//! outside this library; the engine takes them as a capability whose
//! promise is that both are pure functions of their arguments.

use vstd::bytes::spec_u32_to_le_bytes;
use vstd::prelude::*;

use crate::address::{Address, AddressV, RIndexAddressing};
use crate::bytes::{bytes_eq, read_u32_at, write_u32};
use crate::lookup::{AddressLookup, AddressLookupError};
use crate::utxo::UTxO;

verus! {

/// Reads derivation payloads out of addresses and re-derives addresses
/// from paths. Both are pure functions of their arguments.
pub trait RindexScheme: Sized {
    /// The path the scheme can decrypt out of the address, if any.
    spec fn spec_decrypt(&self, addr: Seq<u8>) -> Option<RIndexAddressing>;

    /// The address the scheme derives from a path.
    spec fn spec_address_of(&self, path: RIndexAddressing) -> Seq<u8>;

    /// Attempts to read the derivation payload of an address. An address
    /// without a readable payload is not ours.
    fn try_get_addressing(&self, addr: &Vec<u8>) -> (r: Option<RIndexAddressing>)
        ensures
            r == self.spec_decrypt(addr@),
    ;

    /// Re-derives the address of a path.
    fn reconstruct_address(&self, path: RIndexAddressing) -> (r: Vec<u8>)
        ensures
            r@ == self.spec_address_of(path),
    ;
}

/// A scheme that spells the path out in the address bytes: the network
/// magic followed by the two path indices. It stands in where no
/// cryptographic context is wired in. Reading the payload only looks at
/// the leading bytes, so an address with trailing bytes decrypts and then
/// fails the reconstruction comparison — the integrity check the engine
/// exists for.
#[derive(Clone, Copy, Debug)]
pub struct TransparentRindexScheme {
    pub network_magic: u32,
}

impl RindexScheme for TransparentRindexScheme {
    open spec fn spec_decrypt(&self, addr: Seq<u8>) -> Option<RIndexAddressing> {
        if addr.len() >= 12 && addr.subrange(0, 4) == spec_u32_to_le_bytes(self.network_magic) {
            Some(
                RIndexAddressing {
                    account: vstd::bytes::spec_u32_from_le_bytes(addr.subrange(4, 8)),
                    index: vstd::bytes::spec_u32_from_le_bytes(addr.subrange(8, 12)),
                },
            )
        } else {
            None
        }
    }

    open spec fn spec_address_of(&self, path: RIndexAddressing) -> Seq<u8> {
        spec_u32_to_le_bytes(self.network_magic) + spec_u32_to_le_bytes(path.account)
            + spec_u32_to_le_bytes(path.index)
    }

    fn try_get_addressing(&self, addr: &Vec<u8>) -> (r: Option<RIndexAddressing>) {
        proof {
            vstd::bytes::lemma_auto_spec_u32_to_from_le_bytes();
        }
        if addr.len() < 12 {
            return None;
        }
        let magic = read_u32_at(addr, 0);
        if magic != self.network_magic {
            proof {
                assert(addr@.subrange(0, 4) != spec_u32_to_le_bytes(self.network_magic)) by {
                    vstd::bytes::lemma_auto_spec_u32_to_from_le_bytes();
                    assert(spec_u32_to_le_bytes(self.network_magic).len() == 4);
                    if addr@.subrange(0, 4) == spec_u32_to_le_bytes(self.network_magic) {
                        assert(vstd::bytes::spec_u32_from_le_bytes(
                            spec_u32_to_le_bytes(self.network_magic),
                        ) == self.network_magic);
                    }
                }
            }
            return None;
        }
        let account = read_u32_at(addr, 4);
        let index = read_u32_at(addr, 8);
        Some(RIndexAddressing { account, index })
    }

    fn reconstruct_address(&self, path: RIndexAddressing) -> (r: Vec<u8>) {
        let mut out: Vec<u8> = Vec::new();
        write_u32(&mut out, self.network_magic);
        write_u32(&mut out, path.account);
        write_u32(&mut out, path.index);
        proof {
            assert(out@ =~= self.spec_address_of(path));
        }
        out
    }
}

/// The randomized lookup engine: just the scheme; addresses describe
/// themselves, so no table and no thresholds are kept.
pub struct RandomIndexLookup<C: RindexScheme> {
    pub scheme: C,
}

impl<C: RindexScheme> RandomIndexLookup<C> {
    /// An engine over the given scheme.
    pub fn new(scheme: C) -> (r: RandomIndexLookup<C>)
        ensures
            r.scheme == scheme,
            r.wf(),
    {
        RandomIndexLookup { scheme }
    }
}

impl<C: RindexScheme> AddressLookup for RandomIndexLookup<C> {
    open spec fn wf(&self) -> bool {
        true
    }

    /// Acknowledging never fails: there is no state to keep.
    open spec fn ack_ok(&self, addressing: AddressV) -> bool {
        true
    }

    /// An address is the wallet's exactly when its payload decrypts to a
    /// path that re-derives the address itself.
    open spec fn spec_classify(&self, addr: Seq<u8>) -> Option<AddressV> {
        match self.scheme.spec_decrypt(addr) {
            None => None,
            Some(p) => if self.scheme.spec_address_of(p) == addr {
                Some(AddressV::RIndex(p))
            } else {
                None
            },
        }
    }

    /// Classifying fails exactly on the integrity break: a payload that
    /// decrypts to a path whose re-derived address differs.
    open spec fn spec_lookup_ok(&self, addr: Seq<u8>) -> bool {
        !(self.scheme.spec_decrypt(addr) matches Some(p) && self.scheme.spec_address_of(p)
            != addr)
    }

    /// Decrypts the payload and re-derives the address. An unreadable
    /// payload is a miss; a readable payload whose re-derived address does
    /// not match the credited one is a fatal integrity error carrying the
    /// re-derived address, never a miss. The engine itself never changes:
    /// the addresses describe themselves.
    fn lookup(&mut self, utxo: UTxO<Vec<u8>>) -> (r: Result<
        Option<UTxO<Address>>,
        AddressLookupError,
    >)
        ensures
            *final(self) == *old(self),
            r matches Ok(opt) && opt is None <==> old(self).scheme.spec_decrypt(
                utxo@.credited_address,
            ) is None,
            r matches Err(AddressLookupError::RandomIndexCannotReconstructAddress(a)) ==> (old(
                self,
            ).scheme.spec_decrypt(utxo@.credited_address) matches Some(p) && a@ == old(
                self,
            ).scheme.spec_address_of(p)),
            r matches Ok(Some(u)) ==> (old(self).scheme.spec_decrypt(utxo@.credited_address)
                matches Some(p) && u@.credited_addressing == AddressV::RIndex(p) && old(
                self,
            ).scheme.spec_address_of(p) == utxo@.credited_address),
    {
        match self.scheme.try_get_addressing(&utxo.credited_address) {
            None => Ok(None),
            Some(addressing) => {
                let address = self.scheme.reconstruct_address(addressing);
                if !bytes_eq(&address, &utxo.credited_address) {
                    Err(AddressLookupError::RandomIndexCannotReconstructAddress(address))
                } else {
                    Ok(Some(utxo.map(Address::RIndex(addressing))))
                }
            },
        }
    }

    /// There is nothing to acknowledge: the addresses describe themselves
    /// and the engine keeps no bookkeeping. Always succeeds, changing
    /// nothing.
    fn acknowledge(&mut self, address: Address) -> (r: Result<(), AddressLookupError>)
        ensures
            r is Ok,
            *final(self) == *old(self),
    {
        Ok(())
    }
}

} // verus!
