//! The address lookup capability.
//!
//! A lookup engine classifies raw output addresses: it recognizes the ones
//! the wallet can spend and resolves them to the derivation path that made
//! them. It never touches the wallet's funds itself.

use vstd::prelude::*;

use crate::address::{Address, AddressV};
use crate::bytes::copy_bytes;
use crate::utxo::UTxO;

verus! {

/// Errors an address lookup engine can report.
#[derive(Clone, Debug, PartialEq, Eq)]
pub enum AddressLookupError {
    /// The sequential engine was asked to acknowledge an addressing that
    /// is not a BIP44-style path.
    SequentialNotABip44Address,
    /// A path index of the sequential engine would leave its domain.
    SequentialIndexOutOfBound,
    /// The randomized engine decrypted a path whose re-derived address,
    /// carried here, does not match the credited address: a broken
    /// invariant, not a miss.
    RandomIndexCannotReconstructAddress(Vec<u8>),
}

/// The capability the wallet state reconstruction needs: recognizing raw
/// output addresses and acknowledging derivation paths seen in the log.
pub trait AddressLookup: Sized {
    /// The engine's own invariant.
    spec fn wf(&self) -> bool;

    /// Whether acknowledging this addressing succeeds on this engine
    /// state.
    spec fn ack_ok(&self, addressing: AddressV) -> bool;

    /// How this engine state classifies a raw credited address: the
    /// resolved addressing when the address is the wallet's, nothing when
    /// it is not.
    spec fn spec_classify(&self, addr: Seq<u8>) -> Option<AddressV>;

    /// Whether classifying this address succeeds on this engine state; a
    /// failure is a fatal error of the engine, never a miss.
    spec fn spec_lookup_ok(&self, addr: Seq<u8>) -> bool;

    /// Classifies the credited address of a raw output, exactly as
    /// [`AddressLookup::spec_classify`] says: a recognized output keeps
    /// everything but its addressing, which is resolved to the derivation
    /// path; an unrecognized one is answered with `None`. Fails exactly
    /// when the engine cannot classify the address, and then leaves the
    /// engine as it was.
    fn lookup(&mut self, utxo: UTxO<Vec<u8>>) -> (r: Result<
        Option<UTxO<Address>>,
        AddressLookupError,
    >)
        requires
            old(self).wf(),
            utxo.wf(),
        ensures
            final(self).wf(),
            r is Err <==> !old(self).spec_lookup_ok(utxo@.credited_address),
            r is Err ==> *final(self) == *old(self),
            r matches Ok(opt) ==> (opt is Some <==> old(self).spec_classify(
                utxo@.credited_address,
            ) is Some),
            r matches Ok(Some(u)) ==> {
                &&& u.wf()
                &&& u@.transaction_id == utxo@.transaction_id
                &&& u@.index_in_transaction == utxo@.index_in_transaction
                &&& u@.credited_address == utxo@.credited_address
                &&& u@.credited_value == utxo@.credited_value
                &&& u@.credited_addressing == old(self).spec_classify(
                    utxo@.credited_address,
                ).unwrap()
            },
    ;

    /// Lets the engine update its own bookkeeping for a derivation path
    /// recognized as used. Fails exactly when the engine cannot take the
    /// addressing, and then leaves the engine as it was.
    fn acknowledge(&mut self, address: Address) -> (r: Result<(), AddressLookupError>)
        requires
            old(self).wf(),
        ensures
            final(self).wf(),
            r is Ok <==> old(self).ack_ok(address@),
            r is Err ==> *final(self) == *old(self),
    ;
}

/// A lookup engine that recognizes every output as its own raw address.
/// It is used to accumulate the funds of every wallet log without any
/// cryptographic context.
#[derive(Debug)]
pub struct Accum();

impl Default for Accum {
    /// The engine has no state to set up.
    fn default() -> (r: Accum)
        ensures
            r.wf(),
    {
        Accum()
    }
}

impl AddressLookup for Accum {
    /// The engine carries no state, so nothing can break.
    open spec fn wf(&self) -> bool {
        true
    }

    /// Acknowledging never fails.
    open spec fn ack_ok(&self, addressing: AddressV) -> bool {
        true
    }

    /// Every address is its own addressing.
    open spec fn spec_classify(&self, addr: Seq<u8>) -> Option<AddressV> {
        Some(AddressV::Raw(addr))
    }

    /// Classifying never fails.
    open spec fn spec_lookup_ok(&self, addr: Seq<u8>) -> bool {
        true
    }

    /// Recognizes every output, keeping its raw address as addressing.
    /// Never fails, and the engine has no state to change.
    fn lookup(&mut self, utxo: UTxO<Vec<u8>>) -> (r: Result<
        Option<UTxO<Address>>,
        AddressLookupError,
    >)
        ensures
            r is Ok,
            *final(self) == *old(self),
    {
        let raw = copy_bytes(&utxo.credited_address);
        Ok(Some(utxo.map(Address::Raw(raw))))
    }

    /// There is nothing to acknowledge: addresses of the accumulating
    /// engine describe themselves. Always succeeds, changing nothing.
    fn acknowledge(&mut self, address: Address) -> (r: Result<(), AddressLookupError>)
        ensures
            r is Ok,
            *final(self) == *old(self),
    {
        Ok(())
    }
}

} // verus!
