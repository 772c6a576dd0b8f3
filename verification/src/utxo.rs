//! Unspent transaction outputs.

use vstd::prelude::*;

use crate::coin::{Coin, MAX_COIN};
use crate::ptr::HASH_SIZE;

verus! {

/// Mathematical value of a [`TxoPointer`].
pub ghost struct TxoPointerV {
    pub id: Seq<u8>,
    pub index: u32,
}

/// Points at one output of a transaction: the transaction identifier and
/// the output's position in it.
#[derive(Clone, Debug, PartialEq, Eq)]
pub struct TxoPointer {
    pub id: Vec<u8>,
    pub index: u32,
}

impl View for TxoPointer {
    type V = TxoPointerV;

    open spec fn view(&self) -> TxoPointerV {
        TxoPointerV { id: self.id@, index: self.index }
    }
}

impl TxoPointer {
    /// A pointer is well formed when its transaction id has the expected
    /// hash size.
    pub open spec fn wf(self) -> bool {
        self.id@.len() == HASH_SIZE
    }

    /// Tells whether two pointers name the same transaction output.
    pub fn same_as(&self, other: &TxoPointer) -> (r: bool)
        ensures
            r == (self@ == other@),
    {
        let r = self.index == other.index && crate::bytes::bytes_eq(&self.id, &other.id);
        proof {
            if r {
                assert(self@.id =~= other@.id);
            }
        }
        r
    }
}

/// Mathematical value of a [`UTxO`].
pub ghost struct UTxOV<AV> {
    pub transaction_id: Seq<u8>,
    pub index_in_transaction: u32,
    pub credited_address: Seq<u8>,
    pub credited_addressing: AV,
    pub credited_value: u64,
}

/// A spendable output credited to the wallet: where it comes from, the raw
/// address it was credited to, how that address was derived, and its value.
/// Generic over the addressing representation, so the same record serves
/// raw chain outputs and outputs resolved to a wallet derivation path.
#[derive(Clone, Debug, PartialEq, Eq)]
pub struct UTxO<A> {
    pub transaction_id: Vec<u8>,
    pub index_in_transaction: u32,
    pub credited_address: Vec<u8>,
    pub credited_addressing: A,
    pub credited_value: Coin,
}

impl<A: View> View for UTxO<A> {
    type V = UTxOV<A::V>;

    open spec fn view(&self) -> UTxOV<A::V> {
        UTxOV {
            transaction_id: self.transaction_id@,
            index_in_transaction: self.index_in_transaction,
            credited_address: self.credited_address@,
            credited_addressing: self.credited_addressing@,
            credited_value: self.credited_value.value,
        }
    }
}

impl<A: View> UTxO<A> {
    /// A record is well formed when its transaction id is a hash and its
    /// value is a well-formed coin amount.
    pub open spec fn wf(self) -> bool {
        &&& self.transaction_id@.len() == HASH_SIZE
        &&& self.credited_value.value <= MAX_COIN
    }

    /// The pointer to the transaction output this record stands for.
    pub fn extract_txin(&self) -> (r: TxoPointer)
        ensures
            r@ == self@.spec_txin(),
    {
        TxoPointer { id: self.transaction_id.clone(), index: self.index_in_transaction }
    }
}

impl<AV> UTxOV<AV> {
    /// The pointer to the transaction output this record stands for.
    pub open spec fn spec_txin(self) -> TxoPointerV {
        TxoPointerV { id: self.transaction_id, index: self.index_in_transaction }
    }
}

impl<A> UTxO<A> {
    /// Replaces the addressing of the record, keeping everything else.
    pub fn map<U>(self, addressing: U) -> (r: UTxO<U>)
        ensures
            r.transaction_id == self.transaction_id,
            r.index_in_transaction == self.index_in_transaction,
            r.credited_address == self.credited_address,
            r.credited_addressing == addressing,
            r.credited_value == self.credited_value,
    {
        UTxO {
            transaction_id: self.transaction_id,
            index_in_transaction: self.index_in_transaction,
            credited_address: self.credited_address,
            credited_addressing: addressing,
            credited_value: self.credited_value,
        }
    }
}

} // verus!
