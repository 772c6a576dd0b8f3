//! The operations a staging transaction is built from, and their binary
//! records.
//!
//! A staging transaction is event-sourced: the canonical state is the
//! sequence of operations appended to its file, and the in-memory
//! transaction is a fold over them. Each operation is stored as one
//! record: a one-byte tag followed by the operation's fields.

use vstd::bytes::{spec_u32_to_le_bytes, spec_u64_to_le_bytes};
use vstd::prelude::*;

use crate::bytes::{copy_bytes, push_bytes, read_bytes, read_u32_at, read_u64_at, write_u32, write_u64};
use crate::coin::{Coin, MAX_COIN};
use crate::ptr::HASH_SIZE;
use crate::utxo::{TxoPointer, TxoPointerV};

verus! {

/// Mathematical value of an [`Input`].
pub ghost struct InputV {
    pub transaction_id: Seq<u8>,
    pub index_in_transaction: u32,
    pub expected_value: u64,
}

/// An input of the transaction under construction: the output it spends
/// and the value that output is expected to carry.
#[derive(Clone, Debug, PartialEq, Eq)]
pub struct Input {
    pub transaction_id: Vec<u8>,
    pub index_in_transaction: u32,
    pub expected_value: Coin,
}

impl View for Input {
    type V = InputV;

    open spec fn view(&self) -> InputV {
        InputV {
            transaction_id: self.transaction_id@,
            index_in_transaction: self.index_in_transaction,
            expected_value: self.expected_value.value,
        }
    }
}

impl InputV {
    /// The pointer to the output this input spends.
    pub open spec fn spec_txin(self) -> TxoPointerV {
        TxoPointerV { id: self.transaction_id, index: self.index_in_transaction }
    }
}

impl Input {
    /// An input is well formed when it points at a hash-sized transaction
    /// id and expects a coin amount in its domain.
    pub open spec fn wf(self) -> bool {
        self.transaction_id@.len() == HASH_SIZE && self.expected_value.value <= MAX_COIN
    }

    /// The pointer to the output this input spends.
    pub fn extract_txin(&self) -> (r: TxoPointer)
        ensures
            r@ == self@.spec_txin(),
    {
        TxoPointer { id: copy_bytes(&self.transaction_id), index: self.index_in_transaction }
    }

    /// Copies the input.
    pub fn duplicate(&self) -> (r: Input)
        ensures
            r@ == self@,
    {
        Input {
            transaction_id: copy_bytes(&self.transaction_id),
            index_in_transaction: self.index_in_transaction,
            expected_value: self.expected_value,
        }
    }
}

/// Mathematical value of an [`Output`].
pub ghost struct OutputV {
    pub address: Seq<u8>,
    pub amount: u64,
}

/// An output of the transaction under construction: a raw destination
/// address and the amount sent to it.
#[derive(Clone, Debug, PartialEq, Eq)]
pub struct Output {
    pub address: Vec<u8>,
    pub amount: Coin,
}

impl View for Output {
    type V = OutputV;

    open spec fn view(&self) -> OutputV {
        OutputV { address: self.address@, amount: self.amount.value }
    }
}

impl Output {
    /// An output is well formed when its amount is in the coin domain.
    pub open spec fn wf(self) -> bool {
        self.amount.value <= MAX_COIN
    }

    /// Copies the output.
    pub fn duplicate(&self) -> (r: Output)
        ensures
            r@ == self@,
    {
        Output { address: copy_bytes(&self.address), amount: self.amount }
    }
}

/// Mathematical value of a [`Change`].
pub ghost struct ChangeV {
    pub address: Seq<u8>,
}

/// A change address of the transaction under construction: leftover value
/// returns there.
#[derive(Clone, Debug, PartialEq, Eq)]
pub struct Change {
    pub address: Vec<u8>,
}

impl View for Change {
    type V = ChangeV;

    open spec fn view(&self) -> ChangeV {
        ChangeV { address: self.address@ }
    }
}

impl Change {
    /// Copies the change address.
    pub fn duplicate(&self) -> (r: Change)
        ensures
            r@ == self@,
    {
        Change { address: copy_bytes(&self.address) }
    }
}

/// A witness over the finalized transaction. The signature scheme lives
/// outside the library, so the witness is carried as its plain bytes.
#[derive(Clone, Debug, PartialEq, Eq)]
pub struct TxInWitness {
    pub bytes: Vec<u8>,
}

impl View for TxInWitness {
    type V = Seq<u8>;

    open spec fn view(&self) -> Seq<u8> {
        self.bytes@
    }
}

impl TxInWitness {
    /// Copies the witness.
    pub fn duplicate(&self) -> (r: TxInWitness)
        ensures
            r@ == self@,
    {
        TxInWitness { bytes: copy_bytes(&self.bytes) }
    }
}

/// Mathematical value of an [`Operation`].
pub ghost enum OperationV {
    AddInput(InputV),
    AddOutput(OutputV),
    AddChange(ChangeV),
    RemoveInput(TxoPointerV),
    RemoveOutput(u32),
    RemoveChange(Seq<u8>),
    Signature(Seq<u8>),
    Finalize,
}

/// One recorded edit of a staging transaction.
#[derive(Clone, Debug, PartialEq, Eq)]
pub enum Operation {
    AddInput(Input),
    AddOutput(Output),
    AddChange(Change),
    RemoveInput(TxoPointer),
    RemoveOutput(u32),
    RemoveChange(Vec<u8>),
    Signature(TxInWitness),
    Finalize,
}

impl View for Operation {
    type V = OperationV;

    open spec fn view(&self) -> OperationV {
        match self {
            Operation::AddInput(x) => OperationV::AddInput(x@),
            Operation::AddOutput(x) => OperationV::AddOutput(x@),
            Operation::AddChange(x) => OperationV::AddChange(x@),
            Operation::RemoveInput(x) => OperationV::RemoveInput(x@),
            Operation::RemoveOutput(x) => OperationV::RemoveOutput(*x),
            Operation::RemoveChange(x) => OperationV::RemoveChange(x@),
            Operation::Signature(x) => OperationV::Signature(x@),
            Operation::Finalize => OperationV::Finalize,
        }
    }
}

impl Operation {
    /// An operation is well formed when its fields are.
    pub open spec fn wf(self) -> bool {
        match self {
            Operation::AddInput(x) => x.wf(),
            Operation::AddOutput(x) => x.wf(),
            Operation::RemoveInput(x) => x.wf(),
            _ => true,
        }
    }

    /// Copies the operation.
    pub fn duplicate(&self) -> (r: Operation)
        ensures
            r@ == self@,
            r.wf() == self.wf(),
    {
        match self {
            Operation::AddInput(x) => Operation::AddInput(x.duplicate()),
            Operation::AddOutput(x) => Operation::AddOutput(x.duplicate()),
            Operation::AddChange(x) => Operation::AddChange(x.duplicate()),
            Operation::RemoveInput(x) => Operation::RemoveInput(
                TxoPointer { id: copy_bytes(&x.id), index: x.index },
            ),
            Operation::RemoveOutput(x) => Operation::RemoveOutput(*x),
            Operation::RemoveChange(x) => Operation::RemoveChange(copy_bytes(x)),
            Operation::Signature(x) => Operation::Signature(x.duplicate()),
            Operation::Finalize => Operation::Finalize,
        }
    }
}


/// The value-level well-formedness of an operation: hash-sized ids and
/// coin amounts in their domain.
pub open spec fn spec_op_wf_v(op: OperationV) -> bool {
    match op {
        OperationV::AddInput(x) => x.transaction_id.len() == HASH_SIZE && x.expected_value
            <= MAX_COIN,
        OperationV::AddOutput(x) => x.amount <= MAX_COIN,
        OperationV::RemoveInput(k) => k.id.len() == HASH_SIZE,
        _ => true,
    }
}

/// The shape of each operation's record: its tag byte, its length, and
/// where its fields stand.
proof fn lemma_op_record_shape(op: OperationV)
    ensures
        spec_serialize_operation(op).len() >= 1,
        op matches OperationV::AddInput(x) ==> ({
            let b = spec_serialize_operation(op);
            b[0] == 0 && b.len() == 45 + x.transaction_id.len() - 32 && (x.transaction_id.len()
                == 32 ==> b.subrange(37, 45) == vstd::bytes::spec_u64_to_le_bytes(
                x.expected_value,
            ))
        }),
        op matches OperationV::AddOutput(x) ==> ({
            let b = spec_serialize_operation(op);
            b[0] == 1 && b.len() == 17 + x.address.len() && b.subrange(1, 9)
                == vstd::bytes::spec_u64_to_le_bytes(x.address.len() as u64) && b.subrange(
                b.len() - 8,
                b.len() as int,
            ) == vstd::bytes::spec_u64_to_le_bytes(x.amount)
        }),
        op matches OperationV::AddChange(x) ==> ({
            let b = spec_serialize_operation(op);
            b[0] == 2 && b.len() == 9 + x.address.len() && b.subrange(1, 9)
                == vstd::bytes::spec_u64_to_le_bytes(x.address.len() as u64)
        }),
        op matches OperationV::RemoveInput(k) ==> ({
            let b = spec_serialize_operation(op);
            b[0] == 3 && b.len() == 5 + k.id.len()
        }),
        op matches OperationV::RemoveOutput(_) ==> spec_serialize_operation(op)[0] == 4
            && spec_serialize_operation(op).len() == 5,
        op matches OperationV::RemoveChange(x) ==> ({
            let b = spec_serialize_operation(op);
            b[0] == 5 && b.len() == 9 + x.len() && b.subrange(1, 9)
                == vstd::bytes::spec_u64_to_le_bytes(x.len() as u64)
        }),
        op matches OperationV::Signature(x) ==> ({
            let b = spec_serialize_operation(op);
            b[0] == 6 && b.len() == 9 + x.len() && b.subrange(1, 9)
                == vstd::bytes::spec_u64_to_le_bytes(x.len() as u64)
        }),
        op is Finalize ==> spec_serialize_operation(op)[0] == 7 && spec_serialize_operation(
            op,
        ).len() == 1,
{
    vstd::bytes::lemma_auto_spec_u64_to_from_le_bytes();
    vstd::bytes::lemma_auto_spec_u32_to_from_le_bytes();
    let b = spec_serialize_operation(op);
    match op {
        OperationV::AddInput(x) => {
            assert(vstd::bytes::spec_u32_to_le_bytes(x.index_in_transaction).len() == 4);
            assert(vstd::bytes::spec_u64_to_le_bytes(x.expected_value).len() == 8);
            if x.transaction_id.len() == 32 {
                assert(b.subrange(37, 45) =~= vstd::bytes::spec_u64_to_le_bytes(
                    x.expected_value,
                ));
            }
        },
        OperationV::AddOutput(x) => {
            assert(vstd::bytes::spec_u64_to_le_bytes((x.address.len() as u64)).len() == 8);
            assert(vstd::bytes::spec_u64_to_le_bytes(x.amount).len() == 8);
            assert(b.subrange(1, 9) =~= vstd::bytes::spec_u64_to_le_bytes(
                x.address.len() as u64,
            ));
            assert(b.subrange(b.len() - 8, b.len() as int) =~= vstd::bytes::spec_u64_to_le_bytes(
                x.amount,
            ));
        },
        OperationV::AddChange(x) => {
            assert(vstd::bytes::spec_u64_to_le_bytes((x.address.len() as u64)).len() == 8);
            assert(b.subrange(1, 9) =~= vstd::bytes::spec_u64_to_le_bytes(
                x.address.len() as u64,
            ));
        },
        OperationV::RemoveInput(k) => {
            assert(vstd::bytes::spec_u32_to_le_bytes(k.index).len() == 4);
        },
        OperationV::RemoveOutput(i) => {
            assert(vstd::bytes::spec_u32_to_le_bytes(i).len() == 4);
        },
        OperationV::RemoveChange(x) => {
            assert(vstd::bytes::spec_u64_to_le_bytes((x.len() as u64)).len() == 8);
            assert(b.subrange(1, 9) =~= vstd::bytes::spec_u64_to_le_bytes(x.len() as u64));
        },
        OperationV::Signature(x) => {
            assert(vstd::bytes::spec_u64_to_le_bytes((x.len() as u64)).len() == 8);
            assert(b.subrange(1, 9) =~= vstd::bytes::spec_u64_to_le_bytes(x.len() as u64));
        },
        OperationV::Finalize => {},
    }
}

/// The binary record of one operation.
pub open spec fn spec_serialize_operation(op: OperationV) -> Seq<u8> {
    match op {
        OperationV::AddInput(x) => seq![0u8] + x.transaction_id + spec_u32_to_le_bytes(
            x.index_in_transaction,
        ) + spec_u64_to_le_bytes(x.expected_value),
        OperationV::AddOutput(x) => seq![1u8] + spec_u64_to_le_bytes(x.address.len() as u64)
            + x.address + spec_u64_to_le_bytes(x.amount),
        OperationV::AddChange(x) => seq![2u8] + spec_u64_to_le_bytes(x.address.len() as u64)
            + x.address,
        OperationV::RemoveInput(x) => seq![3u8] + x.id + spec_u32_to_le_bytes(x.index),
        OperationV::RemoveOutput(x) => seq![4u8] + spec_u32_to_le_bytes(x),
        OperationV::RemoveChange(x) => seq![5u8] + spec_u64_to_le_bytes(x.len() as u64) + x,
        OperationV::Signature(x) => seq![6u8] + spec_u64_to_le_bytes(x.len() as u64) + x,
        OperationV::Finalize => seq![7u8],
    }
}

impl Operation {
    /// Writes the operation down as one binary record.
    pub fn serialize(&self) -> (r: Vec<u8>)
        requires
            self.wf(),
        ensures
            r@ == spec_serialize_operation(self@),
    {
        let mut out: Vec<u8> = Vec::new();
        match self {
            Operation::AddInput(x) => {
                out.push(0u8);
                push_bytes(&mut out, &x.transaction_id);
                write_u32(&mut out, x.index_in_transaction);
                write_u64(&mut out, x.expected_value.value);
            },
            Operation::AddOutput(x) => {
                out.push(1u8);
                write_u64(&mut out, x.address.len() as u64);
                push_bytes(&mut out, &x.address);
                write_u64(&mut out, x.amount.value);
            },
            Operation::AddChange(x) => {
                out.push(2u8);
                write_u64(&mut out, x.address.len() as u64);
                push_bytes(&mut out, &x.address);
            },
            Operation::RemoveInput(x) => {
                out.push(3u8);
                push_bytes(&mut out, &x.id);
                write_u32(&mut out, x.index);
            },
            Operation::RemoveOutput(x) => {
                out.push(4u8);
                write_u32(&mut out, *x);
            },
            Operation::RemoveChange(x) => {
                out.push(5u8);
                write_u64(&mut out, x.len() as u64);
                push_bytes(&mut out, x);
            },
            Operation::Signature(x) => {
                out.push(6u8);
                write_u64(&mut out, x.bytes.len() as u64);
                push_bytes(&mut out, &x.bytes);
            },
            Operation::Finalize => {
                out.push(7u8);
            },
        }
        proof {
            assert(out@ =~= spec_serialize_operation(self@));
        }
        out
    }

    /// Reads one binary record back. A successful read returns a well
    /// formed operation whose record is exactly the given bytes, and the
    /// read succeeds on every well-formed operation's record: recovery
    /// never rejects what the mutators wrote.
    pub fn deserialize(bytes: &Vec<u8>) -> (r: Option<Operation>)
        ensures
            r matches Some(op) ==> op.wf() && spec_serialize_operation(op@) == bytes@,
            bytes@.len() == 0 ==> r is None,
            forall|op: OperationV|
                (spec_op_wf_v(op) && bytes@ == #[trigger] spec_serialize_operation(op)) ==> r
                    is Some,
    {
        let n = bytes.len();
        if n == 0 {
            proof {
                lemma_record_shapes(bytes@);
            }
            return None;
        }
        let tag = bytes[0];
        if tag == 0 {
            if n != 45 {
                proof {
                    lemma_record_shapes(bytes@);
                }
                return None;
            }
            let txid = read_bytes(bytes, 1, 32);
            let index = read_u32_at(bytes, 33);
            let value = read_u64_at(bytes, 37);
            if value > MAX_COIN {
                proof {
                    lemma_record_shapes(bytes@);
                }
                return None;
            }
            let op = Operation::AddInput(
                Input {
                    transaction_id: txid,
                    index_in_transaction: index,
                    expected_value: Coin { value },
                },
            );
            proof {
                assert(spec_serialize_operation(op@) =~= bytes@);
            }
            Some(op)
        } else if tag == 1 {
            if n < 17 {
                proof {
                    lemma_record_shapes(bytes@);
                }
                return None;
            }
            let len64 = read_u64_at(bytes, 1);
            if len64 != (n - 17) as u64 {
                proof {
                    lemma_record_shapes(bytes@);
                }
                return None;
            }
            let addr = read_bytes(bytes, 9, n - 17);
            let amount = read_u64_at(bytes, n - 8);
            if amount > MAX_COIN {
                proof {
                    lemma_record_shapes(bytes@);
                }
                return None;
            }
            let op = Operation::AddOutput(Output { address: addr, amount: Coin { value: amount } });
            proof {
                assert(spec_serialize_operation(op@) =~= bytes@);
            }
            Some(op)
        } else if tag == 2 {
            if n < 9 {
                proof {
                    lemma_record_shapes(bytes@);
                }
                return None;
            }
            let len64 = read_u64_at(bytes, 1);
            if len64 != (n - 9) as u64 {
                proof {
                    lemma_record_shapes(bytes@);
                }
                return None;
            }
            let addr = read_bytes(bytes, 9, n - 9);
            let op = Operation::AddChange(Change { address: addr });
            proof {
                assert(spec_serialize_operation(op@) =~= bytes@);
            }
            Some(op)
        } else if tag == 3 {
            if n != 37 {
                proof {
                    lemma_record_shapes(bytes@);
                }
                return None;
            }
            let txid = read_bytes(bytes, 1, 32);
            let index = read_u32_at(bytes, 33);
            let op = Operation::RemoveInput(TxoPointer { id: txid, index });
            proof {
                assert(spec_serialize_operation(op@) =~= bytes@);
            }
            Some(op)
        } else if tag == 4 {
            if n != 5 {
                proof {
                    lemma_record_shapes(bytes@);
                }
                return None;
            }
            let index = read_u32_at(bytes, 1);
            let op = Operation::RemoveOutput(index);
            proof {
                assert(spec_serialize_operation(op@) =~= bytes@);
            }
            Some(op)
        } else if tag == 5 {
            if n < 9 {
                proof {
                    lemma_record_shapes(bytes@);
                }
                return None;
            }
            let len64 = read_u64_at(bytes, 1);
            if len64 != (n - 9) as u64 {
                proof {
                    lemma_record_shapes(bytes@);
                }
                return None;
            }
            let addr = read_bytes(bytes, 9, n - 9);
            let op = Operation::RemoveChange(addr);
            proof {
                assert(spec_serialize_operation(op@) =~= bytes@);
            }
            Some(op)
        } else if tag == 6 {
            if n < 9 {
                proof {
                    lemma_record_shapes(bytes@);
                }
                return None;
            }
            let len64 = read_u64_at(bytes, 1);
            if len64 != (n - 9) as u64 {
                proof {
                    lemma_record_shapes(bytes@);
                }
                return None;
            }
            let sig = read_bytes(bytes, 9, n - 9);
            let op = Operation::Signature(TxInWitness { bytes: sig });
            proof {
                assert(spec_serialize_operation(op@) =~= bytes@);
            }
            Some(op)
        } else if tag == 7 {
            if n != 1 {
                proof {
                    lemma_record_shapes(bytes@);
                }
                return None;
            }
            let op = Operation::Finalize;
            proof {
                assert(spec_serialize_operation(op@) =~= bytes@);
            }
            Some(op)
        } else {
            proof {
                lemma_record_shapes(bytes@);
            }
            None
        }
    }
}

/// What any well-formed operation's record looks like from the outside:
/// the tag byte, the length, and the recorded length and amount fields
/// agreeing with the record. A rejecting path of the decoder holds facts
/// that contradict this, so no well-formed record was rejected.
spec fn spec_record_plausible(bytes: Seq<u8>) -> bool {
    &&& bytes.len() >= 1
    &&& bytes[0] <= 7
    &&& (bytes[0] == 0 ==> bytes.len() == 45 && vstd::bytes::spec_u64_from_le_bytes(
        bytes.subrange(37, 45),
    ) <= MAX_COIN)
    &&& (bytes[0] == 1 ==> bytes.len() >= 17 && vstd::bytes::spec_u64_from_le_bytes(
        bytes.subrange(1, 9),
    ) == bytes.len() - 17 && vstd::bytes::spec_u64_from_le_bytes(
        bytes.subrange(bytes.len() - 8, bytes.len() as int),
    ) <= MAX_COIN)
    &&& (bytes[0] == 2 ==> bytes.len() >= 9 && vstd::bytes::spec_u64_from_le_bytes(
        bytes.subrange(1, 9),
    ) == bytes.len() - 9)
    &&& (bytes[0] == 3 ==> bytes.len() == 37)
    &&& (bytes[0] == 4 ==> bytes.len() == 5)
    &&& (bytes[0] == 5 ==> bytes.len() >= 9 && vstd::bytes::spec_u64_from_le_bytes(
        bytes.subrange(1, 9),
    ) == bytes.len() - 9)
    &&& (bytes[0] == 6 ==> bytes.len() >= 9 && vstd::bytes::spec_u64_from_le_bytes(
        bytes.subrange(1, 9),
    ) == bytes.len() - 9)
    &&& (bytes[0] == 7 ==> bytes.len() == 1)
}

/// Every well-formed operation's record is plausible.
proof fn lemma_record_shapes(bytes: Seq<u8>)
    requires
        bytes.len() <= u64::MAX,
    ensures
        forall|op: OperationV|
            (spec_op_wf_v(op) && bytes == #[trigger] spec_serialize_operation(op))
                ==> spec_record_plausible(bytes),
{
    vstd::bytes::lemma_auto_spec_u64_to_from_le_bytes();
    assert forall|op: OperationV|
        (spec_op_wf_v(op) && bytes == #[trigger] spec_serialize_operation(op))
            implies spec_record_plausible(bytes) by {
        lemma_op_record_shape(op);
    }
}

} // verus!
