//! The staging transaction: a crash-safe, operation-sourced editor.
//!
//! The canonical state of a staging transaction is the sequence of
//! operations in its file; the in-memory transaction is a fold over them,
//! and that fold is this type's invariant: replaying the recorded
//! operations from the empty transaction always reproduces the live one.
//! Each mutator validates its operation against the current transaction,
//! applies it, records it, and hands back the operation's binary record
//! for the caller to append to the file; a rejected operation changes
//! nothing and records nothing.

use vstd::prelude::*;

use crate::transaction::{spec_apply_operation, Transaction, TransactionError, TransactionV};
use crate::txop::{Change, Input, Operation, OperationV, Output, TxInWitness};
use crate::utxo::TxoPointer;

verus! {

/// The identifier of a staging transaction.
#[derive(Clone, Copy, Debug, PartialEq, Eq, Structural)]
pub struct StagingId {
    pub value: u64,
}

impl StagingId {
    /// Wraps an identifier value.
    pub fn new(value: u64) -> (r: StagingId)
        ensures
            r.value == value,
    {
        StagingId { value }
    }

    /// Draws a fresh identifier. The value is random, so nothing is
    /// promised of it.
    pub fn generate() -> StagingId {
        StagingId { value: random_u64() }
    }
}

/// Relies on `rand::random` for a fresh value; the result is random, so
/// nothing is promised of it.
#[verifier::external_body]
fn random_u64() -> u64 {
    rand::random::<u64>()
}

/// The views of a sequence of operations.
pub open spec fn spec_op_views(s: Seq<Operation>) -> Seq<OperationV> {
    Seq::new(s.len(), |i: int| s[i]@)
}

/// The transaction that replaying the operations from the empty one leaves
/// behind; `None` when some operation is rejected along the way. A file
/// written through the mutators only holds accepted operations, so its
/// replay never rejects.
pub open spec fn spec_replay_ops(ops: Seq<OperationV>) -> Option<TransactionV>
    decreases ops.len(),
{
    if ops.len() == 0 {
        Some(TransactionV::spec_empty())
    } else {
        match spec_replay_ops(ops.drop_last()) {
            None => None,
            Some(t) => {
                match spec_apply_operation(t, ops.last()) {
                    Ok(t2) => Some(t2),
                    Err(_) => None,
                }
            },
        }
    }
}

/// Replay reproduces live mutation: any accepted operation extends the
/// replay of the record by exactly the transaction it produced, so the
/// fold over a staging transaction's recorded operations is deterministic
/// and equals its live transaction.
pub proof fn lemma_replay_extends(ops: Seq<OperationV>, t: TransactionV, op: OperationV, t2: TransactionV)
    requires
        spec_replay_ops(ops) == Some(t),
        spec_apply_operation(t, op) == Ok::<TransactionV, TransactionError>(t2),
    ensures
        spec_replay_ops(ops.push(op)) == Some(t2),
{
    assert(ops.push(op).drop_last() =~= ops);
    assert(ops.push(op).last() == op);
}

/// The magic bytes that open every staging transaction file: the letters
/// `TRANSACTION_V1`.
pub fn staging_file_magic() -> (r: Vec<u8>)
    ensures
        r@ == seq![
            0x54u8, 0x52u8, 0x41u8, 0x4Eu8, 0x53u8, 0x41u8, 0x43u8, 0x54u8, 0x49u8, 0x4Fu8,
            0x4Eu8, 0x5Fu8, 0x56u8, 0x31u8,
        ],
{
    let mut v: Vec<u8> = Vec::new();
    v.push(0x54u8);
    v.push(0x52u8);
    v.push(0x41u8);
    v.push(0x4Eu8);
    v.push(0x53u8);
    v.push(0x41u8);
    v.push(0x43u8);
    v.push(0x54u8);
    v.push(0x49u8);
    v.push(0x4Fu8);
    v.push(0x4Eu8);
    v.push(0x5Fu8);
    v.push(0x56u8);
    v.push(0x31u8);
    proof {
        assert(v@ =~= seq![
            0x54u8, 0x52u8, 0x41u8, 0x4Eu8, 0x53u8, 0x41u8, 0x43u8, 0x54u8, 0x49u8, 0x4Fu8,
            0x4Eu8, 0x5Fu8, 0x56u8, 0x31u8,
        ]);
    }
    v
}

/// Errors of reading a staging transaction back from its records.
#[derive(Clone, Debug, PartialEq, Eq)]
pub enum StagingError {
    /// A record could not be decoded as an operation.
    InvalidOperationRecord,
    /// A recorded operation was rejected during replay: the file was not
    /// written through the mutators, or it is corrupted.
    InvalidOperationSequence(TransactionError),
}

/// A transaction being edited locally: its identifier, the protocol magic
/// of the chain it is meant for, the operations applied so far, and the
/// transaction they fold to.
#[derive(Debug)]
pub struct StagingTransaction {
    pub id: StagingId,
    pub protocol_magic: u32,
    pub operations: Vec<Operation>,
    pub transaction: Transaction,
}

impl StagingTransaction {
    /// The event-sourcing invariant: the live transaction is the fold of
    /// the recorded operations over the empty one.
    pub open spec fn wf(self) -> bool {
        &&& self.transaction.wf()
        &&& (forall|i: int|
            0 <= i < self.operations@.len() ==> (#[trigger] self.operations@[i]).wf())
        &&& spec_replay_ops(spec_op_views(self.operations@)) == Some(self.transaction@)
    }

    /// An empty staging transaction under the given identifier.
    pub fn new(id: StagingId, protocol_magic: u32) -> (r: StagingTransaction)
        ensures
            r.wf(),
            r.id == id,
            r.protocol_magic == protocol_magic,
            r.operations@.len() == 0,
            r.transaction@ == TransactionV::spec_empty(),
    {
        let r = StagingTransaction {
            id,
            protocol_magic,
            operations: Vec::new(),
            transaction: Transaction::new(),
        };
        proof {
            assert(spec_op_views(r.operations@) =~= Seq::<OperationV>::empty());
        }
        r
    }

    /// Rebuilds a staging transaction by replaying recovered operations in
    /// order; an operation that the fold rejects means the records were
    /// not produced by the mutators, and is reported with the rejection.
    pub fn from_operations(id: StagingId, protocol_magic: u32, ops: Vec<Operation>) -> (r: Result<
        StagingTransaction,
        StagingError,
    >)
        requires
            forall|i: int| 0 <= i < ops@.len() ==> (#[trigger] ops@[i]).wf(),
        ensures
            r matches Ok(st) ==> {
                &&& st.wf()
                &&& st.id == id
                &&& st.protocol_magic == protocol_magic
                &&& spec_op_views(st.operations@) == spec_op_views(ops@)
                &&& spec_replay_ops(spec_op_views(ops@)) == Some(st.transaction@)
            },
            r is Err ==> spec_replay_ops(spec_op_views(ops@)) is None,
            spec_replay_ops(spec_op_views(ops@)) is Some ==> r is Ok,
    {
        let ghost views = spec_op_views(ops@);
        let mut st = StagingTransaction::new(id, protocol_magic);
        let n = ops.len();
        let mut i: usize = 0;
        while i < n
            invariant
                i <= n,
                n == ops@.len(),
                views == spec_op_views(ops@),
                forall|j: int| 0 <= j < ops@.len() ==> (#[trigger] ops@[j]).wf(),
                st.wf(),
                st.id == id,
                st.protocol_magic == protocol_magic,
                spec_op_views(st.operations@) == views.take(i as int),
            decreases n - i,
        {
            proof {
                assert(views.take(i + 1).drop_last() =~= views.take(i as int));
                assert(views.take(i + 1).last() == views[i as int]);
            }
            let op = ops[i].duplicate();
            match st.transaction.update_with(op.duplicate()) {
                Err(e) => {
                    proof {
                        lemma_replay_ops_none_extends(views, i + 1);
                    }
                    return Err(StagingError::InvalidOperationSequence(e));
                },
                Ok(()) => {
                    st.operations.push(op);
                    proof {
                        assert(spec_op_views(st.operations@) =~= views.take(i + 1));
                    }
                },
            }
            i += 1;
        }
        proof {
            assert(views.take(n as int) =~= views);
        }
        Ok(st)
    }

    /// The identifier of this staging transaction.
    pub fn id(&self) -> (r: &StagingId)
        ensures
            r == &self.id,
    {
        &self.id
    }

    /// The operations applied so far, in order.
    pub fn operations(&self) -> (r: &Vec<Operation>)
        ensures
            r == &self.operations,
    {
        &self.operations
    }

    /// The transaction the operations fold to.
    pub fn transaction(&self) -> (r: &Transaction)
        ensures
            r == &self.transaction,
    {
        &self.transaction
    }

    /// Whether the transaction is finalized and ready to be signed.
    pub fn finalized(&self) -> (r: bool)
        ensures
            r == self.transaction@.finalized,
    {
        self.transaction.is_finalized()
    }

    /// Validates one operation against the live transaction, applies and
    /// records it, and hands back its binary record; the caller appends
    /// the record to the staging file and must treat a failed append as
    /// fatal for this handle. A rejected operation changes nothing.
    pub fn append(&mut self, operation: Operation) -> (r: Result<Vec<u8>, TransactionError>)
        requires
            old(self).wf(),
            operation.wf(),
        ensures
            final(self).wf(),
            final(self).id == old(self).id,
            final(self).protocol_magic == old(self).protocol_magic,
            r matches Ok(bytes) ==> {
                &&& spec_apply_operation(old(self).transaction@, operation@) == Ok::<
                    TransactionV,
                    TransactionError,
                >(final(self).transaction@)
                &&& spec_op_views(final(self).operations@) == spec_op_views(
                    old(self).operations@,
                ).push(operation@)
                &&& bytes@ == crate::txop::spec_serialize_operation(operation@)
            },
            r matches Err(e) ==> {
                &&& spec_apply_operation(old(self).transaction@, operation@) == Err::<
                    TransactionV,
                    TransactionError,
                >(e)
                &&& final(self).transaction@ == old(self).transaction@
                &&& spec_op_views(final(self).operations@) == spec_op_views(old(self).operations@)
            },
    {
        let bytes = operation.serialize();
        let op_copy = operation.duplicate();
        match self.transaction.update_with(operation) {
            Err(e) => {
                proof {
                    assert(spec_op_views(self.operations@) =~= spec_op_views(
                        old(self).operations@,
                    ));
                }
                Err(e)
            },
            Ok(()) => {
                proof {
                    lemma_replay_extends(
                        spec_op_views(old(self).operations@),
                        old(self).transaction@,
                        op_copy@,
                        self.transaction@,
                    );
                }
                self.operations.push(op_copy);
                proof {
                    assert(spec_op_views(self.operations@) =~= spec_op_views(
                        old(self).operations@,
                    ).push(op_copy@));
                }
                Ok(bytes)
            },
        }
    }

    /// Adds an input; rejected on a finalized transaction or when the
    /// spend target is already spent here.
    pub fn add_input(&mut self, input: Input) -> (r: Result<Vec<u8>, TransactionError>)
        requires
            old(self).wf(),
            input.wf(),
        ensures
            final(self).wf(),
            final(self).id == old(self).id,
            final(self).protocol_magic == old(self).protocol_magic,
            r is Ok ==> final(self).operations@.len() == old(self).operations@.len() + 1,
            r is Err ==> final(self).operations@.len() == old(self).operations@.len(),
            r is Ok ==> spec_apply_operation(
                old(self).transaction@,
                OperationV::AddInput(input@),
            ) == Ok::<TransactionV, TransactionError>(final(self).transaction@),
            r matches Err(e) ==> spec_apply_operation(
                old(self).transaction@,
                OperationV::AddInput(input@),
            ) == Err::<TransactionV, TransactionError>(e) && final(self).transaction@ == old(
                self,
            ).transaction@,
    {
        self.append(Operation::AddInput(input))
    }

    /// Adds an output; rejected on a finalized transaction. The same
    /// address may well receive twice.
    pub fn add_output(&mut self, output: Output) -> (r: Result<Vec<u8>, TransactionError>)
        requires
            old(self).wf(),
            output.wf(),
        ensures
            final(self).wf(),
            final(self).id == old(self).id,
            final(self).protocol_magic == old(self).protocol_magic,
            r is Ok ==> final(self).operations@.len() == old(self).operations@.len() + 1,
            r is Err ==> final(self).operations@.len() == old(self).operations@.len(),
            r is Ok ==> spec_apply_operation(
                old(self).transaction@,
                OperationV::AddOutput(output@),
            ) == Ok::<TransactionV, TransactionError>(final(self).transaction@),
            r matches Err(e) ==> spec_apply_operation(
                old(self).transaction@,
                OperationV::AddOutput(output@),
            ) == Err::<TransactionV, TransactionError>(e) && final(self).transaction@ == old(
                self,
            ).transaction@,
    {
        self.append(Operation::AddOutput(output))
    }

    /// Adds the change address; rejected on a finalized transaction and
    /// when one is already set: a single change address, by design.
    pub fn add_change(&mut self, change: Change) -> (r: Result<Vec<u8>, TransactionError>)
        requires
            old(self).wf(),
        ensures
            final(self).wf(),
            final(self).id == old(self).id,
            final(self).protocol_magic == old(self).protocol_magic,
            r is Ok ==> final(self).operations@.len() == old(self).operations@.len() + 1,
            r is Err ==> final(self).operations@.len() == old(self).operations@.len(),
            r is Ok ==> spec_apply_operation(
                old(self).transaction@,
                OperationV::AddChange(change@),
            ) == Ok::<TransactionV, TransactionError>(final(self).transaction@),
            r matches Err(e) ==> spec_apply_operation(
                old(self).transaction@,
                OperationV::AddChange(change@),
            ) == Err::<TransactionV, TransactionError>(e) && final(self).transaction@ == old(
                self,
            ).transaction@,
    {
        self.append(Operation::AddChange(change))
    }

    /// Adds a witness; rejected while the transaction is open, and when
    /// every input already has one.
    pub fn add_signature(&mut self, signature: TxInWitness) -> (r: Result<
        Vec<u8>,
        TransactionError,
    >)
        requires
            old(self).wf(),
        ensures
            final(self).wf(),
            final(self).id == old(self).id,
            final(self).protocol_magic == old(self).protocol_magic,
            r is Ok ==> final(self).operations@.len() == old(self).operations@.len() + 1,
            r is Err ==> final(self).operations@.len() == old(self).operations@.len(),
            r is Ok ==> spec_apply_operation(
                old(self).transaction@,
                OperationV::Signature(signature@),
            ) == Ok::<TransactionV, TransactionError>(final(self).transaction@),
            r matches Err(e) ==> spec_apply_operation(
                old(self).transaction@,
                OperationV::Signature(signature@),
            ) == Err::<TransactionV, TransactionError>(e) && final(self).transaction@ == old(
                self,
            ).transaction@,
    {
        self.append(Operation::Signature(signature))
    }

    /// Removes the input spending the given pointer; rejected when none
    /// does.
    pub fn remove_input(&mut self, txin: TxoPointer) -> (r: Result<Vec<u8>, TransactionError>)
        requires
            old(self).wf(),
            txin.wf(),
        ensures
            final(self).wf(),
            final(self).id == old(self).id,
            final(self).protocol_magic == old(self).protocol_magic,
            r is Ok ==> final(self).operations@.len() == old(self).operations@.len() + 1,
            r is Err ==> final(self).operations@.len() == old(self).operations@.len(),
            r is Ok ==> spec_apply_operation(
                old(self).transaction@,
                OperationV::RemoveInput(txin@),
            ) == Ok::<TransactionV, TransactionError>(final(self).transaction@),
            r matches Err(e) ==> spec_apply_operation(
                old(self).transaction@,
                OperationV::RemoveInput(txin@),
            ) == Err::<TransactionV, TransactionError>(e) && final(self).transaction@ == old(
                self,
            ).transaction@,
    {
        self.append(Operation::RemoveInput(txin))
    }

    /// Removes the output at the given index; rejected when there is none.
    pub fn remove_output(&mut self, index: u32) -> (r: Result<Vec<u8>, TransactionError>)
        requires
            old(self).wf(),
        ensures
            final(self).wf(),
            final(self).id == old(self).id,
            final(self).protocol_magic == old(self).protocol_magic,
            r is Ok ==> final(self).operations@.len() == old(self).operations@.len() + 1,
            r is Err ==> final(self).operations@.len() == old(self).operations@.len(),
            r is Ok ==> spec_apply_operation(
                old(self).transaction@,
                OperationV::RemoveOutput(index),
            ) == Ok::<TransactionV, TransactionError>(final(self).transaction@),
            r matches Err(e) ==> spec_apply_operation(
                old(self).transaction@,
                OperationV::RemoveOutput(index),
            ) == Err::<TransactionV, TransactionError>(e) && final(self).transaction@ == old(
                self,
            ).transaction@,
    {
        self.append(Operation::RemoveOutput(index))
    }

    /// Removes the change with the given address; rejected when none
    /// matches.
    pub fn remove_change(&mut self, address: Vec<u8>) -> (r: Result<Vec<u8>, TransactionError>)
        requires
            old(self).wf(),
        ensures
            final(self).wf(),
            final(self).id == old(self).id,
            final(self).protocol_magic == old(self).protocol_magic,
            r is Ok ==> final(self).operations@.len() == old(self).operations@.len() + 1,
            r is Err ==> final(self).operations@.len() == old(self).operations@.len(),
            r is Ok ==> spec_apply_operation(
                old(self).transaction@,
                OperationV::RemoveChange(address@),
            ) == Ok::<TransactionV, TransactionError>(final(self).transaction@),
            r matches Err(e) ==> spec_apply_operation(
                old(self).transaction@,
                OperationV::RemoveChange(address@),
            ) == Err::<TransactionV, TransactionError>(e) && final(self).transaction@ == old(
                self,
            ).transaction@,
    {
        self.append(Operation::RemoveChange(address))
    }

    /// Removes every output paying the given address, one recorded
    /// operation per removed output, scanning as the outputs shift.
    /// Always succeeds: removing an already absent output is never asked
    /// for, and outputs may be removed in either state.
    pub fn remove_outputs_for(&mut self, address: &Vec<u8>) -> (r: Result<
        Vec<Vec<u8>>,
        TransactionError,
    >)
        requires
            old(self).wf(),
            old(self).transaction@.outputs.len() <= u32::MAX,
        ensures
            final(self).wf(),
            final(self).id == old(self).id,
            final(self).protocol_magic == old(self).protocol_magic,
            r is Ok,
            final(self).transaction@.outputs == crate::transaction::spec_outputs_without(
                old(self).transaction@.outputs,
                address@,
            ),
            final(self).transaction@.inputs == old(self).transaction@.inputs,
            final(self).transaction@.changes == old(self).transaction@.changes,
            final(self).transaction@.witnesses == old(self).transaction@.witnesses,
            final(self).transaction@.finalized == old(self).transaction@.finalized,
    {
        let ghost orig = old(self).transaction@.outputs;
        let mut records: Vec<Vec<u8>> = Vec::new();
        let mut index: usize = 0;
        while index < self.transaction.outputs.len()
            invariant
                self.wf(),
                self.id == old(self).id,
                self.protocol_magic == old(self).protocol_magic,
                index <= self.transaction@.outputs.len(),
                self.transaction@.outputs.len() <= u32::MAX,
                crate::transaction::spec_outputs_without(self.transaction@.outputs, address@)
                    == crate::transaction::spec_outputs_without(orig, address@),
                forall|j: int|
                    0 <= j < index ==> (#[trigger] self.transaction@.outputs[j]).address
                        != address@,
                self.transaction@.inputs == old(self).transaction@.inputs,
                self.transaction@.changes == old(self).transaction@.changes,
                self.transaction@.witnesses == old(self).transaction@.witnesses,
                self.transaction@.finalized == old(self).transaction@.finalized,
            decreases self.transaction@.outputs.len() - index,
        {
            let ghost pre = self.transaction@.outputs;
            if crate::bytes::bytes_eq(&self.transaction.outputs[index].address, address) {
                proof {
                    crate::transaction::lemma_outputs_without_remove_first(
                        pre,
                        address@,
                        index as int,
                    );
                }
                match self.append(Operation::RemoveOutput(index as u32)) {
                    Ok(bytes) => {
                        records.push(bytes);
                    },
                    Err(e) => {
                        proof {
                            assert(false);
                        }
                        return Err(e);
                    },
                }
            } else {
                index += 1;
            }
        }
        proof {
            crate::transaction::lemma_outputs_without_clean(self.transaction@.outputs, address@);
        }
        Ok(records)
    }

    /// Closes the transaction for edits; accepted exactly once, a second
    /// call is rejected rather than ignored.
    pub fn finalize(&mut self) -> (r: Result<Vec<u8>, TransactionError>)
        requires
            old(self).wf(),
        ensures
            final(self).wf(),
            final(self).id == old(self).id,
            final(self).protocol_magic == old(self).protocol_magic,
            r is Ok ==> final(self).operations@.len() == old(self).operations@.len() + 1,
            r is Err ==> final(self).operations@.len() == old(self).operations@.len(),
            r is Ok <==> !old(self).transaction@.finalized,
            r is Ok ==> final(self).transaction@ == (TransactionV {
                finalized: true,
                ..old(self).transaction@
            }),
            r matches Err(e) ==> e == TransactionError::CannotFinalizeAFinalizedTransaction
                && final(self).transaction@ == old(self).transaction@,
    {
        self.append(Operation::Finalize)
    }
}

/// A portable copy of a staging transaction: everything needed to rebuild
/// it elsewhere, without the operation history. The magic field carries
/// the staging file magic rendered in hexadecimal.
#[derive(Debug)]
pub struct Export {
    pub staging_id: StagingId,
    pub magic: String,
    pub protocol_magic: u32,
    pub transaction: Transaction,
}

impl StagingTransaction {
    /// Prepares the staging transaction for export: only the identifier,
    /// the protocol magic and the folded transaction travel, not the
    /// operation history.
    pub fn export(&self) -> (r: Export)
        requires
            self.wf(),
        ensures
            r.staging_id == self.id,
            r.protocol_magic == self.protocol_magic,
            r.transaction@ == self.transaction@,
            r.magic@ == crate::bytes::spec_hex(
                seq![
                    0x54u8, 0x52u8, 0x41u8, 0x4Eu8, 0x53u8, 0x41u8, 0x43u8, 0x54u8, 0x49u8, 0x4Fu8,
                    0x4Eu8, 0x5Fu8, 0x56u8, 0x31u8,
                ],
            ),
    {
        Export {
            staging_id: self.id,
            magic: crate::bytes::hex_encode(&staging_file_magic()),
            protocol_magic: self.protocol_magic,
            transaction: duplicate_transaction(&self.transaction),
        }
    }

    /// Rebuilds a staging transaction out of an export: its inputs and
    /// outputs are replayed as fresh operations, in order, and the
    /// transaction is finalized again when the export was; change
    /// addresses and witnesses do not travel. The records to append to
    /// the new staging file come back beside it. Fails exactly when two
    /// of the export's inputs spend the same transaction output.
    pub fn import(export: &Export) -> (r: Result<(StagingTransaction, Vec<Vec<u8>>), TransactionError>)
        requires
            export.transaction.wf(),
        ensures
            r is Ok <==> crate::transaction::spec_inputs_distinct(export.transaction@.inputs),
            r matches Ok(p) ==> {
                &&& p.0.wf()
                &&& p.0.id == export.staging_id
                &&& p.0.protocol_magic == export.protocol_magic
                &&& p.1@.len() == p.0.operations@.len()
                &&& p.0.transaction@.inputs == export.transaction@.inputs
                &&& p.0.transaction@.outputs == export.transaction@.outputs
                &&& p.0.transaction@.finalized == export.transaction@.finalized
                &&& p.0.transaction@.changes.len() == 0
                &&& p.0.transaction@.witnesses.len() == 0
            },
    {
        let ghost in_views = export.transaction@.inputs;
        let mut st = StagingTransaction::new(export.staging_id, export.protocol_magic);
        let mut records: Vec<Vec<u8>> = Vec::new();
        let n_in = export.transaction.inputs.len();
        let mut i: usize = 0;
        proof {
            assert(st.transaction@.inputs =~= in_views.take(0));
        }
        while i < n_in
            invariant
                i <= n_in,
                n_in == export.transaction.inputs@.len(),
                in_views == export.transaction@.inputs,
                export.transaction.wf(),
                st.wf(),
                st.id == export.staging_id,
                st.protocol_magic == export.protocol_magic,
                records@.len() == st.operations@.len(),
                st.transaction@.inputs == in_views.take(i as int),
                st.transaction@.outputs.len() == 0,
                st.transaction@.changes.len() == 0,
                st.transaction@.witnesses.len() == 0,
                !st.transaction@.finalized,
                forall|a: int, b: int|
                    0 <= a < b < i ==> (#[trigger] in_views[a]).spec_txin() != (
                    #[trigger] in_views[b]).spec_txin(),
            decreases n_in - i,
        {
            proof {
                assert(export.transaction@.inputs[i as int] == export.transaction.inputs@[i as int]@);
            }
            let input = export.transaction.inputs[i].duplicate();
            match st.add_input(input) {
                Ok(bytes) => {
                    records.push(bytes);
                    proof {
                        assert(st.transaction@.inputs =~= in_views.take(i + 1));
                        assert forall|a: int, b: int| 0 <= a < b < i + 1 implies (
                        #[trigger] in_views[a]).spec_txin() != (
                        #[trigger] in_views[b]).spec_txin() by {
                            if b == i as int {
                                crate::transaction::lemma_find_input_none_converse(
                                    in_views.take(i as int),
                                    in_views[b].spec_txin(),
                                );
                                assert(in_views.take(i as int)[a] == in_views[a]);
                            }
                        }
                    }
                },
                Err(e) => {
                    proof {
                        crate::transaction::lemma_find_input_some(
                            in_views.take(i as int),
                            in_views[i as int].spec_txin(),
                        );
                        let a = crate::transaction::spec_find_input(
                            in_views.take(i as int),
                            in_views[i as int].spec_txin(),
                        ).unwrap();
                        assert(in_views.take(i as int)[a] == in_views[a]);
                        assert(!crate::transaction::spec_inputs_distinct(in_views));
                    }
                    return Err(e);
                },
            }
            i += 1;
        }
        proof {
            assert(in_views.take(n_in as int) =~= in_views);
        }
        let ghost out_views = export.transaction@.outputs;
        let n_out = export.transaction.outputs.len();
        let mut j: usize = 0;
        proof {
            assert(st.transaction@.outputs =~= out_views.take(0));
        }
        while j < n_out
            invariant
                j <= n_out,
                n_out == export.transaction.outputs@.len(),
                out_views == export.transaction@.outputs,
                in_views == export.transaction@.inputs,
                export.transaction.wf(),
                st.wf(),
                st.id == export.staging_id,
                st.protocol_magic == export.protocol_magic,
                records@.len() == st.operations@.len(),
                st.transaction@.inputs == in_views,
                st.transaction@.outputs == out_views.take(j as int),
                st.transaction@.changes.len() == 0,
                st.transaction@.witnesses.len() == 0,
                !st.transaction@.finalized,
            decreases n_out - j,
        {
            proof {
                assert(export.transaction@.outputs[j as int] == export.transaction.outputs@[j as int]@);
            }
            let output = export.transaction.outputs[j].duplicate();
            match st.add_output(output) {
                Ok(bytes) => {
                    records.push(bytes);
                    proof {
                        assert(st.transaction@.outputs =~= out_views.take(j + 1));
                    }
                },
                Err(e) => {
                    proof {
                        assert(false);
                    }
                    return Err(e);
                },
            }
            j += 1;
        }
        proof {
            assert(out_views.take(n_out as int) =~= out_views);
        }
        if export.transaction.is_finalized() {
            match st.finalize() {
                Ok(bytes) => {
                    records.push(bytes);
                },
                Err(e) => {
                    proof {
                        assert(false);
                    }
                    return Err(e);
                },
            }
        }
        Ok((st, records))
    }
}

/// Copies a transaction projection.
pub fn duplicate_transaction(t: &Transaction) -> (r: Transaction)
    ensures
        r@ == t@,
        r.wf() == t.wf(),
{
    let mut inputs: Vec<Input> = Vec::new();
    let n_in = t.inputs.len();
    let mut i: usize = 0;
    while i < n_in
        invariant
            i <= n_in,
            n_in == t.inputs@.len(),
            inputs@.len() == i,
            forall|k: int| 0 <= k < i ==> (#[trigger] inputs@[k])@ == t.inputs@[k]@,
        decreases n_in - i,
    {
        inputs.push(t.inputs[i].duplicate());
        i += 1;
    }
    let mut outputs: Vec<Output> = Vec::new();
    let n_out = t.outputs.len();
    let mut j: usize = 0;
    while j < n_out
        invariant
            j <= n_out,
            n_out == t.outputs@.len(),
            outputs@.len() == j,
            forall|k: int| 0 <= k < j ==> (#[trigger] outputs@[k])@ == t.outputs@[k]@,
        decreases n_out - j,
    {
        outputs.push(t.outputs[j].duplicate());
        j += 1;
    }
    let mut changes: Vec<Change> = Vec::new();
    let n_ch = t.changes.len();
    let mut k: usize = 0;
    while k < n_ch
        invariant
            k <= n_ch,
            n_ch == t.changes@.len(),
            changes@.len() == k,
            forall|m: int| 0 <= m < k ==> (#[trigger] changes@[m])@ == t.changes@[m]@,
        decreases n_ch - k,
    {
        changes.push(t.changes[k].duplicate());
        k += 1;
    }
    let mut witnesses: Vec<TxInWitness> = Vec::new();
    let n_w = t.witnesses.len();
    let mut m: usize = 0;
    while m < n_w
        invariant
            m <= n_w,
            n_w == t.witnesses@.len(),
            witnesses@.len() == m,
            forall|q: int| 0 <= q < m ==> (#[trigger] witnesses@[q])@ == t.witnesses@[q]@,
        decreases n_w - m,
    {
        witnesses.push(t.witnesses[m].duplicate());
        m += 1;
    }
    let r = Transaction { inputs, outputs, changes, witnesses, finalized: t.finalized };
    proof {
        assert(r@.inputs =~= t@.inputs);
        assert(r@.outputs =~= t@.outputs);
        assert(r@.changes =~= t@.changes);
        assert(r@.witnesses =~= t@.witnesses);
        assert(r@ =~= t@);
    }
    r
}

/// A replay that has rejected an operation of a prefix rejects the whole.
proof fn lemma_replay_ops_none_extends(ops: Seq<OperationV>, i: int)
    requires
        0 <= i <= ops.len(),
        spec_replay_ops(ops.take(i)) is None,
    ensures
        spec_replay_ops(ops) is None,
    decreases ops.len() - i,
{
    if i == ops.len() {
        assert(ops.take(i) =~= ops);
    } else {
        assert(ops.take(i + 1).drop_last() =~= ops.take(i));
        lemma_replay_ops_none_extends(ops, i + 1);
    }
}

} // verus!
