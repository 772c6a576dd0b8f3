//! The transaction under construction, as a fold over operations.
//!
//! The transaction enforces the staging state machine: while open it takes
//! inputs, outputs and at most one change address; `Finalize` closes it
//! exactly once; witnesses are taken only once finalized, and never more
//! of them than there are inputs. An input that duplicates a spend target
//! already present is rejected as a double spend.

use vstd::prelude::*;

use crate::bytes::bytes_eq;
use crate::coin::MAX_COIN;
use crate::txop::{
    Change, ChangeV, Input, InputV, Operation, OperationV, Output, OutputV, TxInWitness,
};
use crate::utxo::{TxoPointer, TxoPointerV};

verus! {

/// Errors of editing a transaction under construction.
#[derive(Clone, Copy, Debug, PartialEq, Eq, Structural)]
pub enum TransactionError {
    /// `Finalize` on a transaction already finalized.
    CannotFinalizeAFinalizedTransaction,
    /// A witness on a transaction still open.
    CannotAddWitnessesToAnOpenedTransaction,
    /// More witnesses than there are inputs.
    CannotAddMoreWitnessesThanInputs,
    /// An input on a finalized transaction.
    CannotAddInputsToAFinalizedTransaction,
    /// An output on a finalized transaction.
    CannotAddOutputToAFinalizedTransaction,
    /// A change address on a finalized transaction.
    CannotAddChangeToAFinalizedTransaction,
    /// The transaction must be finalized first.
    TransactionNotFinalized,
    /// The input's spend target is already spent by this transaction.
    DoubleSpend,
    /// No input with the given pointer.
    CannotRemoveInputInputNotFound,
    /// No output at the given index.
    CannotRemoveOutput,
    /// No change with the given address.
    CannotRemoveChangeChangeNotFound,
    /// Only one change address is supported, by design.
    MoreThanOneChangeAddressIsNotSupportedYet,
    /// The change policy could not be applied.
    ErrorWhenApplyingOutputPolicy,
    /// The assembled transaction would be empty on one side.
    CannotBuildTxFromBuilder,
}

/// Mathematical value of a [`Transaction`].
pub ghost struct TransactionV {
    pub inputs: Seq<InputV>,
    pub outputs: Seq<OutputV>,
    pub changes: Seq<ChangeV>,
    pub witnesses: Seq<Seq<u8>>,
    pub finalized: bool,
}

impl TransactionV {
    /// The empty, open transaction.
    pub open spec fn spec_empty() -> TransactionV {
        TransactionV {
            inputs: Seq::empty(),
            outputs: Seq::empty(),
            changes: Seq::empty(),
            witnesses: Seq::empty(),
            finalized: false,
        }
    }
}

/// The first input spending the given pointer, if any.
pub open spec fn spec_find_input(s: Seq<InputV>, k: TxoPointerV) -> Option<int>
    decreases s.len(),
{
    if s.len() == 0 {
        None
    } else if s[0].spec_txin() == k {
        Some(0)
    } else {
        match spec_find_input(s.skip(1), k) {
            None => None,
            Some(i) => Some(i + 1),
        }
    }
}

/// The first change with the given address, if any.
pub open spec fn spec_find_change(s: Seq<ChangeV>, a: Seq<u8>) -> Option<int>
    decreases s.len(),
{
    if s.len() == 0 {
        None
    } else if s[0].address == a {
        Some(0)
    } else {
        match spec_find_change(s.skip(1), a) {
            None => None,
            Some(i) => Some(i + 1),
        }
    }
}

/// No two inputs spending the same transaction output.
pub open spec fn spec_inputs_distinct(s: Seq<InputV>) -> bool {
    forall|i: int, j: int|
        0 <= i < j < s.len() ==> (#[trigger] s[i]).spec_txin() != (#[trigger] s[j]).spec_txin()
}

/// A found position indeed spends the pointer.
pub proof fn lemma_find_input_some(s: Seq<InputV>, k: TxoPointerV)
    requires
        spec_find_input(s, k) is Some,
    ensures
        0 <= spec_find_input(s, k).unwrap() < s.len(),
        s[spec_find_input(s, k).unwrap()].spec_txin() == k,
    decreases s.len(),
{
    if s.len() > 0 && s[0].spec_txin() != k {
        lemma_find_input_some(s.skip(1), k);
    }
}

/// When the search comes back empty, no input spends the pointer.
pub proof fn lemma_find_input_none_converse(s: Seq<InputV>, k: TxoPointerV)
    requires
        spec_find_input(s, k) is None,
    ensures
        forall|j: int| 0 <= j < s.len() ==> (#[trigger] s[j]).spec_txin() != k,
    decreases s.len(),
{
    if s.len() > 0 {
        lemma_find_input_none_converse(s.skip(1), k);
        assert forall|j: int| 0 <= j < s.len() implies (#[trigger] s[j]).spec_txin() != k by {
            if j > 0 {
                assert(s.skip(1)[j - 1] == s[j]);
            }
        }
    }
}

/// The outputs with every output paying the given address taken out.
pub open spec fn spec_outputs_without(s: Seq<OutputV>, a: Seq<u8>) -> Seq<OutputV>
    decreases s.len(),
{
    if s.len() == 0 {
        Seq::empty()
    } else if s[0].address == a {
        spec_outputs_without(s.skip(1), a)
    } else {
        seq![s[0]] + spec_outputs_without(s.skip(1), a)
    }
}

/// Taking out the first output paying the address leaves the filtered
/// outputs as they were.
pub proof fn lemma_outputs_without_remove_first(s: Seq<OutputV>, a: Seq<u8>, i: int)
    requires
        0 <= i < s.len(),
        s[i].address == a,
        forall|j: int| 0 <= j < i ==> (#[trigger] s[j]).address != a,
    ensures
        spec_outputs_without(s.remove(i), a) == spec_outputs_without(s, a),
    decreases i,
{
    if i == 0 {
        assert(s.remove(0) =~= s.skip(1));
    } else {
        assert(s.remove(i)[0] == s[0]);
        assert(s.remove(i).skip(1) =~= s.skip(1).remove(i - 1));
        assert(forall|j: int| 0 <= j < i - 1 ==> (#[trigger] s.skip(1)[j]) == s[j + 1]);
        assert(s.skip(1)[i - 1] == s[i]);
        lemma_outputs_without_remove_first(s.skip(1), a, i - 1);
    }
}

/// Outputs none of which pay the address are left whole by the filter.
pub proof fn lemma_outputs_without_clean(s: Seq<OutputV>, a: Seq<u8>)
    requires
        forall|j: int| 0 <= j < s.len() ==> (#[trigger] s[j]).address != a,
    ensures
        spec_outputs_without(s, a) == s,
    decreases s.len(),
{
    if s.len() > 0 {
        assert(forall|j: int| 0 <= j < s.skip(1).len() ==> (#[trigger] s.skip(1)[j]) == s[j + 1]);
        lemma_outputs_without_clean(s.skip(1), a);
        assert(seq![s[0]] + s.skip(1) =~= s);
    }
}

/// The staging state machine: what one operation does to the transaction,
/// or the exact error it is rejected with.
pub open spec fn spec_apply_operation(t: TransactionV, op: OperationV) -> Result<
    TransactionV,
    TransactionError,
> {
    match op {
        OperationV::AddInput(x) => {
            if t.finalized {
                Err(TransactionError::CannotAddInputsToAFinalizedTransaction)
            } else if spec_find_input(t.inputs, x.spec_txin()) is Some {
                Err(TransactionError::DoubleSpend)
            } else {
                Ok(TransactionV { inputs: t.inputs.push(x), ..t })
            }
        },
        OperationV::AddOutput(x) => {
            if t.finalized {
                Err(TransactionError::CannotAddOutputToAFinalizedTransaction)
            } else {
                Ok(TransactionV { outputs: t.outputs.push(x), ..t })
            }
        },
        OperationV::AddChange(x) => {
            if t.finalized {
                Err(TransactionError::CannotAddChangeToAFinalizedTransaction)
            } else if t.changes.len() > 0 {
                Err(TransactionError::MoreThanOneChangeAddressIsNotSupportedYet)
            } else {
                Ok(TransactionV { changes: t.changes.push(x), ..t })
            }
        },
        OperationV::RemoveInput(k) => {
            match spec_find_input(t.inputs, k) {
                None => Err(TransactionError::CannotRemoveInputInputNotFound),
                Some(i) => Ok(TransactionV { inputs: t.inputs.remove(i), ..t }),
            }
        },
        OperationV::RemoveOutput(i) => {
            if i >= t.outputs.len() {
                Err(TransactionError::CannotRemoveOutput)
            } else {
                Ok(TransactionV { outputs: t.outputs.remove(i as int), ..t })
            }
        },
        OperationV::RemoveChange(a) => {
            match spec_find_change(t.changes, a) {
                None => Err(TransactionError::CannotRemoveChangeChangeNotFound),
                Some(i) => Ok(TransactionV { changes: t.changes.remove(i), ..t }),
            }
        },
        OperationV::Signature(w) => {
            if !t.finalized {
                Err(TransactionError::CannotAddWitnessesToAnOpenedTransaction)
            } else if t.witnesses.len() >= t.inputs.len() {
                Err(TransactionError::CannotAddMoreWitnessesThanInputs)
            } else {
                Ok(TransactionV { witnesses: t.witnesses.push(w), ..t })
            }
        },
        OperationV::Finalize => {
            if t.finalized {
                Err(TransactionError::CannotFinalizeAFinalizedTransaction)
            } else {
                Ok(TransactionV { finalized: true, ..t })
            }
        },
    }
}

/// Once finalized, no operation that would add an input, an output or a
/// change address succeeds, and a second `Finalize` fails too.
pub proof fn lemma_finalized_rejects_mutations(t: TransactionV, op: OperationV)
    requires
        t.finalized,
    ensures
        op matches OperationV::AddInput(_) ==> spec_apply_operation(t, op) == Err::<
            TransactionV,
            TransactionError,
        >(TransactionError::CannotAddInputsToAFinalizedTransaction),
        op matches OperationV::AddOutput(_) ==> spec_apply_operation(t, op) == Err::<
            TransactionV,
            TransactionError,
        >(TransactionError::CannotAddOutputToAFinalizedTransaction),
        op matches OperationV::AddChange(_) ==> spec_apply_operation(t, op) == Err::<
            TransactionV,
            TransactionError,
        >(TransactionError::CannotAddChangeToAFinalizedTransaction),
        op is Finalize ==> spec_apply_operation(t, op) == Err::<TransactionV, TransactionError>(
            TransactionError::CannotFinalizeAFinalizedTransaction,
        ),
{
}

/// The transaction under construction: a read-only projection of the
/// operations applied so far.
#[derive(Debug)]
pub struct Transaction {
    pub inputs: Vec<Input>,
    pub outputs: Vec<Output>,
    pub changes: Vec<Change>,
    pub witnesses: Vec<TxInWitness>,
    pub finalized: bool,
}

impl View for Transaction {
    type V = TransactionV;

    open spec fn view(&self) -> TransactionV {
        TransactionV {
            inputs: Seq::new(self.inputs@.len(), |i: int| self.inputs@[i]@),
            outputs: Seq::new(self.outputs@.len(), |i: int| self.outputs@[i]@),
            changes: Seq::new(self.changes@.len(), |i: int| self.changes@[i]@),
            witnesses: Seq::new(self.witnesses@.len(), |i: int| self.witnesses@[i]@),
            finalized: self.finalized,
        }
    }
}

impl Transaction {
    /// Every input and output well formed, and no two inputs spending the
    /// same transaction output: the double-spend guard keeps the inputs'
    /// spend targets pairwise distinct.
    pub open spec fn wf(self) -> bool {
        &&& forall|i: int|
            0 <= i < self@.inputs.len() ==> (#[trigger] self@.inputs[i]).transaction_id.len()
                == crate::ptr::HASH_SIZE && self@.inputs[i].expected_value <= MAX_COIN
        &&& forall|i: int| 0 <= i < self@.outputs.len() ==> (#[trigger] self@.outputs[i]).amount <= MAX_COIN
        &&& spec_inputs_distinct(self@.inputs)
    }

    /// The empty, open transaction.
    pub fn new() -> (r: Transaction)
        ensures
            r@ == TransactionV::spec_empty(),
            r.wf(),
    {
        let r = Transaction {
            inputs: Vec::new(),
            outputs: Vec::new(),
            changes: Vec::new(),
            witnesses: Vec::new(),
            finalized: false,
        };
        proof {
            assert(r@.inputs =~= TransactionV::spec_empty().inputs);
            assert(r@.outputs =~= TransactionV::spec_empty().outputs);
            assert(r@.changes =~= TransactionV::spec_empty().changes);
            assert(r@.witnesses =~= TransactionV::spec_empty().witnesses);
        }
        r
    }

    /// How the transaction spends the given pointer, if it does.
    pub fn lookup_input(&self, txin: &TxoPointer) -> (r: Option<usize>)
        ensures
            r matches Some(i) ==> i < self@.inputs.len() && spec_find_input(self@.inputs, txin@)
                == Some(i as int),
            r is None ==> spec_find_input(self@.inputs, txin@) is None,
    {
        let n = self.inputs.len();
        let mut i: usize = 0;
        while i < n
            invariant
                i <= n,
                n == self@.inputs.len(),
                forall|j: int| 0 <= j < i ==> (#[trigger] self@.inputs[j]).spec_txin() != txin@,
            decreases n - i,
        {
            let e = &self.inputs[i];
            if e.index_in_transaction == txin.index && bytes_eq(&e.transaction_id, &txin.id) {
                proof {
                    assert(self@.inputs[i as int].spec_txin() == txin@);
                    lemma_find_input_first(self@.inputs, txin@, i as int);
                }
                return Some(i);
            }
            proof {
                assert(self@.inputs[i as int].spec_txin() != txin@);
            }
            i += 1;
        }
        proof {
            lemma_find_input_none(self@.inputs, txin@);
        }
        None
    }

    fn lookup_change(&self, addr: &Vec<u8>) -> (r: Option<usize>)
        ensures
            r matches Some(i) ==> i < self@.changes.len() && spec_find_change(
                self@.changes,
                addr@,
            ) == Some(i as int),
            r is None ==> spec_find_change(self@.changes, addr@) is None,
    {
        let n = self.changes.len();
        let mut i: usize = 0;
        while i < n
            invariant
                i <= n,
                n == self@.changes.len(),
                forall|j: int| 0 <= j < i ==> (#[trigger] self@.changes[j]).address != addr@,
            decreases n - i,
        {
            let e = &self.changes[i];
            if bytes_eq(&e.address, addr) {
                proof {
                    lemma_find_change_first(self@.changes, addr@, i as int);
                }
                return Some(i);
            }
            i += 1;
        }
        proof {
            lemma_find_change_none(self@.changes, addr@);
        }
        None
    }

    /// The transaction's inputs, in the order they were added.
    pub fn inputs(&self) -> (r: &Vec<Input>)
        ensures
            r == &self.inputs,
    {
        &self.inputs
    }

    /// The transaction's outputs, in the order they hold in the
    /// transaction.
    pub fn outputs(&self) -> (r: &Vec<Output>)
        ensures
            r == &self.outputs,
    {
        &self.outputs
    }

    /// The change addresses; at most one is ever set.
    pub fn changes(&self) -> (r: &Vec<Change>)
        ensures
            r == &self.changes,
    {
        &self.changes
    }

    /// The witnesses collected so far.
    pub fn signature(&self) -> (r: &Vec<TxInWitness>)
        ensures
            r == &self.witnesses,
    {
        &self.witnesses
    }

    /// Whether a change address is set.
    pub fn has_change(&self) -> (r: bool)
        ensures
            r == (self@.changes.len() > 0),
    {
        self.changes.len() > 0
    }

    /// Whether the transaction has been finalized.
    pub fn is_finalized(&self) -> (r: bool)
        ensures
            r == self@.finalized,
    {
        self.finalized
    }

    /// Applies one operation, exactly as the staging state machine says:
    /// the result and the error cases are those of
    /// [`spec_apply_operation`], and a rejected operation leaves the
    /// transaction untouched.
    pub fn update_with(&mut self, operation: Operation) -> (r: Result<(), TransactionError>)
        requires
            old(self).wf(),
            operation.wf(),
        ensures
            final(self).wf(),
            r matches Ok(()) ==> spec_apply_operation(old(self)@, operation@) == Ok::<
                TransactionV,
                TransactionError,
            >(final(self)@),
            r matches Err(e) ==> spec_apply_operation(old(self)@, operation@) == Err::<
                TransactionV,
                TransactionError,
            >(e) && final(self)@ == old(self)@,
    {
        match operation {
            Operation::AddInput(input) => {
                if self.finalized {
                    return Err(TransactionError::CannotAddInputsToAFinalizedTransaction);
                }
                let txin = input.extract_txin();
                if self.lookup_input(&txin).is_some() {
                    return Err(TransactionError::DoubleSpend);
                }
                proof {
                    lemma_find_input_none_converse(old(self)@.inputs, input@.spec_txin());
                }
                self.inputs.push(input);
                proof {
                    assert(self@.inputs =~= old(self)@.inputs.push(input@));
                    assert(self@.outputs =~= old(self)@.outputs);
                    assert(self@.changes =~= old(self)@.changes);
                    assert(self@.witnesses =~= old(self)@.witnesses);
                    assert forall|a: int, b: int|
                        0 <= a < b < self@.inputs.len() implies (
                    #[trigger] self@.inputs[a]).spec_txin() != (
                    #[trigger] self@.inputs[b]).spec_txin() by {
                        if b < self@.inputs.len() - 1 {
                            assert(old(self)@.inputs[a].spec_txin() != old(
                                self,
                            )@.inputs[b].spec_txin());
                        } else {
                            assert(self@.inputs[a] == old(self)@.inputs[a]);
                            assert(self@.inputs[b] == input@);
                        }
                    }
                }
                Ok(())
            },
            Operation::AddOutput(output) => {
                if self.finalized {
                    return Err(TransactionError::CannotAddOutputToAFinalizedTransaction);
                }
                self.outputs.push(output);
                proof {
                    assert(self@.inputs =~= old(self)@.inputs);
                    assert(self@.outputs =~= old(self)@.outputs.push(output@));
                    assert(self@.changes =~= old(self)@.changes);
                    assert(self@.witnesses =~= old(self)@.witnesses);
                }
                Ok(())
            },
            Operation::AddChange(change) => {
                if self.finalized {
                    return Err(TransactionError::CannotAddChangeToAFinalizedTransaction);
                }
                if self.changes.len() > 0 {
                    return Err(TransactionError::MoreThanOneChangeAddressIsNotSupportedYet);
                }
                self.changes.push(change);
                proof {
                    assert(self@.inputs =~= old(self)@.inputs);
                    assert(self@.outputs =~= old(self)@.outputs);
                    assert(self@.changes =~= old(self)@.changes.push(change@));
                    assert(self@.witnesses =~= old(self)@.witnesses);
                }
                Ok(())
            },
            Operation::RemoveInput(txin) => {
                match self.lookup_input(&txin) {
                    None => Err(TransactionError::CannotRemoveInputInputNotFound),
                    Some(i) => {
                        self.inputs.remove(i);
                        proof {
                            assert(self@.inputs =~= old(self)@.inputs.remove(i as int));
                            assert(self@.outputs =~= old(self)@.outputs);
                            assert(self@.changes =~= old(self)@.changes);
                            assert(self@.witnesses =~= old(self)@.witnesses);
                            assert forall|a: int, b: int|
                                0 <= a < b < self@.inputs.len() implies (
                            #[trigger] self@.inputs[a]).spec_txin() != (
                            #[trigger] self@.inputs[b]).spec_txin() by {
                                let a0 = if a < i as int { a } else { a + 1 };
                                let b0 = if b < i as int { b } else { b + 1 };
                                assert(self@.inputs[a] == old(self)@.inputs[a0]);
                                assert(self@.inputs[b] == old(self)@.inputs[b0]);
                                assert(old(self)@.inputs[a0].spec_txin() != old(
                                    self,
                                )@.inputs[b0].spec_txin());
                            }
                        }
                        Ok(())
                    },
                }
            },
            Operation::RemoveOutput(index) => {
                if (index as usize) >= self.outputs.len() {
                    return Err(TransactionError::CannotRemoveOutput);
                }
                self.outputs.remove(index as usize);
                proof {
                    assert(self@.inputs =~= old(self)@.inputs);
                    assert(self@.outputs =~= old(self)@.outputs.remove(index as int));
                    assert(self@.changes =~= old(self)@.changes);
                    assert(self@.witnesses =~= old(self)@.witnesses);
                }
                Ok(())
            },
            Operation::RemoveChange(addr) => {
                match self.lookup_change(&addr) {
                    None => Err(TransactionError::CannotRemoveChangeChangeNotFound),
                    Some(i) => {
                        self.changes.remove(i);
                        proof {
                            assert(self@.inputs =~= old(self)@.inputs);
                            assert(self@.outputs =~= old(self)@.outputs);
                            assert(self@.changes =~= old(self)@.changes.remove(i as int));
                            assert(self@.witnesses =~= old(self)@.witnesses);
                        }
                        Ok(())
                    },
                }
            },
            Operation::Signature(witness) => {
                if !self.finalized {
                    return Err(TransactionError::CannotAddWitnessesToAnOpenedTransaction);
                }
                if self.witnesses.len() >= self.inputs.len() {
                    return Err(TransactionError::CannotAddMoreWitnessesThanInputs);
                }
                self.witnesses.push(witness);
                proof {
                    assert(self@.inputs =~= old(self)@.inputs);
                    assert(self@.outputs =~= old(self)@.outputs);
                    assert(self@.changes =~= old(self)@.changes);
                    assert(self@.witnesses =~= old(self)@.witnesses.push(witness@));
                }
                Ok(())
            },
            Operation::Finalize => {
                if self.finalized {
                    return Err(TransactionError::CannotFinalizeAFinalizedTransaction);
                }
                self.finalized = true;
                proof {
                    assert(self@.inputs =~= old(self)@.inputs);
                    assert(self@.outputs =~= old(self)@.outputs);
                    assert(self@.changes =~= old(self)@.changes);
                    assert(self@.witnesses =~= old(self)@.witnesses);
                }
                Ok(())
            },
        }
    }

    /// Closes the transaction; fails exactly when it is already closed.
    pub fn finalize(&mut self) -> (r: Result<(), TransactionError>)
        requires
            old(self).wf(),
        ensures
            final(self).wf(),
            r matches Ok(()) ==> !old(self)@.finalized && final(self)@ == (TransactionV {
                finalized: true,
                ..old(self)@
            }),
            r matches Err(e) ==> old(self)@.finalized && e
                == TransactionError::CannotFinalizeAFinalizedTransaction && final(self)@ == old(
                self,
            )@,
    {
        self.update_with(Operation::Finalize)
    }
}

proof fn lemma_find_input_first(s: Seq<InputV>, k: TxoPointerV, i: int)
    requires
        0 <= i < s.len(),
        s[i].spec_txin() == k,
        forall|j: int| 0 <= j < i ==> (#[trigger] s[j]).spec_txin() != k,
    ensures
        spec_find_input(s, k) == Some(i),
    decreases i,
{
    if i == 0 {
    } else {
        assert(s.skip(1)[i - 1] == s[i]);
        assert(forall|j: int| 0 <= j < i - 1 ==> (#[trigger] s.skip(1)[j]) == s[j + 1]);
        lemma_find_input_first(s.skip(1), k, i - 1);
    }
}

pub proof fn lemma_find_input_none(s: Seq<InputV>, k: TxoPointerV)
    requires
        forall|j: int| 0 <= j < s.len() ==> (#[trigger] s[j]).spec_txin() != k,
    ensures
        spec_find_input(s, k) is None,
    decreases s.len(),
{
    if s.len() > 0 {
        assert(forall|j: int| 0 <= j < s.skip(1).len() ==> (#[trigger] s.skip(1)[j]) == s[j + 1]);
        lemma_find_input_none(s.skip(1), k);
    }
}

proof fn lemma_find_change_first(s: Seq<ChangeV>, a: Seq<u8>, i: int)
    requires
        0 <= i < s.len(),
        s[i].address == a,
        forall|j: int| 0 <= j < i ==> (#[trigger] s[j]).address != a,
    ensures
        spec_find_change(s, a) == Some(i),
    decreases i,
{
    if i == 0 {
    } else {
        assert(s.skip(1)[i - 1] == s[i]);
        assert(forall|j: int| 0 <= j < i - 1 ==> (#[trigger] s.skip(1)[j]) == s[j + 1]);
        lemma_find_change_first(s.skip(1), a, i - 1);
    }
}

proof fn lemma_find_change_none(s: Seq<ChangeV>, a: Seq<u8>)
    requires
        forall|j: int| 0 <= j < s.len() ==> (#[trigger] s[j]).address != a,
    ensures
        spec_find_change(s, a) is None,
    decreases s.len(),
{
    if s.len() > 0 {
        assert(forall|j: int| 0 <= j < s.skip(1).len() ==> (#[trigger] s.skip(1)[j]) == s[j + 1]);
        lemma_find_change_none(s.skip(1), a);
    }
}

} // verus!
