//! Assembling a staging transaction for serialization and reporting its
//! status.

use vstd::prelude::*;

use crate::coin::{Coin, CoinError, MAX_COIN};
use crate::fee::{
    spec_assembled_outputs, spec_change_of, spec_default_fee, spec_estimated_size,
    spec_input_total, spec_output_total, spec_outputs_size, spec_policy_in_domain, LinearFee,
    TxBuilder, INPUT_SIZE, OUTPUT_OVERHEAD_SIZE, TX_OVERHEAD_SIZE, WITNESS_SIZE,
};
use crate::transaction::{Transaction, TransactionError, TransactionV};
use crate::txop::{Input, InputV, Output, OutputV};

verus! {

/// What `status` reports of a staging transaction: the totals, the
/// estimated record size, and the fee the model asks for it.
#[derive(Clone, Copy, Debug)]
pub struct StagingStatus {
    pub input_total: Coin,
    pub output_total: Coin,
    pub fee: Coin,
    pub tx_size: u64,
}

/// A prefix of the inputs never sums higher than all of them.
pub proof fn lemma_input_total_take_le(s: Seq<InputV>, i: int)
    requires
        0 <= i <= s.len(),
    ensures
        spec_input_total(s.take(i)) <= spec_input_total(s),
    decreases s.len() - i,
{
    if i == s.len() {
        assert(s.take(i) =~= s);
    } else {
        assert(s.take(i + 1).drop_last() =~= s.take(i));
        assert(s.take(i + 1).last() == s[i]);
        lemma_input_total_take_le(s, i + 1);
    }
}

/// A prefix of the outputs never sums higher than all of them.
proof fn lemma_output_total_take_le(s: Seq<OutputV>, i: int)
    requires
        0 <= i <= s.len(),
    ensures
        spec_output_total(s.take(i)) <= spec_output_total(s),
    decreases s.len() - i,
{
    if i == s.len() {
        assert(s.take(i) =~= s);
    } else {
        assert(s.take(i + 1).drop_last() =~= s.take(i));
        assert(s.take(i + 1).last() == s[i]);
        lemma_output_total_take_le(s, i + 1);
    }
}

/// A prefix of the outputs never measures longer than all of them.
proof fn lemma_outputs_size_take_le(s: Seq<OutputV>, i: int)
    requires
        0 <= i <= s.len(),
    ensures
        spec_outputs_size(s.take(i)) <= spec_outputs_size(s),
    decreases s.len() - i,
{
    if i == s.len() {
        assert(s.take(i) =~= s);
    } else {
        assert(s.take(i + 1).drop_last() =~= s.take(i));
        assert(s.take(i + 1).last() == s[i]);
        lemma_outputs_size_take_le(s, i + 1);
    }
}

/// Sums the values a sequence of inputs is expected to carry; fails
/// exactly when the sum leaves the coin domain.
pub fn input_total_of(inputs: &Vec<Input>) -> (r: Result<Coin, CoinError>)
    ensures
        spec_input_total(views_of_inputs(inputs@)) <= MAX_COIN ==> (r matches Ok(c) && c.value
            == spec_input_total(views_of_inputs(inputs@))),
        spec_input_total(views_of_inputs(inputs@)) > MAX_COIN ==> r == Err::<Coin, CoinError>(
            CoinError::OutOfBound,
        ),
{
    let ghost views = views_of_inputs(inputs@);
    let n = inputs.len();
    let mut acc: u64 = 0;
    let mut i: usize = 0;
    while i < n
        invariant
            i <= n,
            n == inputs@.len(),
            views == views_of_inputs(inputs@),
            acc == spec_input_total(views.take(i as int)),
            acc <= MAX_COIN,
        decreases n - i,
    {
        proof {
            assert(views.take(i + 1).drop_last() =~= views.take(i as int));
            assert(views.take(i + 1).last() == views[i as int]);
        }
        let v = inputs[i].expected_value.value;
        if v > MAX_COIN - acc {
            proof {
                lemma_input_total_take_le(views, i + 1);
            }
            return Err(CoinError::OutOfBound);
        }
        acc = acc + v;
        i += 1;
    }
    proof {
        assert(views.take(n as int) =~= views);
    }
    Ok(Coin { value: acc })
}

/// Sums the amounts a sequence of outputs sends; fails exactly when the
/// sum leaves the coin domain.
pub fn output_total_of(outputs: &Vec<Output>) -> (r: Result<Coin, CoinError>)
    ensures
        spec_output_total(views_of_outputs(outputs@)) <= MAX_COIN ==> (r matches Ok(c) && c.value
            == spec_output_total(views_of_outputs(outputs@))),
        spec_output_total(views_of_outputs(outputs@)) > MAX_COIN ==> r == Err::<Coin, CoinError>(
            CoinError::OutOfBound,
        ),
{
    let ghost views = views_of_outputs(outputs@);
    let n = outputs.len();
    let mut acc: u64 = 0;
    let mut i: usize = 0;
    while i < n
        invariant
            i <= n,
            n == outputs@.len(),
            views == views_of_outputs(outputs@),
            acc == spec_output_total(views.take(i as int)),
            acc <= MAX_COIN,
        decreases n - i,
    {
        proof {
            assert(views.take(i + 1).drop_last() =~= views.take(i as int));
            assert(views.take(i + 1).last() == views[i as int]);
        }
        let v = outputs[i].amount.value;
        if v > MAX_COIN - acc {
            proof {
                lemma_output_total_take_le(views, i + 1);
            }
            return Err(CoinError::OutOfBound);
        }
        acc = acc + v;
        i += 1;
    }
    proof {
        assert(views.take(n as int) =~= views);
    }
    Ok(Coin { value: acc })
}

/// The views of a sequence of inputs.
pub open spec fn views_of_inputs(s: Seq<Input>) -> Seq<InputV> {
    Seq::new(s.len(), |i: int| s[i]@)
}

/// The views of a sequence of outputs.
pub open spec fn views_of_outputs(s: Seq<Output>) -> Seq<OutputV> {
    Seq::new(s.len(), |i: int| s[i]@)
}

/// Measures the outputs' records; fails exactly when the measure leaves
/// the `u64` domain.
pub fn outputs_size_of(outputs: &Vec<Output>) -> (r: Option<u64>)
    ensures
        r matches Some(s) ==> s == spec_outputs_size(views_of_outputs(outputs@)),
        r is None ==> spec_outputs_size(views_of_outputs(outputs@)) > u64::MAX,
{
    let ghost views = views_of_outputs(outputs@);
    let n = outputs.len();
    let mut acc: u64 = 0;
    let mut i: usize = 0;
    while i < n
        invariant
            i <= n,
            n == outputs@.len(),
            views == views_of_outputs(outputs@),
            acc == spec_outputs_size(views.take(i as int)),
        decreases n - i,
    {
        proof {
            assert(views.take(i + 1).drop_last() =~= views.take(i as int));
            assert(views.take(i + 1).last() == views[i as int]);
        }
        let step: u128 = (outputs[i].address.len() as u128) + (OUTPUT_OVERHEAD_SIZE as u128);
        if (acc as u128) + step > (u64::MAX as u128) {
            proof {
                lemma_outputs_size_take_le(views, i + 1);
            }
            return None;
        }
        acc = acc + (outputs[i].address.len() as u64) + OUTPUT_OVERHEAD_SIZE;
        i += 1;
    }
    proof {
        assert(views.take(n as int) =~= views);
    }
    Some(acc)
}

impl Transaction {
    /// Estimated size of this transaction's record with one placeholder
    /// witness per input; fails exactly when the estimate leaves the
    /// `u64` domain.
    pub fn estimated_size(&self) -> (r: Option<u64>)
        ensures
            r matches Some(s) ==> s == spec_estimated_size(self@),
            r is None ==> spec_estimated_size(self@) > u64::MAX,
    {
        let outs = match outputs_size_of(&self.outputs) {
            None => {
                return None;
            },
            Some(s) => s,
        };
        proof {
            assert(views_of_outputs(self.outputs@) =~= self@.outputs);
        }
        let per_input: u128 = (INPUT_SIZE + WITNESS_SIZE) as u128;
        let total: u128 = (TX_OVERHEAD_SIZE as u128) + (self.inputs.len() as u128) * per_input + (
        outs as u128);
        if total > (u64::MAX as u128) {
            return None;
        }
        proof {
            assert(self@.inputs.len() == self.inputs@.len());
        }
        Some(total as u64)
    }

    /// Assembles the transaction for serialization. With exactly one
    /// change address set, the fee-aware change policy runs: whatever the
    /// inputs carry beyond the outputs and the fee goes to the change
    /// address, and the change outputs actually added are handed back
    /// beside the builder. Inputs that cannot cover outputs and fee are
    /// rejected. A failure can also come from a total or a size leaving
    /// its domain.
    pub fn mk_txbuilder_with(&self, fees: &LinearFee) -> (r: Result<
        (TxBuilder, Vec<Output>),
        TransactionError,
    >)
        requires
            self.wf(),
        ensures
            r matches Ok(p) ==> p.0@.inputs == self@.inputs,
            r matches Ok(p) ==> (self@.changes.len() != 1 ==> (p.0@.outputs == self@.outputs
                && p.1@.len() == 0)),
            r matches Ok(p) ==> (self@.changes.len() == 1 ==> {
                &&& spec_change_of(self@, *fees, self@.changes[0].address) matches Ok(opt)
                &&& match opt {
                    Some(c) => p.0@.outputs == self@.outputs.push(
                        OutputV { address: self@.changes[0].address, amount: c as u64 },
                    ) && p.1@.len() == 1 && p.1@[0]@ == (OutputV {
                        address: self@.changes[0].address,
                        amount: c as u64,
                    }),
                    None => p.0@.outputs == self@.outputs && p.1@.len() == 0,
                }
            }),
            self@.changes.len() == 1 && spec_change_of(self@, *fees, self@.changes[0].address)
                is Err ==> r is Err,
            self@.changes.len() != 1 ==> r is Ok,
            (self@.changes.len() == 1 && spec_change_of(self@, *fees, self@.changes[0].address)
                is Ok && spec_policy_in_domain(self@, *fees, self@.changes[0].address)) ==> r
                is Ok,
    {
        proof {
            crate::fee::lemma_outputs_size_nonnegative(self@.outputs);
            assert(views_of_inputs(self.inputs@) =~= self@.inputs);
            assert(views_of_outputs(self.outputs@) =~= self@.outputs);
        }
        let mut inputs: Vec<Input> = Vec::new();
        let mut outputs: Vec<Output> = Vec::new();
        let n_in = self.inputs.len();
        let mut i: usize = 0;
        while i < n_in
            invariant
                i <= n_in,
                n_in == self.inputs@.len(),
                inputs@.len() == i,
                forall|k: int| 0 <= k < i ==> (#[trigger] inputs@[k])@ == self@.inputs[k],
            decreases n_in - i,
        {
            inputs.push(self.inputs[i].duplicate());
            i += 1;
        }
        proof {
            assert(views_of_inputs(inputs@) =~= self@.inputs);
        }
        let n_out = self.outputs.len();
        let mut j: usize = 0;
        while j < n_out
            invariant
                j <= n_out,
                n_out == self.outputs@.len(),
                outputs@.len() == j,
                forall|k: int| 0 <= k < j ==> (#[trigger] outputs@[k])@ == self@.outputs[k],
            decreases n_out - j,
        {
            outputs.push(self.outputs[j].duplicate());
            j += 1;
        }
        proof {
            assert(views_of_outputs(outputs@) =~= self@.outputs);
        }
        let mut changes_used: Vec<Output> = Vec::new();
        if self.changes.len() == 1 {
            let change_address = &self.changes[0].address;
            let size = match self.estimated_size() {
                None => {
                    return Err(TransactionError::ErrorWhenApplyingOutputPolicy);
                },
                Some(s) => s,
            };
            let with_change: u128 = (size as u128) + (change_address.len() as u128) + (
            OUTPUT_OVERHEAD_SIZE as u128);
            if with_change > (u64::MAX as u128) {
                return Err(TransactionError::ErrorWhenApplyingOutputPolicy);
            }
            let fee = match LinearFee::new(fees.constant_milli, fees.coefficient_milli).calculate(
                with_change as u64,
            ) {
                Err(_) => {
                    return Err(TransactionError::ErrorWhenApplyingOutputPolicy);
                },
                Ok(c) => c,
            };
            let input_total = match input_total_of(&self.inputs) {
                Err(_) => {
                    return Err(TransactionError::ErrorWhenApplyingOutputPolicy);
                },
                Ok(c) => c,
            };
            let output_total = match output_total_of(&self.outputs) {
                Err(_) => {
                    return Err(TransactionError::ErrorWhenApplyingOutputPolicy);
                },
                Ok(c) => c,
            };
            proof {
                assert(views_of_inputs(self.inputs@) =~= self@.inputs);
                assert(views_of_outputs(self.outputs@) =~= self@.outputs);
            }
            if input_total.value < output_total.value || input_total.value - output_total.value
                < fee.value {
                return Err(TransactionError::ErrorWhenApplyingOutputPolicy);
            }
            let change = input_total.value - output_total.value - fee.value;
            if change > 0 {
                let out = Output {
                    address: crate::bytes::copy_bytes(change_address),
                    amount: Coin { value: change },
                };
                outputs.push(out.duplicate());
                changes_used.push(out);
                proof {
                    assert(views_of_outputs(outputs@) =~= self@.outputs.push(
                        OutputV { address: self@.changes[0].address, amount: change },
                    ));
                }
            }
        }
        Ok((TxBuilder { inputs, outputs }, changes_used))
    }

    /// Assembles the transaction under the default fee model, with the
    /// same contract as `mk_txbuilder_with`.
    pub fn mk_txbuilder(&self) -> (r: Result<(TxBuilder, Vec<Output>), TransactionError>)
        requires
            self.wf(),
        ensures
            r matches Ok(p) ==> p.0@.inputs == self@.inputs,
            r matches Ok(p) ==> (self@.changes.len() != 1 ==> (p.0@.outputs == self@.outputs
                && p.1@.len() == 0)),
            r matches Ok(p) ==> (self@.changes.len() == 1 ==> {
                &&& spec_change_of(self@, spec_default_fee(), self@.changes[0].address) matches Ok(
                    opt,
                )
                &&& match opt {
                    Some(c) => p.0@.outputs == self@.outputs.push(
                        OutputV { address: self@.changes[0].address, amount: c as u64 },
                    ) && p.1@.len() == 1 && p.1@[0]@ == (OutputV {
                        address: self@.changes[0].address,
                        amount: c as u64,
                    }),
                    None => p.0@.outputs == self@.outputs && p.1@.len() == 0,
                }
            }),
            self@.changes.len() == 1 && spec_change_of(
                self@,
                spec_default_fee(),
                self@.changes[0].address,
            ) is Err ==> r is Err,
            self@.changes.len() != 1 ==> r is Ok,
            (self@.changes.len() == 1 && spec_change_of(
                self@,
                spec_default_fee(),
                self@.changes[0].address,
            ) is Ok && spec_policy_in_domain(self@, spec_default_fee(), self@.changes[0].address))
                ==> r is Ok,
    {
        let fees = LinearFee::new(
            crate::fee::DEFAULT_FEE_CONSTANT_MILLI,
            crate::fee::DEFAULT_FEE_COEFFICIENT_MILLI,
        );
        proof {
            assert(fees == spec_default_fee());
        }
        self.mk_txbuilder_with(&fees)
    }

    /// Assembles the transaction for signing, exactly as `mk_txbuilder`
    /// does: the transaction must be finalized, and must have at least one
    /// input and one output.
    pub fn mk_finalized(&self) -> (r: Result<(TxBuilder, Vec<Output>), TransactionError>)
        requires
            self.wf(),
        ensures
            !self@.finalized ==> r == Err::<(TxBuilder, Vec<Output>), TransactionError>(
                TransactionError::TransactionNotFinalized,
            ),
            r matches Ok(p) ==> self@.finalized && p.0@.inputs == self@.inputs
                && p.0@.inputs.len() > 0 && p.0@.outputs.len() > 0,
            r matches Ok(p) ==> (self@.changes.len() != 1 ==> (p.0@.outputs == self@.outputs
                && p.1@.len() == 0)),
            r matches Ok(p) ==> (self@.changes.len() == 1 ==> {
                &&& spec_change_of(self@, spec_default_fee(), self@.changes[0].address) matches Ok(
                    opt,
                )
                &&& match opt {
                    Some(c) => p.0@.outputs == self@.outputs.push(
                        OutputV { address: self@.changes[0].address, amount: c as u64 },
                    ) && p.1@.len() == 1 && p.1@[0]@ == (OutputV {
                        address: self@.changes[0].address,
                        amount: c as u64,
                    }),
                    None => p.0@.outputs == self@.outputs && p.1@.len() == 0,
                }
            }),
            (self@.finalized && self@.inputs.len() > 0 && self@.outputs.len() > 0 && (
            self@.changes.len() == 1 ==> (spec_change_of(
                self@,
                spec_default_fee(),
                self@.changes[0].address,
            ) is Ok && spec_policy_in_domain(self@, spec_default_fee(), self@.changes[0].address))))
                ==> r is Ok,
    {
        if !self.is_finalized() {
            return Err(TransactionError::TransactionNotFinalized);
        }
        let (builder, changes_used) = match self.mk_txbuilder() {
            Err(e) => {
                return Err(e);
            },
            Ok(p) => p,
        };
        if builder.inputs.len() == 0 || builder.outputs.len() == 0 {
            proof {
                assert(builder@.inputs.len() == self@.inputs.len());
                if self@.changes.len() == 1 {
                    assert(builder@.outputs.len() >= self@.outputs.len());
                } else {
                    assert(builder@.outputs.len() == self@.outputs.len());
                }
            }
            return Err(TransactionError::CannotBuildTxFromBuilder);
        }
        Ok((builder, changes_used))
    }

    /// Reports the staging totals: what the inputs carry, what the
    /// assembled outputs send (change included), the estimated record
    /// size, and the fee the model asks for it.
    pub fn status(&self, fees: &LinearFee) -> (r: Result<StagingStatus, TransactionError>)
        requires
            self.wf(),
        ensures
            r matches Ok(st) ==> {
                &&& st.input_total.value == spec_input_total(self@.inputs)
                &&& st.tx_size == spec_estimated_size(self@)
                &&& st.fee.value == fees.spec_fee(spec_estimated_size(self@))
                &&& st.output_total.value == spec_output_total(
                    spec_assembled_outputs(self@, *fees),
                )
            },
            ({
                &&& (self@.changes.len() == 1 ==> (spec_change_of(
                    self@,
                    *fees,
                    self@.changes[0].address,
                ) is Ok && spec_policy_in_domain(self@, *fees, self@.changes[0].address)))
                &&& spec_estimated_size(self@) <= u64::MAX
                &&& fees.spec_fee(spec_estimated_size(self@)) <= MAX_COIN
                &&& spec_input_total(self@.inputs) <= MAX_COIN
                &&& spec_output_total(spec_assembled_outputs(self@, *fees)) <= MAX_COIN
            }) ==> r is Ok,
    {
        proof {
            crate::fee::lemma_outputs_size_nonnegative(self@.outputs);
            assert(views_of_inputs(self.inputs@) =~= self@.inputs);
            assert(views_of_outputs(self.outputs@) =~= self@.outputs);
        }
        let (builder, _changes_used) = match self.mk_txbuilder_with(fees) {
            Err(e) => {
                return Err(e);
            },
            Ok(p) => p,
        };
        let input_total = match input_total_of(&self.inputs) {
            Err(_) => {
                return Err(TransactionError::ErrorWhenApplyingOutputPolicy);
            },
            Ok(c) => c,
        };
        proof {
            assert(views_of_outputs(builder.outputs@) == builder@.outputs);
            assert(builder@.outputs == spec_assembled_outputs(self@, *fees));
        }
        let output_total = match output_total_of(&builder.outputs) {
            Err(_) => {
                return Err(TransactionError::ErrorWhenApplyingOutputPolicy);
            },
            Ok(c) => c,
        };
        let size = match self.estimated_size() {
            None => {
                return Err(TransactionError::ErrorWhenApplyingOutputPolicy);
            },
            Some(s) => s,
        };
        let fee = match fees.calculate(size) {
            Err(_) => {
                return Err(TransactionError::ErrorWhenApplyingOutputPolicy);
            },
            Ok(c) => c,
        };
        proof {
            assert(views_of_inputs(self.inputs@) =~= self@.inputs);
        }
        Ok(StagingStatus { input_total, output_total, fee, tx_size: size })
    }
}

} // verus!
