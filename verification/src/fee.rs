//! The linear fee model, the assembled transaction, and the fee-aware
//! change policy.
//!
//! The fee of a transaction is linear in the size of its record: a
//! constant plus a coefficient per byte, both in thousandths of a coin,
//! rounded up to whole coins. The size is estimated over a transaction
//! carrying one placeholder witness per input, sized like a real one, so
//! the estimate does not move when the real signatures arrive. The size
//! itself is this model's own estimate — fixed costs per input, witness
//! and output — standing in for the byte length of the real record, whose
//! serialization lives outside the library.

use vstd::prelude::*;

use crate::coin::{Coin, CoinError, MAX_COIN};
use crate::transaction::{Transaction, TransactionError, TransactionV};
use crate::txop::{Input, InputV, Output, OutputV};

verus! {

/// Estimated bytes of a transaction record besides its inputs, outputs
/// and witnesses.
pub const TX_OVERHEAD_SIZE: u64 = 16;

/// Estimated bytes of one recorded input.
pub const INPUT_SIZE: u64 = 44;

/// Estimated bytes of one recorded output besides its address.
pub const OUTPUT_OVERHEAD_SIZE: u64 = 14;

/// Estimated bytes of one witness, real or placeholder.
pub const WITNESS_SIZE: u64 = 141;

/// The fee constant of the default model, in thousandths of a coin.
pub const DEFAULT_FEE_CONSTANT_MILLI: u64 = 155_381_000;

/// The fee coefficient of the default model, in thousandths of a coin per
/// byte.
pub const DEFAULT_FEE_COEFFICIENT_MILLI: u64 = 43_946;

/// Estimated size of the outputs' records.
pub open spec fn spec_outputs_size(outputs: Seq<OutputV>) -> int
    decreases outputs.len(),
{
    if outputs.len() == 0 {
        0
    } else {
        spec_outputs_size(outputs.drop_last()) + outputs.last().address.len()
            + OUTPUT_OVERHEAD_SIZE
    }
}

/// Estimated size of a transaction's record, placeholder witnesses
/// included: one per input, sized like a real witness.
pub open spec fn spec_estimated_size(t: TransactionV) -> int {
    TX_OVERHEAD_SIZE + t.inputs.len() * (INPUT_SIZE + WITNESS_SIZE) + spec_outputs_size(t.outputs)
}

/// Sum of the values the inputs are expected to carry.
pub open spec fn spec_input_total(inputs: Seq<InputV>) -> int
    decreases inputs.len(),
{
    if inputs.len() == 0 {
        0
    } else {
        spec_input_total(inputs.drop_last()) + inputs.last().expected_value
    }
}

/// Sum of the amounts the outputs send.
pub open spec fn spec_output_total(outputs: Seq<OutputV>) -> int
    decreases outputs.len(),
{
    if outputs.len() == 0 {
        0
    } else {
        spec_output_total(outputs.drop_last()) + outputs.last().amount
    }
}

/// A linear fee model: a constant plus a coefficient per byte, both in
/// thousandths of a coin.
#[derive(Clone, Copy, Debug, PartialEq, Eq, Structural)]
pub struct LinearFee {
    pub constant_milli: u64,
    pub coefficient_milli: u64,
}

impl Default for LinearFee {
    /// The default model.
    fn default() -> (r: LinearFee)
        ensures
            r.constant_milli == DEFAULT_FEE_CONSTANT_MILLI,
            r.coefficient_milli == DEFAULT_FEE_COEFFICIENT_MILLI,
    {
        LinearFee {
            constant_milli: DEFAULT_FEE_CONSTANT_MILLI,
            coefficient_milli: DEFAULT_FEE_COEFFICIENT_MILLI,
        }
    }
}

impl LinearFee {
    /// A model with the given constant and coefficient.
    pub fn new(constant_milli: u64, coefficient_milli: u64) -> (r: LinearFee)
        ensures
            r.constant_milli == constant_milli,
            r.coefficient_milli == coefficient_milli,
    {
        LinearFee { constant_milli, coefficient_milli }
    }

    /// The fee the model assigns to a record of the given size, in whole
    /// coins, rounded up.
    pub open spec fn spec_fee(self, size: int) -> int {
        (self.constant_milli + self.coefficient_milli * size + 999) / 1000
    }

    /// Computes the fee for a record of the given size; fails exactly when
    /// the fee leaves the coin domain.
    pub fn calculate(&self, size: u64) -> (r: Result<Coin, CoinError>)
        ensures
            self.spec_fee(size as int) <= MAX_COIN ==> (r matches Ok(c) && c.value
                == self.spec_fee(size as int)),
            self.spec_fee(size as int) > MAX_COIN ==> r == Err::<Coin, CoinError>(
                CoinError::OutOfBound,
            ),
    {
        proof {
            let c = self.coefficient_milli as u128;
            let z = size as u128;
            assert(c * z <= 0xFFFF_FFFF_FFFF_FFFFu128 * 0xFFFF_FFFF_FFFF_FFFFu128)
                by (nonlinear_arith)
                requires
                    c <= 0xFFFF_FFFF_FFFF_FFFFu128,
                    z <= 0xFFFF_FFFF_FFFF_FFFFu128,
            ;
        }
        let milli: u128 = (self.constant_milli as u128) + (self.coefficient_milli as u128) * (
        size as u128) + 999;
        let fee = milli / 1000;
        if fee > (MAX_COIN as u128) {
            Err(CoinError::OutOfBound)
        } else {
            let value = fee as u64;
            proof {
                assert(value == self.spec_fee(size as int));
            }
            Ok(Coin { value })
        }
    }
}

/// A transaction assembled for serialization: the inputs and outputs of a
/// staging transaction, change output included once the policy has run.
#[derive(Debug)]
pub struct TxBuilder {
    pub inputs: Vec<Input>,
    pub outputs: Vec<Output>,
}

impl View for TxBuilder {
    type V = TransactionV;

    open spec fn view(&self) -> TransactionV {
        TransactionV {
            inputs: Seq::new(self.inputs@.len(), |i: int| self.inputs@[i]@),
            outputs: Seq::new(self.outputs@.len(), |i: int| self.outputs@[i]@),
            changes: Seq::empty(),
            witnesses: Seq::empty(),
            finalized: false,
        }
    }
}

/// What the change policy decides for a transaction: the change output to
/// add, nothing, or a failure because the inputs cannot cover the outputs
/// and the fee.
pub open spec fn spec_change_of(t: TransactionV, fees: LinearFee, change_address: Seq<u8>) -> Result<
    Option<int>,
    TransactionError,
> {
    let size = spec_estimated_size(t) + change_address.len() + OUTPUT_OVERHEAD_SIZE;
    let fee = fees.spec_fee(size);
    let input_total = spec_input_total(t.inputs);
    let output_total = spec_output_total(t.outputs);
    if input_total >= output_total + fee {
        if input_total - output_total - fee > 0 {
            Ok(Some(input_total - output_total - fee))
        } else {
            Ok(None)
        }
    } else {
        Err(TransactionError::ErrorWhenApplyingOutputPolicy)
    }
}

/// The outputs never measure negative.
pub proof fn lemma_outputs_size_nonnegative(outputs: Seq<OutputV>)
    ensures
        spec_outputs_size(outputs) >= 0,
    decreases outputs.len(),
{
    if outputs.len() > 0 {
        lemma_outputs_size_nonnegative(outputs.drop_last());
    }
}

/// The value of the default fee model.
pub open spec fn spec_default_fee() -> LinearFee {
    LinearFee {
        constant_milli: DEFAULT_FEE_CONSTANT_MILLI,
        coefficient_milli: DEFAULT_FEE_COEFFICIENT_MILLI,
    }
}

/// Whether the change policy's arithmetic stays inside the machine and
/// coin domains: the record size with the change output, the fee over it,
/// and the two totals.
pub open spec fn spec_policy_in_domain(
    t: TransactionV,
    fees: LinearFee,
    change_address: Seq<u8>,
) -> bool {
    &&& spec_estimated_size(t) + change_address.len() + OUTPUT_OVERHEAD_SIZE <= u64::MAX
    &&& fees.spec_fee(spec_estimated_size(t) + change_address.len() + OUTPUT_OVERHEAD_SIZE)
        <= MAX_COIN
    &&& spec_input_total(t.inputs) <= MAX_COIN
    &&& spec_output_total(t.outputs) <= MAX_COIN
}

/// The outputs a transaction serializes with: its own, and the change
/// output the policy adds when exactly one change address is set and
/// leftover value exists.
pub open spec fn spec_assembled_outputs(t: TransactionV, fees: LinearFee) -> Seq<OutputV> {
    if t.changes.len() == 1 {
        match spec_change_of(t, fees, t.changes[0].address) {
            Ok(opt) => match opt {
                Some(c) => t.outputs.push(
                    OutputV { address: t.changes[0].address, amount: c as u64 },
                ),
                None => t.outputs,
            },
            Err(_) => t.outputs,
        }
    } else {
        t.outputs
    }
}

} // verus!
