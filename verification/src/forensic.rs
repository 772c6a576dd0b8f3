//! Counters gathered while walking a chain for inspection.

use vstd::prelude::*;

use crate::fee::TxBuilder;
use crate::txop::OutputV;

verus! {

/// Sum of the address byte lengths over the outputs.
pub open spec fn spec_address_bytes(outputs: Seq<OutputV>) -> int
    decreases outputs.len(),
{
    if outputs.len() == 0 {
        0
    } else {
        spec_address_bytes(outputs.drop_last()) + outputs.last().address.len()
    }
}

/// Running totals over the transactions walked so far: how many output
/// addresses were seen, how many bytes they take together, and how many
/// witnesses came with them.
#[derive(Clone, Copy, Debug, PartialEq, Eq, Structural)]
pub struct World {
    pub nb_address: usize,
    pub address_total_size: usize,
    pub nb_witnesses: usize,
}

impl World {
    /// All counters at zero.
    pub fn new() -> (r: World)
        ensures
            r.nb_address == 0,
            r.address_total_size == 0,
            r.nb_witnesses == 0,
    {
        World { nb_address: 0, address_total_size: 0, nb_witnesses: 0 }
    }

    /// Counts one transaction's outputs and witnesses into the totals.
    pub fn transaction(&mut self, tx: &TxBuilder, witnesses: usize)
        requires
            old(self).nb_address + tx@.outputs.len() <= usize::MAX,
            old(self).address_total_size + spec_address_bytes(tx@.outputs) <= usize::MAX,
            old(self).nb_witnesses + witnesses <= usize::MAX,
        ensures
            final(self).nb_address == old(self).nb_address + tx@.outputs.len(),
            final(self).address_total_size == old(self).address_total_size + spec_address_bytes(
                tx@.outputs,
            ),
            final(self).nb_witnesses == old(self).nb_witnesses + witnesses,
    {
        let n = tx.outputs.len();
        let mut i: usize = 0;
        proof {
            lemma_address_bytes_take_le(tx@.outputs, 0);
        }
        while i < n
            invariant
                i <= n,
                n == tx@.outputs.len(),
                old(self).address_total_size + spec_address_bytes(tx@.outputs) <= usize::MAX,
                self.nb_address == old(self).nb_address,
                self.nb_witnesses == old(self).nb_witnesses,
                self.address_total_size == old(self).address_total_size + spec_address_bytes(
                    tx@.outputs.take(i as int),
                ),
            decreases n - i,
        {
            proof {
                assert(tx@.outputs.take(i + 1).drop_last() =~= tx@.outputs.take(i as int));
                assert(tx@.outputs.take(i + 1).last() == tx@.outputs[i as int]);
                lemma_address_bytes_take_le(tx@.outputs, i + 1);
                lemma_address_bytes_nonneg(tx@.outputs.take(i as int));
            }
            self.address_total_size = self.address_total_size + tx.outputs[i].address.len();
            i += 1;
        }
        proof {
            assert(tx@.outputs.take(n as int) =~= tx@.outputs);
        }
        self.nb_address = self.nb_address + n;
        self.nb_witnesses = self.nb_witnesses + witnesses;
    }
}

/// A prefix never takes more address bytes than the whole.
proof fn lemma_address_bytes_take_le(s: Seq<OutputV>, i: int)
    requires
        0 <= i <= s.len(),
    ensures
        spec_address_bytes(s.take(i)) <= spec_address_bytes(s),
    decreases s.len() - i,
{
    if i == s.len() {
        assert(s.take(i) =~= s);
    } else {
        assert(s.take(i + 1).drop_last() =~= s.take(i));
        assert(s.take(i + 1).last() == s[i]);
        lemma_address_bytes_take_le(s, i + 1);
    }
}

/// Address bytes never count negative.
proof fn lemma_address_bytes_nonneg(s: Seq<OutputV>)
    ensures
        spec_address_bytes(s) >= 0,
    decreases s.len(),
{
    if s.len() > 0 {
        lemma_address_bytes_nonneg(s.drop_last());
    }
}

} // verus!
