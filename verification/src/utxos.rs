//! The collection of unspent outputs a wallet state owns.
//!
//! The collection is keyed by the transaction output pointer of each
//! record; it never holds two records for the same pointer.

use vstd::prelude::*;

use crate::address::{Address, AddressV};
use crate::bytes::bytes_eq;
use crate::utxo::{TxoPointer, TxoPointerV, UTxO, UTxOV};

verus! {

/// Compares two addressings for equality of their values.
pub fn address_eq(a: &Address, b: &Address) -> (r: bool)
    ensures
        r == (a@ == b@),
{
    match (a, b) {
        (Address::Bip44(x), Address::Bip44(y)) => {
            x.account == y.account && x.change == y.change && x.index == y.index
        },
        (Address::RIndex(x), Address::RIndex(y)) => x.account == y.account && x.index == y.index,
        (Address::Raw(x), Address::Raw(y)) => bytes_eq(x, y),
        _ => false,
    }
}

/// Compares two output records for equality of their values.
pub fn utxo_eq(a: &UTxO<Address>, b: &UTxO<Address>) -> (r: bool)
    ensures
        r == (a@ == b@),
{
    let r = bytes_eq(&a.transaction_id, &b.transaction_id) && a.index_in_transaction
        == b.index_in_transaction && bytes_eq(&a.credited_address, &b.credited_address)
        && address_eq(&a.credited_addressing, &b.credited_addressing) && a.credited_value.value
        == b.credited_value.value;
    r
}

/// The first position holding the given pointer, if any.
pub open spec fn spec_find_txin(s: Seq<UTxOV<AddressV>>, k: TxoPointerV) -> Option<int>
    decreases s.len(),
{
    if s.len() == 0 {
        None
    } else if s[0].spec_txin() == k {
        Some(0)
    } else {
        match spec_find_txin(s.skip(1), k) {
            None => None,
            Some(i) => Some(i + 1),
        }
    }
}

/// Sum of the credited values of the records.
pub open spec fn spec_sum(s: Seq<UTxOV<AddressV>>) -> int
    decreases s.len(),
{
    if s.len() == 0 {
        0
    } else {
        s[0].credited_value + spec_sum(s.skip(1))
    }
}

/// Every record well formed, and no pointer held twice.
pub open spec fn spec_utxos_wf(s: Seq<UTxOV<AddressV>>) -> bool {
    &&& forall|i: int|
        0 <= i < s.len() ==> (#[trigger] s[i]).transaction_id.len()
            == crate::ptr::HASH_SIZE && s[i].credited_value <= crate::coin::MAX_COIN
    &&& forall|i: int, j: int|
        0 <= i < j < s.len() ==> (#[trigger] s[i]).spec_txin() != (#[trigger] s[j]).spec_txin()
}

/// The unspent outputs owned by a wallet state, keyed by the transaction
/// output pointer of each record.
#[derive(Clone, Debug, PartialEq, Eq)]
pub struct UTxOs {
    pub entries: Vec<UTxO<Address>>,
}

impl View for UTxOs {
    type V = Seq<UTxOV<AddressV>>;

    open spec fn view(&self) -> Seq<UTxOV<AddressV>> {
        Seq::new(self.entries@.len(), |i: int| self.entries@[i]@)
    }
}

impl UTxOs {
    /// The collection invariant: records well formed, pointers unique.
    pub open spec fn wf(self) -> bool {
        spec_utxos_wf(self@)
    }

    /// The empty collection.
    pub fn new() -> (r: UTxOs)
        ensures
            r@ == Seq::<UTxOV<AddressV>>::empty(),
            r.wf(),
    {
        let r = UTxOs { entries: Vec::new() };
        proof {
            assert(r@ =~= Seq::<UTxOV<AddressV>>::empty());
        }
        r
    }

    /// How many records the collection holds.
    pub fn len(&self) -> (r: usize)
        ensures
            r == self@.len(),
    {
        self.entries.len()
    }

    /// The record at the given position.
    pub fn index(&self, i: usize) -> (r: &UTxO<Address>)
        requires
            i < self@.len(),
        ensures
            r@ == self@[i as int],
    {
        &self.entries[i]
    }

    /// The position of the record for the given pointer, if one is held.
    pub fn find(&self, txin: &TxoPointer) -> (r: Option<usize>)
        ensures
            r matches Some(i) ==> i < self@.len() && spec_find_txin(self@, txin@) == Some(
                i as int,
            ) && self@[i as int].spec_txin() == txin@,
            r is None ==> spec_find_txin(self@, txin@) is None,
    {
        let n = self.entries.len();
        let mut i: usize = 0;
        while i < n
            invariant
                i <= n,
                n == self@.len(),
                forall|j: int| 0 <= j < i ==> (#[trigger] self@[j]).spec_txin() != txin@,
            decreases n - i,
        {
            let e = &self.entries[i];
            if e.index_in_transaction == txin.index && bytes_eq(&e.transaction_id, &txin.id) {
                proof {
                    assert(self@[i as int].spec_txin() == txin@);
                    lemma_find_first(self@, txin@, i as int);
                }
                return Some(i);
            }
            proof {
                assert(self@[i as int].spec_txin() != txin@);
            }
            i += 1;
        }
        proof {
            lemma_find_none(self@, txin@);
        }
        None
    }

    /// The record held for the given pointer, if any.
    pub fn get(&self, txin: &TxoPointer) -> (r: Option<&UTxO<Address>>)
        ensures
            r matches Some(u) ==> exists|i: int|
                spec_find_txin(self@, txin@) == Some(i) && 0 <= i < self@.len() && self@[i] == u@
                    && u@.spec_txin() == txin@,
            r is None ==> spec_find_txin(self@, txin@) is None,
    {
        match self.find(txin) {
            Some(i) => Some(&self.entries[i]),
            None => None,
        }
    }

    /// Adds a record under its own pointer. If the pointer is already
    /// held, the held record is replaced and handed back.
    pub fn insert(&mut self, utxo: UTxO<Address>) -> (r: Option<UTxO<Address>>)
        requires
            old(self).wf(),
            utxo.wf(),
        ensures
            final(self).wf(),
            r matches Some(prev) ==> {
                &&& spec_find_txin(old(self)@, utxo@.spec_txin()) matches Some(i) && old(
                    self,
                )@[i] == prev@ && final(self)@ == old(self)@.update(i, utxo@)
            },
            r is None ==> spec_find_txin(old(self)@, utxo@.spec_txin()) is None && final(self)@
                == old(self)@.push(utxo@),
    {
        let txin = utxo.extract_txin();
        match self.find(&txin) {
            Some(i) => {
                let prev = self.entries.remove(i);
                self.entries.insert(i, utxo);
                proof {
                    assert(self@ =~= old(self)@.update(i as int, utxo@));
                    assert forall|a: int, b: int| 0 <= a < b < self@.len() implies (
                    #[trigger] self@[a]).spec_txin() != (#[trigger] self@[b]).spec_txin() by {
                        assert(old(self)@[a].spec_txin() != old(self)@[b].spec_txin());
                        assert(self@[a] == if a == i as int {
                            utxo@
                        } else {
                            old(self)@[a]
                        });
                        assert(self@[b] == if b == i as int {
                            utxo@
                        } else {
                            old(self)@[b]
                        });
                    }
                    assert forall|a: int| 0 <= a < self@.len() implies (
                    #[trigger] self@[a]).transaction_id.len() == crate::ptr::HASH_SIZE
                        && self@[a].credited_value <= crate::coin::MAX_COIN by {
                        assert(self@[a] == if a == i as int {
                            utxo@
                        } else {
                            old(self)@[a]
                        });
                    }
                }
                Some(prev)
            },
            None => {
                proof {
                    lemma_find_none_full(old(self)@, utxo@.spec_txin());
                }
                self.entries.push(utxo);
                proof {
                    assert(self@ =~= old(self)@.push(utxo@));
                    assert forall|a: int, b: int| 0 <= a < b < self@.len() implies (
                    #[trigger] self@[a]).spec_txin() != (#[trigger] self@[b]).spec_txin() by {
                        if b < self@.len() - 1 {
                            assert(old(self)@[a].spec_txin() != old(self)@[b].spec_txin());
                        } else {
                            assert(self@[b] == utxo@);
                            assert(self@[a] == old(self)@[a]);
                        }
                    }
                }
                None
            },
        }
    }

    /// The owned outputs as selectable inputs: each record becomes the
    /// input spending it, carrying its credited value.
    pub fn to_inputs(&self) -> (r: Vec<crate::txop::Input>)
        requires
            self.wf(),
        ensures
            r@.len() == self@.len(),
            forall|i: int|
                0 <= i < r@.len() ==> ((#[trigger] r@[i])@.spec_txin() == self@[i].spec_txin()
                    && r@[i]@.expected_value == self@[i].credited_value && r@[i].wf()),
    {
        let n = self.entries.len();
        let mut out: Vec<crate::txop::Input> = Vec::new();
        let mut i: usize = 0;
        while i < n
            invariant
                i <= n,
                n == self@.len(),
                self.wf(),
                out@.len() == i,
                forall|j: int|
                    0 <= j < i ==> (#[trigger] out@[j])@.spec_txin() == self@[j].spec_txin()
                        && out@[j]@.expected_value == self@[j].credited_value && out@[j].wf(),
            decreases n - i,
        {
            let u = &self.entries[i];
            out.push(
                crate::txop::Input {
                    transaction_id: crate::bytes::copy_bytes(&u.transaction_id),
                    index_in_transaction: u.index_in_transaction,
                    expected_value: u.credited_value,
                },
            );
            i += 1;
        }
        out
    }

    /// Takes the record held for the given pointer out of the collection.
    pub fn remove(&mut self, txin: &TxoPointer) -> (r: Option<UTxO<Address>>)
        requires
            old(self).wf(),
        ensures
            final(self).wf(),
            r matches Some(u) ==> {
                &&& spec_find_txin(old(self)@, txin@) matches Some(i) && old(self)@[i] == u@
                    && final(self)@ == old(self)@.remove(i)
            },
            r is None ==> spec_find_txin(old(self)@, txin@) is None && final(self)@ == old(
                self,
            )@,
    {
        match self.find(txin) {
            Some(i) => {
                let u = self.entries.remove(i);
                proof {
                    assert(self@ =~= old(self)@.remove(i as int));
                }
                Some(u)
            },
            None => None,
        }
    }
}

/// A record found at `i` with no earlier record holding the pointer is the
/// first one.
proof fn lemma_find_first(s: Seq<UTxOV<AddressV>>, k: TxoPointerV, i: int)
    requires
        0 <= i < s.len(),
        s[i].spec_txin() == k,
        forall|j: int| 0 <= j < i ==> (#[trigger] s[j]).spec_txin() != k,
    ensures
        spec_find_txin(s, k) == Some(i),
    decreases i,
{
    if i == 0 {
    } else {
        assert(s[0].spec_txin() != k);
        assert(s.skip(1)[i - 1] == s[i]);
        assert(forall|j: int| 0 <= j < i - 1 ==> (#[trigger] s.skip(1)[j]) == s[j + 1]);
        lemma_find_first(s.skip(1), k, i - 1);
    }
}

/// When no record holds the pointer, the search comes back empty.
proof fn lemma_find_none(s: Seq<UTxOV<AddressV>>, k: TxoPointerV)
    requires
        forall|j: int| 0 <= j < s.len() ==> (#[trigger] s[j]).spec_txin() != k,
    ensures
        spec_find_txin(s, k) is None,
    decreases s.len(),
{
    if s.len() > 0 {
        assert(forall|j: int| 0 <= j < s.skip(1).len() ==> (#[trigger] s.skip(1)[j]) == s[j + 1]);
        lemma_find_none(s.skip(1), k);
    }
}

/// When the search comes back empty, no record holds the pointer.
pub proof fn lemma_find_none_full(s: Seq<UTxOV<AddressV>>, k: TxoPointerV)
    requires
        spec_find_txin(s, k) is None,
    ensures
        forall|j: int| 0 <= j < s.len() ==> (#[trigger] s[j]).spec_txin() != k,
    decreases s.len(),
{
    if s.len() > 0 {
        lemma_find_none_full(s.skip(1), k);
        assert forall|j: int| 0 <= j < s.len() implies (#[trigger] s[j]).spec_txin() != k by {
            if j > 0 {
                assert(s.skip(1)[j - 1] == s[j]);
            }
        }
    }
}

/// A found position indeed holds the pointer.
pub proof fn lemma_find_some(s: Seq<UTxOV<AddressV>>, k: TxoPointerV)
    requires
        spec_find_txin(s, k) is Some,
    ensures
        0 <= spec_find_txin(s, k).unwrap() < s.len(),
        s[spec_find_txin(s, k).unwrap()].spec_txin() == k,
    decreases s.len(),
{
    if s.len() > 0 && s[0].spec_txin() != k {
        lemma_find_some(s.skip(1), k);
    }
}

/// Copies an output record.
pub fn duplicate_utxo(u: &UTxO<Address>) -> (r: UTxO<Address>)
    ensures
        r@ == u@,
        r.credited_value == u.credited_value,
{
    UTxO {
        transaction_id: crate::bytes::copy_bytes(&u.transaction_id),
        index_in_transaction: u.index_in_transaction,
        credited_address: crate::bytes::copy_bytes(&u.credited_address),
        credited_addressing: u.credited_addressing.duplicate(),
        credited_value: u.credited_value,
    }
}

/// Appending a record grows the sum by its value.
pub proof fn lemma_sum_push(s: Seq<UTxOV<AddressV>>, u: UTxOV<AddressV>)
    ensures
        spec_sum(s.push(u)) == spec_sum(s) + u.credited_value,
    decreases s.len(),
{
    if s.len() == 0 {
        assert(s.push(u).skip(1) =~= Seq::<UTxOV<AddressV>>::empty());
        assert(s.push(u)[0] == u);
        assert(spec_sum(s.push(u)) == u.credited_value + spec_sum(
            Seq::<UTxOV<AddressV>>::empty(),
        ));
        assert(spec_sum(Seq::<UTxOV<AddressV>>::empty()) == 0);
        assert(spec_sum(s) == 0);
    } else {
        assert(s.push(u).skip(1) =~= s.skip(1).push(u));
        assert(s.push(u)[0] == s[0]);
        lemma_sum_push(s.skip(1), u);
        assert(spec_sum(s.push(u)) == s[0].credited_value + spec_sum(s.skip(1).push(u)));
        assert(spec_sum(s) == s[0].credited_value + spec_sum(s.skip(1)));
    }
}

/// Taking a record out lowers the sum by its value.
pub proof fn lemma_sum_remove(s: Seq<UTxOV<AddressV>>, i: int)
    requires
        0 <= i < s.len(),
    ensures
        spec_sum(s.remove(i)) == spec_sum(s) - s[i].credited_value,
    decreases i,
{
    if i == 0 {
        assert(s.remove(0) =~= s.skip(1));
    } else {
        assert(s.remove(i)[0] == s[0]);
        assert(s.remove(i).skip(1) =~= s.skip(1).remove(i - 1));
        assert(s.skip(1)[i - 1] == s[i]);
        lemma_sum_remove(s.skip(1), i - 1);
    }
}

/// The sum of a prefix never exceeds the sum of the whole.
pub proof fn lemma_sum_take_le(s: Seq<UTxOV<AddressV>>, i: int)
    requires
        0 <= i <= s.len(),
        forall|j: int| 0 <= j < s.len() ==> (#[trigger] s[j]).credited_value >= 0,
    ensures
        spec_sum(s.take(i)) <= spec_sum(s),
    decreases s.len(),
{
    if s.len() == 0 {
        assert(s.take(i) =~= s);
    } else if i == 0 {
        assert(s.take(0) =~= Seq::<UTxOV<AddressV>>::empty());
        lemma_sum_nonneg(s);
    } else {
        assert(s.take(i)[0] == s[0]);
        assert(s.take(i).skip(1) =~= s.skip(1).take(i - 1));
        lemma_sum_take_le(s.skip(1), i - 1);
    }
}

/// A sum of non-negative values is non-negative.
pub proof fn lemma_sum_nonneg(s: Seq<UTxOV<AddressV>>)
    requires
        forall|j: int| 0 <= j < s.len() ==> (#[trigger] s[j]).credited_value >= 0,
    ensures
        spec_sum(s) >= 0,
    decreases s.len(),
{
    if s.len() > 0 {
        lemma_sum_nonneg(s.skip(1));
    }
}

/// The sum grows by one record's value at each step of a walk.
pub proof fn lemma_sum_take_snoc(s: Seq<UTxOV<AddressV>>, i: int)
    requires
        0 <= i < s.len(),
    ensures
        spec_sum(s.take(i + 1)) == spec_sum(s.take(i)) + s[i].credited_value,
    decreases i,
{
    if i == 0 {
        assert(s.take(0) =~= Seq::<UTxOV<AddressV>>::empty());
        assert(s.take(1).skip(1) =~= Seq::<UTxOV<AddressV>>::empty());
        assert(s.take(1)[0] == s[0]);
    } else {
        assert(s.take(i + 1)[0] == s[0]);
        assert(s.take(i)[0] == s[0]);
        assert(s.take(i + 1).skip(1) =~= s.skip(1).take(i));
        assert(s.take(i).skip(1) =~= s.skip(1).take(i - 1));
        assert(s.skip(1)[i - 1] == s[i]);
        lemma_sum_take_snoc(s.skip(1), i - 1);
    }
}

} // verus!
