//! Coin selection: choosing which owned outputs fund a transaction.
//!
//! Three interchangeable strategies choose from the same available inputs:
//! largest-first takes the available inputs by descending value,
//! head-first takes them in the order given, and the exact-match strategy
//! looks for a set whose total lands within an accepted loss of the
//! target, to avoid a change output. The first two accumulate greedily
//! until the selected inputs cover the outputs plus the fee, which is
//! recomputed as inputs are added, since the fee depends on the record
//! size. Every strategy fails explicitly when the available inputs cannot
//! cover the outputs and the fee.

use vstd::multiset::Multiset;
use vstd::prelude::*;

use crate::coin::{Coin, MAX_COIN};
use crate::fee::{
    spec_input_total, spec_output_total, spec_outputs_size, LinearFee, INPUT_SIZE,
    OUTPUT_OVERHEAD_SIZE, TX_OVERHEAD_SIZE, WITNESS_SIZE,
};
use crate::txbuild::{views_of_inputs, views_of_outputs};
use crate::txop::{Input, InputV, Output, OutputV};

verus! {

/// Errors of coin selection.
#[derive(Clone, Copy, Debug, PartialEq, Eq, Structural)]
pub enum SelectionError {
    /// No allowed set of the available inputs covers the outputs and the
    /// fee.
    NotEnoughInput,
}

/// What a strategy hands back: the chosen inputs, the fee estimated for
/// the record they make, and the change that would return to the spender.
#[derive(Debug)]
pub struct SelectionResult {
    pub selected_inputs: Vec<Input>,
    pub estimated_fees: Coin,
    pub estimated_change: Option<Coin>,
}

/// Estimated record size of a transaction funded by `k` inputs, sending
/// the outputs, plus `extra` bytes (a change output, where one is
/// planned).
pub open spec fn spec_selected_size(k: int, outputs: Seq<OutputV>, extra: int) -> int {
    TX_OVERHEAD_SIZE + k * (INPUT_SIZE + WITNESS_SIZE) + spec_outputs_size(outputs) + extra
}

/// Whether the first `k` of the ordered inputs cover the outputs and the
/// fee of the record they would make.
pub open spec fn spec_covered(
    fees: LinearFee,
    ordered: Seq<InputV>,
    k: int,
    outputs: Seq<OutputV>,
    extra: int,
) -> bool {
    spec_input_total(ordered.take(k)) >= spec_output_total(outputs) + fees.spec_fee(
        spec_selected_size(k, outputs, extra),
    )
}

/// Descending order by expected value.
pub open spec fn spec_sorted_desc(s: Seq<InputV>) -> bool {
    forall|i: int, j: int|
        0 <= i < j < s.len() ==> (#[trigger] s[i]).expected_value >= (
        #[trigger] s[j]).expected_value
}

/// The extra bytes a change output to the given address takes.
pub open spec fn spec_change_extra(change_address: Seq<u8>) -> int {
    change_address.len() + OUTPUT_OVERHEAD_SIZE
}

/// More inputs never shrink the estimated record.
proof fn lemma_size_monotone(k1: int, k2: int, outputs: Seq<OutputV>, extra: int)
    requires
        0 <= k1 <= k2,
    ensures
        spec_selected_size(k1, outputs, extra) <= spec_selected_size(k2, outputs, extra),
{
    assert(k1 * (INPUT_SIZE + WITNESS_SIZE) <= k2 * (INPUT_SIZE + WITNESS_SIZE))
        by (nonlinear_arith)
        requires
            0 <= k1 <= k2,
    ;
}

/// Orders inputs by descending expected value, keeping exactly the given
/// records.
pub fn sort_inputs_desc(available: Vec<Input>) -> (r: Vec<Input>)
    requires
        forall|i: int| 0 <= i < available@.len() ==> (#[trigger] available@[i]).wf(),
    ensures
        spec_sorted_desc(views_of_inputs(r@)),
        views_of_inputs(r@).to_multiset() == views_of_inputs(available@).to_multiset(),
        forall|i: int| 0 <= i < r@.len() ==> (#[trigger] r@[i]).wf(),
{
    let ghost orig = views_of_inputs(available@);
    let mut remaining = available;
    let mut sorted: Vec<Input> = Vec::new();
    proof {
        views_of_inputs(sorted@).to_multiset_ensures();
        views_of_inputs(remaining@).to_multiset_ensures();
        assert(views_of_inputs(sorted@) =~= Seq::<InputV>::empty());
        assert(views_of_inputs(sorted@).to_multiset() =~= Multiset::<InputV>::empty());
        assert(views_of_inputs(sorted@).to_multiset().add(
            views_of_inputs(remaining@).to_multiset(),
        ) =~= orig.to_multiset());
    }
    while remaining.len() > 0
        invariant
            views_of_inputs(sorted@).to_multiset().add(views_of_inputs(remaining@).to_multiset())
                == orig.to_multiset(),
            spec_sorted_desc(views_of_inputs(sorted@)),
            forall|i: int, j: int|
                0 <= i < views_of_inputs(sorted@).len() && 0 <= j < views_of_inputs(
                    remaining@,
                ).len() ==> (#[trigger] views_of_inputs(sorted@)[i]).expected_value >= (
                #[trigger] views_of_inputs(remaining@)[j]).expected_value,
            forall|i: int| 0 <= i < sorted@.len() ==> (#[trigger] sorted@[i]).wf(),
            forall|i: int| 0 <= i < remaining@.len() ==> (#[trigger] remaining@[i]).wf(),
        decreases remaining.len(),
    {
        let n = remaining.len();
        let mut best: usize = 0;
        let mut m: usize = 1;
        while m < n
            invariant
                n == remaining@.len(),
                best < n,
                1 <= m <= n,
                forall|j: int|
                    0 <= j < m ==> views_of_inputs(remaining@)[best as int].expected_value >= (
                    #[trigger] views_of_inputs(remaining@)[j]).expected_value,
            decreases n - m,
        {
            if remaining[m].expected_value.value > remaining[best].expected_value.value {
                best = m;
            }
            m += 1;
        }
        let ghost pre_sorted = views_of_inputs(sorted@);
        let ghost pre_remaining = views_of_inputs(remaining@);
        let x = remaining.remove(best);
        sorted.push(x);
        proof {
            pre_sorted.to_multiset_ensures();
            pre_remaining.to_multiset_ensures();
            assert(views_of_inputs(sorted@) =~= pre_sorted.push(pre_remaining[best as int]));
            assert(views_of_inputs(remaining@) =~= pre_remaining.remove(best as int));
            assert(views_of_inputs(sorted@).to_multiset() =~= pre_sorted.to_multiset().insert(
                pre_remaining[best as int],
            ));
            assert(views_of_inputs(remaining@).to_multiset() =~= pre_remaining.to_multiset()
                .remove(pre_remaining[best as int]));
            assert(views_of_inputs(sorted@).to_multiset().add(
                views_of_inputs(remaining@).to_multiset(),
            ) =~= orig.to_multiset());
            assert forall|i: int, j: int|
                0 <= i < views_of_inputs(sorted@).len() && 0 <= j < views_of_inputs(
                    remaining@,
                ).len() implies (#[trigger] views_of_inputs(sorted@)[i]).expected_value >= (
            #[trigger] views_of_inputs(remaining@)[j]).expected_value by {
                assert(views_of_inputs(remaining@)[j] == if j < best as int {
                    pre_remaining[j]
                } else {
                    pre_remaining[j + 1]
                });
                if i < views_of_inputs(sorted@).len() - 1 {
                    assert(views_of_inputs(sorted@)[i] == pre_sorted[i]);
                } else {
                    assert(views_of_inputs(sorted@)[i] == pre_remaining[best as int]);
                }
            }
        }
    }
    proof {
        views_of_inputs(sorted@).to_multiset_ensures();
        views_of_inputs(remaining@).to_multiset_ensures();
        assert(views_of_inputs(remaining@).to_multiset() =~= Multiset::<InputV>::empty());
        assert(views_of_inputs(sorted@).to_multiset() =~= orig.to_multiset());
    }
    sorted
}

/// Whether the accumulated total covers the outputs plus the fee of a
/// record of the given size.
fn covered_exec(fees: &LinearFee, total: u64, output_total: u64, size: u64) -> (r: bool)
    ensures
        r == (total >= output_total + fees.spec_fee(size as int)),
{
    proof {
        let c = fees.coefficient_milli as u128;
        let z = size as u128;
        assert(c * z <= 0xFFFF_FFFF_FFFF_FFFFu128 * 0xFFFF_FFFF_FFFF_FFFFu128)
            by (nonlinear_arith)
            requires
                c <= 0xFFFF_FFFF_FFFF_FFFFu128,
                z <= 0xFFFF_FFFF_FFFF_FFFFu128,
        ;
    }
    let fee128: u128 = ((fees.constant_milli as u128) + (fees.coefficient_milli as u128) * (
    size as u128) + 999) / 1000;
    (total as u128) >= (output_total as u128) + fee128
}

/// Greedy accumulation: takes the ordered inputs from the front until they
/// cover the outputs plus the fee of the record they make, recomputing the
/// fee at each step. The selected inputs are the shortest covering prefix;
/// fails exactly when no prefix covers.
pub fn greedy_select(
    fees: &LinearFee,
    ordered: Vec<Input>,
    outputs: &Vec<Output>,
    change_address: &Vec<u8>,
) -> (r: Result<SelectionResult, SelectionError>)
    requires
        spec_input_total(views_of_inputs(ordered@)) <= MAX_COIN,
        spec_output_total(views_of_outputs(outputs@)) <= MAX_COIN,
        spec_selected_size(
            ordered@.len() as int,
            views_of_outputs(outputs@),
            spec_change_extra(change_address@),
        ) <= u64::MAX,
        forall|i: int| 0 <= i < ordered@.len() ==> (#[trigger] ordered@[i]).wf(),
    ensures
        r matches Ok(sel) ==> exists|k: int|
            {
                &&& 0 <= k <= ordered@.len()
                &&& views_of_inputs(sel.selected_inputs@) == views_of_inputs(ordered@).take(k)
                &&& #[trigger] spec_covered(
                    *fees,
                    views_of_inputs(ordered@),
                    k,
                    views_of_outputs(outputs@),
                    spec_change_extra(change_address@),
                )
                &&& forall|j: int|
                    0 <= j < k ==> !spec_covered(
                        *fees,
                        views_of_inputs(ordered@),
                        j,
                        views_of_outputs(outputs@),
                        spec_change_extra(change_address@),
                    )
                &&& sel.estimated_fees.value == fees.spec_fee(
                    spec_selected_size(
                        k,
                        views_of_outputs(outputs@),
                        spec_change_extra(change_address@),
                    ),
                )
                &&& {
                    let change = spec_input_total(views_of_inputs(ordered@).take(k))
                        - spec_output_total(views_of_outputs(outputs@))
                        - sel.estimated_fees.value;
                    if change > 0 {
                        sel.estimated_change matches Some(c) && c.value == change
                    } else {
                        sel.estimated_change is None
                    }
                }
            },
        r is Err ==> forall|k: int|
            0 <= k <= ordered@.len() ==> !spec_covered(
                *fees,
                views_of_inputs(ordered@),
                k,
                views_of_outputs(outputs@),
                spec_change_extra(change_address@),
            ),
{
    let ghost oviews = views_of_inputs(ordered@);
    let ghost outviews = views_of_outputs(outputs@);
    let ghost extra = spec_change_extra(change_address@);
    proof {
        crate::fee::lemma_outputs_size_nonnegative(outviews);
        lemma_size_monotone(0, ordered@.len() as int, outviews, extra);
    }
    let output_total: u64 = match crate::txbuild::output_total_of(outputs) {
        Ok(c) => c.amount(),
        Err(_) => {
            proof {
                assert(false);
            }
            0
        },
    };
    let out_size: u64 = match crate::txbuild::outputs_size_of(outputs) {
        Some(s) => s,
        None => {
            proof {
                assert(false);
            }
            0
        },
    };
    let n = ordered.len();
    let mut selected: Vec<Input> = Vec::new();
    let mut total: u64 = 0;
    let mut k: usize = 0;
    let mut covered = false;
    loop
        invariant_except_break
            !covered,
        invariant
            k <= n,
            n == ordered@.len(),
            oviews == views_of_inputs(ordered@),
            outviews == views_of_outputs(outputs@),
            extra == spec_change_extra(change_address@),
            spec_input_total(oviews) <= MAX_COIN,
            spec_output_total(outviews) <= MAX_COIN,
            spec_selected_size(n as int, outviews, extra) <= u64::MAX,
            forall|i: int| 0 <= i < ordered@.len() ==> (#[trigger] ordered@[i]).wf(),
            output_total == spec_output_total(outviews),
            out_size == spec_outputs_size(outviews),
            views_of_inputs(selected@) == oviews.take(k as int),
            forall|i: int| 0 <= i < selected@.len() ==> (#[trigger] selected@[i]).wf(),
            total == spec_input_total(oviews.take(k as int)),
            total <= MAX_COIN,
            forall|j: int| 0 <= j < k ==> !spec_covered(*fees, oviews, j, outviews, extra),
        ensures
            covered ==> spec_covered(*fees, oviews, k as int, outviews, extra),
            !covered ==> k == n && (forall|j: int|
                0 <= j <= n ==> !spec_covered(*fees, oviews, j, outviews, extra)),
        decreases n + 1 - k,
    {
        proof {
            lemma_size_monotone(k as int, n as int, outviews, extra);
            crate::fee::lemma_outputs_size_nonnegative(outviews);
        }
        let size: u64 = TX_OVERHEAD_SIZE + (k as u64) * (INPUT_SIZE + WITNESS_SIZE) + out_size + (
        change_address.len() as u64) + OUTPUT_OVERHEAD_SIZE;
        if covered_exec(fees, total, output_total, size) {
            covered = true;
            proof {
                assert(spec_covered(*fees, oviews, k as int, outviews, extra));
            }
            break ;
        }
        proof {
            assert(!spec_covered(*fees, oviews, k as int, outviews, extra));
        }
        if k == n {
            break ;
        }
        proof {
            assert(oviews.take(k + 1).drop_last() =~= oviews.take(k as int));
            assert(oviews.take(k + 1).last() == oviews[k as int]);
            crate::txbuild::lemma_input_total_take_le(oviews, k + 1);
        }
        let x = ordered[k].duplicate();
        total = total + x.expected_value.value;
        selected.push(x);
        proof {
            assert(views_of_inputs(selected@) =~= oviews.take(k + 1));
        }
        k += 1;
    }
    if !covered {
        return Err(SelectionError::NotEnoughInput);
    }
    proof {
        lemma_size_monotone(k as int, n as int, outviews, extra);
        crate::fee::lemma_outputs_size_nonnegative(outviews);
    }
    let size: u64 = TX_OVERHEAD_SIZE + (k as u64) * (INPUT_SIZE + WITNESS_SIZE) + out_size + (
    change_address.len() as u64) + OUTPUT_OVERHEAD_SIZE;
    let fee = match fees.calculate(size) {
        Ok(c) => c,
        Err(_) => {
            proof {
                assert(false);
            }
            return Err(SelectionError::NotEnoughInput);
        },
    };
    let change = total - output_total - fee.value;
    let estimated_change = if change > 0 {
        Some(Coin { value: change })
    } else {
        None
    };
    Ok(SelectionResult { selected_inputs: selected, estimated_fees: fee, estimated_change })
}

/// Head-first selection: greedy accumulation in the order the inputs were
/// given.
pub fn head_first_compute(
    fees: &LinearFee,
    available: Vec<Input>,
    outputs: &Vec<Output>,
    change_address: &Vec<u8>,
) -> (r: Result<SelectionResult, SelectionError>)
    requires
        spec_input_total(views_of_inputs(available@)) <= MAX_COIN,
        spec_output_total(views_of_outputs(outputs@)) <= MAX_COIN,
        spec_selected_size(
            available@.len() as int,
            views_of_outputs(outputs@),
            spec_change_extra(change_address@),
        ) <= u64::MAX,
        forall|i: int| 0 <= i < available@.len() ==> (#[trigger] available@[i]).wf(),
    ensures
        r matches Ok(sel) ==> exists|k: int|
            {
                &&& 0 <= k <= available@.len()
                &&& views_of_inputs(sel.selected_inputs@) == views_of_inputs(available@).take(k)
                &&& #[trigger] spec_covered(
                    *fees,
                    views_of_inputs(available@),
                    k,
                    views_of_outputs(outputs@),
                    spec_change_extra(change_address@),
                )
                &&& forall|j: int|
                    0 <= j < k ==> !spec_covered(
                        *fees,
                        views_of_inputs(available@),
                        j,
                        views_of_outputs(outputs@),
                        spec_change_extra(change_address@),
                    )
            },
        r is Err ==> forall|k: int|
            0 <= k <= available@.len() ==> !spec_covered(
                *fees,
                views_of_inputs(available@),
                k,
                views_of_outputs(outputs@),
                spec_change_extra(change_address@),
            ),
{
    greedy_select(fees, available, outputs, change_address)
}

/// Largest-first selection: the available inputs are ordered by descending
/// value, then accumulated greedily. The selected inputs are the shortest
/// covering prefix of that order, so a single input at least as large as
/// the target is preferred over a combination of smaller ones.
pub fn largest_first_compute(
    fees: &LinearFee,
    available: Vec<Input>,
    outputs: &Vec<Output>,
    change_address: &Vec<u8>,
) -> (r: Result<SelectionResult, SelectionError>)
    requires
        spec_input_total(views_of_inputs(available@)) <= MAX_COIN,
        spec_output_total(views_of_outputs(outputs@)) <= MAX_COIN,
        spec_selected_size(
            available@.len() as int,
            views_of_outputs(outputs@),
            spec_change_extra(change_address@),
        ) <= u64::MAX,
        forall|i: int| 0 <= i < available@.len() ==> (#[trigger] available@[i]).wf(),
    ensures
        r matches Ok(sel) ==> exists|ordered: Seq<InputV>, k: int|
            {
                &&& spec_sorted_desc(ordered)
                &&& ordered.to_multiset() == views_of_inputs(available@).to_multiset()
                &&& 0 <= k <= ordered.len()
                &&& views_of_inputs(sel.selected_inputs@) == ordered.take(k)
                &&& #[trigger] spec_covered(
                    *fees,
                    ordered,
                    k,
                    views_of_outputs(outputs@),
                    spec_change_extra(change_address@),
                )
                &&& forall|j: int|
                    0 <= j < k ==> !spec_covered(
                        *fees,
                        ordered,
                        j,
                        views_of_outputs(outputs@),
                        spec_change_extra(change_address@),
                    )
            },
        r is Err ==> exists|ordered: Seq<InputV>|
            #![trigger ordered.to_multiset()]
            {
                &&& spec_sorted_desc(ordered)
                &&& ordered.to_multiset() == views_of_inputs(available@).to_multiset()
                &&& forall|k: int|
                    0 <= k <= ordered.len() ==> !spec_covered(
                        *fees,
                        ordered,
                        k,
                        views_of_outputs(outputs@),
                        spec_change_extra(change_address@),
                    )
            },
{
    let ghost avail = views_of_inputs(available@);
    let ordered = sort_inputs_desc(available);
    let ghost ov = views_of_inputs(ordered@);
    proof {
        lemma_multiset_same_total(ov, avail);
    }
    let r = greedy_select(fees, ordered, outputs, change_address);
    proof {
        if r is Err {
            assert(ov.to_multiset() == avail.to_multiset());
        }
    }
    r
}

/// Sequences with the same records have the same total and length.
proof fn lemma_multiset_same_total(a: Seq<InputV>, b: Seq<InputV>)
    requires
        a.to_multiset() == b.to_multiset(),
    ensures
        spec_input_total(a) == spec_input_total(b),
        a.len() == b.len(),
    decreases a.len(),
{
    a.to_multiset_ensures();
    b.to_multiset_ensures();
    if a.len() == 0 {
        assert(b.to_multiset().len() == 0);
    } else {
        let x = a.last();
        assert(a.drop_last().push(x) =~= a);
        a.drop_last().to_multiset_ensures();
        assert(a.to_multiset() =~= a.drop_last().to_multiset().insert(x));
        assert(a.contains(x));
        assert(a.to_multiset().count(x) > 0);
        assert(b.to_multiset().count(x) > 0);
        assert(b.contains(x));
        let i = choose|i: int| 0 <= i < b.len() && b[i] == x;
        assert(b.remove(i).to_multiset() =~= b.to_multiset().remove(x));
        assert(a.drop_last().to_multiset() =~= b.remove(i).to_multiset());
        lemma_multiset_same_total(a.drop_last(), b.remove(i));
        lemma_input_total_remove(b, i);
    }
}

/// Taking an input out lowers the total by its value.
proof fn lemma_input_total_remove(s: Seq<InputV>, i: int)
    requires
        0 <= i < s.len(),
    ensures
        spec_input_total(s.remove(i)) == spec_input_total(s) - s[i].expected_value,
    decreases s.len(),
{
    if i == s.len() - 1 {
        assert(s.remove(i) =~= s.drop_last());
    } else {
        assert(s.remove(i).drop_last() =~= s.drop_last().remove(i));
        assert(s.remove(i).last() == s.last());
        lemma_input_total_remove(s.drop_last(), i);
    }
}

/// The single pass of the exact-match walk, from position `i` with the
/// inputs selected so far and their total: an input is taken whenever the
/// running total stays within the accepted loss above the target (and in
/// the coin domain), and the walk lands as soon as the total reaches the
/// window between the target and the target plus the accepted loss. The
/// target is the outputs' total plus the fee of the record the selection
/// would make; a fee outside the coin domain ends the walk empty-handed.
pub open spec fn spec_blackjack_from(
    threshold: u64,
    fees: LinearFee,
    avail: Seq<InputV>,
    out_total: int,
    out_size: int,
    i: int,
    selected: Seq<InputV>,
    total: int,
) -> Option<(Seq<InputV>, int)>
    decreases avail.len() - i,
{
    if i < 0 || i >= avail.len() {
        None
    } else {
        let fee = fees.spec_fee(
            TX_OVERHEAD_SIZE + (selected.len() + 1) * (INPUT_SIZE + WITNESS_SIZE) + out_size,
        );
        if fee > MAX_COIN {
            None
        } else {
            let v = avail[i].expected_value as int;
            if out_total + fee + threshold >= total + v && total + v <= MAX_COIN {
                if total + v >= out_total + fee && total + v <= out_total + fee + threshold {
                    Some((selected.push(avail[i]), fee))
                } else {
                    spec_blackjack_from(
                        threshold,
                        fees,
                        avail,
                        out_total,
                        out_size,
                        i + 1,
                        selected.push(avail[i]),
                        total + v,
                    )
                }
            } else {
                spec_blackjack_from(threshold, fees, avail, out_total, out_size, i + 1, selected, total)
            }
        }
    }
}

/// Exact-match selection: a bounded, single-pass heuristic. Walking the
/// available inputs in order, an input is taken whenever the running total
/// stays within the accepted loss above the target — the outputs plus the
/// fee of the record the selected inputs make, with no change output. The
/// walk succeeds as soon as the total lands in the accepted window, and
/// fails at the end of the single pass otherwise; no other subsets are
/// explored.
pub fn blackjack_compute(
    threshold: u64,
    fees: &LinearFee,
    available: Vec<Input>,
    outputs: &Vec<Output>,
) -> (r: Result<SelectionResult, SelectionError>)
    requires
        threshold <= MAX_COIN,
        spec_input_total(views_of_inputs(available@)) <= MAX_COIN,
        spec_output_total(views_of_outputs(outputs@)) <= MAX_COIN,
        spec_selected_size(available@.len() as int, views_of_outputs(outputs@), 0) <= u64::MAX,
        forall|i: int| 0 <= i < available@.len() ==> (#[trigger] available@[i]).wf(),
    ensures
        r is Ok <==> spec_blackjack_from(
            threshold,
            *fees,
            views_of_inputs(available@),
            spec_output_total(views_of_outputs(outputs@)),
            spec_outputs_size(views_of_outputs(outputs@)),
            0,
            Seq::<InputV>::empty(),
            0,
        ) is Some,
        r matches Ok(sel) ==> ({
            let walk = spec_blackjack_from(
                threshold,
                *fees,
                views_of_inputs(available@),
                spec_output_total(views_of_outputs(outputs@)),
                spec_outputs_size(views_of_outputs(outputs@)),
                0,
                Seq::<InputV>::empty(),
                0,
            ).unwrap();
            &&& views_of_inputs(sel.selected_inputs@) == walk.0
            &&& sel.estimated_fees.value == walk.1
        }),
        r matches Ok(sel) ==> {
            &&& spec_input_total(views_of_inputs(sel.selected_inputs@)) >= spec_output_total(
                views_of_outputs(outputs@),
            ) + sel.estimated_fees.value
            &&& spec_input_total(views_of_inputs(sel.selected_inputs@)) <= spec_output_total(
                views_of_outputs(outputs@),
            ) + sel.estimated_fees.value + threshold
            &&& sel.estimated_change is None
            &&& sel.estimated_fees.value == fees.spec_fee(
                spec_selected_size(
                    sel.selected_inputs@.len() as int,
                    views_of_outputs(outputs@),
                    0,
                ),
            )
        },
{
    let ghost outviews = views_of_outputs(outputs@);
    proof {
        crate::fee::lemma_outputs_size_nonnegative(outviews);
        lemma_size_monotone(0, available@.len() as int, outviews, 0);
    }
    let output_total: u64 = match crate::txbuild::output_total_of(outputs) {
        Ok(c) => c.amount(),
        Err(_) => {
            proof {
                assert(false);
            }
            0
        },
    };
    let out_size: u64 = match crate::txbuild::outputs_size_of(outputs) {
        Some(s) => s,
        None => {
            proof {
                assert(false);
            }
            0
        },
    };
    let ghost avail = views_of_inputs(available@);
    let n = available.len();
    let mut selected: Vec<Input> = Vec::new();
    let mut total: u64 = 0;
    let mut i: usize = 0;
    proof {
        assert(views_of_inputs(selected@) =~= Seq::<InputV>::empty());
    }
    while i < n
        invariant
            i <= n,
            n == available@.len(),
            avail == views_of_inputs(available@),
            outviews == views_of_outputs(outputs@),
            spec_output_total(outviews) <= MAX_COIN,
            spec_selected_size(n as int, outviews, 0) <= u64::MAX,
            forall|j: int| 0 <= j < available@.len() ==> (#[trigger] available@[j]).wf(),
            output_total == spec_output_total(outviews),
            out_size == spec_outputs_size(outviews),
            total == spec_input_total(views_of_inputs(selected@)),
            total <= MAX_COIN,
            selected@.len() <= i,
            spec_blackjack_from(threshold, *fees, avail, output_total as int, out_size as int, 0, Seq::<InputV>::empty(), 0)
                == spec_blackjack_from(
                threshold,
                *fees,
                avail,
                output_total as int,
                out_size as int,
                i as int,
                views_of_inputs(selected@),
                total as int,
            ),
        decreases n - i,
    {
        let count = selected.len();
        proof {
            lemma_size_monotone(count + 1, n as int, outviews, 0);
            crate::fee::lemma_outputs_size_nonnegative(outviews);
        }
        let size: u64 = TX_OVERHEAD_SIZE + ((count + 1) as u64) * (INPUT_SIZE + WITNESS_SIZE)
            + out_size;
        let fee = match fees.calculate(size) {
            Ok(c) => c,
            Err(_) => {
                return Err(SelectionError::NotEnoughInput);
            },
        };
        let candidate_value = available[i].expected_value.value;
        if (output_total as u128) + (fee.value as u128) + (threshold as u128) >= (total as u128)
            + (candidate_value as u128) && (total as u128) + (candidate_value as u128) <= (
        MAX_COIN as u128) {
            let ghost pre = views_of_inputs(selected@);
            let x = available[i].duplicate();
            total = total + candidate_value;
            selected.push(x);
            proof {
                assert(views_of_inputs(selected@) =~= pre.push(avail[i as int]));
                assert(views_of_inputs(selected@).drop_last() =~= pre);
                assert(total == spec_input_total(views_of_inputs(selected@)));
            }
            if total >= output_total && total - output_total >= fee.value && (total as u128) <= (
            output_total as u128) + (fee.value as u128) + (threshold as u128) {
                proof {
                    assert(spec_blackjack_from(
                        threshold,
                        *fees,
                        avail,
                        output_total as int,
                        out_size as int,
                        i as int,
                        pre,
                        (total - candidate_value) as int,
                    ) == Some((views_of_inputs(selected@), fee.value as int)));
                }
                return Ok(
                    SelectionResult {
                        selected_inputs: selected,
                        estimated_fees: fee,
                        estimated_change: None,
                    },
                );
            }
        }
        i += 1;
    }
    Err(SelectionError::NotEnoughInput)
}

} // verus!
