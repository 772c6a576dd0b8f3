use cardano_cli::coin::Coin;
use cardano_cli::fee::LinearFee;
use cardano_cli::selection::{
    blackjack_compute, head_first_compute, largest_first_compute, SelectionError,
};
use cardano_cli::txop::{Input, Output};

fn hash(tag: u8) -> Vec<u8> {
    vec![tag; 32]
}

fn input(tag: u8, value: u64) -> Input {
    Input {
        transaction_id: hash(tag),
        index_in_transaction: 0,
        expected_value: Coin::new(value).unwrap(),
    }
}

fn outputs_totaling(value: u64) -> Vec<Output> {
    vec![Output {
        address: vec![9; 8],
        amount: Coin::new(value).unwrap(),
    }]
}

#[test]
fn largest_first_takes_single_covering_input() {
    // on inputs [10, 40, 25] targeting 30, the largest input alone covers
    // the target, so 40 is selected rather than a combination
    let fees = LinearFee::new(0, 0);
    let available = vec![input(1, 10), input(2, 40), input(3, 25)];
    let outputs = outputs_totaling(30);
    let sel = largest_first_compute(&fees, available, &outputs, &vec![5; 8]).unwrap();
    assert_eq!(sel.selected_inputs.len(), 1);
    assert_eq!(sel.selected_inputs[0].expected_value.value, 40);
    assert_eq!(sel.estimated_change.unwrap().value, 10);
}

#[test]
fn head_first_takes_inputs_in_given_order() {
    let fees = LinearFee::new(0, 0);
    let available = vec![input(1, 10), input(2, 40), input(3, 25)];
    let outputs = outputs_totaling(30);
    let sel = head_first_compute(&fees, available, &outputs, &vec![5; 8]).unwrap();
    let values: Vec<u64> = sel
        .selected_inputs
        .iter()
        .map(|i| i.expected_value.value)
        .collect();
    assert_eq!(values, vec![10, 40]);
    assert_eq!(sel.estimated_change.unwrap().value, 20);
}

#[test]
fn selection_fails_when_inputs_cannot_cover() {
    let fees = LinearFee::new(0, 0);
    let available = vec![input(1, 10)];
    let outputs = outputs_totaling(1000);
    assert_eq!(
        largest_first_compute(&fees, available.clone(), &outputs, &vec![5; 8]).unwrap_err(),
        SelectionError::NotEnoughInput
    );
    assert_eq!(
        head_first_compute(&fees, available, &outputs, &vec![5; 8]).unwrap_err(),
        SelectionError::NotEnoughInput
    );
}

#[test]
fn selection_accounts_for_the_fee() {
    // a flat fee of 15: the 40 input covers 30 no longer, so a second
    // input joins the selection
    let fees = LinearFee::new(15_000, 0);
    let available = vec![input(1, 10), input(2, 40), input(3, 25)];
    let outputs = outputs_totaling(30);
    let sel = largest_first_compute(&fees, available, &outputs, &vec![5; 8]).unwrap();
    let values: Vec<u64> = sel
        .selected_inputs
        .iter()
        .map(|i| i.expected_value.value)
        .collect();
    assert_eq!(values, vec![40, 25]);
    assert_eq!(sel.estimated_fees.value, 15);
    assert_eq!(sel.estimated_change.unwrap().value, 20);
}

#[test]
fn blackjack_lands_within_the_accepted_loss() {
    let fees = LinearFee::new(0, 0);
    let available = vec![input(1, 10), input(2, 40), input(3, 25)];
    let outputs = outputs_totaling(30);
    let sel = blackjack_compute(5, &fees, available, &outputs).unwrap();
    let values: Vec<u64> = sel
        .selected_inputs
        .iter()
        .map(|i| i.expected_value.value)
        .collect();
    assert_eq!(values, vec![10, 25]);
    assert!(sel.estimated_change.is_none());
}

#[test]
fn blackjack_fails_outside_the_accepted_loss() {
    let fees = LinearFee::new(0, 0);
    let available = vec![input(1, 10), input(2, 40)];
    let outputs = outputs_totaling(30);
    assert_eq!(
        blackjack_compute(5, &fees, available, &outputs).unwrap_err(),
        SelectionError::NotEnoughInput
    );
}
