use cardano_cli::address::Address;
use cardano_cli::bytes::{frame_record, hex_decode, hex_encode, read_framed_records};
use cardano_cli::cli::{RemoteDetail, TransactionCmd};
use cardano_cli::coin::{Coin, CoinError, MAX_COIN};
use cardano_cli::config::{blockchains_directory, directory, mk_remote_tag};
use cardano_cli::fee::{LinearFee, TxBuilder};
use cardano_cli::forensic::World;
use cardano_cli::ptr::{BlockDate, StatePtr};
use cardano_cli::render::{dec_string, display_utxo, display_wallet_state_logs, dump_utxo};
use cardano_cli::time_utils::{Duration, Time};
use cardano_cli::txop::{Input, Output};
use cardano_cli::utxo::UTxO;
use cardano_cli::wallet_log::Log;

fn hash(tag: u8) -> Vec<u8> {
    vec![tag; 32]
}

fn utxo(tag: u8, index: u32, value: u64) -> UTxO<Address> {
    UTxO {
        transaction_id: hash(tag),
        index_in_transaction: index,
        credited_address: vec![tag; 12],
        credited_addressing: Address::Raw(vec![tag; 12]),
        credited_value: Coin::new(value).unwrap(),
    }
}

#[test]
fn hex_two_digits_per_byte() {
    assert_eq!(hex_encode(&vec![]), "");
    assert_eq!(hex_encode(&vec![0x00, 0x0f, 0xa5, 0xff]), "000fa5ff");
}

#[test]
fn decimal_rendering() {
    assert_eq!(dec_string(0), "0");
    assert_eq!(dec_string(7), "7");
    assert_eq!(dec_string(1234567890), "1234567890");
    assert_eq!(dec_string(u64::MAX), "18446744073709551615");
}

#[test]
fn utxo_renderings() {
    let ptr = StatePtr::new(BlockDate::Normal { epoch: 3, slotid: 14 }, hash(2));
    let u = utxo(0xab, 1, 250);
    let line = display_utxo(&ptr, &u, false);
    assert_eq!(
        line,
        format!("3.14 {}.1 +250", "ab".repeat(32))
    );
    let debit_line = display_utxo(&ptr, &u, true);
    assert_eq!(
        debit_line,
        format!("3.14 {}.1 -250", "ab".repeat(32))
    );
    let dumped = dump_utxo(&ptr, &u, true);
    assert_eq!(
        dumped,
        format!(
            "debit {}.1\nDate 3.14\nBlock {}\nValue 250\n",
            "ab".repeat(32),
            "02".repeat(32)
        )
    );
}

#[test]
fn log_rendering_lists_entries_in_order() {
    let ptr1 = StatePtr::new(BlockDate::Boundary(2), hash(1));
    let ptr2 = StatePtr::new(BlockDate::Normal { epoch: 2, slotid: 5 }, hash(2));
    let entries = vec![
        Log::Checkpoint(ptr1),
        Log::ReceivedFund(ptr2, utxo(0x0a, 0, 9)),
    ];
    let pretty = display_wallet_state_logs(&entries, true);
    assert_eq!(pretty, format!("2.5 {}.0 +9\n", "0a".repeat(32)));
    let plain = display_wallet_state_logs(&entries, false);
    assert!(plain.starts_with("checkpoint 2\n"));
    assert!(plain.contains("Value 9\n"));
}

#[test]
fn coin_arithmetic_is_checked() {
    let a = Coin::new(MAX_COIN).unwrap();
    let b = Coin::new(1).unwrap();
    assert_eq!(a.add(b).unwrap_err(), CoinError::OutOfBound);
    assert_eq!(b.sub(a).unwrap_err(), CoinError::OutOfBound);
    assert_eq!(Coin::new(MAX_COIN + 1).unwrap_err(), CoinError::OutOfBound);
    assert_eq!(a.sub(b).unwrap().value, MAX_COIN - 1);
}

#[test]
fn fee_is_linear_and_rounded_up() {
    let fees = LinearFee::new(155_381_000, 43_946);
    // constant alone: 155381000 milli rounds up to 155381 coins... the
    // model counts in thousandths of a coin
    let fee = fees.calculate(0).unwrap();
    assert_eq!(fee.value, 155_381);
    let fee2 = fees.calculate(100).unwrap();
    assert_eq!(fee2.value, (155_381_000u64 + 43_946 * 100 + 999) / 1000);
}

#[test]
fn subcommand_names() {
    assert_eq!(TransactionCmd::New.as_string(), "new");
    assert_eq!(TransactionCmd::InputSelect.as_string(), "input-select");
    assert_eq!(TransactionCmd::RmChange.as_string(), "rm-change");
    assert_eq!(TransactionCmd::Status.as_string(), "status");
}

#[test]
fn remote_detail_levels_are_ordered() {
    assert!(RemoteDetail::Remote.at_least(RemoteDetail::Local));
    assert!(RemoteDetail::Local.at_least(RemoteDetail::Short));
    assert!(!RemoteDetail::Short.at_least(RemoteDetail::Local));
    assert!(RemoteDetail::Local >= RemoteDetail::Short);
}

#[test]
fn directory_layout_under_root() {
    assert_eq!(blockchains_directory("/root"), "/root/blockchains");
    assert_eq!(directory("/root", "mainnet"), "/root/blockchains/mainnet");
    assert_eq!(mk_remote_tag("origin"), "remote/origin");
}

#[test]
fn durations_between_instants() {
    let t1 = Time::from_secs(100);
    let t2 = Time::from_secs(40);
    assert_eq!(Duration::between(t1, t2).secs, 60);
    assert_eq!(Duration::between(t2, t1).secs, 60);
    let _ = Time::now();
    let _ = Duration::since(t2);
}

#[test]
fn forensic_counters_accumulate() {
    let mut world = World::new();
    let tx = TxBuilder {
        inputs: vec![Input {
            transaction_id: hash(1),
            index_in_transaction: 0,
            expected_value: Coin::new(5).unwrap(),
        }],
        outputs: vec![
            Output { address: vec![1; 10], amount: Coin::new(3).unwrap() },
            Output { address: vec![2; 6], amount: Coin::new(2).unwrap() },
        ],
    };
    world.transaction(&tx, 1);
    assert_eq!(world.nb_address, 2);
    assert_eq!(world.address_total_size, 16);
    assert_eq!(world.nb_witnesses, 1);
}

#[test]
fn hex_decoding_round_trips_and_rejects() {
    assert_eq!(hex_decode("000fa5ff").unwrap(), vec![0x00, 0x0f, 0xa5, 0xff]);
    assert_eq!(hex_decode("A5Ff").unwrap(), vec![0xa5, 0xff]);
    assert_eq!(hex_decode(""), Some(vec![]));
    assert_eq!(hex_decode("abc"), None);
    assert_eq!(hex_decode("zz"), None);
    let bytes = vec![1u8, 2, 250];
    assert_eq!(hex_decode(&hex_encode(&bytes)).unwrap(), bytes);
}

#[test]
fn record_framing_round_trips_and_detects_truncation() {
    let mut data: Vec<u8> = Vec::new();
    frame_record(&mut data, &vec![1, 2, 3]);
    frame_record(&mut data, &vec![]);
    frame_record(&mut data, &vec![9; 5]);
    let records = read_framed_records(&data).unwrap();
    assert_eq!(records, vec![vec![1, 2, 3], vec![], vec![9; 5]]);
    data.pop();
    assert_eq!(read_framed_records(&data), None);
    assert_eq!(read_framed_records(&vec![1, 2]), None);
    assert_eq!(read_framed_records(&vec![]), Some(vec![]));
}
