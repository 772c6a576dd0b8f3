use cardano_cli::address::{Address, Bip44Addressing, RIndexAddressing};
use cardano_cli::coin::Coin;
use cardano_cli::lookup::{Accum, AddressLookup, AddressLookupError};
use cardano_cli::ptr::{BlockDate, StatePtr};
use cardano_cli::randomindex::{RandomIndexLookup, RindexScheme, TransparentRindexScheme};
use cardano_cli::sequentialindex::{AddressDeriver, SequentialBip44Lookup, TransparentDeriver};
use cardano_cli::state::{FromLogsError, State};
use cardano_cli::utxo::{TxoPointer, UTxO};
use cardano_cli::wallet_log::{Log, LogError};

fn hash(tag: u8) -> Vec<u8> {
    vec![tag; 32]
}

fn ptr(tag: u8, epoch: u64, slotid: u16) -> StatePtr {
    StatePtr::new(BlockDate::Normal { epoch, slotid }, hash(tag))
}

fn utxo(tag: u8, index: u32, value: u64) -> UTxO<Address> {
    UTxO {
        transaction_id: hash(tag),
        index_in_transaction: index,
        credited_address: vec![tag; 12],
        credited_addressing: Address::Raw(vec![tag; 12]),
        credited_value: Coin::new(value).unwrap(),
    }
}

#[test]
fn two_received_funds_total() {
    let logs = vec![
        Log::ReceivedFund(ptr(1, 0, 1), utxo(10, 0, 100)),
        Log::ReceivedFund(ptr(2, 0, 2), utxo(11, 0, 50)),
    ];
    let state = State::from_logs(Accum::default(), logs).unwrap();
    assert_eq!(state.total().unwrap().value, 150);
    assert_eq!(state.utxos.len(), 2);
}

#[test]
fn received_then_spent_total_zero() {
    let logs = vec![
        Log::ReceivedFund(ptr(1, 0, 1), utxo(10, 0, 100)),
        Log::SpentFund(ptr(2, 0, 2), utxo(10, 0, 100)),
    ];
    let state = State::from_logs(Accum::default(), logs).unwrap();
    assert_eq!(state.total().unwrap().value, 0);
    assert_eq!(state.utxos.len(), 0);
}

#[test]
fn duplicate_receive_is_corruption() {
    let logs = vec![
        Log::ReceivedFund(ptr(1, 0, 1), utxo(10, 0, 100)),
        Log::ReceivedFund(ptr(2, 0, 2), utxo(10, 0, 100)),
    ];
    match State::from_logs(Accum::default(), logs) {
        Err(FromLogsError::Corrupted) => {}
        _ => panic!("a duplicated receive must be fatal"),
    }
}

#[test]
fn spend_of_unknown_output_is_corruption() {
    let logs = vec![Log::SpentFund(ptr(1, 0, 1), utxo(10, 0, 100))];
    match State::from_logs(Accum::default(), logs) {
        Err(FromLogsError::Corrupted) => {}
        _ => panic!("spending an unknown output must be fatal"),
    }
}

#[test]
fn empty_log_hands_engine_back() {
    match State::from_logs(Accum::default(), vec![]) {
        Err(FromLogsError::NoEntries(_engine)) => {}
        _ => panic!("an empty log must hand the engine back"),
    }
}

#[test]
fn empty_log_seeds_pre_genesis_state() {
    let state =
        cardano_cli::state::create_wallet_state_from_logs(Accum::default(), vec![], hash(9))
            .unwrap();
    assert_eq!(state.ptr.latest_addr, None);
    assert_eq!(state.ptr.latest_known_hash, hash(9));
    assert_eq!(state.utxos.len(), 0);
}

#[test]
fn checkpoint_moves_pointer_only() {
    let logs = vec![
        Log::ReceivedFund(ptr(1, 0, 1), utxo(10, 0, 100)),
        Log::Checkpoint(ptr(3, 1, 7)),
    ];
    let state = State::from_logs(Accum::default(), logs).unwrap();
    assert_eq!(state.ptr.latest_known_hash, hash(3));
    assert_eq!(state.total().unwrap().value, 100);
}

#[test]
fn log_records_round_trip() {
    let entries = vec![
        Log::Checkpoint(StatePtr::new(BlockDate::Boundary(3), hash(1))),
        Log::ReceivedFund(ptr(2, 4, 42), utxo(10, 1, 77)),
        Log::SpentFund(
            ptr(3, 5, 1),
            UTxO {
                transaction_id: hash(12),
                index_in_transaction: 2,
                credited_address: vec![1, 2, 3],
                credited_addressing: Address::Bip44(Bip44Addressing {
                    account: 0,
                    change: 1,
                    index: 9,
                }),
                credited_value: Coin::new(5).unwrap(),
            },
        ),
        Log::ReceivedFund(
            ptr(4, 6, 2),
            UTxO {
                transaction_id: hash(13),
                index_in_transaction: 0,
                credited_address: vec![7; 12],
                credited_addressing: Address::RIndex(RIndexAddressing { account: 1, index: 2 }),
                credited_value: Coin::new(1).unwrap(),
            },
        ),
    ];
    for entry in entries {
        let bytes = entry.serialise();
        let back = Log::deserialise(&bytes).unwrap();
        assert_eq!(back, entry);
    }
}

#[test]
fn log_record_bad_magic_reported() {
    let mut bytes = Log::Checkpoint(ptr(1, 0, 1)).serialise();
    bytes[0] = 0x58;
    match Log::deserialise(&bytes) {
        Err(LogError::UnsupportedLogFormat(m)) => assert_eq!(m.len(), 4),
        _ => panic!("a record with a foreign magic must be refused as such"),
    }
    assert_eq!(Log::deserialise(&vec![1, 2]), Err(LogError::LogFormatError));
}

#[test]
fn gap_limit_window_stays_ahead() {
    // acknowledging index gap_limit + k keeps addresses derived up to
    // index gap_limit + k + gap_limit
    let deriver = TransparentDeriver { network_magic: 7 };
    let mut engine = SequentialBip44Lookup::new(deriver);
    engine.prepare_next_account().unwrap();
    let k = 3u32;
    engine
        .acknowledge(Address::Bip44(Bip44Addressing { account: 0, change: 0, index: 20 + k }))
        .unwrap();
    // one past the window is not derived yet; a recognizing lookup would
    // advance the window again, so this is checked first
    let addr44 = deriver.derive_address(0, 0, 44);
    let too_far = UTxO {
        transaction_id: hash(2),
        index_in_transaction: 0,
        credited_address: addr44.clone(),
        credited_addressing: addr44,
        credited_value: Coin::new(10).unwrap(),
    };
    assert!(engine.lookup(too_far).unwrap().is_none());
    // index 2 * gap_limit + k = 43 must be recognizable
    let addr43 = deriver.derive_address(0, 0, 20 + k + 20);
    let candidate = UTxO {
        transaction_id: hash(1),
        index_in_transaction: 0,
        credited_address: addr43.clone(),
        credited_addressing: addr43,
        credited_value: Coin::new(10).unwrap(),
    };
    let recognized = engine.lookup(candidate).unwrap();
    let resolved = recognized.expect("index inside the advanced window must be recognized");
    assert_eq!(
        resolved.credited_addressing,
        Address::Bip44(Bip44Addressing { account: 0, change: 0, index: 43 })
    );
}

#[test]
fn sequential_engine_refuses_foreign_addressing() {
    let mut engine = SequentialBip44Lookup::new(TransparentDeriver { network_magic: 7 });
    let r = engine.acknowledge(Address::Raw(vec![1, 2, 3]));
    assert_eq!(r.unwrap_err(), AddressLookupError::SequentialNotABip44Address);
}

#[test]
fn random_index_reconstruction_mismatch_is_fatal() {
    // the decrypted path re-derives an address that differs from the
    // credited one: that must fail fatally, never read as a miss
    let scheme = TransparentRindexScheme { network_magic: 7 };
    let mut engine = RandomIndexLookup::new(scheme);
    let mut tampered = scheme.reconstruct_address(RIndexAddressing { account: 1, index: 2 });
    tampered.push(0xFF);
    let candidate = UTxO {
        transaction_id: hash(1),
        index_in_transaction: 0,
        credited_address: tampered.clone(),
        credited_addressing: tampered,
        credited_value: Coin::new(10).unwrap(),
    };
    match engine.lookup(candidate) {
        Err(AddressLookupError::RandomIndexCannotReconstructAddress(a)) => {
            assert_eq!(a.len(), 12);
        }
        _ => panic!("a reconstruction mismatch must be a fatal error"),
    }
}

#[test]
fn random_index_recognizes_and_misses() {
    let scheme = TransparentRindexScheme { network_magic: 7 };
    let mut engine = RandomIndexLookup::new(scheme);
    let own = scheme.reconstruct_address(RIndexAddressing { account: 1, index: 2 });
    let candidate = UTxO {
        transaction_id: hash(1),
        index_in_transaction: 0,
        credited_address: own.clone(),
        credited_addressing: own,
        credited_value: Coin::new(10).unwrap(),
    };
    let resolved = engine.lookup(candidate).unwrap().unwrap();
    assert_eq!(
        resolved.credited_addressing,
        Address::RIndex(RIndexAddressing { account: 1, index: 2 })
    );
    // a foreign payload is a miss, not an error
    let foreign = scheme.reconstruct_address(RIndexAddressing { account: 0, index: 0 });
    let mut other = foreign.clone();
    other[0] = other[0].wrapping_add(1);
    let candidate2 = UTxO {
        transaction_id: hash(2),
        index_in_transaction: 0,
        credited_address: other.clone(),
        credited_addressing: other,
        credited_value: Coin::new(10).unwrap(),
    };
    assert!(engine.lookup(candidate2).unwrap().is_none());
}

#[test]
fn forward_with_txins_spends_and_reports() {
    let logs = vec![Log::ReceivedFund(ptr(1, 0, 1), utxo(10, 0, 100))];
    let mut state = State::from_logs(Accum::default(), logs).unwrap();
    let spent = state
        .forward_with_txins(vec![(ptr(2, 0, 2), TxoPointer { id: hash(10), index: 0 })])
        .unwrap();
    assert_eq!(spent.len(), 1);
    assert_eq!(state.utxos.len(), 0);
    match &spent[0] {
        Log::SpentFund(_, u) => assert_eq!(u.credited_value.value, 100),
        _ => panic!("a spend must be reported as a spent fund"),
    }
    // spending an unknown pointer reports nothing and changes nothing
    let nothing = state
        .forward_with_txins(vec![(ptr(3, 0, 3), TxoPointer { id: hash(99), index: 0 })])
        .unwrap();
    assert!(nothing.is_empty());
}

#[test]
fn forward_with_utxos_recognizes_and_advances() {
    let state0 = cardano_cli::state::create_wallet_state_from_logs(
        Accum::default(),
        vec![],
        hash(0),
    )
    .unwrap();
    let mut state = state0;
    let raw = UTxO {
        transaction_id: hash(10),
        index_in_transaction: 0,
        credited_address: vec![1, 2, 3],
        credited_addressing: vec![1, 2, 3],
        credited_value: Coin::new(42).unwrap(),
    };
    let events = state.forward_with_utxos(vec![(ptr(5, 1, 1), raw)]).unwrap();
    assert_eq!(events.len(), 1);
    assert_eq!(state.utxos.len(), 1);
    assert_eq!(state.ptr.latest_known_hash, hash(5));
    assert_eq!(state.total().unwrap().value, 42);
}

#[test]
fn sync_step_checkpoints_on_epoch_change() {
    let logs = vec![Log::ReceivedFund(ptr(1, 0, 1), utxo(10, 0, 100))];
    let mut state = State::from_logs(Accum::default(), logs).unwrap();
    let block_ptr = ptr(2, 1, 0);
    let raw = UTxO {
        transaction_id: hash(20),
        index_in_transaction: 0,
        credited_address: vec![4, 5, 6],
        credited_addressing: vec![4, 5, 6],
        credited_value: Coin::new(55).unwrap(),
    };
    let events = state
        .forward_with_block(
            BlockDate::Normal { epoch: 0, slotid: 1 },
            &block_ptr,
            vec![(ptr(2, 1, 0), TxoPointer { id: hash(10), index: 0 })],
            vec![(ptr(2, 1, 0), raw)],
        )
        .unwrap();
    // the block opens a new epoch: first the checkpoint, then the spend,
    // then the recognized receipt
    assert_eq!(events.len(), 3);
    assert!(matches!(events[0], Log::Checkpoint(_)));
    assert!(matches!(events[1], Log::SpentFund(_, _)));
    assert!(matches!(events[2], Log::ReceivedFund(_, _)));
    assert_eq!(state.total().unwrap().value, 55);

    // a block of the same epoch appends no checkpoint
    let more = state
        .forward_with_block(
            BlockDate::Normal { epoch: 1, slotid: 0 },
            &ptr(3, 1, 1),
            vec![],
            vec![],
        )
        .unwrap();
    assert!(more.is_empty());
}
