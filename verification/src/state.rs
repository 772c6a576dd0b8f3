//! Wallet state reconstruction.
//!
//! The state of a wallet is rebuilt by replaying the entries of its event
//! log in order against an address lookup engine: checkpoints only move
//! the state pointer, received funds enter the output collection, spent
//! funds leave it. An entry that cannot reconcile with the collection —
//! a duplicated receive, or a spend of an output the state does not hold —
//! means the log is corrupted, which is fatal.

use vstd::prelude::*;

use crate::address::AddressV;
use crate::address::Address;
use crate::coin::{Coin, CoinError, MAX_COIN};
use crate::lookup::{AddressLookup, AddressLookupError};
use crate::ptr::{BlockDate, StatePtr, StatePtrV};
use crate::utxo::{TxoPointer, UTxO, UTxOV};
use crate::utxos::{
    lemma_sum_push, lemma_sum_remove, lemma_sum_take_le, lemma_sum_take_snoc, spec_find_txin,
    spec_sum, duplicate_utxo, utxo_eq, UTxOs,
};
use crate::wallet_log::{Log, LogError, LogV};

verus! {

/// The views of a sequence of log entries.
pub open spec fn spec_log_views(s: Seq<Log<Address>>) -> Seq<LogV<AddressV>> {
    Seq::new(s.len(), |i: int| s[i]@)
}

/// One entry applied to the output collection. `None` means the entry
/// cannot reconcile with the collection: the log is corrupted.
pub open spec fn spec_apply_log(m: Seq<UTxOV<AddressV>>, l: LogV<AddressV>) -> Option<
    Seq<UTxOV<AddressV>>,
> {
    match l {
        LogV::Checkpoint(_) => Some(m),
        LogV::ReceivedFund(_, u) => {
            if spec_find_txin(m, u.spec_txin()) is Some {
                None
            } else {
                Some(m.push(u))
            }
        },
        LogV::SpentFund(_, u) => {
            match spec_find_txin(m, u.spec_txin()) {
                None => None,
                Some(i) => {
                    if m[i] == u {
                        Some(m.remove(i))
                    } else {
                        None
                    }
                },
            }
        },
    }
}

/// The output collection that replaying the entries from an empty state
/// leaves behind; `None` when some entry cannot reconcile.
pub open spec fn spec_replay(entries: Seq<LogV<AddressV>>) -> Option<Seq<UTxOV<AddressV>>>
    decreases entries.len(),
{
    if entries.len() == 0 {
        Some(Seq::empty())
    } else {
        match spec_replay(entries.drop_last()) {
            None => None,
            Some(m) => spec_apply_log(m, entries.last()),
        }
    }
}

/// Sum of the amounts received over the entries.
pub open spec fn spec_received_total(entries: Seq<LogV<AddressV>>) -> int
    decreases entries.len(),
{
    if entries.len() == 0 {
        0
    } else {
        spec_received_total(entries.drop_last()) + match entries.last() {
            LogV::ReceivedFund(_, u) => u.credited_value as int,
            _ => 0,
        }
    }
}

/// Sum of the amounts spent over the entries.
pub open spec fn spec_spent_total(entries: Seq<LogV<AddressV>>) -> int
    decreases entries.len(),
{
    if entries.len() == 0 {
        0
    } else {
        spec_spent_total(entries.drop_last()) + match entries.last() {
            LogV::SpentFund(_, u) => u.credited_value as int,
            _ => 0,
        }
    }
}

/// Funds kept by a replayed log equal everything received minus
/// everything spent, for any log that replays without corruption.
pub proof fn lemma_total_is_received_minus_spent(entries: Seq<LogV<AddressV>>)
    requires
        spec_replay(entries) is Some,
    ensures
        spec_sum(spec_replay(entries).unwrap()) == spec_received_total(entries)
            - spec_spent_total(entries),
    decreases entries.len(),
{
    if entries.len() == 0 {
        assert(spec_sum(Seq::<UTxOV<AddressV>>::empty()) == 0);
    } else {
        lemma_total_is_received_minus_spent(entries.drop_last());
        let m = spec_replay(entries.drop_last()).unwrap();
        match entries.last() {
            LogV::Checkpoint(_) => {},
            LogV::ReceivedFund(_, u) => {
                lemma_sum_push(m, u);
            },
            LogV::SpentFund(_, u) => {
                let i = spec_find_txin(m, u.spec_txin()).unwrap();
                crate::utxos::lemma_find_some(m, u.spec_txin());
                lemma_sum_remove(m, i);
            },
        }
    }
}

/// Spent pointers folded over the output collection: each pointer the
/// collection holds takes its record out and emits the spent-fund entry;
/// unknown pointers pass without effect.
pub open spec fn spec_forward_txins(
    m: Seq<UTxOV<AddressV>>,
    ins: Seq<(StatePtr, TxoPointer)>,
) -> (Seq<UTxOV<AddressV>>, Seq<LogV<AddressV>>)
    decreases ins.len(),
{
    if ins.len() == 0 {
        (m, Seq::empty())
    } else {
        let prefix = spec_forward_txins(m, ins.drop_last());
        let last = ins.last();
        match spec_find_txin(prefix.0, last.1@) {
            None => prefix,
            Some(i) => (
                prefix.0.remove(i),
                prefix.1.push(LogV::SpentFund(last.0@, prefix.0[i])),
            ),
        }
    }
}

/// Rebuilds a wallet state out of its log entries, seeding a fresh state
/// at the pre-genesis pointer when the log is empty: the fresh state knows
/// the attached blockchain's genesis hash and owns nothing yet.
pub fn create_wallet_state_from_logs<T: AddressLookup>(
    lookup_struct: T,
    entries: Vec<Log<Address>>,
    genesis_hash: Vec<u8>,
) -> (r: Result<State<T>, FromLogsError<T>>)
    requires
        lookup_struct.wf(),
        forall|i: int| 0 <= i < entries@.len() ==> (#[trigger] entries@[i]).wf(),
        genesis_hash@.len() == crate::ptr::HASH_SIZE,
    ensures
        r matches Ok(s) ==> s.wf(),
        entries@.len() == 0 ==> (r matches Ok(s) && s.utxos@.len() == 0 && s.ptr@
            == (StatePtrV { latest_addr: None, latest_known_hash: genesis_hash@ }) && s.lookup_struct
            == lookup_struct),
        r matches Ok(s) ==> (entries@.len() > 0 ==> spec_replay(spec_log_views(entries@)) == Some(
            s.utxos@,
        ) && s.ptr@ == spec_log_views(entries@).last().spec_ptr()),
        r matches Err(FromLogsError::Corrupted) ==> spec_replay(spec_log_views(entries@)) is None,
{
    let ghost n_entries = entries@.len();
    match State::from_logs(lookup_struct, entries) {
        Ok(state) => Ok(state),
        Err(FromLogsError::NoEntries(engine)) => {
            let initial_ptr = StatePtr::new_before_genesis(genesis_hash);
            Ok(State::new(initial_ptr, engine))
        },
        Err(e) => Err(e),
    }
}

/// A record entered under its own pointer: replacing the held record when
/// the pointer is already held, appended otherwise.
pub open spec fn spec_insert_utxo(
    m: Seq<UTxOV<AddressV>>,
    u: UTxOV<AddressV>,
) -> Seq<UTxOV<AddressV>> {
    match spec_find_txin(m, u.spec_txin()) {
        Some(i) => m.update(i, u),
        None => m.push(u),
    }
}

/// One observed output applied against one engine state: an output the
/// engine classifies enters the collection under the engine's addressing,
/// advances the pointer to its block and is reported; an unrecognized one
/// passes without effect.
pub open spec fn spec_apply_output<T: AddressLookup>(
    engine: T,
    m: Seq<UTxOV<AddressV>>,
    ptr: StatePtrV,
    evs: Seq<LogV<AddressV>>,
    out: (StatePtr, UTxO<Vec<u8>>),
) -> (Seq<UTxOV<AddressV>>, StatePtrV, Seq<LogV<AddressV>>) {
    match engine.spec_classify(out.1@.credited_address) {
        None => (m, ptr, evs),
        Some(a) => {
            let u = UTxOV {
                transaction_id: out.1@.transaction_id,
                index_in_transaction: out.1@.index_in_transaction,
                credited_address: out.1@.credited_address,
                credited_addressing: a,
                credited_value: out.1@.credited_value,
            };
            (spec_insert_utxo(m, u), out.0@, evs.push(LogV::ReceivedFund(out.0@, u)))
        },
    }
}

/// The observed outputs folded left to right, each one against the engine
/// state of its own step: the engine may learn from a hit, so each step
/// classifies with that step's state.
pub open spec fn spec_forward_utxos_from<T: AddressLookup>(
    engines: Seq<T>,
    outs: Seq<(StatePtr, UTxO<Vec<u8>>)>,
    i: int,
    m: Seq<UTxOV<AddressV>>,
    ptr: StatePtrV,
    evs: Seq<LogV<AddressV>>,
) -> (Seq<UTxOV<AddressV>>, StatePtrV, Seq<LogV<AddressV>>)
    decreases outs.len() - i,
{
    if i < 0 || i >= outs.len() || i >= engines.len() {
        (m, ptr, evs)
    } else {
        let step = spec_apply_output(engines[i], m, ptr, evs, outs[i]);
        spec_forward_utxos_from(engines, outs, i + 1, step.0, step.1, step.2)
    }
}

/// Extending the walk by one step: the fold over one more output equals
/// the fold so far with that output applied against the step's engine.
proof fn lemma_forward_utxos_snoc<T: AddressLookup>(
    engines: Seq<T>,
    e: T,
    outs: Seq<(StatePtr, UTxO<Vec<u8>>)>,
    j: int,
    m: Seq<UTxOV<AddressV>>,
    ptr: StatePtrV,
    evs: Seq<LogV<AddressV>>,
)
    requires
        engines.len() < outs.len(),
        0 <= j <= engines.len(),
    ensures
        ({
            let k = engines.len() as int;
            let prefix = spec_forward_utxos_from(engines, outs.take(k), j, m, ptr, evs);
            spec_forward_utxos_from(engines.push(e), outs.take(k + 1), j, m, ptr, evs)
                == spec_apply_output(e, prefix.0, prefix.1, prefix.2, outs[k])
        }),
    decreases engines.len() - j,
{
    let k = engines.len() as int;
    assert(outs.take(k + 1)[k] == outs[k]);
    if j == k {
        assert(engines.push(e)[k] == e);
        assert(spec_forward_utxos_from(engines, outs.take(k), k, m, ptr, evs) == (m, ptr, evs));
        let step = spec_apply_output(e, m, ptr, evs, outs[k]);
        assert(spec_forward_utxos_from(engines.push(e), outs.take(k + 1), k + 1, step.0, step.1, step.2)
            == (step.0, step.1, step.2));
        assert(spec_forward_utxos_from(engines.push(e), outs.take(k + 1), k, m, ptr, evs)
            == spec_forward_utxos_from(engines.push(e), outs.take(k + 1), k + 1, step.0, step.1, step.2));
    } else {
        assert(engines.push(e)[j] == engines[j]);
        assert(outs.take(k + 1)[j] == outs[j]);
        assert(outs.take(k)[j] == outs[j]);
        let step = spec_apply_output(engines[j], m, ptr, evs, outs[j]);
        lemma_forward_utxos_snoc(engines, e, outs, j + 1, step.0, step.1, step.2);
    }
}

/// A replay that has failed on a prefix has failed for good.
proof fn lemma_replay_none_extends(entries: Seq<LogV<AddressV>>, i: int)
    requires
        0 <= i <= entries.len(),
        spec_replay(entries.take(i)) is None,
    ensures
        spec_replay(entries) is None,
    decreases entries.len() - i,
{
    if i == entries.len() {
        assert(entries.take(i) =~= entries);
    } else {
        assert(entries.take(i + 1).drop_last() =~= entries.take(i));
        lemma_replay_none_extends(entries, i + 1);
    }
}

/// Errors of rebuilding a state out of a log.
#[derive(Debug)]
pub enum FromLogsError<T> {
    /// The log had no entries; the unused engine is handed back so the
    /// caller can seed a fresh state at the pre-genesis pointer.
    NoEntries(T),
    /// The log could not be read back.
    LogReadFailed(LogError),
    /// An addressing found in the log could not be acknowledged.
    AddressLookupFailed(AddressLookupError),
    /// An entry could not reconcile with the output collection: the log
    /// is corrupted, a fatal condition.
    Corrupted,
}

/// A wallet state: the pointer to the last reflected block, the lookup
/// engine with its derivation context, and the outputs the wallet can
/// spend as of that pointer.
#[derive(Debug)]
pub struct State<T> {
    pub ptr: StatePtr,
    pub lookup_struct: T,
    pub utxos: UTxOs,
}

impl<T: AddressLookup> State<T> {
    /// The state invariant.
    pub open spec fn wf(self) -> bool {
        &&& self.ptr.wf()
        &&& self.lookup_struct.wf()
        &&& self.utxos.wf()
    }

    /// A fresh state at the given pointer, owning nothing.
    pub fn new(ptr: StatePtr, lookup_struct: T) -> (r: State<T>)
        requires
            ptr.wf(),
            lookup_struct.wf(),
        ensures
            r.wf(),
            r.ptr == ptr,
            r.lookup_struct == lookup_struct,
            r.utxos@ == Seq::<UTxOV<AddressV>>::empty(),
    {
        State { ptr, lookup_struct, utxos: UTxOs::new() }
    }

    /// Replays a log in order. An empty log hands the engine back; a log
    /// that cannot reconcile with itself is reported as corrupted; the
    /// engine may refuse an addressing. Otherwise the rebuilt state owns
    /// exactly the replayed outputs and points at the last entry's block.
    pub fn from_logs(lookup_struct: T, entries: Vec<Log<Address>>) -> (r: Result<
        State<T>,
        FromLogsError<T>,
    >)
        requires
            lookup_struct.wf(),
            forall|i: int| 0 <= i < entries@.len() ==> (#[trigger] entries@[i]).wf(),
        ensures
            r matches Ok(s) ==> {
                &&& s.wf()
                &&& entries@.len() > 0
                &&& spec_replay(spec_log_views(entries@)) == Some(s.utxos@)
                &&& s.ptr@ == spec_log_views(entries@).last().spec_ptr()
            },
            entries@.len() == 0 ==> (r matches Err(FromLogsError::NoEntries(t)) && t
                == lookup_struct),
            r matches Err(FromLogsError::NoEntries(t)) ==> entries@.len() == 0 && t
                == lookup_struct,
            r matches Err(FromLogsError::Corrupted) ==> spec_replay(spec_log_views(entries@))
                is None,
            (entries@.len() > 0 && spec_replay(spec_log_views(entries@)) is Some && (forall|
                st: T,
                a: AddressV,
            | #[trigger] st.ack_ok(a))) ==> r is Ok,
    {
        let ghost views = spec_log_views(entries@);
        let ghost orig = lookup_struct;
        let mut engine = lookup_struct;
        let mut utxos = UTxOs::new();
        let mut opt_ptr: Option<StatePtr> = None;
        let n = entries.len();
        let mut i: usize = 0;
        while i < n
            invariant
                i <= n,
                n == entries@.len(),
                views == spec_log_views(entries@),
                forall|j: int| 0 <= j < entries@.len() ==> (#[trigger] entries@[j]).wf(),
                engine.wf(),
                i == 0 ==> engine == orig,
                utxos.wf(),
                spec_replay(views.take(i as int)) == Some(utxos@),
                i == 0 <==> opt_ptr is None,
                i > 0 ==> (opt_ptr matches Some(p) && p.wf() && p@ == views[i as int
                    - 1].spec_ptr()),
            decreases n - i,
        {
            proof {
                assert(views.take(i + 1).drop_last() =~= views.take(i as int));
                assert(views.take(i + 1).last() == views[i as int]);
            }
            let entry = &entries[i];
            match entry {
                Log::Checkpoint(p) => {
                    opt_ptr = Some(p.duplicate());
                },
                Log::ReceivedFund(p, utxo) => {
                    match engine.acknowledge(utxo.credited_addressing.duplicate()) {
                        Ok(()) => {},
                        Err(e) => {
                            return Err(FromLogsError::AddressLookupFailed(e));
                        },
                    }
                    opt_ptr = Some(p.duplicate());
                    if let Some(_prev) = utxos.insert(duplicate_utxo(utxo)) {
                        proof {
                            lemma_replay_none_extends(views, i + 1);
                        }
                        return Err(FromLogsError::Corrupted);
                    }
                },
                Log::SpentFund(p, utxo) => {
                    let txin = utxo.extract_txin();
                    match utxos.remove(&txin) {
                        None => {
                            proof {
                                lemma_replay_none_extends(views, i + 1);
                            }
                            return Err(FromLogsError::Corrupted);
                        },
                        Some(held) => {
                            if !utxo_eq(&held, utxo) {
                                proof {
                                    crate::utxos::lemma_find_some(
                                        spec_replay(views.take(i as int)).unwrap(),
                                        utxo@.spec_txin(),
                                    );
                                    lemma_replay_none_extends(views, i + 1);
                                }
                                return Err(FromLogsError::Corrupted);
                            }
                        },
                    }
                    match engine.acknowledge(utxo.credited_addressing.duplicate()) {
                        Ok(()) => {},
                        Err(e) => {
                            return Err(FromLogsError::AddressLookupFailed(e));
                        },
                    }
                    opt_ptr = Some(p.duplicate());
                },
            }
            i += 1;
        }
        proof {
            assert(views.take(n as int) =~= views);
        }
        match opt_ptr {
            Some(ptr) => Ok(State { ptr, lookup_struct: engine, utxos }),
            None => Err(FromLogsError::NoEntries(engine)),
        }
    }

    /// Applies newly observed spent pointers: every output the state holds
    /// for one of them leaves the collection, and the matching spent-fund
    /// entries are handed back for the caller to append durably. Nothing
    /// is written here: the caller controls write ordering and batching.
    pub fn forward_with_txins(&mut self, inputs: Vec<(StatePtr, TxoPointer)>) -> (r: Result<
        Vec<Log<Address>>,
        AddressLookupError,
    >)
        requires
            old(self).wf(),
            forall|i: int| 0 <= i < inputs@.len() ==> (#[trigger] inputs@[i]).0.wf(),
        ensures
            final(self).wf(),
            final(self).ptr == old(self).ptr,
            final(self).lookup_struct == old(self).lookup_struct,
            r matches Ok(evs) ==> (final(self).utxos@, spec_log_views(evs@))
                == spec_forward_txins(old(self).utxos@, inputs@),
            r is Ok,
    {
        let mut events: Vec<Log<Address>> = Vec::new();
        let n = inputs.len();
        let mut i: usize = 0;
        while i < n
            invariant
                i <= n,
                n == inputs@.len(),
                forall|j: int| 0 <= j < inputs@.len() ==> (#[trigger] inputs@[j]).0.wf(),
                self.utxos.wf(),
                self.ptr == old(self).ptr,
                self.lookup_struct == old(self).lookup_struct,
                old(self).ptr.wf(),
                old(self).lookup_struct.wf(),
                (self.utxos@, spec_log_views(events@)) == spec_forward_txins(
                    old(self).utxos@,
                    inputs@.take(i as int),
                ),
            decreases n - i,
        {
            proof {
                assert(inputs@.take(i + 1).drop_last() =~= inputs@.take(i as int));
                assert(inputs@.take(i + 1).last() == inputs@[i as int]);
            }
            let (ptr, txin) = &inputs[i];
            match self.utxos.remove(txin) {
                Some(utxo) => {
                    events.push(Log::SpentFund(ptr.duplicate(), utxo));
                    proof {
                        assert(spec_log_views(events@) =~= spec_forward_txins(
                            old(self).utxos@,
                            inputs@.take(i + 1),
                        ).1);
                    }
                },
                None => {
                    proof {
                        assert(spec_log_views(events@) =~= spec_forward_txins(
                            old(self).utxos@,
                            inputs@.take(i + 1),
                        ).1);
                    }
                },
            }
            i += 1;
        }
        proof {
            assert(inputs@.take(n as int) =~= inputs@);
        }
        Ok(events)
    }

    /// Applies newly observed outputs: each one the engine recognizes is
    /// entered into the collection under its resolved addressing, advances
    /// the state pointer to the block that produced it, and yields the
    /// received-fund entry to append durably. The whole walk is the fold
    /// [`spec_forward_utxos_from`]: each output is classified by the
    /// engine state of its own step (a hit may teach the engine new
    /// addresses), the first step by the engine as handed in. Fails
    /// exactly when some step's engine cannot classify its output.
    pub fn forward_with_utxos(&mut self, outputs: Vec<(StatePtr, UTxO<Vec<u8>>)>) -> (r: Result<
        Vec<Log<Address>>,
        AddressLookupError,
    >)
        requires
            old(self).wf(),
            forall|i: int|
                0 <= i < outputs@.len() ==> (#[trigger] outputs@[i]).0.wf() && outputs@[i].1.wf(),
        ensures
            final(self).wf(),
            outputs@.len() == 0 ==> (r matches Ok(evs) && evs@.len() == 0 && *final(self) == *old(
                self,
            )),
            r matches Ok(evs) ==> exists|engines: Seq<T>|
                {
                    &&& engines.len() == outputs@.len()
                    &&& (engines.len() > 0 ==> engines[0] == old(self).lookup_struct)
                    &&& ({
                        let f = #[trigger] spec_forward_utxos_from(
                            engines,
                            outputs@,
                            0,
                            old(self).utxos@,
                            old(self).ptr@,
                            Seq::<LogV<AddressV>>::empty(),
                        );
                        &&& final(self).utxos@ == f.0
                        &&& final(self).ptr@ == f.1
                        &&& spec_log_views(evs@) == f.2
                    })
                },
            r matches Ok(evs) ==> forall|j: int|
                0 <= j < evs@.len() ==> ((#[trigger] evs@[j]) matches Log::ReceivedFund(p, u)
                    && p.wf() && u.wf()),
            r is Err ==> exists|e: T, j: int|
                0 <= j < outputs@.len() && !(#[trigger] e.spec_lookup_ok(
                    outputs@[j].1@.credited_address,
                )),
            (forall|e: T, a: Seq<u8>| #[trigger] e.spec_lookup_ok(a)) ==> r is Ok,
    {
        let ghost init_utxos = old(self).utxos@;
        let ghost init_ptr = old(self).ptr@;
        let mut events: Vec<Log<Address>> = Vec::new();
        let ghost mut engines: Seq<T> = Seq::empty();
        proof {
            assert(spec_log_views(events@) =~= Seq::<LogV<AddressV>>::empty());
        }
        let n = outputs.len();
        let mut i: usize = 0;
        while i < n
            invariant
                i <= n,
                n == outputs@.len(),
                forall|j: int|
                    0 <= j < outputs@.len() ==> (#[trigger] outputs@[j]).0.wf()
                        && outputs@[j].1.wf(),
                self.wf(),
                init_utxos == old(self).utxos@,
                init_ptr == old(self).ptr@,
                engines.len() == i,
                i > 0 ==> engines[0] == old(self).lookup_struct,
                i == 0 ==> *self == *old(self),
                forall|j: int|
                    0 <= j < events@.len() ==> ((#[trigger] events@[j]) matches Log::ReceivedFund(
                        p,
                        u,
                    ) && p.wf() && u.wf()),
                (self.utxos@, self.ptr@, spec_log_views(events@)) == spec_forward_utxos_from(
                    engines,
                    outputs@.take(i as int),
                    0,
                    init_utxos,
                    init_ptr,
                    Seq::<LogV<AddressV>>::empty(),
                ),
            decreases n - i,
        {
            let ghost pre_engine = self.lookup_struct;
            let ghost pre_utxos = self.utxos@;
            let ghost pre_ptr = self.ptr@;
            let ghost pre_events = spec_log_views(events@);
            let (ptr, utxo) = &outputs[i];
            let candidate = UTxO {
                transaction_id: crate::bytes::copy_bytes(&utxo.transaction_id),
                index_in_transaction: utxo.index_in_transaction,
                credited_address: crate::bytes::copy_bytes(&utxo.credited_address),
                credited_addressing: crate::bytes::copy_bytes(&utxo.credited_addressing),
                credited_value: utxo.credited_value,
            };
            proof {
                assert(candidate@.credited_address == outputs@[i as int].1@.credited_address);
            }
            match self.lookup_struct.lookup(candidate) {
                Err(e) => {
                    proof {
                        assert(!pre_engine.spec_lookup_ok(
                            outputs@[i as int].1@.credited_address,
                        ));
                    }
                    return Err(e);
                },
                Ok(None) => {
                    proof {
                        lemma_forward_utxos_snoc(
                            engines,
                            pre_engine,
                            outputs@,
                            0,
                            init_utxos,
                            init_ptr,
                            Seq::<LogV<AddressV>>::empty(),
                        );
                        engines = engines.push(pre_engine);
                    }
                },
                Ok(Some(resolved)) => {
                    self.ptr = ptr.duplicate();
                    events.push(Log::ReceivedFund(ptr.duplicate(), duplicate_utxo(&resolved)));
                    self.utxos.insert(resolved);
                    proof {
                        lemma_forward_utxos_snoc(
                            engines,
                            pre_engine,
                            outputs@,
                            0,
                            init_utxos,
                            init_ptr,
                            Seq::<LogV<AddressV>>::empty(),
                        );
                        engines = engines.push(pre_engine);
                        let a = pre_engine.spec_classify(
                            outputs@[i as int].1@.credited_address,
                        ).unwrap();
                        assert(resolved@ == (UTxOV {
                            transaction_id: outputs@[i as int].1@.transaction_id,
                            index_in_transaction: outputs@[i as int].1@.index_in_transaction,
                            credited_address: outputs@[i as int].1@.credited_address,
                            credited_addressing: a,
                            credited_value: outputs@[i as int].1@.credited_value,
                        }));
                        assert(spec_log_views(events@) =~= pre_events.push(
                            LogV::ReceivedFund(outputs@[i as int].0@, resolved@),
                        ));
                        assert(self.utxos@ == spec_insert_utxo(pre_utxos, resolved@));
                    }
                },
            }
            proof {
                assert(outputs@.take(i as int) =~= outputs@.take(i + 1).take(i as int));
                assert((self.utxos@, self.ptr@, spec_log_views(events@))
                    == spec_forward_utxos_from(
                    engines,
                    outputs@.take(i + 1),
                    0,
                    init_utxos,
                    init_ptr,
                    Seq::<LogV<AddressV>>::empty(),
                ));
            }
            i += 1;
        }
        proof {
            assert(outputs@.take(n as int) =~= outputs@);
            if n > 0 {
                let f = spec_forward_utxos_from(
                    engines,
                    outputs@,
                    0,
                    init_utxos,
                    init_ptr,
                    Seq::<LogV<AddressV>>::empty(),
                );
                assert(self.utxos@ == f.0 && self.ptr@ == f.1 && spec_log_views(events@) == f.2);
            } else {
                assert(spec_log_views(events@) =~= Seq::<LogV<AddressV>>::empty());
            }
        }
        Ok(events)
    }

    /// The compute core of one step of wallet synchronization: one
    /// block's effects applied to the state. The entries to append
    /// durably come back in order: a checkpoint when the block opens a
    /// new epoch relative to the last reflected date, then the funds the
    /// block spent, then the funds the engine recognized as received.
    /// Nothing is written here: the caller owns write ordering and
    /// batching, and so can checkpoint across epoch boundaries.
    pub fn forward_with_block(
        &mut self,
        last_date: BlockDate,
        block_ptr: &StatePtr,
        spent: Vec<(StatePtr, TxoPointer)>,
        produced: Vec<(StatePtr, UTxO<Vec<u8>>)>,
    ) -> (r: Result<Vec<Log<Address>>, AddressLookupError>)
        requires
            old(self).wf(),
            block_ptr.wf(),
            forall|i: int| 0 <= i < spent@.len() ==> (#[trigger] spent@[i]).0.wf(),
            forall|i: int|
                0 <= i < produced@.len() ==> (#[trigger] produced@[i]).0.wf()
                    && produced@[i].1.wf(),
        ensures
            final(self).wf(),
            produced@.len() == 0 ==> r is Ok,
            (forall|e: T, a: Seq<u8>| #[trigger] e.spec_lookup_ok(a)) ==> r is Ok,
            r matches Ok(evs) ==> ({
                let ck: Seq<LogV<AddressV>> = if block_ptr@.spec_latest_block_date().spec_epoch()
                    != last_date.spec_epoch() {
                    seq![LogV::Checkpoint(block_ptr@)]
                } else {
                    Seq::empty()
                };
                let spent_evs = spec_forward_txins(old(self).utxos@, spent@).1;
                &&& spec_log_views(evs@).len() >= ck.len() + spent_evs.len()
                &&& spec_log_views(evs@).take(ck.len() + spent_evs.len() as int) == ck + spent_evs
                &&& forall|j: int|
                    ck.len() + spent_evs.len() <= j < evs@.len() ==> (#[trigger] evs@[j]) matches Log::ReceivedFund(p, u)
            }),
    {
        let ghost old_utxos = self.utxos@;
        let mut events: Vec<Log<Address>> = Vec::new();
        let date = block_ptr.latest_block_date();
        if date.epoch() != last_date.epoch() {
            events.push(Log::Checkpoint(block_ptr.duplicate()));
        }
        let ghost ck_views = spec_log_views(events@);
        let mut spent_events = match self.forward_with_txins(spent) {
            Ok(evs) => evs,
            Err(e) => {
                return Err(e);
            },
        };
        let ghost spent_views = spec_log_views(spent_events@);
        events.append(&mut spent_events);
        let ghost mid_views = spec_log_views(events@);
        proof {
            assert(mid_views =~= ck_views + spent_views);
        }
        let mut received_events = match self.forward_with_utxos(produced) {
            Ok(evs) => evs,
            Err(e) => {
                return Err(e);
            },
        };
        let ghost recv_views = spec_log_views(received_events@);
        let ghost recv_list = received_events@;
        events.append(&mut received_events);
        proof {
            assert(spec_log_views(events@).take(mid_views.len() as int) =~= mid_views);
            assert forall|j: int|
                mid_views.len() <= j < events@.len() implies (#[trigger] events@[j]) matches Log::ReceivedFund(p, u) by {
                assert(events@[j] == recv_list[j - mid_views.len()]);
            }
        }
        Ok(events)
    }

    /// The pointer to the last block whose effects the state reflects.
    pub fn ptr(&self) -> (r: &StatePtr)
        ensures
            r == &self.ptr,
    {
        &self.ptr
    }

    /// Sums the values of every owned output; fails exactly when the sum
    /// leaves the coin domain.
    pub fn total(&self) -> (r: Result<Coin, CoinError>)
        requires
            self.wf(),
        ensures
            spec_sum(self.utxos@) <= MAX_COIN ==> (r matches Ok(c) && c.value == spec_sum(
                self.utxos@,
            )),
            spec_sum(self.utxos@) > MAX_COIN ==> r == Err::<Coin, CoinError>(
                CoinError::OutOfBound,
            ),
    {
        let n = self.utxos.len();
        let mut acc = Coin::zero();
        let mut i: usize = 0;
        proof {
            assert(forall|j: int|
                0 <= j < self.utxos@.len() ==> (#[trigger] self.utxos@[j]).credited_value >= 0);
        }
        while i < n
            invariant
                i <= n,
                n == self.utxos@.len(),
                self.wf(),
                acc.wf(),
                acc.value == spec_sum(self.utxos@.take(i as int)),
            decreases n - i,
        {
            proof {
                lemma_sum_take_snoc(self.utxos@, i as int);
            }
            let v = self.utxos.index(i);
            match acc.add(v.credited_value) {
                Ok(sum) => {
                    acc = sum;
                },
                Err(e) => {
                    proof {
                        lemma_sum_take_le(self.utxos@, i + 1);
                    }
                    return Err(e);
                },
            }
            i += 1;
        }
        proof {
            assert(self.utxos@.take(n as int) =~= self.utxos@);
        }
        Ok(acc)
    }
}

} // verus!
