//! Wallet event log entries and their binary record format.
//!
//! A record starts with a four-byte magic, the 32-byte hash of the block
//! the entry points at, and two eight-byte integers for the block date
//! (a slot of all ones marks a boundary block). Then come a four-byte
//! type tag, an eight-byte reserved field that must be zero, and, for
//! fund entries, a structured encoding of the output record.

use vstd::bytes::{spec_u32_to_le_bytes, spec_u64_to_le_bytes};
use vstd::prelude::*;

use crate::address::{Address, AddressV, Bip44Addressing, RIndexAddressing};
use crate::bytes::{push_bytes, read_bytes, read_u32_at, read_u64_at, write_u32, write_u64};
use crate::coin::{Coin, MAX_COIN};
use crate::ptr::{BlockDate, StatePtr, StatePtrV, HASH_SIZE};
use crate::utxo::{UTxO, UTxOV};

verus! {

/// Errors of reading a wallet log record back.
#[derive(Clone, Debug, PartialEq, Eq)]
pub enum LogError {
    /// The record does not begin with the expected magic; carries the
    /// bytes that stood in its place.
    UnsupportedLogFormat(Vec<u8>),
    /// The record is truncated, carries an unknown tag, or one of its
    /// fields is out of its domain.
    LogFormatError,
}

/// Mathematical value of a [`Log`] entry.
pub ghost enum LogV<AV> {
    Checkpoint(StatePtrV),
    ReceivedFund(StatePtrV, UTxOV<AV>),
    SpentFund(StatePtrV, UTxOV<AV>),
}

impl<AV> LogV<AV> {
    /// The pointer of the block the entry stems from.
    pub open spec fn spec_ptr(self) -> StatePtrV {
        match self {
            LogV::Checkpoint(p) => p,
            LogV::ReceivedFund(p, _) => p,
            LogV::SpentFund(p, _) => p,
        }
    }
}

/// One entry of the wallet's append-only event log: a checkpoint that
/// only advances the state pointer, or a fund received or spent by the
/// wallet.
#[derive(Clone, Debug, PartialEq, Eq)]
pub enum Log<A> {
    Checkpoint(StatePtr),
    ReceivedFund(StatePtr, UTxO<A>),
    SpentFund(StatePtr, UTxO<A>),
}

impl<A: View> View for Log<A> {
    type V = LogV<A::V>;

    open spec fn view(&self) -> LogV<A::V> {
        match self {
            Log::Checkpoint(p) => LogV::Checkpoint(p@),
            Log::ReceivedFund(p, u) => LogV::ReceivedFund(p@, u@),
            Log::SpentFund(p, u) => LogV::SpentFund(p@, u@),
        }
    }
}

impl<A: View> Log<A> {
    /// An entry is well formed when its pointer and, for fund entries,
    /// its output record are.
    pub open spec fn wf(self) -> bool {
        match self {
            Log::Checkpoint(p) => p.wf(),
            Log::ReceivedFund(p, u) => p.wf() && u.wf(),
            Log::SpentFund(p, u) => p.wf() && u.wf(),
        }
    }

    /// The pointer of the block the entry stems from.
    pub fn ptr(&self) -> (r: &StatePtr)
        ensures
            r@ == self@.spec_ptr(),
    {
        match self {
            Log::Checkpoint(p) => p,
            Log::ReceivedFund(p, _) => p,
            Log::SpentFund(p, _) => p,
        }
    }
}

impl<A> Log<A> {
    /// Replaces the addressing of the entry's output record, keeping
    /// everything else; checkpoints are left as they are.
    pub fn map<U>(self, addressing: U) -> (r: Log<U>)
        ensures
            match (self, r) {
                (Log::Checkpoint(p), Log::Checkpoint(q)) => p == q,
                (Log::ReceivedFund(p, u), Log::ReceivedFund(q, v)) => {
                    &&& p == q
                    &&& v.transaction_id == u.transaction_id
                    &&& v.index_in_transaction == u.index_in_transaction
                    &&& v.credited_address == u.credited_address
                    &&& v.credited_addressing == addressing
                    &&& v.credited_value == u.credited_value
                },
                (Log::SpentFund(p, u), Log::SpentFund(q, v)) => {
                    &&& p == q
                    &&& v.transaction_id == u.transaction_id
                    &&& v.index_in_transaction == u.index_in_transaction
                    &&& v.credited_address == u.credited_address
                    &&& v.credited_addressing == addressing
                    &&& v.credited_value == u.credited_value
                },
                _ => false,
            },
    {
        match self {
            Log::Checkpoint(p) => Log::Checkpoint(p),
            Log::ReceivedFund(p, u) => Log::ReceivedFund(p, u.map(addressing)),
            Log::SpentFund(p, u) => Log::SpentFund(p, u.map(addressing)),
        }
    }
}

/// The four magic bytes that open every record: the letters `EVT1`.
pub open spec fn spec_log_magic() -> Seq<u8> {
    seq![0x45u8, 0x56u8, 0x54u8, 0x31u8]
}

/// The epoch and slot fields of a block date: a boundary block writes the
/// all-ones slot.
pub open spec fn spec_date_fields(d: BlockDate) -> (u64, u64) {
    match d {
        BlockDate::Boundary(e) => (e, 0xFFFF_FFFF_FFFF_FFFFu64),
        BlockDate::Normal { epoch, slotid } => (epoch, slotid as u64),
    }
}

/// The type tag of an entry.
pub open spec fn spec_log_tag<AV>(l: LogV<AV>) -> u32 {
    match l {
        LogV::Checkpoint(_) => 1u32,
        LogV::ReceivedFund(_, _) => 2u32,
        LogV::SpentFund(_, _) => 3u32,
    }
}

/// Encoding of an addressing: a one-byte scheme tag, then the path
/// indices, or the raw bytes behind their length.
pub open spec fn spec_encode_addressing(a: AddressV) -> Seq<u8> {
    match a {
        AddressV::Bip44(p) => seq![0u8] + spec_u32_to_le_bytes(p.account) + spec_u32_to_le_bytes(
            p.change,
        ) + spec_u32_to_le_bytes(p.index),
        AddressV::RIndex(p) => seq![1u8] + spec_u32_to_le_bytes(p.account) + spec_u32_to_le_bytes(
            p.index,
        ),
        AddressV::Raw(b) => seq![2u8] + spec_u64_to_le_bytes(b.len() as u64) + b,
    }
}

/// Encoding of an output record: source transaction, output index, the
/// credited address behind its length, the addressing, and the value.
pub open spec fn spec_encode_utxo(u: UTxOV<AddressV>) -> Seq<u8> {
    u.transaction_id + spec_u32_to_le_bytes(u.index_in_transaction) + spec_u64_to_le_bytes(
        u.credited_address.len() as u64,
    ) + u.credited_address + spec_encode_addressing(u.credited_addressing) + spec_u64_to_le_bytes(
        u.credited_value,
    )
}

/// The full binary record of a log entry.
pub open spec fn spec_serialise_log(l: LogV<AddressV>) -> Seq<u8> {
    let date = spec_date_fields(l.spec_ptr().spec_latest_block_date());
    let header = spec_log_magic() + l.spec_ptr().latest_known_hash + spec_u64_to_le_bytes(date.0)
        + spec_u64_to_le_bytes(date.1) + spec_u32_to_le_bytes(spec_log_tag(l))
        + spec_u64_to_le_bytes(0u64);
    match l {
        LogV::Checkpoint(_) => header,
        LogV::ReceivedFund(_, u) => header + spec_encode_utxo(u),
        LogV::SpentFund(_, u) => header + spec_encode_utxo(u),
    }
}

/// The value-level well-formedness of an output record: a hash-sized
/// transaction id and a coin amount in its domain.
pub open spec fn spec_utxo_wf_v(u: UTxOV<AddressV>) -> bool {
    u.transaction_id.len() == HASH_SIZE && u.credited_value <= MAX_COIN
}

/// The value-level well-formedness of a log entry: a hash-sized block
/// hash, and a well-formed output record for fund entries.
pub open spec fn spec_log_wf_v(l: LogV<AddressV>) -> bool {
    match l {
        LogV::Checkpoint(p) => p.latest_known_hash.len() == HASH_SIZE,
        LogV::ReceivedFund(p, u) => p.latest_known_hash.len() == HASH_SIZE && spec_utxo_wf_v(u),
        LogV::SpentFund(p, u) => p.latest_known_hash.len() == HASH_SIZE && spec_utxo_wf_v(u),
    }
}

/// The shape of an addressing's encoding: its tag byte, its length, and
/// where its length field stands.
proof fn lemma_addressing_shape(a: AddressV)
    ensures
        spec_encode_addressing(a).len() >= 9,
        a matches AddressV::Bip44(_) ==> spec_encode_addressing(a)[0] == 0
            && spec_encode_addressing(a).len() == 13,
        a matches AddressV::RIndex(_) ==> spec_encode_addressing(a)[0] == 1
            && spec_encode_addressing(a).len() == 9,
        a matches AddressV::Raw(b) ==> ({
            let e = spec_encode_addressing(a);
            e[0] == 2 && e.len() == 9 + b.len() && e.subrange(1, 9) == spec_u64_to_le_bytes(
                b.len() as u64,
            )
        }),
{
    vstd::bytes::lemma_auto_spec_u32_to_from_le_bytes();
    vstd::bytes::lemma_auto_spec_u64_to_from_le_bytes();
    match a {
        AddressV::Bip44(p) => {
            assert(spec_u32_to_le_bytes(p.account).len() == 4);
            assert(spec_u32_to_le_bytes(p.change).len() == 4);
            assert(spec_u32_to_le_bytes(p.index).len() == 4);
        },
        AddressV::RIndex(p) => {
            assert(spec_u32_to_le_bytes(p.account).len() == 4);
            assert(spec_u32_to_le_bytes(p.index).len() == 4);
        },
        AddressV::Raw(b) => {
            assert(spec_u64_to_le_bytes((b.len() as u64)).len() == 8);
            assert(spec_encode_addressing(a).subrange(1, 9) =~= spec_u64_to_le_bytes(
                b.len() as u64,
            ));
        },
    }
}

/// The shape of an output record's encoding: where the fields stand and
/// how the lengths add up.
proof fn lemma_utxo_shape(u: UTxOV<AddressV>)
    requires
        spec_utxo_wf_v(u),
    ensures
        ({
            let e = spec_encode_utxo(u);
            let alen = u.credited_address.len() as int;
            let aenc = spec_encode_addressing(u.credited_addressing);
            &&& e.len() == 44 + alen + aenc.len() + 8
            &&& e.subrange(36, 44) == spec_u64_to_le_bytes(u.credited_address.len() as u64)
            &&& e.subrange(44 + alen, 44 + alen + aenc.len()) == aenc
            &&& e.subrange(e.len() - 8, e.len() as int) == spec_u64_to_le_bytes(u.credited_value)
            &&& e[44 + alen] == aenc[0]
        }),
{
    vstd::bytes::lemma_auto_spec_u32_to_from_le_bytes();
    vstd::bytes::lemma_auto_spec_u64_to_from_le_bytes();
    lemma_addressing_shape(u.credited_addressing);
    let e = spec_encode_utxo(u);
    let alen = u.credited_address.len() as int;
    let aenc = spec_encode_addressing(u.credited_addressing);
    assert(spec_u32_to_le_bytes(u.index_in_transaction).len() == 4);
    assert(spec_u64_to_le_bytes((u.credited_address.len() as u64)).len() == 8);
    assert(spec_u64_to_le_bytes(u.credited_value).len() == 8);
    assert(e.subrange(36, 44) =~= spec_u64_to_le_bytes(u.credited_address.len() as u64));
    assert(e.subrange(44 + alen, 44 + alen + aenc.len()) =~= aenc);
    assert(e.subrange(e.len() - 8, e.len() as int) =~= spec_u64_to_le_bytes(u.credited_value));
}

/// The shape of a log entry's record: the magic, the header fields, and
/// the payload standing after the 64-byte header.
proof fn lemma_log_shape(l: LogV<AddressV>)
    requires
        spec_log_wf_v(l),
    ensures
        ({
            let e = spec_serialise_log(l);
            let date = spec_date_fields(l.spec_ptr().spec_latest_block_date());
            &&& e.len() >= 64
            &&& e.subrange(0, 4) == spec_log_magic()
            &&& e.subrange(44, 52) == spec_u64_to_le_bytes(date.1)
            &&& (date.1 == 0xFFFF_FFFF_FFFF_FFFFu64 || date.1 <= 0xFFFFu64)
            &&& e.subrange(52, 56) == vstd::bytes::spec_u32_to_le_bytes(spec_log_tag(l))
            &&& e.subrange(56, 64) == spec_u64_to_le_bytes(0u64)
            &&& (l is Checkpoint ==> e.len() == 64)
            &&& (l matches LogV::ReceivedFund(_, u) ==> e.subrange(64, e.len() as int)
                == spec_encode_utxo(u))
            &&& (l matches LogV::SpentFund(_, u) ==> e.subrange(64, e.len() as int)
                == spec_encode_utxo(u))
        }),
{
    vstd::bytes::lemma_auto_spec_u32_to_from_le_bytes();
    vstd::bytes::lemma_auto_spec_u64_to_from_le_bytes();
    let e = spec_serialise_log(l);
    let date = spec_date_fields(l.spec_ptr().spec_latest_block_date());
    assert(spec_u64_to_le_bytes(date.0).len() == 8);
    assert(spec_u64_to_le_bytes(date.1).len() == 8);
    assert(vstd::bytes::spec_u32_to_le_bytes(spec_log_tag(l)).len() == 4);
    assert(spec_u64_to_le_bytes(0u64).len() == 8);
    assert(e.subrange(0, 4) =~= spec_log_magic());
    assert(e.subrange(44, 52) =~= spec_u64_to_le_bytes(date.1));
    assert(e.subrange(52, 56) =~= vstd::bytes::spec_u32_to_le_bytes(spec_log_tag(l)));
    assert(e.subrange(56, 64) =~= spec_u64_to_le_bytes(0u64));
    match l {
        LogV::Checkpoint(_) => {},
        LogV::ReceivedFund(_, u) => {
            lemma_utxo_shape(u);
            assert(e.subrange(64, e.len() as int) =~= spec_encode_utxo(u));
        },
        LogV::SpentFund(_, u) => {
            lemma_utxo_shape(u);
            assert(e.subrange(64, e.len() as int) =~= spec_encode_utxo(u));
        },
    }
    match l.spec_ptr().spec_latest_block_date() {
        BlockDate::Boundary(_) => {},
        BlockDate::Normal { epoch: _, slotid } => {
            assert(date.1 == slotid as u64);
        },
    }
}

fn push_magic(out: &mut Vec<u8>)
    ensures
        final(out)@ == old(out)@ + spec_log_magic(),
{
    out.push(0x45u8);
    out.push(0x56u8);
    out.push(0x54u8);
    out.push(0x31u8);
    proof {
        assert(out@ =~= old(out)@ + spec_log_magic());
    }
}

fn push_addressing(out: &mut Vec<u8>, a: &Address)
    ensures
        final(out)@ == old(out)@ + spec_encode_addressing(a@),
{
    match a {
        Address::Bip44(p) => {
            out.push(0u8);
            write_u32(out, p.account);
            write_u32(out, p.change);
            write_u32(out, p.index);
            proof {
                assert(out@ =~= old(out)@ + spec_encode_addressing(a@));
            }
        },
        Address::RIndex(p) => {
            out.push(1u8);
            write_u32(out, p.account);
            write_u32(out, p.index);
            proof {
                assert(out@ =~= old(out)@ + spec_encode_addressing(a@));
            }
        },
        Address::Raw(b) => {
            out.push(2u8);
            write_u64(out, b.len() as u64);
            push_bytes(out, b);
            proof {
                assert(out@ =~= old(out)@ + spec_encode_addressing(a@));
            }
        },
    }
}

fn push_utxo(out: &mut Vec<u8>, u: &UTxO<Address>)
    ensures
        final(out)@ == old(out)@ + spec_encode_utxo(u@),
{
    push_bytes(out, &u.transaction_id);
    write_u32(out, u.index_in_transaction);
    write_u64(out, u.credited_address.len() as u64);
    push_bytes(out, &u.credited_address);
    push_addressing(out, &u.credited_addressing);
    write_u64(out, u.credited_value.value);
    proof {
        assert(out@ =~= old(out)@ + spec_encode_utxo(u@));
    }
}

impl Log<Address> {
    /// Writes the entry down as one binary record.
    pub fn serialise(&self) -> (r: Vec<u8>)
        requires
            self.wf(),
        ensures
            r@ == spec_serialise_log(self@),
    {
        let mut out: Vec<u8> = Vec::new();
        push_magic(&mut out);
        let ptr = self.ptr();
        push_bytes(&mut out, &ptr.latest_known_hash);
        let date = ptr.latest_block_date();
        match date {
            BlockDate::Boundary(e) => {
                write_u64(&mut out, e);
                write_u64(&mut out, 0xFFFF_FFFF_FFFF_FFFFu64);
            },
            BlockDate::Normal { epoch, slotid } => {
                write_u64(&mut out, epoch);
                write_u64(&mut out, slotid as u64);
            },
        }
        match self {
            Log::Checkpoint(_) => {
                write_u32(&mut out, 1);
                write_u64(&mut out, 0);
                proof {
                    assert(out@ =~= spec_serialise_log(self@));
                }
            },
            Log::ReceivedFund(_, utxo) => {
                write_u32(&mut out, 2);
                write_u64(&mut out, 0);
                push_utxo(&mut out, utxo);
                proof {
                    assert(out@ =~= spec_serialise_log(self@));
                }
            },
            Log::SpentFund(_, utxo) => {
                write_u32(&mut out, 3);
                write_u64(&mut out, 0);
                push_utxo(&mut out, utxo);
                proof {
                    assert(out@ =~= spec_serialise_log(self@));
                }
            },
        }
        out
    }

    /// Reads one binary record back. A successful read returns a well
    /// formed entry whose record is exactly the given bytes, so any two
    /// entries this function can return for the same bytes are the same.
    pub fn deserialise(bytes: &Vec<u8>) -> (r: Result<Log<Address>, LogError>)
        ensures
            r matches Ok(l) ==> l.wf() && spec_serialise_log(l@) == bytes@,
            bytes@.len() < 4 ==> r == Err::<Log<Address>, LogError>(LogError::LogFormatError),
            bytes@.len() >= 4 && bytes@.subrange(0, 4) != spec_log_magic() ==> (r matches Err(
                LogError::UnsupportedLogFormat(m),
            ) && m@ == bytes@.subrange(0, 4)),
            forall|l: LogV<AddressV>|
                (spec_log_wf_v(l) && bytes@ == #[trigger] spec_serialise_log(l)) ==> r is Ok,
    {
        proof {
            vstd::bytes::lemma_auto_spec_u64_to_from_le_bytes();
            vstd::bytes::lemma_auto_spec_u32_to_from_le_bytes();
            assert forall|l: LogV<AddressV>|
                (spec_log_wf_v(l) && bytes@ == #[trigger] spec_serialise_log(l)) implies ({
                let date = spec_date_fields(l.spec_ptr().spec_latest_block_date());
                &&& bytes@.len() >= 64
                &&& bytes@.subrange(0, 4) == spec_log_magic()
                &&& bytes@.len() >= 64 ==> bytes@.subrange(44, 52) == spec_u64_to_le_bytes(date.1)
                &&& (date.1 == 0xFFFF_FFFF_FFFF_FFFFu64 || date.1 <= 0xFFFFu64)
                &&& bytes@.subrange(52, 56) == vstd::bytes::spec_u32_to_le_bytes(spec_log_tag(l))
                &&& (spec_log_tag(l) == 1 || spec_log_tag(l) == 2 || spec_log_tag(l) == 3)
                &&& bytes@.subrange(56, 64) == spec_u64_to_le_bytes(0u64)
                &&& (l is Checkpoint ==> bytes@.len() == 64)
                &&& (l matches LogV::ReceivedFund(_, u) ==> spec_utxo_wf_v(u) && bytes@.subrange(
                    64,
                    bytes@.len() as int,
                ) == spec_encode_utxo(u))
                &&& (l matches LogV::SpentFund(_, u) ==> spec_utxo_wf_v(u) && bytes@.subrange(
                    64,
                    bytes@.len() as int,
                ) == spec_encode_utxo(u))
            }) by {
                lemma_log_shape(l);
            }
        }
        if bytes.len() < 4 {
            return Err(LogError::LogFormatError);
        }
        let magic = read_bytes(bytes, 0, 4);
        let is_magic = magic.len() == 4 && magic[0] == 0x45u8 && magic[1] == 0x56u8 && magic[2]
            == 0x54u8 && magic[3] == 0x31u8;
        proof {
            if is_magic {
                assert(magic@ =~= spec_log_magic());
            }
        }
        if !is_magic {
            assert(bytes@.subrange(0, 4) != spec_log_magic());
            return Err(LogError::UnsupportedLogFormat(magic));
        }
        if bytes.len() < 64 {
            return Err(LogError::LogFormatError);
        }
        let hash = read_bytes(bytes, 4, 32);
        let epoch = read_u64_at(bytes, 36);
        let slot = read_u64_at(bytes, 44);
        let date = if slot == 0xFFFF_FFFF_FFFF_FFFFu64 {
            BlockDate::Boundary(epoch)
        } else if slot <= 0xFFFFu64 {
            BlockDate::Normal { epoch, slotid: slot as u16 }
        } else {
            return Err(LogError::LogFormatError);
        };
        let ptr = StatePtr::new(date, hash);
        let tag = read_u32_at(bytes, 52);
        let reserved = read_u64_at(bytes, 56);
        if reserved != 0 {
            return Err(LogError::LogFormatError);
        }
        proof {
            assert(spec_date_fields(ptr@.spec_latest_block_date()) == (epoch, slot));
        }
        if tag == 1 {
            if bytes.len() != 64 {
                return Err(LogError::LogFormatError);
            }
            let l = Log::<Address>::Checkpoint(ptr);
            proof {
                assert(spec_serialise_log(l@) =~= bytes@);
            }
            Ok(l)
        } else if tag == 2 || tag == 3 {
            match read_utxo(bytes, 64) {
                None => Err(LogError::LogFormatError),
                Some(utxo) => {
                    let l = if tag == 2 {
                        Log::<Address>::ReceivedFund(ptr, utxo)
                    } else {
                        Log::<Address>::SpentFund(ptr, utxo)
                    };
                    proof {
                        assert(spec_serialise_log(l@) =~= bytes@);
                    }
                    Ok(l)
                },
            }
        } else {
            Err(LogError::LogFormatError)
        }
    }
}

/// Reads the output record standing at `pos`; the record must reach to the
/// exact end of the bytes.
fn read_utxo(bytes: &Vec<u8>, pos: usize) -> (r: Option<UTxO<Address>>)
    requires
        pos <= bytes@.len(),
    ensures
        r matches Some(u) ==> u.wf() && bytes@.subrange(pos as int, bytes@.len() as int)
            == spec_encode_utxo(u@),
        r is None ==> forall|u: UTxOV<AddressV>|
            (spec_utxo_wf_v(u) && bytes@.subrange(pos as int, bytes@.len() as int)
                == #[trigger] spec_encode_utxo(u)) ==> false,
{
    proof {
        vstd::bytes::lemma_auto_spec_u64_to_from_le_bytes();
    }
    let ghost whole = bytes@.subrange(pos as int, bytes@.len() as int);
    let n = bytes.len();
    if n - pos < 44 {
        proof {
            assert forall|u: UTxOV<AddressV>|
                (spec_utxo_wf_v(u) && whole == #[trigger] spec_encode_utxo(u)) implies false by {
                lemma_utxo_shape(u);
            }
        }
        return None;
    }
    let txid = read_bytes(bytes, pos, 32);
    let index = read_u32_at(bytes, pos + 32);
    let addr_len64 = read_u64_at(bytes, pos + 36);
    let rest: usize = n - (pos + 44);
    proof {
        assert forall|u: UTxOV<AddressV>|
            (spec_utxo_wf_v(u) && whole == #[trigger] spec_encode_utxo(u)) implies (
        u.credited_address.len() as u64) == addr_len64 && 44 + u.credited_address.len()
            + spec_encode_addressing(u.credited_addressing).len() + 8 == n - pos by {
            lemma_utxo_shape(u);
            lemma_addressing_shape(u.credited_addressing);
            assert(bytes@.subrange(pos + 36, pos + 44) =~= spec_encode_utxo(u).subrange(36, 44));
        }
    }
    if addr_len64 > rest as u64 {
        proof {
            assert forall|u: UTxOV<AddressV>|
                (spec_utxo_wf_v(u) && whole == #[trigger] spec_encode_utxo(u)) implies false by {
                lemma_addressing_shape(u.credited_addressing);
            }
        }
        return None;
    }
    let addr_len = addr_len64 as usize;
    let addr = read_bytes(bytes, pos + 44, addr_len);
    let apos = pos + 44 + addr_len;
    proof {
        assert forall|u: UTxOV<AddressV>|
            (spec_utxo_wf_v(u) && whole == #[trigger] spec_encode_utxo(u)) implies (apos
            + spec_encode_addressing(u.credited_addressing).len() <= bytes@.len()
            && bytes@.subrange(
            apos as int,
            apos + spec_encode_addressing(u.credited_addressing).len(),
        ) == spec_encode_addressing(u.credited_addressing)) by {
            lemma_utxo_shape(u);
            let aenc = spec_encode_addressing(u.credited_addressing);
            let alen_h = u.credited_address.len() as int;
            assert(bytes@.subrange(apos as int, apos + aenc.len()) =~= spec_encode_utxo(
                u,
            ).subrange(44 + alen_h, 44 + alen_h + aenc.len()));
        }
    }
    let (addressing, alen) = match read_addressing(bytes, apos) {
        None => {
            return None;
        },
        Some(p) => p,
    };
    let vpos = apos + alen;
    proof {
        assert forall|u: UTxOV<AddressV>|
            (spec_utxo_wf_v(u) && whole == #[trigger] spec_encode_utxo(u)) implies alen
            == spec_encode_addressing(u.credited_addressing).len() && vpos + 8 == n by {
            lemma_utxo_shape(u);
        }
    }
    if n - vpos != 8 {
        return None;
    }
    let value = read_u64_at(bytes, vpos);
    proof {
        assert forall|u: UTxOV<AddressV>|
            (spec_utxo_wf_v(u) && whole == #[trigger] spec_encode_utxo(u)) implies value
            == u.credited_value by {
            lemma_utxo_shape(u);
            assert(bytes@.subrange(vpos as int, n as int) =~= spec_encode_utxo(u).subrange(
                spec_encode_utxo(u).len() - 8,
                spec_encode_utxo(u).len() as int,
            ));
        }
    }
    if value > MAX_COIN {
        return None;
    }
    let u = UTxO {
        transaction_id: txid,
        index_in_transaction: index,
        credited_address: addr,
        credited_addressing: addressing,
        credited_value: Coin { value },
    };
    proof {
        assert((addr@.len() as u64) == addr_len64);
        assert(bytes@.subrange(pos as int, n as int) =~= spec_encode_utxo(u@));
    }
    Some(u)
}

/// Reads the addressing standing at `pos`, returning it with the number of
/// bytes it took.
fn read_addressing(bytes: &Vec<u8>, pos: usize) -> (r: Option<(Address, usize)>)
    requires
        pos <= bytes@.len(),
    ensures
        r matches Some(p) ==> {
            &&& pos + p.1 <= bytes@.len()
            &&& bytes@.subrange(pos as int, pos + p.1) == spec_encode_addressing(p.0@)
        },
        r is None ==> forall|a: AddressV|
            pos + #[trigger] spec_encode_addressing(a).len() <= bytes@.len()
                ==> bytes@.subrange(pos as int, pos + spec_encode_addressing(a).len())
                != spec_encode_addressing(a),
        r matches Some(p) ==> forall|a: AddressV|
            (pos + #[trigger] spec_encode_addressing(a).len() <= bytes@.len() && bytes@.subrange(
                pos as int,
                pos + spec_encode_addressing(a).len(),
            ) == spec_encode_addressing(a)) ==> p.1 == spec_encode_addressing(a).len(),
{
    proof {
        vstd::bytes::lemma_auto_spec_u64_to_from_le_bytes();
    }
    let n = bytes.len();
    if n == pos {
        proof {
            assert forall|a: AddressV|
                pos + #[trigger] spec_encode_addressing(a).len() <= bytes@.len()
                    implies bytes@.subrange(pos as int, pos + spec_encode_addressing(a).len())
                    != spec_encode_addressing(a) by {
                lemma_addressing_shape(a);
            }
        }
        return None;
    }
    let tag = bytes[pos];
    proof {
        assert forall|a: AddressV|
            (pos + #[trigger] spec_encode_addressing(a).len() <= bytes@.len() && bytes@.subrange(
                pos as int,
                pos + spec_encode_addressing(a).len(),
            ) == spec_encode_addressing(a)) implies spec_encode_addressing(a)[0] == tag by {
            lemma_addressing_shape(a);
            assert(bytes@.subrange(pos as int, pos + spec_encode_addressing(a).len())[0]
                == bytes@[pos as int]);
        }
    }
    if tag == 0 {
        if n - pos < 13 {
            proof {
                assert forall|a: AddressV|
                    pos + #[trigger] spec_encode_addressing(a).len() <= bytes@.len()
                        implies bytes@.subrange(pos as int, pos + spec_encode_addressing(a).len())
                        != spec_encode_addressing(a) by {
                    lemma_addressing_shape(a);
                }
            }
            return None;
        }
        let account = read_u32_at(bytes, pos + 1);
        let change = read_u32_at(bytes, pos + 5);
        let index = read_u32_at(bytes, pos + 9);
        let a = Address::Bip44(Bip44Addressing { account, change, index });
        proof {
            assert(bytes@.subrange(pos as int, pos + 13) =~= spec_encode_addressing(a@));
            assert forall|b: AddressV|
                (pos + #[trigger] spec_encode_addressing(b).len() <= bytes@.len()
                    && bytes@.subrange(pos as int, pos + spec_encode_addressing(b).len())
                    == spec_encode_addressing(b)) implies spec_encode_addressing(b).len()
                == 13 by {
                lemma_addressing_shape(b);
            }
        }
        Some((a, 13))
    } else if tag == 1 {
        if n - pos < 9 {
            proof {
                assert forall|a: AddressV|
                    pos + #[trigger] spec_encode_addressing(a).len() <= bytes@.len()
                        implies bytes@.subrange(pos as int, pos + spec_encode_addressing(a).len())
                        != spec_encode_addressing(a) by {
                    lemma_addressing_shape(a);
                }
            }
            return None;
        }
        let account = read_u32_at(bytes, pos + 1);
        let index = read_u32_at(bytes, pos + 5);
        let a = Address::RIndex(RIndexAddressing { account, index });
        proof {
            assert(bytes@.subrange(pos as int, pos + 9) =~= spec_encode_addressing(a@));
            assert forall|b: AddressV|
                (pos + #[trigger] spec_encode_addressing(b).len() <= bytes@.len()
                    && bytes@.subrange(pos as int, pos + spec_encode_addressing(b).len())
                    == spec_encode_addressing(b)) implies spec_encode_addressing(b).len() == 9 by {
                lemma_addressing_shape(b);
            }
        }
        Some((a, 9))
    } else if tag == 2 {
        if n - pos < 9 {
            proof {
                assert forall|a: AddressV|
                    pos + #[trigger] spec_encode_addressing(a).len() <= bytes@.len()
                        implies bytes@.subrange(pos as int, pos + spec_encode_addressing(a).len())
                        != spec_encode_addressing(a) by {
                    lemma_addressing_shape(a);
                }
            }
            return None;
        }
        let len64 = read_u64_at(bytes, pos + 1);
        let rest: usize = n - (pos + 9);
        if len64 > rest as u64 {
            proof {
                assert forall|a: AddressV|
                    pos + #[trigger] spec_encode_addressing(a).len() <= bytes@.len()
                        implies bytes@.subrange(pos as int, pos + spec_encode_addressing(a).len())
                        != spec_encode_addressing(a) by {
                    lemma_addressing_shape(a);
                    if bytes@.subrange(pos as int, pos + spec_encode_addressing(a).len())
                        == spec_encode_addressing(a) {
                        match a {
                            AddressV::Raw(raw) => {
                                let e = spec_encode_addressing(a);
                                assert(bytes@.subrange(pos + 1, pos + 9) =~= e.subrange(1, 9));
                                assert(len64 == raw.len() as u64);
                                assert(pos + 9 + raw.len() <= n);
                            },
                            _ => {},
                        }
                    }
                }
            }
            return None;
        }
        let len = len64 as usize;
        let raw = read_bytes(bytes, pos + 9, len);
        let a = Address::Raw(raw);
        proof {
            assert((bytes@.subrange(pos + 9, pos + 9 + len as int).len() as u64) == len64);
            assert(bytes@.subrange(pos as int, pos + 9 + len as int) =~= spec_encode_addressing(
                a@,
            ));
        }
        proof {
            assert forall|b: AddressV|
                (pos + #[trigger] spec_encode_addressing(b).len() <= bytes@.len()
                    && bytes@.subrange(pos as int, pos + spec_encode_addressing(b).len())
                    == spec_encode_addressing(b)) implies spec_encode_addressing(b).len() == 9
                + len by {
                lemma_addressing_shape(b);
                match b {
                    AddressV::Raw(raw) => {
                        let e = spec_encode_addressing(b);
                        assert(bytes@.subrange(pos + 1, pos + 9) =~= e.subrange(1, 9));
                        assert(len64 == raw.len() as u64);
                    },
                    _ => {},
                }
            }
        }
        Some((a, 9 + len))
    } else {
        proof {
            assert forall|a: AddressV|
                pos + #[trigger] spec_encode_addressing(a).len() <= bytes@.len()
                    implies bytes@.subrange(pos as int, pos + spec_encode_addressing(a).len())
                    != spec_encode_addressing(a) by {
                lemma_addressing_shape(a);
            }
        }
        None
    }
}

} // verus!
