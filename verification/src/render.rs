//! Plain-text renderings of wallet values: decimal numbers, dates,
//! output records and whole wallet logs.

use vstd::prelude::*;

use crate::address::Address;
use crate::bytes::{hex_encode, spec_hex};
use crate::ptr::{BlockDate, StatePtr};
use crate::utxo::UTxO;
use crate::utxos::UTxOs;
use crate::wallet_log::Log;

verus! {

/// The decimal digits of a number.
pub open spec fn spec_dec(v: nat) -> Seq<char>
    decreases v,
{
    if v < 10 {
        seq![spec_dec_digit((v % 10) as u8)]
    } else {
        spec_dec(v / 10) + seq![spec_dec_digit((v % 10) as u8)]
    }
}

/// The decimal digit of a value below ten.
pub open spec fn spec_dec_digit(n: u8) -> char
    recommends
        n < 10,
{
    (('0' as u8) + if n < 10 {
        n
    } else {
        0
    }) as char
}

fn dec_digit_str(n: u64) -> (r: &'static str)
    requires
        n < 10,
    ensures
        r@ == seq![spec_dec_digit(n as u8)],
{
    proof {
        reveal_strlit("0");
        reveal_strlit("1");
        reveal_strlit("2");
        reveal_strlit("3");
        reveal_strlit("4");
        reveal_strlit("5");
        reveal_strlit("6");
        reveal_strlit("7");
        reveal_strlit("8");
        reveal_strlit("9");
    }
    match n {
        0 => "0",
        1 => "1",
        2 => "2",
        3 => "3",
        4 => "4",
        5 => "5",
        6 => "6",
        7 => "7",
        8 => "8",
        _ => "9",
    }
}

/// Renders a number in decimal.
pub fn dec_string(v: u64) -> (r: String)
    ensures
        r@ == spec_dec(v as nat),
    decreases v,
{
    if v < 10 {
        let mut out = String::new();
        out.append(dec_digit_str(v));
        out
    } else {
        let mut out = dec_string(v / 10);
        out.append(dec_digit_str(v % 10));
        out
    }
}

/// The rendering of a block date: the epoch for a boundary block, the
/// epoch and the slot otherwise.
pub open spec fn spec_render_date(d: BlockDate) -> Seq<char> {
    match d {
        BlockDate::Boundary(e) => spec_dec(e as nat),
        BlockDate::Normal { epoch, slotid } => spec_dec(epoch as nat) + "."@ + spec_dec(
            slotid as nat,
        ),
    }
}

/// Renders a block date.
pub fn render_date(d: &BlockDate) -> (r: String)
    ensures
        r@ == spec_render_date(*d),
{
    match d {
        BlockDate::Boundary(e) => dec_string(*e),
        BlockDate::Normal { epoch, slotid } => {
            let mut out = dec_string(*epoch);
            out.append(".");
            let slot = dec_string(*slotid as u64);
            out.append(slot.as_str());
            out
        },
    }
}

/// The one-line rendering of an output record: the block date, the
/// output's pointer, and the value, signed as credit or debit.
pub open spec fn spec_render_utxo(
    ptr: crate::ptr::StatePtrV,
    u: crate::utxo::UTxOV<crate::address::AddressV>,
    debit: bool,
) -> Seq<char> {
    spec_render_date(ptr.spec_latest_block_date()) + " "@ + spec_hex(u.transaction_id) + "."@
        + spec_dec(u.index_in_transaction as nat) + (if debit {
        " -"@
    } else {
        " +"@
    }) + spec_dec(u.credited_value as nat)
}

/// Renders an output record as one line: date, pointer, signed value.
pub fn display_utxo(ptr: &StatePtr, utxo: &UTxO<Address>, debit: bool) -> (r: String)
    ensures
        r@ == spec_render_utxo(ptr@, utxo@, debit),
{
    let date = ptr.latest_block_date();
    let mut out = render_date(&date);
    out.append(" ");
    let txid = hex_encode(&utxo.transaction_id);
    out.append(txid.as_str());
    out.append(".");
    let idx = dec_string(utxo.index_in_transaction as u64);
    out.append(idx.as_str());
    if debit {
        out.append(" -");
    } else {
        out.append(" +");
    }
    let value = dec_string(utxo.credited_value.value);
    out.append(value.as_str());
    out
}

/// The multi-line rendering of an output record: a credit or debit title
/// with the pointer, then the date, block hash and value, one per line.
pub open spec fn spec_dump_utxo(
    ptr: crate::ptr::StatePtrV,
    u: crate::utxo::UTxOV<crate::address::AddressV>,
    debit: bool,
) -> Seq<char> {
    (if debit {
        "debit "@
    } else {
        "credit "@
    }) + spec_hex(u.transaction_id) + "."@ + spec_dec(u.index_in_transaction as nat) + "\nDate "@
        + spec_render_date(ptr.spec_latest_block_date()) + "\nBlock "@ + spec_hex(
        ptr.latest_known_hash,
    ) + "\nValue "@ + spec_dec(u.credited_value as nat) + "\n"@
}

/// Renders an output record over several lines: title, date, block hash
/// and value.
pub fn dump_utxo(ptr: &StatePtr, utxo: &UTxO<Address>, debit: bool) -> (r: String)
    ensures
        r@ == spec_dump_utxo(ptr@, utxo@, debit),
{
    let mut out = String::new();
    if debit {
        out.append("debit ");
    } else {
        out.append("credit ");
    }
    let txid = hex_encode(&utxo.transaction_id);
    out.append(txid.as_str());
    out.append(".");
    let idx = dec_string(utxo.index_in_transaction as u64);
    out.append(idx.as_str());
    out.append("\nDate ");
    let date = ptr.latest_block_date();
    let rendered = render_date(&date);
    out.append(rendered.as_str());
    out.append("\nBlock ");
    let hash = hex_encode(&ptr.latest_known_hash);
    out.append(hash.as_str());
    out.append("\nValue ");
    let value = dec_string(utxo.credited_value.value);
    out.append(value.as_str());
    out.append("\n");
    out
}

/// The rendering of every owned output, one line each.
pub open spec fn spec_render_utxos(s: Seq<crate::utxo::UTxOV<crate::address::AddressV>>) -> Seq<
    char,
>
    decreases s.len(),
{
    if s.len() == 0 {
        Seq::empty()
    } else {
        spec_render_utxos(s.drop_last()) + spec_hex(s.last().transaction_id) + "."@ + spec_dec(
            s.last().index_in_transaction as nat,
        ) + " "@ + spec_dec(s.last().credited_value as nat) + "\n"@
    }
}

/// Renders the outputs a wallet state owns, one line each: the pointer
/// and the value.
pub fn display_wallet_state_utxos(utxos: &UTxOs) -> (r: String)
    ensures
        r@ == spec_render_utxos(utxos@),
{
    let n = utxos.len();
    let mut out = String::new();
    let mut i: usize = 0;
    while i < n
        invariant
            i <= n,
            n == utxos@.len(),
            out@ == spec_render_utxos(utxos@.take(i as int)),
        decreases n - i,
    {
        proof {
            assert(utxos@.take(i + 1).drop_last() =~= utxos@.take(i as int));
            assert(utxos@.take(i + 1).last() == utxos@[i as int]);
        }
        let u = utxos.index(i);
        let txid = hex_encode(&u.transaction_id);
        out.append(txid.as_str());
        out.append(".");
        let idx = dec_string(u.index_in_transaction as u64);
        out.append(idx.as_str());
        out.append(" ");
        let value = dec_string(u.credited_value.value);
        out.append(value.as_str());
        out.append("\n");
        i += 1;
    }
    proof {
        assert(utxos@.take(n as int) =~= utxos@);
    }
    out
}

/// The rendering of a whole log: checkpoints as one line each when dumping
/// plainly, fund entries through the one-line or multi-line rendering.
pub open spec fn spec_render_logs(
    s: Seq<crate::wallet_log::LogV<crate::address::AddressV>>,
    pretty: bool,
) -> Seq<char>
    decreases s.len(),
{
    if s.len() == 0 {
        Seq::empty()
    } else {
        spec_render_logs(s.drop_last(), pretty) + match s.last() {
            crate::wallet_log::LogV::Checkpoint(p) => {
                if !pretty {
                    "checkpoint "@ + spec_render_date(p.spec_latest_block_date()) + "\n"@
                } else {
                    Seq::<char>::empty()
                }
            },
            crate::wallet_log::LogV::ReceivedFund(p, u) => {
                if pretty {
                    spec_render_utxo(p, u, false) + "\n"@
                } else {
                    spec_dump_utxo(p, u, false)
                }
            },
            crate::wallet_log::LogV::SpentFund(p, u) => {
                if pretty {
                    spec_render_utxo(p, u, true) + "\n"@
                } else {
                    spec_dump_utxo(p, u, true)
                }
            },
        }
    }
}

/// Renders the entries of a wallet log in order: checkpoints as one line
/// each when dumping plainly, received funds as credits, spent funds as
/// debits.
pub fn display_wallet_state_logs(entries: &Vec<Log<Address>>, pretty: bool) -> (r: String)
    ensures
        r@ == spec_render_logs(crate::state::spec_log_views(entries@), pretty),
{
    let ghost views = crate::state::spec_log_views(entries@);
    let n = entries.len();
    let mut out = String::new();
    let mut i: usize = 0;
    while i < n
        invariant
            i <= n,
            n == entries@.len(),
            views == crate::state::spec_log_views(entries@),
            out@ == spec_render_logs(views.take(i as int), pretty),
        decreases n - i,
    {
        proof {
            assert(views.take(i + 1).drop_last() =~= views.take(i as int));
            assert(views.take(i + 1).last() == views[i as int]);
        }
        match &entries[i] {
            Log::Checkpoint(p) => {
                if !pretty {
                    out.append("checkpoint ");
                    let date = p.latest_block_date();
                    let rendered = render_date(&date);
                    out.append(rendered.as_str());
                    out.append("\n");
                }
            },
            Log::ReceivedFund(p, u) => {
                if pretty {
                    let line = display_utxo(p, u, false);
                    out.append(line.as_str());
                    out.append("\n");
                } else {
                    let block = dump_utxo(p, u, false);
                    out.append(block.as_str());
                }
            },
            Log::SpentFund(p, u) => {
                if pretty {
                    let line = display_utxo(p, u, true);
                    out.append(line.as_str());
                    out.append("\n");
                } else {
                    let block = dump_utxo(p, u, true);
                    out.append(block.as_str());
                }
            },
        }
        i += 1;
    }
    proof {
        assert(views.take(n as int) =~= views);
    }
    out
}

} // verus!
