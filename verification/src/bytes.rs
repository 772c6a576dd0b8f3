//! Small byte-level helpers shared by the record codecs.

use vstd::bytes::{
    spec_u32_from_le_bytes, spec_u32_to_le_bytes, spec_u64_from_le_bytes, spec_u64_to_le_bytes,
    u32_from_le_bytes, u32_to_le_bytes, u64_from_le_bytes, u64_to_le_bytes,
    lemma_auto_spec_u32_to_from_le_bytes, lemma_auto_spec_u64_to_from_le_bytes,
};
use vstd::prelude::*;

verus! {

/// Appends the four little-endian bytes of `v` to `out`.
pub fn write_u32(out: &mut Vec<u8>, v: u32)
    ensures
        final(out)@ == old(out)@ + spec_u32_to_le_bytes(v),
{
    let b = u32_to_le_bytes(v);
    push_bytes(out, &b);
}

/// Appends the eight little-endian bytes of `v` to `out`.
pub fn write_u64(out: &mut Vec<u8>, v: u64)
    ensures
        final(out)@ == old(out)@ + spec_u64_to_le_bytes(v),
{
    let b = u64_to_le_bytes(v);
    push_bytes(out, &b);
}

/// Reads the little-endian `u32` standing at `pos`.
pub fn read_u32_at(src: &Vec<u8>, pos: usize) -> (r: u32)
    requires
        pos + 4 <= src@.len(),
    ensures
        r == spec_u32_from_le_bytes(src@.subrange(pos as int, pos + 4)),
        spec_u32_to_le_bytes(r) == src@.subrange(pos as int, pos + 4),
{
    proof {
        lemma_auto_spec_u32_to_from_le_bytes();
    }
    let b = read_bytes(src, pos, 4);
    u32_from_le_bytes(b.as_slice())
}

/// Reads the little-endian `u64` standing at `pos`.
pub fn read_u64_at(src: &Vec<u8>, pos: usize) -> (r: u64)
    requires
        pos + 8 <= src@.len(),
    ensures
        r == spec_u64_from_le_bytes(src@.subrange(pos as int, pos + 8)),
        spec_u64_to_le_bytes(r) == src@.subrange(pos as int, pos + 8),
{
    proof {
        lemma_auto_spec_u64_to_from_le_bytes();
    }
    let b = read_bytes(src, pos, 8);
    u64_from_le_bytes(b.as_slice())
}

/// Copies a byte vector.
pub fn copy_bytes(src: &Vec<u8>) -> (r: Vec<u8>)
    ensures
        r@ == src@,
{
    let r = read_bytes(src, 0, src.len());
    proof {
        assert(src@.subrange(0, src@.len() as int) =~= src@);
    }
    r
}

/// Compares two byte vectors for equality of their contents.
pub fn bytes_eq(a: &Vec<u8>, b: &Vec<u8>) -> (r: bool)
    ensures
        r == (a@ == b@),
{
    if a.len() != b.len() {
        assert(a@ !~= b@);
        return false;
    }
    let n = a.len();
    let mut i: usize = 0;
    while i < n
        invariant
            i <= n,
            n == a@.len(),
            n == b@.len(),
            forall|j: int| 0 <= j < i ==> a@[j] == b@[j],
        decreases n - i,
    {
        if a[i] != b[i] {
            return false;
        }
        i += 1;
    }
    proof {
        assert(a@ =~= b@);
    }
    true
}

/// Appends the contents of `src` to `out`.
pub fn push_bytes(out: &mut Vec<u8>, src: &Vec<u8>)
    ensures
        final(out)@ == old(out)@ + src@,
{
    let n = src.len();
    let mut i: usize = 0;
    while i < n
        invariant
            i <= n,
            n == src@.len(),
            out@ == old(out)@ + src@.subrange(0, i as int),
        decreases n - i,
    {
        out.push(src[i]);
        proof {
            assert(out@ =~= old(out)@ + src@.subrange(0, i + 1 as int));
        }
        i += 1;
    }
    proof {
        assert(out@ =~= old(out)@ + src@);
    }
}

/// Copies `count` bytes of `src` starting at `pos` into a fresh vector.
pub fn read_bytes(src: &Vec<u8>, pos: usize, count: usize) -> (r: Vec<u8>)
    requires
        pos + count <= src@.len(),
    ensures
        r@ == src@.subrange(pos as int, pos + count),
{
    let n = src.len();
    let mut out: Vec<u8> = Vec::new();
    let mut i: usize = 0;
    while i < count
        invariant
            i <= count,
            pos + count <= n,
            n == src@.len(),
            out@ == src@.subrange(pos as int, pos + i),
        decreases count - i,
    {
        out.push(src[pos + i]);
        proof {
            assert(out@ =~= src@.subrange(pos as int, pos + i + 1));
        }
        i += 1;
    }
    out
}

/// The two lower-case hexadecimal digits of one byte.
pub open spec fn spec_hex_byte(b: u8) -> Seq<char> {
    seq![spec_hex_digit(b / 16), spec_hex_digit(b % 16)]
}

/// The lower-case hexadecimal digit of a nibble.
pub open spec fn spec_hex_digit(n: u8) -> char
    recommends
        n < 16,
{
    if n < 10 {
        (('0' as u8) + n) as char
    } else if n < 16 {
        (('a' as u8) + (n - 10)) as char
    } else {
        '0'
    }
}

/// The lower-case hexadecimal rendering of a byte string.
pub open spec fn spec_hex(s: Seq<u8>) -> Seq<char>
    decreases s.len(),
{
    if s.len() == 0 {
        Seq::empty()
    } else {
        spec_hex_byte(s[0]) + spec_hex(s.skip(1))
    }
}

fn hex_digit_str(n: u8) -> (r: &'static str)
    requires
        n < 16,
    ensures
        r@ == seq![spec_hex_digit(n)],
{
    proof {
        reveal_strlit("0");
        reveal_strlit("1");
        reveal_strlit("2");
        reveal_strlit("3");
        reveal_strlit("4");
        reveal_strlit("5");
        reveal_strlit("6");
        reveal_strlit("7");
        reveal_strlit("8");
        reveal_strlit("9");
        reveal_strlit("a");
        reveal_strlit("b");
        reveal_strlit("c");
        reveal_strlit("d");
        reveal_strlit("e");
        reveal_strlit("f");
    }
    match n {
        0 => "0",
        1 => "1",
        2 => "2",
        3 => "3",
        4 => "4",
        5 => "5",
        6 => "6",
        7 => "7",
        8 => "8",
        9 => "9",
        10 => "a",
        11 => "b",
        12 => "c",
        13 => "d",
        14 => "e",
        _ => "f",
    }
}

/// Renders a byte string as lower-case hexadecimal, two digits per byte.
pub fn hex_encode(bytes: &Vec<u8>) -> (r: String)
    ensures
        r@ == spec_hex(bytes@),
{
    let n = bytes.len();
    let mut out = String::new();
    let mut i: usize = 0;
    while i < n
        invariant
            i <= n,
            n == bytes@.len(),
            out@ == spec_hex(bytes@.take(i as int)),
        decreases n - i,
    {
        let b = bytes[i];
        out.append(hex_digit_str(b / 16));
        out.append(hex_digit_str(b % 16));
        proof {
            lemma_spec_hex_snoc(bytes@, i as int);
            assert(out@ =~= spec_hex(bytes@.take(i as int)) + spec_hex_byte(b));
        }
        i += 1;
    }
    proof {
        assert(bytes@.take(n as int) =~= bytes@);
    }
    out
}

/// The value of a hexadecimal digit, lower or upper case.
pub open spec fn spec_hex_digit_val(c: char) -> Option<u8> {
    if '0' <= c && c <= '9' {
        Some((c as u8 - '0' as u8) as u8)
    } else if 'a' <= c && c <= 'f' {
        Some((c as u8 - 'a' as u8 + 10) as u8)
    } else if 'A' <= c && c <= 'F' {
        Some((c as u8 - 'A' as u8 + 10) as u8)
    } else {
        None
    }
}

fn hex_digit_val(c: char) -> (r: Option<u8>)
    ensures
        r == spec_hex_digit_val(c),
{
    if '0' <= c && c <= '9' {
        Some(c as u8 - '0' as u8)
    } else if 'a' <= c && c <= 'f' {
        Some(c as u8 - 'a' as u8 + 10)
    } else if 'A' <= c && c <= 'F' {
        Some(c as u8 - 'A' as u8 + 10)
    } else {
        None
    }
}

/// The byte the `j`-th digit pair of a hexadecimal rendering stands for,
/// when both characters are digits.
pub open spec fn spec_hex_pair(s: Seq<char>, j: int) -> Option<u8> {
    match (spec_hex_digit_val(s[2 * j]), spec_hex_digit_val(s[2 * j + 1])) {
        (Some(h), Some(l)) => Some((16 * h + l) as u8),
        _ => None,
    }
}

/// Reads a hexadecimal rendering back, two digits per byte, either case.
/// Fails exactly on an odd number of digits or a character that is no
/// hexadecimal digit.
pub fn hex_decode(s: &str) -> (r: Option<Vec<u8>>)
    ensures
        r matches Some(b) ==> {
            &&& b@.len() * 2 == s@.len()
            &&& forall|j: int| 0 <= j < b@.len() ==> #[trigger] spec_hex_pair(s@, j) == Some(b@[j])
        },
        r is None ==> s@.len() % 2 != 0 || exists|k: int|
            0 <= k < s@.len() && (#[trigger] spec_hex_digit_val(s@[k])) is None,
{
    let n = s.unicode_len();
    if n % 2 != 0 {
        return None;
    }
    let mut out: Vec<u8> = Vec::new();
    let mut k: usize = 0;
    while 2 * k < n
        invariant
            n == s@.len(),
            n % 2 == 0,
            2 * k <= n,
            out@.len() == k,
            forall|j: int| 0 <= j < k ==> #[trigger] spec_hex_pair(s@, j) == Some(out@[j]),
        decreases n - 2 * k,
    {
        let hi = match hex_digit_val(s.get_char(2 * k)) {
            Some(v) => v,
            None => {
                return None;
            },
        };
        let lo = match hex_digit_val(s.get_char(2 * k + 1)) {
            Some(v) => v,
            None => {
                return None;
            },
        };
        let ghost pre = out@;
        out.push(16 * hi + lo);
        proof {
            assert(spec_hex_pair(s@, k as int) == Some(out@[k as int]));
            assert forall|j: int| 0 <= j < k + 1 implies #[trigger] spec_hex_pair(s@, j) == Some(
                out@[j],
            ) by {
                if j < k {
                    assert(out@[j] == pre[j]);
                }
            }
        }
        k += 1;
    }
    proof {
        assert(2 * out@.len() == s@.len());
    }
    Some(out)
}

/// The framing of one record in an append-only file: its length in four
/// little-endian bytes, then its bytes.
pub open spec fn spec_frame(record: Seq<u8>) -> Seq<u8> {
    spec_u32_to_le_bytes(record.len() as u32) + record
}

/// The records framed back to back from `pos` to the end of the bytes;
/// `None` when a length field is cut short or reaches past the end.
pub open spec fn spec_unframe_from(data: Seq<u8>, pos: int) -> Option<Seq<Seq<u8>>>
    decreases data.len() - pos,
{
    if pos == data.len() {
        Some(Seq::empty())
    } else if pos < 0 || pos + 4 > data.len() {
        None
    } else {
        let l = spec_u32_from_le_bytes(data.subrange(pos, pos + 4)) as int;
        if pos + 4 + l > data.len() {
            None
        } else {
            match spec_unframe_from(data, pos + 4 + l) {
                None => None,
                Some(rest) => Some(seq![data.subrange(pos + 4, pos + 4 + l)] + rest),
            }
        }
    }
}

/// The views of a sequence of byte records.
pub open spec fn spec_record_views(s: Seq<Vec<u8>>) -> Seq<Seq<u8>> {
    Seq::new(s.len(), |i: int| s[i]@)
}

/// Appends one length-prefixed record.
pub fn frame_record(out: &mut Vec<u8>, record: &Vec<u8>)
    requires
        record@.len() <= u32::MAX,
    ensures
        final(out)@ == old(out)@ + spec_frame(record@),
{
    write_u32(out, record.len() as u32);
    push_bytes(out, record);
    proof {
        assert(out@ =~= old(out)@ + spec_frame(record@));
    }
}

/// Reads every length-prefixed record back, in order: succeeds exactly
/// when the bytes parse as whole frames to the very end, and a truncated
/// frame is an error, never silently skipped.
pub fn read_framed_records(data: &Vec<u8>) -> (r: Option<Vec<Vec<u8>>>)
    ensures
        r is Some <==> spec_unframe_from(data@, 0) is Some,
        r matches Some(rs) ==> Some(spec_record_views(rs@)) == spec_unframe_from(data@, 0),
{
    proof {
        lemma_auto_spec_u32_to_from_le_bytes();
    }
    let n = data.len();
    let mut records: Vec<Vec<u8>> = Vec::new();
    let mut pos: usize = 0;
    while pos < n
        invariant
            pos <= n,
            n == data@.len(),
            spec_unframe_from(data@, 0) == (match spec_unframe_from(data@, pos as int) {
                None => None::<Seq<Seq<u8>>>,
                Some(rest) => Some(spec_record_views(records@) + rest),
            }),
        decreases n - pos,
    {
        if n - pos < 4 {
            return None;
        }
        let len = read_u32_at(data, pos) as usize;
        if len > n - (pos + 4) {
            return None;
        }
        let record = read_bytes(data, pos + 4, len);
        let ghost pre = spec_record_views(records@);
        records.push(record);
        proof {
            assert(spec_record_views(records@) =~= pre.push(record@));
            match spec_unframe_from(data@, pos + 4 + len) {
                None => {},
                Some(rest) => {
                    assert(spec_record_views(records@) + rest =~= pre + (seq![record@] + rest));
                },
            }
        }
        pos = pos + 4 + len;
    }
    proof {
        assert(spec_unframe_from(data@, n as int) == Some(Seq::<Seq<u8>>::empty()));
        assert(spec_record_views(records@) + Seq::<Seq<u8>>::empty() =~= spec_record_views(
            records@,
        ));
    }
    Some(records)
}

proof fn lemma_spec_hex_snoc(s: Seq<u8>, i: int)
    requires
        0 <= i < s.len(),
    ensures
        spec_hex(s.take(i + 1)) == spec_hex(s.take(i)) + spec_hex_byte(s[i]),
    decreases i,
{
    if i == 0 {
        assert(s.take(1).skip(1) =~= Seq::empty());
        assert(s.take(0) =~= Seq::<u8>::empty());
        assert(s.take(1)[0] == s[0]);
        assert(spec_hex(s.take(1)) =~= spec_hex_byte(s[0]) + spec_hex(Seq::empty()));
        assert(spec_hex(s.take(1)) =~= spec_hex_byte(s[0]));
        assert(spec_hex(s.take(i + 1)) =~= spec_hex(s.take(i)) + spec_hex_byte(s[i]));
    } else {
        lemma_spec_hex_snoc(s.skip(1), i - 1);
        assert(s.take(i + 1).skip(1) =~= s.skip(1).take(i));
        assert(s.take(i).skip(1) =~= s.skip(1).take(i - 1));
        assert(s.take(i + 1)[0] == s[0]);
        assert(s.take(i)[0] == s[0]);
        assert(s.skip(1)[i - 1] == s[i]);
        assert(spec_hex(s.take(i + 1)) =~= spec_hex_byte(s[0]) + spec_hex(s.skip(1).take(i)));
        assert(spec_hex(s.take(i)) + spec_hex_byte(s[i]) =~= spec_hex_byte(s[0]) + (spec_hex(
            s.skip(1).take(i - 1),
        ) + spec_hex_byte(s.skip(1)[i - 1])));
    }
}

} // verus!
