//! The payload of a dump before compression: the list of entries, each
//! length prefixed.
//!
//! A length is written as a varint: seven bits to a byte, the low ones
//! first, the high bit set on every byte but the last. The list is its
//! length, then the entries; an entry is the key's length in bytes, the key
//! in UTF-8, the value's length and the value.

use crate::error::DumpError;
use crate::storage::{entry_views, StorageEntry};
use crate::text::string_from_utf8;
use vstd::prelude::*;
use vstd::slice::{slice_subrange, slice_to_vec};
use vstd::string::*;
use vstd::utf8::{
    decode_utf8, encode_utf8, encode_utf8_decode_utf8, encode_utf8_valid_utf8, valid_utf8,
};

verus! {

/// The most bytes a varint may take.
pub const VARINT_MAX: usize = 10;

/// `n` as a varint.
pub open spec fn varint(n: nat) -> Seq<u8>
    decreases n,
{
    if n < 128 {
        seq![n as u8]
    } else {
        seq![(n % 128 + 128) as u8] + varint(n / 128)
    }
}

/// The greatest number that a varint of at most `limit` bytes holds, where
/// the last of ten bytes may hold one bit only.
pub open spec fn cap(limit: nat) -> nat
    decreases limit,
{
    if limit <= 1 {
        1
    } else {
        127 + 128 * cap((limit - 1) as nat)
    }
}

/// The number that stands at the start of `bytes` as a varint of at most
/// `limit` bytes, with the count of bytes it takes. A varint may be longer
/// than it need be; the tenth byte may hold no more than one bit.
pub open spec fn read_varint(bytes: Seq<u8>, limit: nat) -> Option<(nat, nat)>
    decreases limit,
{
    if limit == 0 || bytes.len() == 0 {
        None
    } else if bytes[0] < 128 {
        if limit == 1 && bytes[0] > 1 {
            None
        } else {
            Some((bytes[0] as nat, 1))
        }
    } else {
        match read_varint(bytes.skip(1), (limit - 1) as nat) {
            Some((v, used)) => Some(((bytes[0] - 128) as nat + 128 * v, used + 1)),
            None => None,
        }
    }
}

/// The length-prefixed byte string at the start of `bytes`, with the count
/// of bytes it takes, prefix included.
pub open spec fn parse_bytes(bytes: Seq<u8>) -> Option<(Seq<u8>, nat)> {
    match read_varint(bytes, VARINT_MAX as nat) {
        None => None,
        Some((len, used)) => if bytes.len() - used < len {
            None
        } else {
            Some((bytes.subrange(used as int, (used + len) as int), used + len))
        },
    }
}

/// The entry at the start of `bytes`, with the count of bytes it takes.
pub open spec fn parse_entry(bytes: Seq<u8>) -> Option<((Seq<char>, Seq<u8>), nat)> {
    match parse_bytes(bytes) {
        None => None,
        Some((key, used)) => if !valid_utf8(key) {
            None
        } else {
            match parse_bytes(bytes.skip(used as int)) {
                None => None,
                Some((value, more)) => Some(((decode_utf8(key), value), used + more)),
            }
        },
    }
}

/// The `count` entries at the start of `bytes`.
pub open spec fn parse_body(bytes: Seq<u8>, count: nat) -> Option<Seq<(Seq<char>, Seq<u8>)>>
    decreases count,
{
    if count == 0 {
        Some(Seq::empty())
    } else {
        match parse_entry(bytes) {
            None => None,
            Some((entry, used)) => match parse_body(bytes.skip(used as int), (count - 1) as nat) {
                None => None,
                Some(rest) => Some(seq![entry] + rest),
            },
        }
    }
}

/// The list of entries that `bytes` encode. Bytes after the list are not
/// looked at.
pub open spec fn parse_entries(bytes: Seq<u8>) -> Option<Seq<(Seq<char>, Seq<u8>)>> {
    match read_varint(bytes, VARINT_MAX as nat) {
        None => None,
        Some((count, used)) => parse_body(bytes.skip(used as int), count),
    }
}

/// One entry, encoded.
pub open spec fn entry_bytes(entry: (Seq<char>, Seq<u8>)) -> Seq<u8> {
    varint(encode_utf8(entry.0).len()) + encode_utf8(entry.0) + varint(entry.1.len()) + entry.1
}

/// The entries one after the other, encoded.
pub open spec fn body_bytes(list: Seq<(Seq<char>, Seq<u8>)>) -> Seq<u8>
    decreases list.len(),
{
    if list.len() == 0 {
        Seq::empty()
    } else {
        entry_bytes(list[0]) + body_bytes(list.skip(1))
    }
}

/// The list of entries, encoded.
pub open spec fn entries_bytes(list: Seq<(Seq<char>, Seq<u8>)>) -> Seq<u8> {
    varint(list.len()) + body_bytes(list)
}

/// Whether every length in `list` can be written as a varint.
pub open spec fn fits(list: Seq<(Seq<char>, Seq<u8>)>) -> bool {
    &&& list.len() <= u64::MAX
    &&& forall|i: int|
        0 <= i < list.len() ==> encode_utf8((#[trigger] list[i]).0).len() <= u64::MAX
            && list[i].1.len() <= u64::MAX
}

/// Ten bytes hold every number of 64 bits, and fewer bytes hold less.
pub proof fn lemma_cap(limit: nat)
    requires
        1 <= limit <= VARINT_MAX,
    ensures
        cap(limit) <= cap(VARINT_MAX as nat) == u64::MAX,
{
    reveal_with_fuel(cap, 11);
    assert(cap(1) == 1);
    assert(cap(2) == 0xFF);
    assert(cap(3) == 0x7FFF);
    assert(cap(4) == 0x3F_FFFF);
    assert(cap(5) == 0x1FFF_FFFF);
    assert(cap(6) == 0xF_FFFF_FFFF);
    assert(cap(7) == 0x7FF_FFFF_FFFF);
    assert(cap(8) == 0x3_FFFF_FFFF_FFFF);
    assert(cap(9) == 0x1FF_FFFF_FFFF_FFFF);
    assert(cap(10) == 0xFFFF_FFFF_FFFF_FFFF);
}

/// A number read as a varint is no greater than its bytes can hold, and
/// takes no more bytes than allowed and than there are.
pub proof fn lemma_read_varint_bounds(bytes: Seq<u8>, limit: nat)
    ensures
        read_varint(bytes, limit) matches Some((v, used)) ==> v <= cap(limit) && 1 <= used <= limit
            && used <= bytes.len(),
    decreases limit,
{
    if limit == 0 || bytes.len() == 0 {
    } else if bytes[0] < 128 {
    } else {
        lemma_read_varint_bounds(bytes.skip(1), (limit - 1) as nat);
    }
}

/// Reading gives back a number written as a varint, whatever follows it.
pub proof fn lemma_read_varint(n: nat, limit: nat, tail: Seq<u8>)
    requires
        1 <= limit,
        n <= cap(limit),
    ensures
        read_varint(varint(n) + tail, limit) == Some((n, varint(n).len())),
    decreases n,
{
    let bytes = varint(n) + tail;
    if n < 128 {
        assert(bytes[0] == n as u8);
    } else {
        assert(bytes[0] == (n % 128 + 128) as u8);
        assert(bytes.skip(1) == varint(n / 128) + tail);
        assert(limit >= 2);
        lemma_read_varint(n / 128, (limit - 1) as nat, tail);
    }
}

/// Parsing gives back a byte string written behind its length.
pub proof fn lemma_parse_bytes(content: Seq<u8>, tail: Seq<u8>)
    requires
        content.len() <= u64::MAX,
    ensures
        parse_bytes(varint(content.len()) + content + tail) == Some(
            (content, varint(content.len()).len() + content.len()),
        ),
{
    let prefix = varint(content.len());
    let bytes = prefix + content + tail;
    lemma_cap(VARINT_MAX as nat);
    lemma_read_varint(content.len(), VARINT_MAX as nat, content + tail);
    assert(bytes == prefix + (content + tail));
    assert(bytes.subrange(prefix.len() as int, (prefix.len() + content.len()) as int) == content);
}

/// Parsing gives back an entry that was encoded.
pub proof fn lemma_parse_entry(entry: (Seq<char>, Seq<u8>), tail: Seq<u8>)
    requires
        encode_utf8(entry.0).len() <= u64::MAX,
        entry.1.len() <= u64::MAX,
    ensures
        parse_entry(entry_bytes(entry) + tail) == Some((entry, entry_bytes(entry).len())),
{
    let key = encode_utf8(entry.0);
    let first = varint(key.len()) + key;
    let second = varint(entry.1.len()) + entry.1;
    let bytes = entry_bytes(entry) + tail;
    encode_utf8_valid_utf8(entry.0);
    encode_utf8_decode_utf8(entry.0);
    lemma_parse_bytes(key, second + tail);
    assert(bytes == varint(key.len()) + key + (second + tail));
    assert(bytes.skip(first.len() as int) == second + tail);
    lemma_parse_bytes(entry.1, tail);
    assert(second + tail == varint(entry.1.len()) + entry.1 + tail);
    assert(entry_bytes(entry).len() == first.len() + second.len());
}

/// Parsing gives back the entries that were encoded one after the other.
pub proof fn lemma_parse_body(list: Seq<(Seq<char>, Seq<u8>)>, tail: Seq<u8>)
    requires
        fits(list),
    ensures
        parse_body(body_bytes(list) + tail, list.len()) == Some(list),
    decreases list.len(),
{
    if list.len() > 0 {
        let rest = list.skip(1);
        let bytes = body_bytes(list) + tail;
        assert(fits(rest)) by {
            assert forall|i: int| 0 <= i < rest.len() implies encode_utf8(
                (#[trigger] rest[i]).0,
            ).len() <= u64::MAX && rest[i].1.len() <= u64::MAX by {
                assert(rest[i] == list[i + 1]);
            }
        }
        lemma_parse_entry(list[0], body_bytes(rest) + tail);
        assert(bytes == entry_bytes(list[0]) + (body_bytes(rest) + tail));
        assert(bytes.skip(entry_bytes(list[0]).len() as int) == body_bytes(rest) + tail);
        lemma_parse_body(rest, tail);
        assert(seq![list[0]] + rest == list);
    }
}

/// Decoding gives back a list of entries that was encoded, whatever follows
/// it.
pub proof fn lemma_parse_entries(list: Seq<(Seq<char>, Seq<u8>)>, tail: Seq<u8>)
    requires
        fits(list),
    ensures
        parse_entries(entries_bytes(list) + tail) == Some(list),
{
    let prefix = varint(list.len());
    let bytes = entries_bytes(list) + tail;
    lemma_cap(VARINT_MAX as nat);
    lemma_read_varint(list.len(), VARINT_MAX as nat, body_bytes(list) + tail);
    assert(bytes == prefix + (body_bytes(list) + tail));
    assert(bytes.skip(prefix.len() as int) == body_bytes(list) + tail);
    lemma_parse_body(list, tail);
}

/// Encoding one more entry appends its bytes.
pub proof fn lemma_body_bytes_push(list: Seq<(Seq<char>, Seq<u8>)>, entry: (Seq<char>, Seq<u8>))
    ensures
        body_bytes(list.push(entry)) == body_bytes(list) + entry_bytes(entry),
    decreases list.len(),
{
    let all = list.push(entry);
    if list.len() == 0 {
        assert(all.skip(1) == Seq::<(Seq<char>, Seq<u8>)>::empty());
        assert(body_bytes(all) == entry_bytes(entry) + body_bytes(all.skip(1)));
        assert(body_bytes(all.skip(1)) == Seq::<u8>::empty());
        assert(body_bytes(list) == Seq::<u8>::empty());
        assert(entry_bytes(entry) + Seq::<u8>::empty() == entry_bytes(entry));
        assert(Seq::<u8>::empty() + entry_bytes(entry) == entry_bytes(entry));
    } else {
        assert(all.skip(1) == list.skip(1).push(entry));
        assert(all[0] == list[0]);
        lemma_body_bytes_push(list.skip(1), entry);
        assert(entry_bytes(list[0]) + (body_bytes(list.skip(1)) + entry_bytes(entry))
            == entry_bytes(list[0]) + body_bytes(list.skip(1)) + entry_bytes(entry));
    }
}

/// Appends `n` as a varint.
pub fn write_varint(out: &mut Vec<u8>, n: u64)
    ensures
        final(out)@ == old(out)@ + varint(n as nat),
{
    let mut v: u64 = n;
    while v >= 128
        invariant
            out@ + varint(v as nat) == old(out)@ + varint(n as nat),
        decreases v,
    {
        let ghost before = out@;
        out.push((v % 128 + 128) as u8);
        proof {
            assert(before + varint(v as nat) == before.push((v % 128 + 128) as u8) + varint(
                (v / 128) as nat,
            ));
        }
        v = v / 128;
    }
    let ghost before = out@;
    out.push(v as u8);
    proof {
        assert(before.push(v as u8) == before + varint(v as nat));
    }
}

/// Reads the varint of at most `limit` bytes that starts at `pos`.
pub fn take_varint(bytes: &[u8], pos: usize, limit: usize) -> (r: Option<(u64, usize)>)
    requires
        pos <= bytes@.len(),
        limit <= VARINT_MAX,
    ensures
        match r {
            Some((v, used)) => {
                &&& read_varint(bytes@.skip(pos as int), limit as nat) == Some(
                    (v as nat, used as nat),
                )
                &&& pos + used <= bytes@.len()
            },
            None => read_varint(bytes@.skip(pos as int), limit as nat) is None,
        },
    decreases limit,
{
    if limit == 0 || pos >= bytes.len() {
        return None;
    }
    let b: u8 = bytes[pos];
    proof {
        assert(bytes@.skip(pos as int)[0] == b);
        assert(bytes@.skip(pos as int).skip(1) == bytes@.skip(pos + 1));
    }
    if b < 128 {
        if limit == 1 && b > 1 {
            None
        } else {
            Some((b as u64, 1))
        }
    } else {
        match take_varint(bytes, pos + 1, limit - 1) {
            Some((v, used)) => {
                proof {
                    lemma_read_varint_bounds(bytes@.skip(pos + 1), (limit - 1) as nat);
                    lemma_cap(limit as nat);
                    assert(limit >= 2);
                }
                Some(((b - 128) as u64 + 128 * v, used + 1))
            },
            None => None,
        }
    }
}

/// Finds the length-prefixed byte string that starts at `pos`: where its
/// content starts and where it ends.
pub fn take_bytes(bytes: &[u8], pos: usize) -> (r: Option<(usize, usize)>)
    requires
        pos <= bytes@.len(),
    ensures
        match r {
            Some((from, to)) => {
                &&& pos <= from <= to <= bytes@.len()
                &&& parse_bytes(bytes@.skip(pos as int)) == Some(
                    (bytes@.subrange(from as int, to as int), (to - pos) as nat),
                )
            },
            None => parse_bytes(bytes@.skip(pos as int)) is None,
        },
{
    let total: usize = bytes.len();
    let (len, used) = match take_varint(bytes, pos, VARINT_MAX) {
        Some(p) => p,
        None => { return None; },
    };
    let from: usize = pos + used;
    if len > (total - from) as u64 {
        return None;
    }
    let to: usize = from + len as usize;
    proof {
        let rest = bytes@.skip(pos as int);
        assert(rest.subrange(used as int, used + len) == bytes@.subrange(from as int, to as int));
    }
    Some((from, to))
}

/// Encodes a list of entries. Decoding the result gives the list back.
pub fn encode_entries(entries: &Vec<StorageEntry>) -> (out: Vec<u8>)
    ensures
        out@ == entries_bytes(entry_views(entries@)),
        fits(entry_views(entries@)),
        parse_entries(out@) == Some(entry_views(entries@)),
{
    let ghost list = entry_views(entries@);
    let mut out: Vec<u8> = Vec::new();
    write_varint(&mut out, entries.len() as u64);
    proof {
        assert(out@ == varint(list.len()));
        assert(list.take(0) == Seq::<(Seq<char>, Seq<u8>)>::empty());
        assert(out@ == varint(list.len()) + body_bytes(list.take(0)));
    }
    let mut i: usize = 0;
    while i < entries.len()
        invariant
            i <= entries.len(),
            list == entry_views(entries@),
            out@ == varint(list.len()) + body_bytes(list.take(i as int)),
            forall|j: int|
                0 <= j < i ==> encode_utf8((#[trigger] list[j]).0).len() <= u64::MAX
                    && list[j].1.len() <= u64::MAX,
        decreases entries.len() - i,
    {
        let key = entries[i].key.as_str().as_bytes();
        let value = entries[i].value.as_slice();
        let ghost before = out@;
        write_varint(&mut out, key.len() as u64);
        out.extend_from_slice(key);
        write_varint(&mut out, value.len() as u64);
        out.extend_from_slice(value);
        proof {
            assert(list[i as int] == (entries[i as int].key@, entries[i as int].value@));
            assert(out@ == before + entry_bytes(list[i as int]));
            lemma_body_bytes_push(list.take(i as int), list[i as int]);
            assert(list.take(i + 1) == list.take(i as int).push(list[i as int]));
        }
        i += 1;
    }
    proof {
        assert(list.take(entries.len() as int) == list);
        lemma_parse_entries(list, Seq::empty());
        assert(out@ + Seq::<u8>::empty() == out@);
    }
    out
}

/// Decodes a list of entries. The bytes are refused where a length runs
/// past their end, a varint is malformed or a key is not UTF-8.
pub fn decode_entries(bytes: &[u8]) -> (r: Result<Vec<StorageEntry>, DumpError>)
    ensures
        match r {
            Ok(entries) => parse_entries(bytes@) == Some(entry_views(entries@)),
            Err(e) => e == DumpError::SerializationFailed && parse_entries(bytes@) is None,
        },
{
    let (count, used) = match take_varint(bytes, 0, VARINT_MAX) {
        Some(p) => p,
        None => {
            proof {
                assert(bytes@.skip(0) == bytes@);
            }
            return Err(DumpError::SerializationFailed);
        },
    };
    proof {
        assert(bytes@.skip(0) == bytes@);
    }
    let mut entries: Vec<StorageEntry> = Vec::new();
    let mut pos: usize = used;
    let mut n: u64 = 0;
    proof {
        assert(entry_views(entries@) == Seq::<(Seq<char>, Seq<u8>)>::empty());
    }
    while n < count
        invariant
            n <= count,
            used <= pos <= bytes@.len(),
            parse_entries(bytes@) == parse_body(bytes@.skip(used as int), count as nat),
            parse_body(bytes@.skip(used as int), count as nat) == match parse_body(
                bytes@.skip(pos as int),
                (count - n) as nat,
            ) {
                Some(rest) => Some(entry_views(entries@) + rest),
                None => None,
            },
        decreases count - n,
    {
        let ghost done = entry_views(entries@);
        let (key_from, key_to) = match take_bytes(bytes, pos) {
            Some(p) => p,
            None => { return Err(DumpError::SerializationFailed); },
        };
        let key = match string_from_utf8(slice_to_vec(slice_subrange(bytes, key_from, key_to))) {
            Some(k) => k,
            None => { return Err(DumpError::SerializationFailed); },
        };
        proof {
            assert(bytes@.skip(pos as int).skip(key_to - pos) == bytes@.skip(key_to as int));
        }
        let (value_from, value_to) = match take_bytes(bytes, key_to) {
            Some(p) => p,
            None => { return Err(DumpError::SerializationFailed); },
        };
        let value = slice_to_vec(slice_subrange(bytes, value_from, value_to));
        let entry = StorageEntry { key, value };
        proof {
            let view = entry@;
            assert(parse_entry(bytes@.skip(pos as int)) == Some((view, (value_to - pos) as nat)));
            assert(bytes@.skip(pos as int).skip(value_to - pos) == bytes@.skip(value_to as int));
            assert(entry_views(entries@.push(entry)) == done.push(view));
            assert forall|rest: Seq<(Seq<char>, Seq<u8>)>|
                done + (seq![view] + rest) == #[trigger] (done.push(view) + rest) by {
                assert(done + (seq![view] + rest) =~= done.push(view) + rest);
            }
        }
        entries.push(entry);
        pos = value_to;
        n += 1;
    }
    proof {
        assert(entry_views(entries@) + Seq::<(Seq<char>, Seq<u8>)>::empty() == entry_views(
            entries@,
        ));
    }
    Ok(entries)
}

} // verus!
