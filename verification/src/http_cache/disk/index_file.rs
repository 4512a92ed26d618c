//! How the index of a disk store is persisted, and how it is brought back in line
//! with the directory that it describes.
use std::collections::HashMap;

use vstd::bytes;
use vstd::prelude::*;

use crate::digest;
use crate::http_cache::disk::index;
use crate::http_cache::disk::index::{Index, Record, Variant, INDEX_HEADER_LEN, INDEX_MAGIC};
use crate::http_cache::key;
use crate::http_cache::key::{entry_id, EntryId};
use crate::http_cache::store::CACHE_FORMAT;
use crate::layout;
use crate::le;
use crate::text;

verus! {

/// The bytes `postcard` writes a list of records as: how many there are, then key hash,
/// slot, size and time of last use of each.
pub open spec fn record_bytes(records: Seq<(u64, u8, u32, u32)>) -> Seq<u8> {
    layout::varint(records.len()) + layout::records(records)
}

/// The records that `postcard` reads out of bytes.
pub uninterp spec fn records_in(data: Seq<u8>) -> Option<Seq<(u64, u8, u32, u32)>>;

/// `postcard::to_stdvec` writes a list of records, and does not fail on one. The bytes are
/// read back as the same list.
#[verifier::external_body]
fn encode_records(records: &Vec<(u64, u8, u32, u32)>) -> (r: Option<Vec<u8>>)
    ensures
        r is Some,
        r matches Some(data) ==> data@ == record_bytes(records@),
        r matches Some(data) ==> records_in(data@) == Some(records@),
{
    postcard::to_stdvec(records).ok()
}

/// `postcard::from_bytes` reads a list of records.
#[verifier::external_body]
fn decode_records(data: &[u8]) -> (r: Option<Vec<(u64, u8, u32, u32)>>)
    ensures
        r is Some == records_in(data@) is Some,
        r matches Some(records) ==> records_in(data@) == Some(records@),
{
    postcard::from_bytes(data).ok()
}

/// The records as they are written.
pub open spec fn plain(records: Seq<Record>) -> Seq<(u64, u8, u32, u32)> {
    Seq::new(
        records.len(),
        |i: int| (records[i].key_hash, records[i].slot, records[i].size, records[i].last_used),
    )
}

/// The record that one was written as.
pub open spec fn record_of(plain: (u64, u8, u32, u32)) -> Record {
    Record { key_hash: plain.0, slot: plain.1, size: plain.2, last_used: plain.3 }
}

/// The records of an index that others were inserted into, one after the other.
pub open spec fn loaded(list: Seq<(u64, u8, u32, u32)>) -> Seq<Record>
    decreases list.len(),
{
    if list.len() == 0 {
        seq![]
    } else {
        index::inserted(loaded(list.drop_last()), record_of(list.last()))
    }
}

/// Whether the sizes of the records can be counted while they are loaded, one after
/// the other.
pub open spec fn countable(list: Seq<(u64, u8, u32, u32)>) -> bool {
    forall|i: int| 0 <= i <= list.len() ==> index::total(loaded(#[trigger] list.take(i))) <= u64::MAX
}

/// The records of the index that a file holds, and the directory modification time
/// it records.
pub open spec fn index_in(data: Seq<u8>) -> Option<(Seq<Record>, u64)> {
    match unframed(data) {
        Some((payload, dir_mtime)) => match records_in(payload) {
            Some(list) => if countable(list) {
                Some((loaded(list), dir_mtime))
            } else {
                None
            },
            None => None,
        },
        None => None,
    }
}

/// How many records a frame says it holds. The number has 32 bits, and starts over
/// beyond them.
pub open spec fn count_of(records: Seq<Record>) -> u32 {
    (records.len() % 0x1_0000_0000) as u32
}

/// The bytes of an index file with the given payload.
pub open spec fn framed(payload: Seq<u8>, count: u32, dir_mtime: u64) -> Seq<u8> {
    bytes::spec_u64_to_le_bytes(INDEX_MAGIC) + bytes::spec_u32_to_le_bytes(CACHE_FORMAT as u32)
        + bytes::spec_u32_to_le_bytes(count) + bytes::spec_u64_to_le_bytes(dir_mtime)
        + bytes::spec_u32_to_le_bytes(digest::crc32_of(payload)) + payload
}

/// The payload of an index file and the directory modification time it records, if
/// it is intact and of this format.
pub open spec fn unframed(data: Seq<u8>) -> Option<(Seq<u8>, u64)> {
    if data.len() < INDEX_HEADER_LEN {
        None
    } else if le::u64_at(data, 0) != INDEX_MAGIC || le::u32_at(data, 8) != CACHE_FORMAT
        || le::u32_at(data, 24) != digest::crc32_of(data.skip(INDEX_HEADER_LEN as int)) {
        None
    } else {
        Some((data.skip(INDEX_HEADER_LEN as int), le::u64_at(data, 16)))
    }
}

/// Whether bytes are those of an index with the given records, which were written in the
/// order of a list of them: they are read back as that list, where they can be inserted
/// in any order.
pub open spec fn is_written(
    written: Seq<(u64, u8, u32, u32)>,
    list: Seq<Record>,
    records: Seq<Record>,
    dir_mtime: u64,
    data: Seq<u8>,
) -> bool {
    &&& index::is_listing(list, records)
    &&& data == framed(record_bytes(written), count_of(records), dir_mtime)
    &&& unframed(data) == Some((record_bytes(written), dir_mtime))
    &&& records_in(record_bytes(written)) == Some(written)
    &&& index::undisturbed(records) ==> index_in(data) == Some((list, dir_mtime))
}

/// The bytes of an index, stamped with the modification time of the directory that
/// it describes.
pub fn serialize(index: &Index, dir_mtime: u64) -> (r: Option<Vec<u8>>)
    requires
        index.wf(),
    ensures
        r is Some,
        r matches Some(data) ==> exists|list: Seq<Record>|
            is_written(#[trigger] plain(list), list, index.records(), dir_mtime, data@),
{
    let list: Vec<Record> = index.list();
    let mut records: Vec<(u64, u8, u32, u32)> = Vec::new();
    let mut i: usize = 0;
    while i < list.len()
        invariant
            i <= list@.len(),
            records@.len() == i,
            forall|j: int|
                0 <= j < i ==> records@[j] == ((#[trigger] list@[j]).key_hash, list@[j].slot,
                    list@[j].size, list@[j].last_used),
        decreases list@.len() - i,
    {
        let record: Record = list[i];
        records.push((record.key_hash, record.slot, record.size, record.last_used));
        i += 1;
    }
    assert(records@ =~= plain(list@));
    proof {
        index::lemma_listing(list@, index.records());
    }
    match encode_records(&records) {
        Some(payload) => {
            let len: u64 = records.len() as u64;
            let count: u32 = #[verifier::truncate] (len as u32);
            assert(len as u32 == len % 0x1_0000_0000) by (bit_vector);
            let data: Vec<u8> = frame(payload.as_slice(), count, dir_mtime);
            proof {
                index.law_index_invariant();
                if index::undisturbed(index.records()) {
                    law_index_reads_back(list@, payload@, dir_mtime);
                }
                assert(is_written(plain(list@), list@, index.records(), dir_mtime, data@));
            }
            Some(data)
        },
        None => None,
    }
}

/// The bytes of an index file with the given payload.
pub fn frame(payload: &[u8], count: u32, dir_mtime: u64) -> (r: Vec<u8>)
    ensures
        r@ == framed(payload@, count, dir_mtime),
        unframed(r@) == Some((payload@, dir_mtime)),
{
    let mut data: Vec<u8> = Vec::new();
    le::push_u64(&mut data, INDEX_MAGIC);
    le::push_u32(&mut data, CACHE_FORMAT as u32);
    le::push_u32(&mut data, count);
    le::push_u64(&mut data, dir_mtime);
    le::push_u32(&mut data, digest::crc32(payload));
    le::push_bytes(&mut data, payload);
    proof {
        assert(data@ =~= framed(payload@, count, dir_mtime));
        law_frame_reads_back(payload@, count, dir_mtime);
    }
    data
}

/// The payload of an index file and the directory modification time it records, if
/// it is intact and of this format.
pub fn unframe(data: &[u8]) -> (r: Option<(Vec<u8>, u64)>)
    ensures
        r is Some == unframed(data@) is Some,
        r matches Some(p) ==> unframed(data@) == Some((p.0@, p.1)),
{
    if data.len() < INDEX_HEADER_LEN {
        return None;
    }
    if le::read_u64(data, 0) != INDEX_MAGIC {
        return None;
    }
    if le::read_u32(data, 8) != CACHE_FORMAT as u32 {
        return None;
    }
    let dir_mtime: u64 = le::read_u64(data, 16);
    let crc: u32 = le::read_u32(data, 24);
    let payload: Vec<u8> = text::copy_range(data, INDEX_HEADER_LEN, data.len());
    assert(payload@ =~= data@.skip(INDEX_HEADER_LEN as int));
    if digest::crc32(payload.as_slice()) != crc {
        return None;
    }
    Some((payload, dir_mtime))
}

/// What is framed as an index file is read back.
pub proof fn law_frame_reads_back(payload: Seq<u8>, count: u32, dir_mtime: u64)
    ensures
        unframed(framed(payload, count, dir_mtime)) == Some((payload, dir_mtime)),
{
    bytes::lemma_auto_spec_u32_to_from_le_bytes();
    bytes::lemma_auto_spec_u64_to_from_le_bytes();
    let data = framed(payload, count, dir_mtime);
    assert(data.subrange(0, 8) =~= bytes::spec_u64_to_le_bytes(INDEX_MAGIC));
    assert(data.subrange(8, 12) =~= bytes::spec_u32_to_le_bytes(CACHE_FORMAT as u32));
    assert(data.subrange(16, 24) =~= bytes::spec_u64_to_le_bytes(dir_mtime));
    assert(data.subrange(24, 28) =~= bytes::spec_u32_to_le_bytes(digest::crc32_of(payload)));
    assert(data.skip(28) =~= payload);
}

/// The index that a file holds, and the directory modification time it records.
pub fn deserialize(data: &[u8]) -> (r: Option<(Index, u64)>)
    ensures
        match index_in(data@) {
            Some((records, dir_mtime)) => r matches Some(p) && p.0.wf() && p.0.records() == records
                && p.0.reserved() == Set::<(u64, u8)>::empty() && !p.0.spec_is_dirty() && p.1
                == dir_mtime,
            None => r is None,
        },
{
    let (payload, dir_mtime) = match unframe(data) {
        Some(p) => p,
        None => return None,
    };
    let list: Vec<(u64, u8, u32, u32)> = match decode_records(payload.as_slice()) {
        Some(list) => list,
        None => return None,
    };
    match from_records(&list) {
        Some(index) => Some((index, dir_mtime)),
        None => None,
    }
}

/// The index that a list of records makes, if their sizes can be counted.
pub fn from_records(list: &Vec<(u64, u8, u32, u32)>) -> (r: Option<Index>)
    ensures
        r is Some == countable(list@),
        r matches Some(index) ==> {
            &&& index.wf()
            &&& index.records() == loaded(list@)
            &&& index.reserved() == Set::<(u64, u8)>::empty()
            &&& !index.spec_is_dirty()
        },
{
    let mut index: Index = Index::new();
    let mut i: usize = 0;
    assert(list@.take(0) =~= Seq::<(u64, u8, u32, u32)>::empty());
    while i < list.len()
        invariant
            i <= list@.len(),
            index.wf(),
            index.records() == loaded(list@.take(i as int)),
            index.reserved() == Set::<(u64, u8)>::empty(),
            forall|j: int|
                0 <= j <= i ==> index::total(loaded(#[trigger] list@.take(j))) <= u64::MAX,
        decreases list@.len() - i,
    {
        let ghost upto = list@.take(i + 1);
        assert(upto.drop_last() =~= list@.take(i as int));
        let (key_hash, slot, size, last_used) = list[i];
        let ghost before = index.records();
        let ghost record = record_of(list@[i as int]);
        let known: u32 = match index.get(entry_id(key_hash, slot)) {
            Some(variant) => variant.size,
            None => 0,
        };
        proof {
            lemma_loaded_len(list@.take(i + 1));
            index::lemma_inserted_total(before, record);
            index::lemma_index_of(before, record.id());
            if index::knows(before, record.id()) {
                index::lemma_total_remove(before, index::index_of(before, record.id()));
            }
        }
        let rest: u64 = index.bytes() - known as u64;
        if rest.checked_add(size as u64).is_none() {
            assert(index::total(loaded(list@.take(i + 1))) > u64::MAX);
            return None;
        }
        index.insert(key_hash, Variant { slot, size, last_used });
        i += 1;
    }
    assert(list@.take(i as int) =~= list@);
    index.mark_clean();
    Some(index)
}

proof fn lemma_loaded_len(list: Seq<(u64, u8, u32, u32)>)
    ensures
        loaded(list).len() <= list.len(),
    decreases list.len(),
{
    if list.len() > 0 {
        lemma_loaded_len(list.drop_last());
        index::lemma_index_of(loaded(list.drop_last()), record_of(list.last()).id());
    }
}

proof fn lemma_loaded_plain(records: Seq<Record>)
    requires
        index::settled(records),
    ensures
        loaded(plain(records)) == records,
    decreases records.len(),
{
    if records.len() > 0 {
        let front = records.drop_last();
        let last = records.last();
        assert(plain(records).drop_last() =~= plain(front));
        assert(record_of(plain(records).last()) == last);
        lemma_loaded_plain(front);
        index::lemma_index_of(front, last.id());
        if index::knows(front, last.id()) {
            let k = index::index_of(front, last.id());
            assert(index::leaves(records[records.len() - 1], records[k]));
        }
        assert(front.push(last) =~= records);
    } else {
        assert(loaded(plain(records)) =~= records);
    }
}

proof fn lemma_countable(records: Seq<Record>)
    requires
        index::settled(records),
        index::total(records) <= u64::MAX,
    ensures
        countable(plain(records)),
{
    let list = plain(records);
    assert forall|i: int| 0 <= i <= list.len() implies index::total(loaded(#[trigger] list.take(i)))
        <= u64::MAX by {
        assert(list.take(i) =~= plain(records.take(i)));
        assert(index::settled(records.take(i)));
        lemma_loaded_plain(records.take(i));
        index::lemma_total_prefix(records, i);
    }
}

/// An index that was written is read back with the same variants, in the order in which
/// they were written and of the same size in all, and with the same directory
/// modification time. What
/// its payload reads as is what `serialize` says of it.
pub proof fn law_index_reads_back(records: Seq<Record>, payload: Seq<u8>, dir_mtime: u64)
    requires
        index::settled(records),
        index::total(records) <= u64::MAX,
        records_in(payload) == Some(plain(records)),
    ensures
        index_in(framed(payload, count_of(records), dir_mtime)) == Some((records, dir_mtime)),
{
    law_frame_reads_back(payload, count_of(records), dir_mtime);
    lemma_loaded_plain(records);
    lemma_countable(records);
}

pub open spec fn is_hex(b: u8) -> bool {
    48 <= b <= 57 || 97 <= b <= 102 || 65 <= b <= 70
}

pub open spec fn hex_value(b: u8) -> int {
    if b <= 57 {
        b - 48
    } else if b <= 70 {
        b - 55
    } else {
        b - 87
    }
}

pub open spec fn all_hex(v: Seq<u8>) -> bool {
    forall|i: int| 0 <= i < v.len() ==> is_hex(#[trigger] v[i])
}

/// The number that hexadecimal digits spell.
pub open spec fn hex_number(v: Seq<u8>) -> int
    decreases v.len(),
{
    if v.len() == 0 {
        0
    } else {
        hex_number(v.drop_last()) * 16 + hex_value(v.last())
    }
}

/// The hexadecimal number `v` spells, with an optional plus sign, if it fits in 64
/// bits.
pub open spec fn from_hex(v: Seq<u8>) -> Option<u64> {
    let d = text::unsigned(v);
    if d.len() > 0 && all_hex(d) && hex_number(d) <= u64::MAX {
        Some(hex_number(d) as u64)
    } else {
        None
    }
}

proof fn lemma_hex_prefix(v: Seq<u8>, i: int)
    requires
        0 <= i <= v.len(),
        all_hex(v),
    ensures
        0 <= hex_number(v.take(i)) <= hex_number(v),
    decreases v.len(),
{
    if i == v.len() {
        assert(v.take(i) =~= v);
        if v.len() > 0 {
            assert(all_hex(v.drop_last()));
            lemma_hex_prefix(v.drop_last(), v.len() - 1);
            assert(is_hex(v[v.len() - 1]));
        }
    } else {
        assert(all_hex(v.drop_last()));
        lemma_hex_prefix(v.drop_last(), i);
        assert(v.drop_last().take(i) =~= v.take(i));
        assert(is_hex(v[v.len() - 1]));
    }
}

/// The hexadecimal number a byte string spells, if it fits in 64 bits.
pub fn parse_hex(v: &[u8]) -> (r: Option<u64>)
    ensures
        r == from_hex(v@),
{
    let signed: bool = v.len() > 0 && v[0] == 43;
    let start: usize = if signed {
        1
    } else {
        0
    };
    let ghost d = text::unsigned(v@);
    assert(d =~= v@.skip(start as int));
    if start >= v.len() {
        return None;
    }
    let mut value: u64 = 0;
    let mut i: usize = start;
    assert(d.take(0) =~= Seq::<u8>::empty());
    while i < v.len()
        invariant
            start <= i <= v@.len(),
            start < v@.len(),
            d == text::unsigned(v@),
            d == v@.skip(start as int),
            forall|j: int| 0 <= j < i - start ==> is_hex(#[trigger] d[j]),
            value == hex_number(d.take(i - start)),
        decreases v@.len() - i,
    {
        let b: u8 = v[i];
        assert(d[i - start] == b);
        if !((48 <= b && b <= 57) || (97 <= b && b <= 102) || (65 <= b && b <= 70)) {
            assert(!is_hex(d[i - start]));
            return None;
        }
        let digit: u64 = if b <= 57 {
            (b - 48) as u64
        } else if b <= 70 {
            (b - 55) as u64
        } else {
            (b - 87) as u64
        };
        assert(d.take(i - start + 1).drop_last() =~= d.take(i - start));
        assert(d.take(i - start + 1).last() == b);
        assert(hex_number(d.take(i - start + 1)) == value * 16 + digit);
        if value > (u64::MAX - digit) / 16 {
            proof {
                assert(value * 16 + digit > u64::MAX);
                if all_hex(d) {
                    lemma_hex_prefix(d, i - start + 1);
                }
            }
            return None;
        }
        value = value * 16 + digit;
        i += 1;
    }
    assert(d.take(i - start) =~= d);
    Some(value)
}

/// A number in lower-case hexadecimal digits, at least `width` of them.
pub open spec fn hex_text(n: nat, width: nat) -> Seq<u8>
    decreases n, width,
{
    if n == 0 && width == 0 {
        seq![]
    } else {
        hex_text(
            n / 16,
            if width > 0 {
                (width - 1) as nat
            } else {
                0
            },
        ).push(text::hex_digit((n % 16) as int))
    }
}

proof fn lemma_hex_text(n: nat, width: nat)
    ensures
        all_hex(hex_text(n, width)),
        hex_number(hex_text(n, width)) == n,
        width > 0 ==> hex_text(n, width).len() > 0,
        forall|i: int| 0 <= i < hex_text(n, width).len() ==> #[trigger] hex_text(n, width)[i] != 95
            && hex_text(n, width)[i] != 43,
    decreases n, width,
{
    if !(n == 0 && width == 0) {
        let w: nat = if width > 0 {
            (width - 1) as nat
        } else {
            0
        };
        lemma_hex_text(n / 16, w);
        let front = hex_text(n / 16, w);
        let all = hex_text(n, width);
        assert(all.drop_last() =~= front);
        assert forall|i: int| 0 <= i < all.len() implies is_hex(#[trigger] all[i]) && all[i] != 95
            && all[i] != 43 by {
            if i < front.len() {
                assert(all[i] == front[i]);
                assert(is_hex(front[i]));
            }
        }
    }
}

/// The name of the file of a slot under a key hash.
pub open spec fn file_name(key_hash: u64, slot: u8) -> Seq<u8> {
    hex_text(key_hash as nat, 14) + seq![95u8] + text::decimal_text(slot as nat)
}

fn push_hex(n: u64, width: u32) -> (r: Vec<u8>)
    ensures
        r@ == hex_text(n as nat, width as nat),
    decreases n, width,
{
    if n == 0 && width == 0 {
        let r: Vec<u8> = Vec::new();
        assert(r@ =~= hex_text(0, 0));
        return r;
    }
    let mut r: Vec<u8> = push_hex(
        n / 16,
        if width > 0 {
            width - 1
        } else {
            0
        },
    );
    let digit: u8 = (n % 16) as u8;
    r.push(
        if digit < 10 {
            48 + digit
        } else {
            87 + digit
        },
    );
    r
}

/// The name of the file of a slot under a key hash.
pub fn entry_file_name(key_hash: u64, slot: u8) -> (r: Vec<u8>)
    ensures
        r@ == file_name(key_hash, slot),
{
    let mut r: Vec<u8> = push_hex(key_hash, 14);
    r.push(95);
    let mut tail: Vec<u8> = text::render_decimal(slot as u64);
    r.append(&mut tail);
    assert(r@ =~= file_name(key_hash, slot));
    r
}

/// The key hash and the slot that a file name stands for.
pub open spec fn parsed_name(name: Seq<u8>) -> Option<(u64, u8)> {
    match text::split_once(name, 95) {
        Some((hash, slot)) => match (from_hex(hash), text::decimal(slot)) {
            (Some(hash), Some(slot)) => if slot <= 255 {
                Some((hash, slot as u8))
            } else {
                None
            },
            _ => None,
        },
        None => None,
    }
}

/// Parse an entry file name back into the key hash and slot it stands for.
pub fn parse_entry_name(name: &[u8]) -> (r: Option<(u64, u8)>)
    ensures
        r == parsed_name(name@),
{
    match text::split_at_first(name, 95) {
        Some((hash, slot)) => match (parse_hex(hash.as_slice()), text::parse_decimal(slot.as_slice())) {
            (Some(hash), Some(slot)) => if slot <= 255 {
                Some((hash, slot as u8))
            } else {
                None
            },
            _ => None,
        },
        None => None,
    }
}

/// The name of an entry file stands for the slot and the key hash that it was made
/// of.
pub proof fn law_file_name_reads_back(key_hash: u64, slot: u8)
    ensures
        parsed_name(file_name(key_hash, slot)) == Some((key_hash, slot)),
{
    let hash = hex_text(key_hash as nat, 14);
    let tail = text::decimal_text(slot as nat);
    let name = file_name(key_hash, slot);
    lemma_hex_text(key_hash as nat, 14);
    text::lemma_decimal_text(slot as nat);
    assert forall|j: int| 0 <= j < hash.len() implies name[j] != 95 by {
        assert(name[j] == hash[j]);
    }
    text::lemma_find_is(name, 95, hash.len() as int);
    assert(name.take(hash.len() as int) =~= hash);
    assert(name.skip(hash.len() as int + 1) =~= tail);
    assert(text::unsigned(hash) == hash) by {
        assert(hash[0] != 43);
    }
}

/// What a file in the entries directory is.
#[derive(Clone, Copy, Debug, PartialEq, Eq, Structural)]
pub enum FileKind {
    /// Left by a writer that never committed.
    Temporary,
    /// The file of a slot under a key hash.
    Entry { key_hash: u64, slot: u8 },
    /// Something else.
    Other,
}

/// What a file in the entries directory is, by its name.
pub open spec fn kind_of(name: Seq<u8>) -> FileKind {
    if text::bytes(".tmp").is_suffix_of(name) {
        FileKind::Temporary
    } else {
        match parsed_name(name) {
            Some((key_hash, slot)) => FileKind::Entry { key_hash, slot },
            None => FileKind::Other,
        }
    }
}

/// What a file in the entries directory is, by its name.
pub fn classify(name: &[u8]) -> (r: FileKind)
    ensures
        r == kind_of(name@),
{
    let suffix: &[u8] = ".tmp".as_bytes();
    if name.len() >= suffix.len() {
        let end: Vec<u8> = text::copy_range(name, name.len() - suffix.len(), name.len());
        if text::same(end.as_slice(), suffix) {
            assert(text::bytes(".tmp").is_suffix_of(name@)) by {
                assert(end@ =~= name@.subrange(
                    name@.len() - suffix@.len(),
                    name@.len() as int,
                ));
            }
            return FileKind::Temporary;
        }
    }
    assert(!text::bytes(".tmp").is_suffix_of(name@)) by {
        if text::bytes(".tmp").is_suffix_of(name@) {
            assert(suffix@ =~= name@.subrange(name@.len() - suffix@.len(), name@.len() as int));
        }
    }
    match parse_entry_name(name) {
        Some((key_hash, slot)) => FileKind::Entry { key_hash, slot },
        None => FileKind::Other,
    }
}

/// Whether an index that was read can be trusted: only if the previous run said it
/// was up to date and nothing changed the directory since. The flag catches an
/// unclean exit, the modification time catches the system emptying the directory.
pub fn is_trusted(was_clean: bool, recorded_mtime: u64, dir_mtime: u64) -> (r: bool)
    ensures
        r == (was_clean && recorded_mtime == dir_mtime),
{
    was_clean && recorded_mtime == dir_mtime
}

/// Load an index from the bytes of its file, and say whether it can be used as it
/// is or has to be reconciled with the directory.
pub fn load(data: Option<&Vec<u8>>, was_clean: bool, dir_mtime: u64) -> (r: (Index, bool))
    ensures
        r.0.wf(),
        r.0.reserved() == Set::<(u64, u8)>::empty(),
        !r.0.spec_is_dirty(),
        match stored_index(data) {
            Some((records, recorded)) => r.0.records() == records && r.1 == (was_clean && recorded
                == dir_mtime),
            None => r.0.records() == Seq::<Record>::empty() && !r.1,
        },
{
    match data {
        Some(data) => match deserialize(data.as_slice()) {
            Some((index, recorded)) => (index, is_trusted(was_clean, recorded, dir_mtime)),
            None => (Index::new(), false),
        },
        None => (Index::new(), false),
    }
}

/// The records and the directory modification time that the bytes of an index file
/// hold, if there is one.
pub open spec fn stored_index(data: Option<&Vec<u8>>) -> Option<(Seq<Record>, u64)> {
    match data {
        Some(data) => index_in(data@),
        None => None,
    }
}

fn check_present(present: &HashMap<u64, Vec<u8>>, id: EntryId) -> (r: bool)
    ensures
        r == index::pairs(present@).contains(((id / 256) as u64, (id % 256) as u8)),
{
    broadcast use vstd::std_specs::hash::group_hash_axioms;

    match present.get(&key::entry_key_hash(id)) {
        Some(slots) => index::has_slot(slots, key::entry_slot(id)),
        None => false,
    }
}

/// Forget the variants whose files are gone.
pub fn forget_missing(index: &mut Index, present: &HashMap<u64, Vec<u8>>)
    requires
        old(index).wf(),
    ensures
        final(index).wf(),
        final(index).records() == index::still_there(
            old(index).records(),
            index::pairs(present@),
        ),
        final(index).reserved() == old(index).reserved(),
        final(index).records().len() <= old(index).records().len(),
        final(index).spec_is_dirty() == (final(index).records().len() < old(index).records().len()
            || old(index).spec_is_dirty()),
{
    let list: Vec<EntryId> = index.all();
    let ghost there = index::pairs(present@);
    let mut i: usize = 0;
    proof {
        index::lemma_sifted_none(index.records(), there);
        assert(list@.take(0) =~= Seq::<EntryId>::empty());
    }
    while i < list.len()
        invariant
            i <= list@.len(),
            index.wf(),
            there == index::pairs(present@),
            index.records() == index::sifted(old(index).records(), there, list@.take(i as int)),
            index.reserved() == old(index).reserved(),
            index.records().len() <= old(index).records().len(),
            index.spec_is_dirty() == (index.records().len() < old(index).records().len()
                || old(index).spec_is_dirty()),
        decreases list@.len() - i,
    {
        proof {
            assert(list@.take(i + 1) =~= list@.take(i as int).push(list@[i as int]));
            index.law_index_invariant();
            index::lemma_sift(
                old(index).records(),
                there,
                list@.take(i as int),
                list@[i as int],
            );
        }
        if !check_present(present, list[i]) {
            proof {
                index::lemma_index_of(index.records(), list@[i as int]);
            }
            index.remove(list[i]);
        }
        i += 1;
    }
    proof {
        assert(list@.take(i as int) =~= list@);
        index::lemma_sifted_list(old(index).records(), there, list@);
    }
}

/// A file that the index did not know about, as the file system describes it: its
/// length and, where it is known, the second it was last modified.
#[derive(Clone, Copy, Debug, PartialEq, Eq, Structural)]
pub struct FoundFile {
    pub key_hash: u64,
    pub slot: u8,
    pub len: u64,
    pub modified: Option<u32>,
}

/// The record of a file that the index did not know about.
pub open spec fn found_record(file: FoundFile, now: u32) -> Record {
    Record {
        key_hash: file.key_hash,
        slot: file.slot,
        size: if file.len <= u32::MAX {
            file.len as u32
        } else {
            u32::MAX
        },
        last_used: match file.modified {
            Some(modified) => modified,
            None => now,
        },
    }
}

/// The records with those of found files inserted, one after the other.
pub open spec fn with_found(records: Seq<Record>, files: Seq<FoundFile>, now: u32) -> Seq<Record>
    decreases files.len(),
{
    if files.len() == 0 {
        records
    } else {
        index::inserted(
            with_found(records, files.drop_last(), now),
            found_record(files.last(), now),
        )
    }
}

/// Whether the records and their sizes can be counted while those of found files are
/// inserted, one after the other.
pub open spec fn has_room_for(records: Seq<Record>, files: Seq<FoundFile>, now: u32) -> bool {
    forall|i: int|
        0 <= i <= files.len() ==> index::accountable(
            with_found(records, #[trigger] files.take(i), now),
        )
}

/// The size of found files together, as the index records it.
pub open spec fn sizes(files: Seq<FoundFile>) -> nat
    decreases files.len(),
{
    if files.len() == 0 {
        0
    } else {
        sizes(files.drop_last()) + found_record(files.last(), 0).size as nat
    }
}

proof fn lemma_with_found(records: Seq<Record>, files: Seq<FoundFile>, now: u32)
    ensures
        index::total(with_found(records, files, now)) <= index::total(records) + sizes(files),
        with_found(records, files, now).len() <= records.len() + files.len(),
    decreases files.len(),
{
    if files.len() > 0 {
        let front = files.drop_last();
        lemma_with_found(records, front, now);
        index::lemma_inserted_total(
            with_found(records, front, now),
            found_record(files.last(), now),
        );
    }
}

proof fn lemma_sizes_prefix(files: Seq<FoundFile>, i: int)
    requires
        0 <= i <= files.len(),
    ensures
        sizes(files.take(i)) <= sizes(files),
    decreases files.len(),
{
    if i == files.len() {
        assert(files.take(i) =~= files);
    } else {
        assert(files.drop_last().take(i) =~= files.take(i));
        lemma_sizes_prefix(files.drop_last(), i);
    }
}

/// What is left of the records of an index has room for found files if all of them have.
pub proof fn lemma_has_room_for(
    records: Seq<Record>,
    there: Set<(u64, u8)>,
    files: Seq<FoundFile>,
    now: u32,
)
    requires
        index::total(records) + sizes(files) <= u64::MAX,
        records.len() + files.len() <= usize::MAX,
    ensures
        has_room_for(index::still_there(records, there), files, now),
{
    let kept = index::still_there(records, there);
    index::lemma_still_there(records, there);
    assert forall|i: int| 0 <= i <= files.len() implies index::accountable(
        with_found(kept, #[trigger] files.take(i), now),
    ) by {
        lemma_with_found(kept, files.take(i), now);
        lemma_sizes_prefix(files, i);
    }
}

/// Whether an index can account for found files besides its variants.
pub fn check_room_for(index: &Index, files: &Vec<FoundFile>) -> (r: bool)
    requires
        index.wf(),
    ensures
        r == (index::total(index.records()) + sizes(files@) <= u64::MAX && index.records().len()
            + files@.len() <= usize::MAX),
        r ==> forall|there: Set<(u64, u8)>, now: u32|
            #[trigger] has_room_for(index::still_there(index.records(), there), files@, now),
{
    let mut bytes: u64 = index.bytes();
    let mut i: usize = 0;
    assert(files@.take(0) =~= Seq::<FoundFile>::empty());
    while i < files.len()
        invariant
            i <= files@.len(),
            bytes == index::total(index.records()) + sizes(files@.take(i as int)),
        decreases files@.len() - i,
    {
        assert(files@.take(i + 1).drop_last() =~= files@.take(i as int));
        let size: u64 = if files[i].len <= u32::MAX as u64 {
            files[i].len
        } else {
            u32::MAX as u64
        };
        match bytes.checked_add(size) {
            Some(sum) => bytes = sum,
            None => {
                proof {
                    lemma_sizes_prefix(files@, i + 1);
                }
                return false;
            },
        }
        i += 1;
    }
    assert(files@.take(i as int) =~= files@);
    let r: bool = index.count().checked_add(files.len()).is_some();
    proof {
        if r {
            assert forall|there: Set<(u64, u8)>, now: u32| #[trigger] has_room_for(
                index::still_there(index.records(), there),
                files@,
                now,
            ) by {
                lemma_has_room_for(index.records(), there, files@, now);
            }
        }
    }
    r
}

/// Record the files that the index did not know about.
pub fn adopt_found(index: &mut Index, files: &Vec<FoundFile>, now: u32)
    requires
        old(index).wf(),
        has_room_for(old(index).records(), files@, now),
    ensures
        final(index).wf(),
        final(index).records() == with_found(old(index).records(), files@, now),
        final(index).reserved() == old(index).reserved(),
        final(index).spec_is_dirty() == (files@.len() > 0 || old(index).spec_is_dirty()),
{
    let mut i: usize = 0;
    assert(files@.take(0) =~= Seq::<FoundFile>::empty());
    while i < files.len()
        invariant
            i <= files@.len(),
            index.wf(),
            has_room_for(old(index).records(), files@, now),
            index.records() == with_found(old(index).records(), files@.take(i as int), now),
            index.reserved() == old(index).reserved(),
            index.spec_is_dirty() == (i > 0 || old(index).spec_is_dirty()),
        decreases files@.len() - i,
    {
        assert(files@.take(i + 1).drop_last() =~= files@.take(i as int));
        let file: FoundFile = files[i];
        let size: u32 = if file.len <= u32::MAX as u64 {
            file.len as u32
        } else {
            u32::MAX
        };
        let last_used: u32 = match file.modified {
            Some(modified) => modified,
            None => now,
        };
        index.insert(file.key_hash, Variant { slot: file.slot, size, last_used });
        i += 1;
    }
    assert(files@.take(i as int) =~= files@);
}

/// What a scan of the entries directory found.
#[derive(Debug)]
pub struct Scan {
    /// The files to delete, as positions in the list of names.
    pub temporary: Vec<usize>,
    /// The slots of the entry files that are there, by key hash.
    pub present: HashMap<u64, Vec<u8>>,
    /// Those of them that the index does not know, with their positions in the list
    /// of names.
    pub unknown: Vec<(u64, u8, usize)>,
}

/// The positions of the files to delete.
pub open spec fn temporaries(names: Seq<Seq<u8>>) -> Seq<usize>
    decreases names.len(),
{
    if names.len() == 0 {
        seq![]
    } else if kind_of(names.last()) is Temporary {
        temporaries(names.drop_last()).push((names.len() - 1) as usize)
    } else {
        temporaries(names.drop_last())
    }
}

/// The entry files among the named ones.
pub open spec fn entries(names: Seq<Seq<u8>>) -> Set<(u64, u8)>
    decreases names.len(),
{
    if names.len() == 0 {
        Set::empty()
    } else {
        match kind_of(names.last()) {
            FileKind::Entry { key_hash, slot } => entries(names.drop_last()).insert(
                (key_hash, slot),
            ),
            _ => entries(names.drop_last()),
        }
    }
}

/// The entry files among the named ones that the index does not know.
pub open spec fn unknowns(records: Seq<Record>, names: Seq<Seq<u8>>) -> Seq<(u64, u8, usize)>
    decreases names.len(),
{
    if names.len() == 0 {
        seq![]
    } else {
        match kind_of(names.last()) {
            FileKind::Entry { key_hash, slot } => if index::knows(
                records,
                (Record { key_hash, slot, size: 0, last_used: 0 }).id(),
            ) {
                unknowns(records, names.drop_last())
            } else {
                unknowns(records, names.drop_last()).push(
                    (key_hash, slot, (names.len() - 1) as usize),
                )
            },
            _ => unknowns(records, names.drop_last()),
        }
    }
}

/// Sort out the files of the entries directory. Only files the index does not know
/// about have to be looked at any further.
pub fn scan(index: &Index, names: &Vec<Vec<u8>>) -> (r: Scan)
    requires
        index.wf(),
    ensures
        r.temporary@ == temporaries(text::views(names@)),
        index::pairs(r.present@) == entries(text::views(names@)),
        r.unknown@ == unknowns(index.records(), text::views(names@)),
{
    let mut temporary: Vec<usize> = Vec::new();
    let mut present: HashMap<u64, Vec<u8>> = HashMap::new();
    let mut unknown: Vec<(u64, u8, usize)> = Vec::new();
    let ghost all = text::views(names@);
    let mut i: usize = 0;
    assert(all.take(0) =~= Seq::<Seq<u8>>::empty());
    assert(index::pairs(present@) =~= Set::<(u64, u8)>::empty());
    while i < names.len()
        invariant
            i <= names@.len(),
            all == text::views(names@),
            index.wf(),
            temporary@ == temporaries(all.take(i as int)),
            index::pairs(present@) == entries(all.take(i as int)),
            unknown@ == unknowns(index.records(), all.take(i as int)),
        decreases names@.len() - i,
    {
        assert(all.take(i + 1).drop_last() =~= all.take(i as int));
        assert(all.take(i + 1).last() == names@[i as int]@);
        match classify(names[i].as_slice()) {
            FileKind::Temporary => temporary.push(i),
            FileKind::Entry { key_hash, slot } => {
                index::put_slot(&mut present, key_hash, slot);
                if index.get(entry_id(key_hash, slot)).is_none() {
                    unknown.push((key_hash, slot, i));
                }
            },
            FileKind::Other => {},
        }
        i += 1;
    }
    assert(all.take(i as int) =~= all);
    Scan { temporary, present, unknown }
}

/// The whole directory is gone, so every record is stale.
pub fn reset(index: &mut Index)
    requires
        old(index).wf(),
    ensures
        final(index).wf(),
        final(index).records() == Seq::<Record>::empty(),
        final(index).reserved() == old(index).reserved(),
        !final(index).spec_is_dirty(),
{
    index.clear();
    index.mark_clean();
}

/// Bring an index back in line with the files that are really there: forget the
/// variants whose files are gone and record the files that the index did not know.
pub fn reconcile(
    index: &mut Index,
    present: &HashMap<u64, Vec<u8>>,
    files: &Vec<FoundFile>,
    now: u32,
)
    requires
        old(index).wf(),
        has_room_for(
            index::still_there(old(index).records(), index::pairs(present@)),
            files@,
            now,
        ),
    ensures
        final(index).wf(),
        final(index).records() == with_found(
            index::still_there(old(index).records(), index::pairs(present@)),
            files@,
            now,
        ),
        final(index).reserved() == old(index).reserved(),
        final(index).spec_is_dirty() == (files@.len() > 0 || index::still_there(
            old(index).records(),
            index::pairs(present@),
        ).len() < old(index).records().len() || old(index).spec_is_dirty()),
{
    forget_missing(index, present);
    adopt_found(index, files, now);
}

/// The version stamp of a cache directory: magic, format, and one byte saying
/// whether the previous run left the index describing the directory.
pub open spec fn stamp(clean: bool) -> Seq<u8> {
    bytes::spec_u64_to_le_bytes(INDEX_MAGIC) + bytes::spec_u32_to_le_bytes(CACHE_FORMAT as u32)
        + seq![if clean { 1u8 } else { 0u8 }]
}

/// The version stamp of a cache directory.
pub fn stamp_bytes(clean: bool) -> (r: Vec<u8>)
    ensures
        r@ == stamp(clean),
        r@.len() == 13,
{
    let mut r: Vec<u8> = Vec::new();
    le::push_u64(&mut r, INDEX_MAGIC);
    le::push_u32(&mut r, CACHE_FORMAT as u32);
    r.push(
        if clean {
            1
        } else {
            0
        },
    );
    assert(r@ =~= stamp(clean));
    r
}

/// What the stamp found in a cache directory says about it.
#[derive(Clone, Copy, Debug, PartialEq, Eq, Structural)]
pub enum StampVerdict {
    /// The index describes the directory.
    Clean,
    /// The index cannot be trusted.
    Dirty,
    /// Another format wrote the directory: it is discarded.
    Discard,
}

/// What the stamp found in a cache directory, if there is one, says about it.
pub open spec fn stamp_verdict(found: Option<Seq<u8>>) -> StampVerdict {
    match found {
        None => StampVerdict::Dirty,
        Some(found) => if found.len() >= 12 && found.take(12) == stamp(false).take(12) {
            if found.len() > 12 && found[12] == 1 {
                StampVerdict::Clean
            } else {
                StampVerdict::Dirty
            }
        } else {
            StampVerdict::Discard
        },
    }
}

/// Check the version stamp of a cache directory. A directory mtime cannot tell an
/// unclean exit from a clean one, because a writer may have been in flight when the
/// index was last written. No stamp at all means either a fresh directory or one
/// the system emptied; neither can be trusted.
pub fn check_stamp(found: Option<&Vec<u8>>) -> (r: StampVerdict)
    ensures
        r == stamp_verdict(
            match found {
                Some(found) => Some(found@),
                None => None,
            },
        ),
{
    match found {
        None => StampVerdict::Dirty,
        Some(found) => {
            let version: Vec<u8> = stamp_bytes(false);
            if found.len() < 12 {
                return StampVerdict::Discard;
            }
            let head: Vec<u8> = text::copy_range(found.as_slice(), 0, 12);
            let want: Vec<u8> = text::copy_range(version.as_slice(), 0, 12);
            assert(head@ =~= found@.take(12));
            assert(want@ =~= stamp(false).take(12));
            if !text::same(head.as_slice(), want.as_slice()) {
                return StampVerdict::Discard;
            }
            if found.len() > 12 && found[12] == 1 {
                StampVerdict::Clean
            } else {
                StampVerdict::Dirty
            }
        },
    }
}

/// A stamp that was written says what it was written for.
pub proof fn law_stamp_reads_back(clean: bool)
    ensures
        stamp_verdict(Some(stamp(clean))) == if clean {
            StampVerdict::Clean
        } else {
            StampVerdict::Dirty
        },
{
    bytes::lemma_auto_spec_u32_to_from_le_bytes();
    bytes::lemma_auto_spec_u64_to_from_le_bytes();
    assert(stamp(clean).take(12) =~= stamp(false).take(12));
}

/// An index is read only from a file of this format whose contents are what was written.
pub proof fn law_unframed_is_sound(data: Seq<u8>)
    ensures
        unframed(data) matches Some((payload, dir_mtime)) ==> {
            &&& data.len() == INDEX_HEADER_LEN + payload.len()
            &&& payload == data.skip(INDEX_HEADER_LEN as int)
            &&& le::u64_at(data, 0) == INDEX_MAGIC
            &&& le::u32_at(data, 8) == CACHE_FORMAT
            &&& le::u32_at(data, 24) == digest::crc32_of(payload)
            &&& dir_mtime == le::u64_at(data, 16)
        },
{
}

/// What a file in the cache directory is shows in its name: a temporary one ends in `.tmp`,
/// an entry is named by its key hash and its slot.
pub proof fn law_kind_of_file(key_hash: u64, slot: u8, name: Seq<u8>)
    ensures
        kind_of(name + text::bytes(".tmp")) is Temporary,
        kind_of(name) matches FileKind::Entry { key_hash: h, slot: s } ==> !text::bytes(
            ".tmp",
        ).is_suffix_of(name) && parsed_name(name) == Some((h, s)),
        kind_of(file_name(key_hash, slot)) == (FileKind::Entry { key_hash, slot }),
{
    law_file_name_reads_back(key_hash, slot);
    let temporary = name + text::bytes(".tmp");
    assert(temporary.skip(temporary.len() - text::bytes(".tmp").len()) =~= text::bytes(".tmp"));
    assert(text::bytes(".tmp").is_suffix_of(temporary));
    reveal_strlit(".tmp");
    crate::fields::lemma_ascii_bytes(".tmp");
    text::lemma_decimal_text(slot as nat);
    let own = file_name(key_hash, slot);
    let digits = text::decimal_text(slot as nat);
    assert(own.last() == digits.last());
    assert(text::bytes(".tmp").last() == 112);
    if text::bytes(".tmp").is_suffix_of(own) {
        assert(own.last() == text::bytes(".tmp").last());
    }
}

/// The temporary files among some are found by their places, each of them and no other.
pub proof fn law_temporaries(names: Seq<Seq<u8>>, i: int)
    requires
        names.len() <= usize::MAX,
        0 <= i < names.len(),
    ensures
        temporaries(names).contains(i as usize) <==> text::bytes(".tmp").is_suffix_of(names[i]),
        forall|k: int|
            0 <= k < temporaries(names).len() ==> #[trigger] temporaries(names)[k] < names.len(),
    decreases names.len(),
{
    let front = names.drop_last();
    let before = temporaries(front);
    let all = temporaries(names);
    if i < front.len() {
        law_temporaries(front, i);
        assert(front[i] == names[i]);
    } else if front.len() > 0 {
        law_temporaries(front, 0);
    }
    if before.contains(i as usize) {
        let k = choose|k: int| 0 <= k < before.len() && before[k] == i as usize;
        assert(all[k] == i as usize);
    }
    if all.contains(i as usize) {
        let k = choose|k: int| 0 <= k < all.len() && all[k] == i as usize;
        if k < before.len() {
            assert(before[k] == i as usize);
        }
    }
    if kind_of(names.last()) is Temporary {
        assert(all[all.len() - 1] == (names.len() - 1) as usize);
    }
}

/// An entry is present exactly if a file is named for it.
pub proof fn law_entries_present(names: Seq<Seq<u8>>, key_hash: u64, slot: u8)
    ensures
        entries(names).contains((key_hash, slot)) <==> exists|i: int|
            0 <= i < names.len() && kind_of(#[trigger] names[i]) == (FileKind::Entry {
                key_hash,
                slot,
            }),
    decreases names.len(),
{
    if names.len() > 0 {
        let front = names.drop_last();
        law_entries_present(front, key_hash, slot);
        assert(forall|i: int| 0 <= i < front.len() ==> front[i] == names[i]);
        assert(names.last() == names[names.len() - 1]);
        if entries(front).contains((key_hash, slot)) {
            let i = choose|i: int|
                0 <= i < front.len() && kind_of(#[trigger] front[i]) == (FileKind::Entry {
                    key_hash,
                    slot,
                });
            assert(kind_of(names[i]) == (FileKind::Entry { key_hash, slot }));
        }
    }
}

/// A file that was found is in the index afterwards, with its size and with the time at which
/// it was changed, as far as that is known.
pub proof fn law_found_are_adopted(records: Seq<Record>, files: Seq<FoundFile>, now: u32)
    requires
        files.len() > 0,
        files.last().key_hash < key::HASH_LIMIT,
        index::proper(with_found(records, files.drop_last(), now)),
    ensures
        ({
            let after = with_found(records, files, now);
            let file = files.last();
            let id = spec_id(file);
            &&& index::knows(after, id)
            &&& after[index::index_of(after, id)].key_hash == file.key_hash
            &&& after[index::index_of(after, id)].slot == file.slot
            &&& file.len <= u32::MAX ==> after[index::index_of(after, id)].size == file.len
            &&& file.modified matches Some(t) ==> after[index::index_of(after, id)].last_used == t
            &&& file.modified is None ==> after[index::index_of(after, id)].last_used == now
        }),
{
    index::law_inserted_is_known(
        with_found(records, files.drop_last(), now),
        found_record(files.last(), now),
    );
}

/// The identifier of the entry that a file holds.
pub open spec fn spec_id(file: FoundFile) -> EntryId {
    key::spec_entry_id(file.key_hash, file.slot) as u64
}

/// What is stamped tells whether the index was left clean; without a stamp it was not, and
/// a stamp of another format tells to discard what is there.
pub proof fn law_stamp_verdict(found: Seq<u8>)
    ensures
        stamp_verdict(None) == StampVerdict::Dirty,
        found.len() >= 12 && (le::u64_at(found, 0) != INDEX_MAGIC || le::u32_at(found, 8)
            != CACHE_FORMAT as u32) ==> stamp_verdict(Some(found)) == StampVerdict::Discard,
        stamp_verdict(Some(found)) == StampVerdict::Clean ==> found.len() >= 13 && found[12] == 1,
{
    broadcast use vstd::seq_lib::group_seq_properties;
    if found.len() >= 12 && found.take(12) == stamp(false).take(12) {
        bytes::lemma_auto_spec_u64_to_from_le_bytes();
        bytes::lemma_auto_spec_u32_to_from_le_bytes();
        let magic = bytes::spec_u64_to_le_bytes(INDEX_MAGIC);
        let format = bytes::spec_u32_to_le_bytes(CACHE_FORMAT as u32);
        let made = stamp(false);
        assert(found.subrange(0, 8) =~= magic) by {
            assert forall|i: int| 0 <= i < 8 implies found.subrange(0, 8)[i] == magic[i] by {
                assert(found.take(12)[i] == made.take(12)[i]);
            }
        }
        assert(found.subrange(8, 12) =~= format) by {
            assert forall|i: int| 0 <= i < 4 implies found.subrange(8, 12)[i] == format[i] by {
                assert(found.take(12)[8 + i] == made.take(12)[8 + i]);
            }
        }
    }
}

/// A file is unknown exactly if it is named for an entry that the index does not have, and is
/// told by its place among the names.
pub proof fn law_unknown_files(records: Seq<Record>, names: Seq<Seq<u8>>, i: int)
    requires
        names.len() <= usize::MAX,
        0 <= i < names.len(),
    ensures
        kind_of(names[i]) matches FileKind::Entry { key_hash, slot } ==> (key_hash < key::HASH_LIMIT
            ==> (unknowns(records, names).contains((key_hash, slot, i as usize)) <==>
            !index::knows(records, key::spec_entry_id(key_hash, slot) as u64))),
        forall|k: int|
            0 <= k < unknowns(records, names).len() ==> (#[trigger] unknowns(records, names)[k]).2
                < names.len(),
    decreases names.len(),
{
    let front = names.drop_last();
    let before = unknowns(records, front);
    let all = unknowns(records, names);
    if i < front.len() {
        law_unknown_files(records, front, i);
        assert(front[i] == names[i]);
    } else if front.len() > 0 {
        law_unknown_files(records, front, 0);
    }
    assert forall|k: int| 0 <= k < all.len() implies (#[trigger] all[k]).2 < names.len() by {
        if k < before.len() {
            assert(all[k] == before[k]);
        }
    }
    if let FileKind::Entry { key_hash, slot } = kind_of(names[i]) {
        let one = (key_hash, slot, i as usize);
        if before.contains(one) {
            let k = choose|k: int| 0 <= k < before.len() && before[k] == one;
            assert(all[k] == one);
        }
        if all.contains(one) {
            let k = choose|k: int| 0 <= k < all.len() && all[k] == one;
            if k < before.len() {
                assert(before[k] == one);
            }
        }
        if i == front.len() && !index::knows(
            records,
            (Record { key_hash, slot, size: 0, last_used: 0 }).id(),
        ) {
            assert(all[all.len() - 1] == one);
        }
    }
}

} // verus!
