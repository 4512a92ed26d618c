//! File-backed HTTP cache store: the layout of its entry files, and its index.
use vstd::bytes;
use vstd::prelude::*;

use crate::digest;
use crate::digest::sha256;
use crate::http_cache::key::CacheKey;
use crate::http_cache_store;
use crate::http_cache_store::{
    sanitized_request_headers, supersedes, StoreError, StoredVariantMeta, StoredView,
};
use crate::le;
use crate::le::{push_bytes, push_u32, push_u64, read_u32, read_u64};
use crate::text;

verus! {

pub const ENTRY_VERSION: u32 = 1;

/// How long the end of an entry file is that describes the rest.
pub const FOOTER_SIZE: usize = 56;

/// The mark of an entry file.
pub open spec fn magic() -> Seq<u8> {
    seq![72u8, 67u8, 68u8, 48u8]
}

/// The checksum of an entry.
pub open spec fn checksum_of(body: Seq<u8>, trailer: Seq<u8>) -> Seq<u8> {
    digest::sha256_of(body + trailer)
}

/// The checksum of an entry.
pub fn checksum(body: &[u8], trailer: &[u8]) -> (r: Vec<u8>)
    ensures
        r@ == checksum_of(body@, trailer@),
        r@.len() == 32,
{
    sha256(body, trailer)
}

/// The name of the file of the entry with a number, for the resource at an address.
pub open spec fn file_name(url: Seq<char>, seq: u64) -> Seq<u8> {
    text::hex(
        digest::sha256_of(vstd::utf8::encode_utf8(url) + bytes::spec_u64_to_le_bytes(seq)),
    ) + text::bytes(".entry")
}

/// The name of the file of the entry with a number, for the resource at an address.
pub fn entry_file_name(url: &String, seq: u64) -> (r: Vec<u8>)
    ensures
        r@ == file_name(url@, seq),
{
    let mut number: Vec<u8> = Vec::new();
    push_u64(&mut number, seq);
    assert(number@ =~= bytes::spec_u64_to_le_bytes(seq));
    let digest: Vec<u8> = sha256(url.as_str().as_bytes(), number.as_slice());
    let mut r: Vec<u8> = text::render_hex(digest.as_slice());
    push_bytes(&mut r, ".entry".as_bytes());
    r
}

/// Whether a file in the directory of the store holds an entry, by its name.
pub open spec fn is_entry_name(name: Seq<u8>) -> bool {
    name.len() > 6 && name.subrange(name.len() - 6, name.len() as int) == text::bytes(".entry")
}

/// Whether a file in the directory of the store holds an entry, by its name.
pub fn check_entry_name(name: &[u8]) -> (r: bool)
    ensures
        r == is_entry_name(name@),
{
    if name.len() <= 6 {
        return false;
    }
    let tail: Vec<u8> = text::copy_range(name, name.len() - 6, name.len());
    text::same(tail.as_slice(), ".entry".as_bytes())
}

/// Every name that is given to an entry is recognized as one, since a digest is not
/// empty.
pub proof fn law_entry_names_are_recognized(url: Seq<char>, seq: u64)
    ensures
        file_name(url, seq).len() > 6 ==> is_entry_name(file_name(url, seq)),
{
    reveal_strlit(".entry");
    crate::fields::lemma_ascii_bytes(".entry");
    let name = file_name(url, seq);
    assert(name.subrange(name.len() - 6, name.len() as int) =~= text::bytes(".entry"));
}

/// What the end of an entry file says of the rest.
#[derive(Debug)]
pub struct DiskFooter {
    pub trailer_len: u64,
    pub body_len: u64,
    pub checksum: Vec<u8>,
}

pub struct FooterView {
    pub trailer_len: u64,
    pub body_len: u64,
    pub checksum: Seq<u8>,
}

impl DiskFooter {
    pub open spec fn view(&self) -> FooterView {
        FooterView {
            trailer_len: self.trailer_len,
            body_len: self.body_len,
            checksum: self.checksum@,
        }
    }
}

/// The end of an entry file.
pub open spec fn footer(footer: FooterView) -> Seq<u8> {
    magic() + bytes::spec_u32_to_le_bytes(ENTRY_VERSION) + bytes::spec_u64_to_le_bytes(
        footer.trailer_len,
    ) + bytes::spec_u64_to_le_bytes(footer.body_len) + footer.checksum
}

/// What the end of an entry file says, if it is one.
pub open spec fn footer_in(data: Seq<u8>) -> Option<FooterView> {
    if data.len() != FOOTER_SIZE || data.subrange(0, 4) != magic() || le::u32_at(data, 4)
        != ENTRY_VERSION {
        None
    } else {
        Some(
            FooterView {
                trailer_len: le::u64_at(data, 8),
                body_len: le::u64_at(data, 16),
                checksum: data.subrange(24, 56),
            },
        )
    }
}

fn push_magic(out: &mut Vec<u8>)
    ensures
        final(out)@ == old(out)@ + magic(),
{
    let ghost before = out@;
    out.push(72);
    out.push(67);
    out.push(68);
    out.push(48);
    assert(out@ =~= before + magic());
}

/// The end of an entry file.
pub fn footer_to_bytes(trailer_len: u64, body_len: u64, checksum: &[u8]) -> (r: Vec<u8>)
    ensures
        r@ == footer(FooterView { trailer_len, body_len, checksum: checksum@ }),
        r@.len() == 24 + checksum@.len(),
{
    let mut r: Vec<u8> = Vec::new();
    push_magic(&mut r);
    push_u32(&mut r, ENTRY_VERSION);
    push_u64(&mut r, trailer_len);
    push_u64(&mut r, body_len);
    push_bytes(&mut r, checksum);
    assert(r@ =~= footer(FooterView { trailer_len, body_len, checksum: checksum@ }));
    r
}

/// Read the end of an entry file.
pub fn footer_from_bytes(data: &[u8]) -> (r: Option<DiskFooter>)
    ensures
        match footer_in(data@) {
            Some(footer) => r matches Some(read) && read@ == footer,
            None => r is None,
        },
{
    if data.len() != FOOTER_SIZE {
        return None;
    }
    let mark: Vec<u8> = text::copy_range(data, 0, 4);
    let mut expected: Vec<u8> = Vec::new();
    push_magic(&mut expected);
    assert(expected@ =~= magic());
    if !text::same(mark.as_slice(), expected.as_slice()) {
        return None;
    }
    if read_u32(data, 4) != ENTRY_VERSION {
        return None;
    }
    Some(
        DiskFooter {
            trailer_len: read_u64(data, 8),
            body_len: read_u64(data, 16),
            checksum: text::copy_range(data, 24, 56),
        },
    )
}

/// The end of an entry file is read back as it was written.
pub proof fn law_footer_reads_back(view: FooterView)
    requires
        view.checksum.len() == 32,
    ensures
        footer_in(footer(view)) == Some(view),
{
    let data = footer(view);
    bytes::lemma_auto_spec_u32_to_from_le_bytes();
    bytes::lemma_auto_spec_u64_to_from_le_bytes();
    assert(data.subrange(0, 4) =~= magic());
    assert(data.subrange(4, 8) =~= bytes::spec_u32_to_le_bytes(ENTRY_VERSION));
    assert(data.subrange(8, 16) =~= bytes::spec_u64_to_le_bytes(view.trailer_len));
    assert(data.subrange(16, 24) =~= bytes::spec_u64_to_le_bytes(view.body_len));
    assert(data.subrange(24, 56) =~= view.checksum);
}

/// An entry file: the body, the trailer that describes it, and the end.
pub open spec fn entry(body: Seq<u8>, trailer: Seq<u8>) -> Seq<u8> {
    body + trailer + footer(
        FooterView {
            trailer_len: trailer.len() as u64,
            body_len: body.len() as u64,
            checksum: checksum_of(body, trailer),
        },
    )
}

/// What follows the body in an entry file.
pub fn entry_tail(body: &[u8], trailer: &[u8]) -> (r: Vec<u8>)
    ensures
        body@ + r@ == entry(body@, trailer@),
        parts(body@ + r@) == Some((body@.len() as int, trailer@.len() as int)),
        body_in(body@ + r@) == Some(body@),
        (body@ + r@).subrange(body@.len() as int, (body@.len() + trailer@.len()) as int)
            == trailer@,
{
    let sum: Vec<u8> = checksum(body, trailer);
    let mut r: Vec<u8> = text::copy_bytes(trailer);
    let mut end: Vec<u8> = footer_to_bytes(
        trailer.len() as u64,
        body.len() as u64,
        sum.as_slice(),
    );
    r.append(&mut end);
    assert(body@ + r@ =~= entry(body@, trailer@));
    proof {
        law_entry_reads_back(body@, trailer@);
    }
    r
}

/// What an entry file holds.
#[derive(Debug)]
pub enum EntryRead {
    /// It is no entry file.
    Broken,
    /// It is not whole, or its checksum does not fit.
    Incomplete,
    /// The length of its body, and the trailer.
    Whole(usize, Vec<u8>),
}

/// The parts that the end of a file says it has, if they make up the file: the lengths
/// of the body and of the trailer.
pub open spec fn parts(data: Seq<u8>) -> Option<(int, int)> {
    match footer_in(data.subrange(data.len() - FOOTER_SIZE, data.len() as int)) {
        Some(footer) => if footer.body_len + footer.trailer_len + FOOTER_SIZE == data.len()
            && footer.checksum == checksum_of(
            data.subrange(0, footer.body_len as int),
            data.subrange(footer.body_len as int, footer.body_len + footer.trailer_len),
        ) {
            Some((footer.body_len as int, footer.trailer_len as int))
        } else {
            None
        },
        None => None,
    }
}

/// Whether a file was read for what it holds.
pub open spec fn is_read(r: EntryRead, data: Seq<u8>) -> bool {
    if data.len() < FOOTER_SIZE {
        r is Incomplete
    } else if footer_in(data.subrange(data.len() - FOOTER_SIZE, data.len() as int)) is None {
        r is Broken
    } else {
        match parts(data) {
            Some((body_len, trailer_len)) => r matches EntryRead::Whole(len, trailer) && len
                == body_len && trailer@ == data.subrange(body_len, body_len + trailer_len),
            None => r is Incomplete,
        }
    }
}

/// Read an entry file: what it holds is only believed where the lengths and the
/// checksum fit.
pub fn read_entry(data: &[u8]) -> (r: EntryRead)
    ensures
        is_read(r, data@),
{
    if data.len() < FOOTER_SIZE {
        return EntryRead::Incomplete;
    }
    let start: usize = data.len() - FOOTER_SIZE;
    let end: Vec<u8> = text::copy_range(data, start, data.len());
    let footer: DiskFooter = match footer_from_bytes(end.as_slice()) {
        Some(footer) => footer,
        None => return EntryRead::Broken,
    };
    if footer.body_len > start as u64 || footer.trailer_len != start as u64 - footer.body_len {
        return EntryRead::Incomplete;
    }
    let body_len: usize = footer.body_len as usize;
    let body: Vec<u8> = text::copy_range(data, 0, body_len);
    let trailer: Vec<u8> = text::copy_range(data, body_len, start);
    let sum: Vec<u8> = checksum(body.as_slice(), trailer.as_slice());
    if !text::same(sum.as_slice(), footer.checksum.as_slice()) {
        return EntryRead::Incomplete;
    }
    EntryRead::Whole(body_len, trailer)
}

/// What an entry file holds is what was written to it. A checksum has thirty-two bytes, as
/// every one has that was computed.
pub proof fn law_entry_reads_back(body: Seq<u8>, trailer: Seq<u8>)
    requires
        body.len() <= u64::MAX,
        trailer.len() <= u64::MAX,
    ensures
        checksum_of(body, trailer).len() == 32 ==> {
            &&& parts(entry(body, trailer)) == Some((body.len() as int, trailer.len() as int))
            &&& entry(body, trailer).subrange(0, body.len() as int) == body
            &&& entry(body, trailer).subrange(
                body.len() as int,
                (body.len() + trailer.len()) as int,
            ) == trailer
            &&& body_in(entry(body, trailer)) == Some(body)
        },
{
    if checksum_of(body, trailer).len() == 32 {
        let data = entry(body, trailer);
        let view = FooterView {
            trailer_len: trailer.len() as u64,
            body_len: body.len() as u64,
            checksum: checksum_of(body, trailer),
        };
        law_footer_reads_back(view);
        bytes::lemma_auto_spec_u32_to_from_le_bytes();
        bytes::lemma_auto_spec_u64_to_from_le_bytes();
        assert(footer(view).len() == FOOTER_SIZE);
        assert(data.subrange(data.len() - FOOTER_SIZE, data.len() as int) =~= footer(view));
        assert(data.subrange(0, body.len() as int) =~= body);
        assert(data.subrange(body.len() as int, (body.len() + trailer.len()) as int) =~= trailer);
    }
}

/// The body that an entry file says it has.
pub open spec fn body_in(data: Seq<u8>) -> Option<Seq<u8>> {
    if data.len() < FOOTER_SIZE {
        None
    } else {
        match footer_in(data.subrange(data.len() - FOOTER_SIZE, data.len() as int)) {
            Some(footer) => if footer.body_len + FOOTER_SIZE <= data.len() {
                Some(data.subrange(0, footer.body_len as int))
            } else {
                None
            },
            None => None,
        }
    }
}

/// Read the body out of an entry file.
pub fn bytes_for_body(data: &[u8]) -> (r: Result<Vec<u8>, StoreError>)
    ensures
        match body_in(data@) {
            Some(body) => r matches Ok(read) && read@ == body,
            None => r == Err::<Vec<u8>, StoreError>(StoreError::Closed),
        },
{
    if data.len() < FOOTER_SIZE {
        return Err(StoreError::Closed);
    }
    let start: usize = data.len() - FOOTER_SIZE;
    let end: Vec<u8> = text::copy_range(data, start, data.len());
    match footer_from_bytes(end.as_slice()) {
        Some(footer) => {
            if footer.body_len > start as u64 {
                return Err(StoreError::Closed);
            }
            Ok(text::copy_range(data, 0, footer.body_len as usize))
        },
        None => Err(StoreError::Closed),
    }
}

/// An entry file with another trailer, if the file is whole.
pub fn rewrite_entry(data: &[u8], trailer: &[u8]) -> (r: Option<Vec<u8>>)
    ensures
        r is Some == (data@.len() >= FOOTER_SIZE && parts(data@) is Some),
        r matches Some(new) ==> new@ == entry(
            data@.subrange(0, (parts(data@)->0).0),
            trailer@,
        ),
{
    match read_entry(data) {
        EntryRead::Whole(body_len, _) => {
            let mut body: Vec<u8> = text::copy_range(data, 0, body_len);
            let mut tail: Vec<u8> = entry_tail(body.as_slice(), trailer);
            body.append(&mut tail);
            Some(body)
        },
        _ => None,
    }
}

/// What the index knows of one entry file.
#[derive(Debug)]
pub struct DiskIndexEntry {
    pub key_url: String,
    pub file_name: Vec<u8>,
    pub body_len: u64,
    pub last_used: u64,
}

pub struct RecordView {
    pub key_url: Seq<char>,
    pub file_name: Seq<u8>,
    pub body_len: u64,
    pub last_used: u64,
}

impl DiskIndexEntry {
    pub open spec fn view(&self) -> RecordView {
        RecordView {
            key_url: self.key_url@,
            file_name: self.file_name@,
            body_len: self.body_len,
            last_used: self.last_used,
        }
    }
}

pub open spec fn records(entries: Seq<DiskIndexEntry>) -> Seq<RecordView> {
    Seq::new(entries.len(), |i: int| entries[i]@)
}

/// The index of a file-backed store: its entries in the order in which they were
/// stored, and the bytes and numbers that were given out.
#[derive(Debug)]
pub struct DiskIndex {
    pub entries: Vec<DiskIndexEntry>,
    pub total_bytes: u64,
    pub next_seq: u64,
}

pub struct IndexView {
    pub entries: Seq<RecordView>,
    pub total_bytes: u64,
    pub next_seq: u64,
}

/// A sum that stops at the largest number.
pub open spec fn plus(a: u64, b: u64) -> u64 {
    if a + b <= u64::MAX {
        (a + b) as u64
    } else {
        u64::MAX
    }
}

/// A difference that stops at zero.
pub open spec fn minus(a: u64, b: u64) -> u64 {
    if a >= b {
        (a - b) as u64
    } else {
        0
    }
}

/// Whether a byte string comes before another one.
pub open spec fn precedes(a: Seq<u8>, b: Seq<u8>) -> bool
    decreases a.len(),
{
    if b.len() == 0 {
        false
    } else if a.len() == 0 {
        true
    } else if a[0] != b[0] {
        a[0] < b[0]
    } else {
        precedes(a.skip(1), b.skip(1))
    }
}

fn check_precedes(a: &Vec<u8>, b: &Vec<u8>) -> (r: bool)
    ensures
        r == precedes(a@, b@),
{
    let mut i: usize = 0;
    assert(a@.skip(0) =~= a@);
    assert(b@.skip(0) =~= b@);
    while i < a.len() && i < b.len()
        invariant
            i <= a@.len(),
            i <= b@.len(),
            precedes(a@, b@) == precedes(a@.skip(i as int), b@.skip(i as int)),
        decreases a@.len() - i,
    {
        assert(a@.skip(i as int).skip(1) =~= a@.skip(i + 1));
        assert(b@.skip(i as int).skip(1) =~= b@.skip(i + 1));
        if a[i] != b[i] {
            return a[i] < b[i];
        }
        i += 1;
    }
    i < b.len()
}

/// Whether an entry is evicted before another one: it was used longer ago, or at the
/// same time and its name comes first.
pub open spec fn evicted_before(a: RecordView, b: RecordView) -> bool {
    a.last_used < b.last_used || a.last_used == b.last_used && precedes(a.file_name, b.file_name)
}

/// The entry that is evicted first.
pub open spec fn victim(entries: Seq<RecordView>) -> int
    decreases entries.len(),
{
    if entries.len() <= 1 {
        0
    } else {
        let before = victim(entries.drop_last());
        if evicted_before(entries.last(), entries[before]) {
            entries.len() - 1
        } else {
            before
        }
    }
}

pub proof fn lemma_victim(entries: Seq<RecordView>)
    requires
        entries.len() > 0,
    ensures
        0 <= victim(entries) < entries.len(),
        forall|i: int|
            0 <= i < entries.len() ==> entries[victim(entries)].last_used <= (
            #[trigger] entries[i]).last_used,
    decreases entries.len(),
{
    if entries.len() > 1 {
        lemma_victim(entries.drop_last());
        let before = victim(entries.drop_last());
        assert forall|i: int| 0 <= i < entries.len() implies entries[victim(entries)].last_used <= (
        #[trigger] entries[i]).last_used by {
            if i < entries.len() - 1 {
                assert(entries.drop_last()[i] == entries[i]);
            }
            assert(entries.drop_last()[before] == entries[before]);
        }
    }
}

/// An index once it is within a budget, as far as it can be.
pub open spec fn within(index: IndexView, budget: u64) -> IndexView
    decreases index.entries.len(),
{
    if index.total_bytes <= budget || index.entries.len() == 0 {
        index
    } else {
        proof {
            lemma_victim(index.entries);
        }
        let i = victim(index.entries);
        within(
            IndexView {
                entries: index.entries.remove(i),
                total_bytes: minus(index.total_bytes, index.entries[i].body_len),
                ..index
            },
            budget,
        )
    }
}

/// The names of the files that leave, in the order in which they do.
pub open spec fn leaving(index: IndexView, budget: u64) -> Seq<Seq<u8>>
    decreases index.entries.len(),
{
    if index.total_bytes <= budget || index.entries.len() == 0 {
        seq![]
    } else {
        proof {
            lemma_victim(index.entries);
        }
        let i = victim(index.entries);
        seq![index.entries[i].file_name] + leaving(
            IndexView {
                entries: index.entries.remove(i),
                total_bytes: minus(index.total_bytes, index.entries[i].body_len),
                ..index
            },
            budget,
        )
    }
}

/// After eviction the index is within its budget, or has no entries left.
pub proof fn law_eviction_meets_budget(index: IndexView, budget: u64)
    ensures
        within(index, budget).total_bytes <= budget || within(index, budget).entries.len() == 0,
    decreases index.entries.len(),
{
    if index.total_bytes > budget && index.entries.len() > 0 {
        lemma_victim(index.entries);
        let i = victim(index.entries);
        law_eviction_meets_budget(
            IndexView {
                entries: index.entries.remove(i),
                total_bytes: minus(index.total_bytes, index.entries[i].body_len),
                ..index
            },
            budget,
        );
    }
}

/// What is evicted was used no later than what stays.
pub proof fn law_eviction_is_least_recently_used(
    index: IndexView,
    budget: u64,
    dropped: int,
    kept: int,
)
    requires
        0 <= dropped < index.entries.len(),
        !within(index, budget).entries.contains(index.entries[dropped]),
        0 <= kept < within(index, budget).entries.len(),
    ensures
        index.entries[dropped].last_used <= within(index, budget).entries[kept].last_used,
    decreases index.entries.len(),
{
    if index.total_bytes > budget && index.entries.len() > 0 {
        lemma_victim(index.entries);
        let i = victim(index.entries);
        let next = IndexView {
            entries: index.entries.remove(i),
            total_bytes: minus(index.total_bytes, index.entries[i].body_len),
            ..index
        };
        lemma_within_subset(next, budget, kept);
        if dropped == i {
            let j = choose|j: int|
                0 <= j < next.entries.len() && #[trigger] next.entries[j] == within(
                    next,
                    budget,
                ).entries[kept];
            assert(index.entries[if j < i {
                j
            } else {
                j + 1
            }] == next.entries[j]);
        } else {
            let moved = if dropped < i {
                dropped
            } else {
                dropped - 1
            };
            assert(next.entries[moved] == index.entries[dropped]);
            law_eviction_is_least_recently_used(next, budget, moved, kept);
        }
    } else {
        assert(within(index, budget).entries[dropped] == index.entries[dropped]);
    }
}

proof fn lemma_within_subset(index: IndexView, budget: u64, k: int)
    requires
        0 <= k < within(index, budget).entries.len(),
    ensures
        exists|j: int|
            0 <= j < index.entries.len() && #[trigger] index.entries[j] == within(
                index,
                budget,
            ).entries[k],
    decreases index.entries.len(),
{
    if index.total_bytes > budget && index.entries.len() > 0 {
        lemma_victim(index.entries);
        let i = victim(index.entries);
        let next = IndexView {
            entries: index.entries.remove(i),
            total_bytes: minus(index.total_bytes, index.entries[i].body_len),
            ..index
        };
        lemma_within_subset(next, budget, k);
        let j = choose|j: int|
            0 <= j < next.entries.len() && #[trigger] next.entries[j] == within(
                next,
                budget,
            ).entries[k];
        assert(index.entries[if j < i {
            j
        } else {
            j + 1
        }] == next.entries[j]);
    } else {
        assert(index.entries[k] == within(index, budget).entries[k]);
    }
}

/// The first entry in a file, or the number of entries if none is.
pub open spec fn named(entries: Seq<RecordView>, file_name: Seq<u8>) -> int
    decreases entries.len(),
{
    if entries.len() == 0 {
        0
    } else {
        let before = named(entries.drop_last(), file_name);
        if before < entries.len() - 1 || entries.last().file_name == file_name {
            before
        } else {
            entries.len() as int
        }
    }
}

proof fn lemma_named(entries: Seq<RecordView>, file_name: Seq<u8>)
    ensures
        0 <= named(entries, file_name) <= entries.len(),
        named(entries, file_name) < entries.len() ==> entries[named(
            entries,
            file_name,
        )].file_name == file_name,
        forall|i: int|
            0 <= i < named(entries, file_name) ==> (#[trigger] entries[i]).file_name != file_name,
    decreases entries.len(),
{
    if entries.len() > 0 {
        lemma_named(entries.drop_last(), file_name);
        assert forall|i: int| 0 <= i < named(entries, file_name) implies (
        #[trigger] entries[i]).file_name != file_name by {
            if i < entries.len() - 1 {
                assert(entries.drop_last()[i] == entries[i]);
            }
        }
    }
}

/// Whether an entry of a key is in one of some files.
pub open spec fn is_listed(entry: RecordView, url: Seq<char>, names: Seq<Seq<u8>>) -> bool {
    entry.key_url == url && names.contains(entry.file_name)
}

/// The entries that are not superseded, among the first `n`.
pub open spec fn unlisted(
    entries: Seq<RecordView>,
    n: int,
    url: Seq<char>,
    names: Seq<Seq<u8>>,
) -> Seq<RecordView>
    decreases n,
{
    if n <= 0 {
        seq![]
    } else if is_listed(entries[n - 1], url, names) {
        unlisted(entries, n - 1, url, names)
    } else {
        unlisted(entries, n - 1, url, names).push(entries[n - 1])
    }
}

/// The bytes that are left of `total` once those of the superseded entries among the
/// first `n` are taken off.
pub open spec fn left_of(
    total: u64,
    entries: Seq<RecordView>,
    n: int,
    url: Seq<char>,
    names: Seq<Seq<u8>>,
) -> u64
    decreases n,
{
    if n <= 0 {
        total
    } else if is_listed(entries[n - 1], url, names) {
        minus(left_of(total, entries, n - 1, url, names), entries[n - 1].body_len)
    } else {
        left_of(total, entries, n - 1, url, names)
    }
}

/// An index after a new entry took the place of those that it supersedes.
pub open spec fn with_entry(index: IndexView, entry: RecordView, superseded: Seq<Seq<u8>>) -> IndexView {
    let entries = index.entries.push(entry);
    IndexView {
        entries: unlisted(entries, entries.len() as int, entry.key_url, superseded),
        total_bytes: left_of(
            plus(index.total_bytes, entry.body_len),
            entries,
            entries.len() as int,
            entry.key_url,
            superseded,
        ),
        ..index
    }
}

impl DiskIndex {
    pub open spec fn view(&self) -> IndexView {
        IndexView {
            entries: records(self.entries@),
            total_bytes: self.total_bytes,
            next_seq: self.next_seq,
        }
    }

    pub fn new() -> (r: DiskIndex)
        ensures
            r@ == (IndexView { entries: seq![], total_bytes: 0, next_seq: 0 }),
    {
        let r: DiskIndex = DiskIndex { entries: Vec::new(), total_bytes: 0, next_seq: 0 };
        assert(r@.entries =~= seq![]);
        r
    }

    /// The number for the next entry.
    pub fn take_seq(&mut self) -> (r: u64)
        ensures
            r == old(self)@.next_seq,
            final(self)@ == (IndexView { next_seq: plus(old(self)@.next_seq, 1), ..old(self)@ }),
    {
        let seq: u64 = self.next_seq;
        self.next_seq = self.next_seq.saturating_add(1);
        seq
    }

    fn find(&self, file_name: &[u8]) -> (r: usize)
        ensures
            r == named(self@.entries, file_name@),
            r <= self.entries@.len(),
    {
        let ghost all = records(self.entries@);
        let mut i: usize = 0;
        proof {
            lemma_named(all, file_name@);
        }
        while i < self.entries.len()
            invariant
                all == records(self.entries@),
                i <= named(all, file_name@) <= self.entries@.len(),
                named(all, file_name@) < all.len() ==> all[named(
                    all,
                    file_name@,
                )].file_name == file_name@,
                forall|j: int|
                    0 <= j < named(all, file_name@) ==> (#[trigger] all[j]).file_name
                        != file_name@,
            decreases self.entries@.len() - i,
        {
            assert(all[i as int] == self.entries@[i as int]@);
            if text::same(self.entries[i].file_name.as_slice(), file_name) {
                return i;
            }
            i += 1;
        }
        i
    }

    /// Note that an entry was used.
    pub fn touch_entry(&mut self, file_name: &[u8], now: u64)
        ensures
            ({
                let i = named(old(self)@.entries, file_name@);
                final(self)@ == if i < old(self)@.entries.len() {
                    IndexView {
                        entries: old(self)@.entries.update(
                            i,
                            RecordView { last_used: now, ..old(self)@.entries[i] },
                        ),
                        ..old(self)@
                    }
                } else {
                    old(self)@
                }
            }),
    {
        let ghost before = self@.entries;
        let i: usize = self.find(file_name);
        if i < self.entries.len() {
            assert(before[i as int] == self.entries@[i as int]@);
            let entry: &mut DiskIndexEntry = &mut self.entries[i];
            entry.last_used = now;
            assert(self@.entries =~= before.update(i as int, self.entries@[i as int]@));
        }
    }

    fn find_victim(&self) -> (r: usize)
        requires
            self.entries@.len() > 0,
        ensures
            r == victim(self@.entries),
            r < self.entries@.len(),
    {
        let ghost all = records(self.entries@);
        let mut r: usize = 0;
        let mut i: usize = 1;
        assert(all.take(1).len() == 1);
        while i < self.entries.len()
            invariant
                all == records(self.entries@),
                1 <= i <= self.entries@.len(),
                r < i,
                r == victim(all.take(i as int)),
            decreases self.entries@.len() - i,
        {
            let ghost taken = all.take(i + 1);
            assert(taken.drop_last() =~= all.take(i as int));
            assert(taken.last() == self.entries@[i as int]@);
            assert(taken[r as int] == self.entries@[r as int]@);
            if self.entries[i].last_used < self.entries[r].last_used || (self.entries[i].last_used
                == self.entries[r].last_used && check_precedes(
                &self.entries[i].file_name,
                &self.entries[r].file_name,
            )) {
                r = i;
            }
            i += 1;
        }
        assert(all.take(i as int) =~= all);
        r
    }

    /// Evict what was used longest ago until the index is within its budget. The
    /// result names the files that leave.
    pub fn evict_over_budget(&mut self, budget: u64) -> (r: Vec<Vec<u8>>)
        ensures
            final(self)@ == within(old(self)@, budget),
            text::views(r@) == leaving(old(self)@, budget),
    {
        let mut r: Vec<Vec<u8>> = Vec::new();
        let ghost start = self@;
        assert(text::views(r@) + leaving(self@, budget) =~= leaving(start, budget));
        while self.total_bytes > budget && self.entries.len() > 0
            invariant
                within(self@, budget) == within(start, budget),
                text::views(r@) + leaving(self@, budget) == leaving(start, budget),
            decreases self.entries@.len(),
        {
            let ghost before = self@;
            let ghost gone = text::views(r@);
            let i: usize = self.find_victim();
            let entry: DiskIndexEntry = self.entries.remove(i);
            assert(records(self.entries@) =~= before.entries.remove(i as int));
            assert(before.entries[i as int] == entry@);
            self.total_bytes = self.total_bytes.saturating_sub(entry.body_len);
            r.push(entry.file_name);
            assert(text::views(r@) =~= gone.push(entry@.file_name));
            assert(self@ == (IndexView {
                entries: before.entries.remove(i as int),
                total_bytes: minus(before.total_bytes, before.entries[i as int].body_len),
                ..before
            }));
            assert(text::views(r@) + leaving(self@, budget) =~= gone + leaving(before, budget));
        }
        assert(text::views(r@) + leaving(self@, budget) =~= text::views(r@));
        r
    }

    /// Add an entry that was just written, in place of those in the files that it
    /// supersedes, and evict what is over the budget. The result names the files that
    /// leave: first the superseded ones, and then those that are evicted.
    pub fn add_entry(
        &mut self,
        entry: DiskIndexEntry,
        superseded: Vec<Vec<u8>>,
        budget: u64,
    ) -> (r: Vec<Vec<u8>>)
        ensures
            final(self)@ == within(
                with_entry(old(self)@, entry@, text::views(superseded@)),
                budget,
            ),
            text::views(r@) == text::views(superseded@) + leaving(
                with_entry(old(self)@, entry@, text::views(superseded@)),
                budget,
            ),
    {
        let ghost start = self@;
        let ghost added = entry@;
        let ghost names = text::views(superseded@);
        let url: String = entry.key_url.clone();
        self.total_bytes = self.total_bytes.saturating_add(entry.body_len);
        self.entries.push(entry);
        let ghost all = records(self.entries@);
        assert(all =~= start.entries.push(added));
        let ghost total = self.total_bytes;
        let mut kept: Vec<DiskIndexEntry> = Vec::new();
        let mut entries: Vec<DiskIndexEntry> = Vec::new();
        std::mem::swap(&mut entries, &mut self.entries);
        let mut i: usize = 0;
        assert(records(kept@) =~= seq![]);
        while i < entries.len()
            invariant
                i <= entries@.len(),
                all == records(entries@),
                names == text::views(superseded@),
                url@ == added.key_url,
                self.next_seq == start.next_seq,
                records(kept@) == unlisted(all, i as int, url@, names),
                self.total_bytes == left_of(total, all, i as int, url@, names),
            decreases entries@.len() - i,
        {
            let ghost before = records(kept@);
            assert(all[i as int] == entries@[i as int]@);
            if entries[i].key_url == url && text::contains(
                &superseded,
                entries[i].file_name.as_slice(),
            ) {
                self.total_bytes = self.total_bytes.saturating_sub(entries[i].body_len);
            } else {
                let copy: DiskIndexEntry = DiskIndexEntry {
                    key_url: entries[i].key_url.clone(),
                    file_name: text::copy_bytes(entries[i].file_name.as_slice()),
                    body_len: entries[i].body_len,
                    last_used: entries[i].last_used,
                };
                kept.push(copy);
                assert(records(kept@) =~= before.push(all[i as int]));
            }
            i += 1;
        }
        self.entries = kept;
        assert(self@ == with_entry(start, added, names));
        let mut evicted: Vec<Vec<u8>> = self.evict_over_budget(budget);
        let ghost gone = text::views(evicted@);
        let mut r: Vec<Vec<u8>> = superseded;
        r.append(&mut evicted);
        assert(text::views(r@) =~= names + gone);
        r
    }

    /// Add an entry that was found in the directory.
    pub fn adopt(&mut self, entry: DiskIndexEntry)
        ensures
            final(self)@ == (IndexView {
                entries: old(self)@.entries.push(entry@),
                total_bytes: plus(old(self)@.total_bytes, entry@.body_len),
                next_seq: plus(old(self)@.next_seq, 1),
            }),
    {
        let ghost before = self@.entries;
        let ghost added = entry@;
        self.total_bytes = self.total_bytes.saturating_add(entry.body_len);
        self.next_seq = self.next_seq.saturating_add(1);
        self.entries.push(entry);
        assert(self@.entries =~= before.push(added));
    }

    /// The files of the entries of a key.
    pub fn files_of(&self, url: &String) -> (r: Vec<Vec<u8>>)
        ensures
            text::views(r@) == files(self@.entries, self@.entries.len() as int, url@),
    {
        let ghost all = records(self.entries@);
        let mut r: Vec<Vec<u8>> = Vec::new();
        let mut i: usize = 0;
        assert(text::views(r@) =~= seq![]);
        while i < self.entries.len()
            invariant
                i <= self.entries@.len(),
                all == records(self.entries@),
                text::views(r@) == files(all, i as int, url@),
            decreases self.entries@.len() - i,
        {
            let ghost before = text::views(r@);
            assert(all[i as int] == self.entries@[i as int]@);
            if self.entries[i].key_url == *url {
                r.push(text::copy_bytes(self.entries[i].file_name.as_slice()));
                assert(text::views(r@) =~= before.push(all[i as int].file_name));
            }
            i += 1;
        }
        r
    }

    /// Remove the entries of a key. The bytes that they took stay counted until the
    /// index is built anew. The result names the files that leave.
    pub fn remove_entries(&mut self, url: &String) -> (r: Vec<Vec<u8>>)
        ensures
            text::views(r@) == files(old(self)@.entries, old(self)@.entries.len() as int, url@),
            final(self)@ == (IndexView {
                entries: of_others(old(self)@.entries, old(self)@.entries.len() as int, url@),
                ..old(self)@
            }),
    {
        let r: Vec<Vec<u8>> = self.files_of(url);
        let ghost all = records(self.entries@);
        let ghost start = self@;
        let mut kept: Vec<DiskIndexEntry> = Vec::new();
        let mut entries: Vec<DiskIndexEntry> = Vec::new();
        std::mem::swap(&mut entries, &mut self.entries);
        let mut i: usize = 0;
        assert(records(kept@) =~= seq![]);
        while i < entries.len()
            invariant
                i <= entries@.len(),
                all == records(entries@),
                self.next_seq == start.next_seq,
                self.total_bytes == start.total_bytes,
                records(kept@) == of_others(all, i as int, url@),
            decreases entries@.len() - i,
        {
            let ghost before = records(kept@);
            assert(all[i as int] == entries@[i as int]@);
            if entries[i].key_url != *url {
                let copy: DiskIndexEntry = DiskIndexEntry {
                    key_url: entries[i].key_url.clone(),
                    file_name: text::copy_bytes(entries[i].file_name.as_slice()),
                    body_len: entries[i].body_len,
                    last_used: entries[i].last_used,
                };
                kept.push(copy);
                assert(records(kept@) =~= before.push(all[i as int]));
            }
            i += 1;
        }
        self.entries = kept;
        r
    }
}

/// The files of the entries of a key, among the first `n`.
pub open spec fn files(entries: Seq<RecordView>, n: int, url: Seq<char>) -> Seq<Seq<u8>>
    decreases n,
{
    if n <= 0 {
        seq![]
    } else if entries[n - 1].key_url == url {
        files(entries, n - 1, url).push(entries[n - 1].file_name)
    } else {
        files(entries, n - 1, url)
    }
}

/// The entries of other keys, among the first `n`.
pub open spec fn of_others(entries: Seq<RecordView>, n: int, url: Seq<char>) -> Seq<RecordView>
    decreases n,
{
    if n <= 0 {
        seq![]
    } else if entries[n - 1].key_url == url {
        of_others(entries, n - 1, url)
    } else {
        of_others(entries, n - 1, url).push(entries[n - 1])
    }
}

/// What was read back of an entry of the same key.
#[derive(Debug)]
pub struct Candidate {
    pub file_name: Vec<u8>,
    pub meta: StoredVariantMeta,
}

/// The names of the files that a fresh entry supersedes, among the first `n`: those of
/// other entries with the metadata of a variant that it replaces.
pub open spec fn superseded_by(
    fresh: StoredView,
    file_name: Seq<u8>,
    names: Seq<Seq<u8>>,
    metas: Seq<StoredView>,
    n: int,
) -> Seq<Seq<u8>>
    decreases n,
{
    if n <= 0 {
        seq![]
    } else {
        let before = superseded_by(fresh, file_name, names, metas, n - 1);
        if names[n - 1] != file_name && http_cache_store::is_superseded(fresh, metas[n - 1]) {
            before.push(names[n - 1])
        } else {
            before
        }
    }
}

pub open spec fn candidate_names(candidates: Seq<Candidate>) -> Seq<Seq<u8>> {
    Seq::new(candidates.len(), |i: int| candidates[i].file_name@)
}

pub open spec fn candidate_metas(candidates: Seq<Candidate>) -> Seq<StoredView> {
    Seq::new(candidates.len(), |i: int| candidates[i].meta@)
}

/// The names of the files that a fresh entry supersedes.
pub fn superseded_files(
    fresh: &StoredVariantMeta,
    file_name: &[u8],
    candidates: &Vec<Candidate>,
) -> (r: Vec<Vec<u8>>)
    ensures
        text::views(r@) == superseded_by(
            fresh@,
            file_name@,
            candidate_names(candidates@),
            candidate_metas(candidates@),
            candidates@.len() as int,
        ),
{
    let ghost names = candidate_names(candidates@);
    let ghost metas = candidate_metas(candidates@);
    let mut r: Vec<Vec<u8>> = Vec::new();
    let mut i: usize = 0;
    assert(text::views(r@) =~= seq![]);
    while i < candidates.len()
        invariant
            i <= candidates@.len(),
            names == candidate_names(candidates@),
            metas == candidate_metas(candidates@),
            text::views(r@) == superseded_by(fresh@, file_name@, names, metas, i as int),
        decreases candidates@.len() - i,
    {
        let ghost before = text::views(r@);
        assert(names[i as int] == candidates@[i as int].file_name@);
        assert(metas[i as int] == candidates@[i as int].meta@);
        if !text::same(candidates[i].file_name.as_slice(), file_name) && supersedes(
            fresh,
            &candidates[i].meta,
        ) {
            r.push(text::copy_bytes(candidates[i].file_name.as_slice()));
            assert(text::views(r@) =~= before.push(names[i as int]));
        }
        i += 1;
    }
    r
}

/// Writes an entry file: the body as it comes, then what describes it.
#[derive(Debug)]
pub struct DiskBodyWriter {
    key_url: String,
    file_name: Vec<u8>,
    meta: StoredVariantMeta,
    body_len: usize,
}

impl DiskBodyWriter {
    pub closed spec fn key_url(&self) -> Seq<char> {
        self.key_url@
    }

    pub closed spec fn file_name(&self) -> Seq<u8> {
        self.file_name@
    }

    pub closed spec fn meta(&self) -> StoredView {
        self.meta@
    }

    pub closed spec fn written(&self) -> usize {
        self.body_len
    }

    /// Start a new entry for `key`.
    pub fn start(index: &mut DiskIndex, key: &CacheKey, meta: StoredVariantMeta) -> (r:
        DiskBodyWriter)
        ensures
            final(index)@ == (IndexView { next_seq: plus(old(index)@.next_seq, 1), ..old(index)@ }),
            r.key_url() == key@.url,
            r.file_name() == file_name(key@.url, old(index)@.next_seq),
            r.meta() == (StoredView {
                request: http_cache_store::sanitized(meta@.request),
                ..meta@
            }),
            r.written() == 0,
    {
        let seq: u64 = index.take_seq();
        let request_headers = sanitized_request_headers(&meta.request_headers);
        let mut meta: StoredVariantMeta = meta;
        meta.request_headers = request_headers;
        let url: &String = key.url();
        DiskBodyWriter {
            key_url: url.clone(),
            file_name: entry_file_name(url, seq),
            meta,
            body_len: 0,
        }
    }

    /// The file that is being written.
    pub fn path(&self) -> (r: &Vec<u8>)
        ensures
            r@ == self.file_name(),
    {
        &self.file_name
    }

    /// Note that bytes were appended to the file.
    pub fn wrote(&mut self, len: usize)
        requires
            old(self).written() + len <= usize::MAX,
        ensures
            final(self).key_url() == old(self).key_url(),
            final(self).file_name() == old(self).file_name(),
            final(self).meta() == old(self).meta(),
            final(self).written() == old(self).written() + len,
    {
        self.body_len = self.body_len + len;
    }

    /// The metadata that the finished entry is described with.
    pub fn finished_meta(&self) -> (r: StoredVariantMeta)
        ensures
            r@ == (StoredView { body_len: self.written(), ..self.meta() }),
    {
        let mut meta: StoredVariantMeta = self.meta.copy();
        meta.body_len = self.body_len;
        meta
    }

    /// The entry file is written: enter it into the index, in place of the entries that
    /// it supersedes, and evict what is over the budget. `candidates` are the other
    /// entries of the key, as far as they could be read back. The result names the files
    /// that leave.
    pub fn finish(
        self,
        index: &mut DiskIndex,
        candidates: &Vec<Candidate>,
        budget: u64,
        now: u64,
    ) -> (r: Vec<Vec<u8>>)
        ensures
            ({
                let superseded = superseded_by(
                    StoredView { body_len: self.written(), ..self.meta() },
                    self.file_name(),
                    candidate_names(candidates@),
                    candidate_metas(candidates@),
                    candidates@.len() as int,
                );
                let added = with_entry(
                    old(index)@,
                    RecordView {
                        key_url: self.key_url(),
                        file_name: self.file_name(),
                        body_len: self.written() as u64,
                        last_used: now,
                    },
                    superseded,
                );
                &&& final(index)@ == within(added, budget)
                &&& text::views(r@) == superseded + leaving(added, budget)
            }),
    {
        let fresh: StoredVariantMeta = self.finished_meta();
        let superseded: Vec<Vec<u8>> = superseded_files(
            &fresh,
            self.file_name.as_slice(),
            candidates,
        );
        index.add_entry(
            DiskIndexEntry {
                key_url: self.key_url,
                file_name: self.file_name,
                body_len: self.body_len as u64,
                last_used: now,
            },
            superseded,
            budget,
        )
    }
}

/// A footer is read only from as many bytes as it has, with the mark and the version in front.
pub proof fn law_footer_is_sound(data: Seq<u8>)
    ensures
        footer_in(data) matches Some(read) ==> {
            &&& data.len() == 56
            &&& data[0] == 'H' as u8 && data[1] == 'C' as u8 && data[2] == 'D' as u8 && data[3]
                == '0' as u8
            &&& le::u32_at(data, 4) == 1
            &&& read.trailer_len == le::u64_at(data, 8)
            &&& read.body_len == le::u64_at(data, 16)
            &&& read.checksum == data.skip(24)
        },
{
    if let Some(read) = footer_in(data) {
        let mark = data.subrange(0, 4);
        assert(mark[0] == data[0] && mark[1] == data[1] && mark[2] == data[2] && mark[3]
            == data[3]);
        assert(data.skip(24) =~= data.subrange(24, 56));
    }
}

/// An entry is taken for whole only if its lengths add up to its own and its checksum is that
/// of the body and the trailer in it.
pub proof fn law_whole_entry_is_sound(data: Seq<u8>)
    requires
        data.len() >= FOOTER_SIZE,
    ensures
        parts(data) matches Some((body_len, trailer_len)) ==> {
            &&& 0 <= body_len && 0 <= trailer_len
            &&& body_len + trailer_len + 56 == data.len()
            &&& data.skip(body_len + trailer_len + 24) == checksum_of(
                data.take(body_len),
                data.subrange(body_len, body_len + trailer_len),
            )
        },
{
    if let Some((body_len, trailer_len)) = parts(data) {
        let end = data.subrange(data.len() - FOOTER_SIZE, data.len() as int);
        assert(data.take(body_len) =~= data.subrange(0, body_len));
        assert(data.skip(body_len + trailer_len + 24) =~= end.subrange(24, 56));
    }
}

/// Bytes are ordered by the first in which they differ, or by their end: of two that differ
/// just one comes first.
pub proof fn law_precedes(a: Seq<u8>, b: Seq<u8>, c: u8, d: u8)
    ensures
        !precedes(a, a),
        !(precedes(a, b) && precedes(b, a)),
        a != b ==> precedes(a, b) || precedes(b, a),
        precedes(a, a.push(c)),
        c < d ==> precedes(a.push(c), a.push(d)),
    decreases a.len(),
{
    if a.len() > 0 {
        let rest = if b.len() > 0 {
            b.skip(1)
        } else {
            b
        };
        law_precedes(a.skip(1), rest, c, d);
        assert(a.push(c).skip(1) =~= a.skip(1).push(c));
        assert(a.push(d).skip(1) =~= a.skip(1).push(d));
        if b.len() > 0 && a[0] == b[0] && a.skip(1) == b.skip(1) {
            assert(a =~= b) by {
                assert forall|i: int| 0 <= i < a.len() implies a[i] == b[i] by {
                    if i > 0 {
                        assert(a.skip(1)[i - 1] == b.skip(1)[i - 1]);
                    }
                }
            }
        }
        if b.len() == 0 {
            assert(b =~= Seq::<u8>::empty());
        }
    } else {
        assert(a =~= Seq::<u8>::empty());
        if b.len() == 0 {
            assert(b =~= a);
        }
        assert(a.push(c)[0] == c && a.push(d)[0] == d);
    }
}

/// Of two entries the one that was used longer ago is evicted first, and of two that were used
/// at one time the one whose name comes first.
pub proof fn law_eviction_order(a: RecordView, b: RecordView)
    ensures
        a.last_used < b.last_used ==> evicted_before(a, b) && !evicted_before(b, a),
        a.last_used == b.last_used ==> (evicted_before(a, b) <==> precedes(
            a.file_name,
            b.file_name,
        )),
        !(evicted_before(a, b) && evicted_before(b, a)),
{
    law_precedes(a.file_name, b.file_name, 0, 0);
}

/// Every entry is kept or its file leaves, and nothing leaves an index within its budget.
pub proof fn law_every_entry_is_kept_or_leaves(index: IndexView, budget: u64)
    ensures
        within(index, budget).entries.len() + leaving(index, budget).len() == index.entries.len(),
        index.total_bytes <= budget ==> leaving(index, budget).len() == 0 && within(index, budget)
            == index,
        within(index, budget).next_seq == index.next_seq,
        forall|k: int|
            0 <= k < leaving(index, budget).len() ==> exists|i: int|
                0 <= i < index.entries.len() && (#[trigger] index.entries[i]).file_name
                    == #[trigger] leaving(index, budget)[k],
    decreases index.entries.len(),
{
    if index.total_bytes > budget && index.entries.len() > 0 {
        lemma_victim(index.entries);
        let i = victim(index.entries);
        let rest = IndexView {
            entries: index.entries.remove(i),
            total_bytes: minus(index.total_bytes, index.entries[i].body_len),
            ..index
        };
        law_every_entry_is_kept_or_leaves(rest, budget);
        let all = leaving(index, budget);
        let more = leaving(rest, budget);
        assert forall|k: int| 0 <= k < all.len() implies exists|j: int|
            0 <= j < index.entries.len() && (#[trigger] index.entries[j]).file_name
                == #[trigger] all[k] by {
            if k == 0 {
                assert(index.entries[i].file_name == all[0]);
            } else {
                assert(all[k] == more[k - 1]);
                let j = choose|j: int|
                    0 <= j < rest.entries.len() && (#[trigger] rest.entries[j]).file_name == more[k
                        - 1];
                let m = if j < i {
                    j
                } else {
                    j + 1
                };
                assert(index.entries[m] == rest.entries[j]);
            }
        }
    }
}

/// The size of an index grows and shrinks with its entries, and stays at the ends of what can
/// be counted.
pub proof fn law_counted_size(a: u64, b: u64)
    ensures
        plus(a, b) >= a && plus(a, b) >= b,
        a + b <= u64::MAX ==> plus(a, b) == a + b && minus(plus(a, b), b) == a,
        a + b > u64::MAX ==> plus(a, b) == u64::MAX,
        minus(a, b) <= a,
        a >= b ==> minus(a, b) + b == a,
        a <= b ==> minus(a, b) == 0,
{
}

/// The files of an address are those of its entries, in order, and the entries of others are
/// the rest.
pub proof fn law_files_of_an_address(entries: Seq<RecordView>, n: int, url: Seq<char>)
    requires
        0 <= n <= entries.len(),
    ensures
        files(entries, n, url) == entries.take(n).filter(
            |e: RecordView| e.key_url == url,
        ).map_values(|e: RecordView| e.file_name),
        of_others(entries, n, url) == entries.take(n).filter(|e: RecordView| e.key_url != url),
    decreases n,
{
    let own = |e: RecordView| e.key_url == url;
    let name = |e: RecordView| e.file_name;
    reveal(Seq::filter);
    if n > 0 {
        law_files_of_an_address(entries, n - 1, url);
        let front = entries.take(n - 1);
        assert(entries.take(n).drop_last() =~= front);
        assert(entries.take(n).last() == entries[n - 1]);
        if own(entries[n - 1]) {
            assert(front.filter(own).push(entries[n - 1]).map_values(name) =~= front.filter(
                own,
            ).map_values(name).push(name(entries[n - 1])));
        }
    } else {
        assert(entries.take(n) =~= Seq::<RecordView>::empty());
    }
    assert(files(entries, n, url) =~= entries.take(n).filter(own).map_values(name));
}

/// Of the entries of an address those go that are listed by their file names. Entries of other
/// addresses stay, whatever their files are named.
pub proof fn law_listed_entries_go(
    entries: Seq<RecordView>,
    n: int,
    url: Seq<char>,
    names: Seq<Seq<u8>>,
)
    requires
        0 <= n <= entries.len(),
    ensures
        unlisted(entries, n, url, names) == entries.take(n).filter(
            |e: RecordView| e.key_url != url || !names.contains(e.file_name),
        ),
    decreases n,
{
    reveal(Seq::filter);
    if n > 0 {
        law_listed_entries_go(entries, n - 1, url, names);
        assert(entries.take(n).drop_last() =~= entries.take(n - 1));
        assert(entries.take(n).last() == entries[n - 1]);
    } else {
        assert(entries.take(n) =~= Seq::<RecordView>::empty());
    }
}

/// An entry that supersedes none joins the others, and its size is added to theirs.
pub proof fn law_entry_joins(index: IndexView, entry: RecordView)
    requires
        index.total_bytes + entry.body_len <= u64::MAX,
    ensures
        with_entry(index, entry, seq![]).entries == index.entries.push(entry),
        with_entry(index, entry, seq![]).total_bytes == index.total_bytes + entry.body_len,
        with_entry(index, entry, seq![]).next_seq == index.next_seq,
{
    let entries = index.entries.push(entry);
    lemma_nothing_listed(
        (index.total_bytes + entry.body_len) as u64,
        entries,
        entries.len() as int,
        entry.key_url,
    );
    assert(entries.take(entries.len() as int) =~= entries);
}

proof fn lemma_nothing_listed(total: u64, entries: Seq<RecordView>, n: int, url: Seq<char>)
    requires
        0 <= n <= entries.len(),
    ensures
        unlisted(entries, n, url, seq![]) == entries.take(n),
        left_of(total, entries, n, url, seq![]) == total,
    decreases n,
{
    if n > 0 {
        lemma_nothing_listed(total, entries, n - 1, url);
        assert(entries.take(n - 1).push(entries[n - 1]) =~= entries.take(n));
    } else {
        assert(entries.take(n) =~= Seq::<RecordView>::empty());
    }
}

/// What a superseded entry held is taken off the size again.
pub proof fn law_superseded_size_goes(
    total: u64,
    entries: Seq<RecordView>,
    n: int,
    url: Seq<char>,
    names: Seq<Seq<u8>>,
)
    requires
        0 < n <= entries.len(),
    ensures
        ({
            let before = left_of(total, entries, n - 1, url, names);
            let after = left_of(total, entries, n, url, names);
            let gone = entries[n - 1].key_url == url && names.contains(entries[n - 1].file_name);
            &&& !gone ==> after == before
            &&& gone && before >= entries[n - 1].body_len ==> after + entries[n - 1].body_len
                == before
        }),
{
}

/// The files that a new response supersedes are those of the candidates that it does, but not
/// its own.
pub proof fn law_superseded_files(
    fresh: StoredView,
    file_name: Seq<u8>,
    names: Seq<Seq<u8>>,
    metas: Seq<StoredView>,
    n: int,
    i: int,
)
    requires
        0 <= i < n <= names.len(),
        names.len() == metas.len(),
    ensures
        names[i] != file_name && http_cache_store::is_superseded(fresh, metas[i]) ==> superseded_by(
            fresh,
            file_name,
            names,
            metas,
            n,
        ).contains(names[i]),
        !superseded_by(fresh, file_name, names, metas, n).contains(file_name),
        superseded_by(fresh, file_name, names, metas, n).len() <= n,
    decreases n,
{
    let before = superseded_by(fresh, file_name, names, metas, n - 1);
    let all = superseded_by(fresh, file_name, names, metas, n);
    if i < n - 1 {
        law_superseded_files(fresh, file_name, names, metas, n - 1, i);
    } else if n > 1 {
        law_superseded_files(fresh, file_name, names, metas, n - 1, 0);
    }
    if before.contains(names[i]) {
        let k = choose|k: int| 0 <= k < before.len() && before[k] == names[i];
        assert(all[k] == names[i]);
    }
    if names[n - 1] != file_name && http_cache_store::is_superseded(fresh, metas[n - 1]) {
        assert(all[all.len() - 1] == names[n - 1]);
        if all.contains(file_name) {
            let k = choose|k: int| 0 <= k < all.len() && all[k] == file_name;
            assert(k < before.len());
            assert(before[k] == file_name);
        }
    }
}

/// An entry is found by the name of its file, the first of that name.
pub proof fn law_entry_by_name(entries: Seq<RecordView>, file_name: Seq<u8>, i: int)
    requires
        0 <= i < entries.len(),
    ensures
        ({
            let k = named(entries, file_name);
            &&& 0 <= k <= entries.len()
            &&& k < entries.len() ==> entries[k].file_name == file_name
            &&& entries[i].file_name == file_name ==> k <= i
        }),
{
    lemma_named(entries, file_name);
}

} // verus!
