//! The on-disk format of one cache entry.
//!
//! ```text
//! 0                magic u64 | format u32 | flags u32
//! HEADER_LEN       body, exactly as it was received
//! + body_len       meta, the serialized metadata
//! + meta_len       meta_len u32 | meta_crc u32 | body_crc u32 | body_len u64 | eof magic u64
//! ```
//!
//! The metadata sits after the body, unlike the header-first layout other caches
//! use, so that a 304 can replace it by truncating and appending rather than
//! rewriting the body. A file without a valid trailer was never committed and is
//! ignored.
use vstd::bytes;
use vstd::prelude::*;

use crate::digest;
use crate::http_cache::store::{EntryMeta, MetaView, CACHE_FORMAT};
use crate::le;
use crate::text;

verus! {

pub const ENTRY_MAGIC: u64 = 0x5345_5256_4f43_4143;

pub const EOF_MAGIC: u64 = 0x4341_434f_5652_4553;

pub const HEADER_LEN: u64 = 16;

pub const TRAILER_LEN: u64 = 28;

/// How much of the tail is read in one go when opening an entry. Large enough that
/// a typical entry's metadata comes back with the trailer.
pub const TAIL_READ_LEN: u64 = 8192;

/// Why the bytes of a file are not a cache entry.
#[derive(Clone, Copy, Debug, PartialEq, Eq, Structural)]
pub enum EntryError {
    TooShort,
    NotAnEntry,
    OtherFormat,
    NeverCommitted,
    LengthsDisagree,
    CorruptMeta,
    OtherMetaFormat,
    MetaTooBig,
    Changed,
}

impl EntryError {
    /// A description of the error.
    pub fn message(&self) -> (r: &'static str)
        ensures
            r@ == match self {
                EntryError::TooShort => "cache entry is too short to be complete"@,
                EntryError::NotAnEntry => "not a cache entry"@,
                EntryError::OtherFormat => "cache entry has another format"@,
                EntryError::NeverCommitted => "cache entry was never committed"@,
                EntryError::LengthsDisagree => "cache entry lengths do not add up"@,
                EntryError::CorruptMeta => "cache metadata is corrupt"@,
                EntryError::OtherMetaFormat => "cache metadata has another format"@,
                EntryError::MetaTooBig => "cache metadata too big"@,
                EntryError::Changed => "cache entry changed underneath us"@,
            },
    {
        match self {
            EntryError::TooShort => "cache entry is too short to be complete",
            EntryError::NotAnEntry => "not a cache entry",
            EntryError::OtherFormat => "cache entry has another format",
            EntryError::NeverCommitted => "cache entry was never committed",
            EntryError::LengthsDisagree => "cache entry lengths do not add up",
            EntryError::CorruptMeta => "cache metadata is corrupt",
            EntryError::OtherMetaFormat => "cache metadata has another format",
            EntryError::MetaTooBig => "cache metadata too big",
            EntryError::Changed => "cache entry changed underneath us",
        }
    }
}

/// The header of an entry file.
pub open spec fn header() -> Seq<u8> {
    bytes::spec_u64_to_le_bytes(ENTRY_MAGIC) + bytes::spec_u32_to_le_bytes(CACHE_FORMAT as u32)
        + seq![0u8, 0, 0, 0]
}

/// The header of an entry file.
pub fn header_bytes() -> (r: Vec<u8>)
    ensures
        r@ == header(),
        r@.len() == HEADER_LEN,
{
    let mut r: Vec<u8> = Vec::new();
    le::push_u64(&mut r, ENTRY_MAGIC);
    le::push_u32(&mut r, CACHE_FORMAT as u32);
    r.push(0);
    r.push(0);
    r.push(0);
    r.push(0);
    assert(r@ =~= header());
    r
}

/// The trailer of an entry file.
pub open spec fn trailer(meta_len: u32, meta_crc: u32, body_crc: u32, body_len: u64) -> Seq<u8> {
    bytes::spec_u32_to_le_bytes(meta_len) + bytes::spec_u32_to_le_bytes(meta_crc)
        + bytes::spec_u32_to_le_bytes(body_crc) + bytes::spec_u64_to_le_bytes(body_len)
        + bytes::spec_u64_to_le_bytes(EOF_MAGIC)
}

/// The metadata and the trailer of an entry file.
pub open spec fn tail(meta: Seq<u8>, body_len: u64, body_crc: u32) -> Seq<u8> {
    meta + trailer(meta.len() as u32, digest::crc32_of(meta), body_crc, body_len)
}

/// The metadata and the trailer that make an entry complete, to be appended to its
/// body.
pub fn write_tail(meta: &[u8], body_len: u64, body_crc: u32) -> (r: Result<Vec<u8>, EntryError>)
    ensures
        match r {
            Ok(out) => meta@.len() <= u32::MAX && out@ == tail(meta@, body_len, body_crc)
                && out@.len() == meta@.len() + TRAILER_LEN,
            Err(e) => meta@.len() > u32::MAX && e == EntryError::MetaTooBig,
        },
{
    if meta.len() as u64 > u32::MAX as u64 {
        return Err(EntryError::MetaTooBig);
    }
    let mut r: Vec<u8> = text::copy_bytes(meta);
    le::push_u32(&mut r, meta.len() as u32);
    le::push_u32(&mut r, digest::crc32(meta));
    le::push_u32(&mut r, body_crc);
    le::push_u64(&mut r, body_len);
    le::push_u64(&mut r, EOF_MAGIC);
    assert(r@ =~= tail(meta@, body_len, body_crc));
    Ok(r)
}

/// What the trailer of an entry says.
#[derive(Clone, Copy, Debug, PartialEq, Eq, Structural)]
pub struct Trailer {
    pub meta_len: u32,
    pub meta_crc: u32,
    pub body_crc: u32,
    pub body_len: u64,
}

/// What the last bytes of a file say, if they are the trailer of an entry.
pub open spec fn trailer_of(data: Seq<u8>) -> Result<Trailer, EntryError> {
    let t = data.skip(data.len() - TRAILER_LEN);
    if le::u64_at(t, 20) != EOF_MAGIC {
        Err(EntryError::NeverCommitted)
    } else {
        Ok(
            Trailer {
                meta_len: le::u32_at(t, 0),
                meta_crc: le::u32_at(t, 4),
                body_crc: le::u32_at(t, 8),
                body_len: le::u64_at(t, 12),
            },
        )
    }
}

/// Read the trailer off the end of an entry. Used on its own when opening a body
/// whose metadata the caller already has.
pub fn read_trailer(data: &[u8]) -> (r: Result<Trailer, EntryError>)
    ensures
        r == if data@.len() < TRAILER_LEN {
            Err(EntryError::TooShort)
        } else {
            trailer_of(data@)
        },
{
    if (data.len() as u64) < TRAILER_LEN {
        return Err(EntryError::TooShort);
    }
    let start: usize = data.len() - 28;
    let ghost t = data@.skip(start as int);
    assert(t.subrange(20, 28) =~= data@.subrange(start + 20, start + 28));
    assert(t.subrange(0, 4) =~= data@.subrange(start as int, start + 4));
    assert(t.subrange(4, 8) =~= data@.subrange(start + 4, start + 8));
    assert(t.subrange(8, 12) =~= data@.subrange(start + 8, start + 12));
    assert(t.subrange(12, 20) =~= data@.subrange(start + 12, start + 20));
    if le::read_u64(data, start + 20) != EOF_MAGIC {
        return Err(EntryError::NeverCommitted);
    }
    Ok(
        Trailer {
            meta_len: le::read_u32(data, start),
            meta_crc: le::read_u32(data, start + 4),
            body_crc: le::read_u32(data, start + 8),
            body_len: le::read_u64(data, start + 12),
        },
    )
}

/// What a committed entry is made of: its metadata, still serialized, and what its
/// trailer says about its body.
pub struct Parsed {
    pub meta: Seq<u8>,
    pub body_len: u64,
    pub body_crc: u32,
}

/// Whether bytes begin with the header of an entry.
pub open spec fn header_error(header: Seq<u8>) -> Option<EntryError> {
    if le::u64_at(header, 0) != ENTRY_MAGIC {
        Some(EntryError::NotAnEntry)
    } else if le::u32_at(header, 8) != CACHE_FORMAT {
        Some(EntryError::OtherFormat)
    } else {
        None
    }
}

/// What the bytes of a whole file say.
pub open spec fn parsed(file: Seq<u8>) -> Result<Parsed, EntryError> {
    if file.len() < HEADER_LEN + TRAILER_LEN {
        Err(EntryError::TooShort)
    } else {
        match header_error(file) {
            Some(e) => Err(e),
            None => match trailer_of(file) {
                Err(e) => Err(e),
                Ok(t) => if HEADER_LEN + t.body_len + t.meta_len + TRAILER_LEN != file.len() {
                    Err(EntryError::LengthsDisagree)
                } else {
                    let meta = file.subrange(
                        HEADER_LEN + t.body_len,
                        HEADER_LEN + t.body_len + t.meta_len,
                    );
                    if digest::crc32_of(meta) != t.meta_crc {
                        Err(EntryError::CorruptMeta)
                    } else {
                        Ok(Parsed { meta, body_len: t.body_len, body_crc: t.body_crc })
                    }
                },
            },
        }
    }
}

/// How much of the end of a file of the given length is read in one go.
pub open spec fn tail_len(file_len: u64) -> u64 {
    if file_len - HEADER_LEN <= TAIL_READ_LEN + TRAILER_LEN {
        (file_len - HEADER_LEN) as u64
    } else {
        (TAIL_READ_LEN + TRAILER_LEN) as u64
    }
}

/// How much of the end of a file to read in one go.
pub fn tail_window(file_len: u64) -> (r: Result<u64, EntryError>)
    ensures
        r == if file_len < HEADER_LEN + TRAILER_LEN {
            Err(EntryError::TooShort)
        } else {
            Ok(tail_len(file_len))
        },
{
    if file_len < HEADER_LEN + TRAILER_LEN {
        return Err(EntryError::TooShort);
    }
    let rest: u64 = file_len - HEADER_LEN;
    if rest <= TAIL_READ_LEN + TRAILER_LEN {
        Ok(rest)
    } else {
        Ok(TAIL_READ_LEN + TRAILER_LEN)
    }
}

/// Where the metadata of an entry is.
#[derive(Debug)]
pub enum MetaPlace {
    /// It came back with the end of the file.
    Here(Vec<u8>),
    /// It has to be read from this offset, this many bytes of it.
    At { offset: u64, len: u64 },
}

/// Find the metadata of an entry, given the length of its file, the first bytes of
/// it and as many of the last ones as [`tail_window`] asks for.
pub fn locate(file_len: u64, header: &[u8], tail: &[u8]) -> (r: Result<
    (MetaPlace, Trailer),
    EntryError,
>)
    requires
        file_len >= HEADER_LEN + TRAILER_LEN,
        header@.len() == HEADER_LEN,
        tail@.len() == tail_len(file_len),
    ensures
        match header_error(header@) {
            Some(e) => r matches Err(x) && x == e,
            None => match trailer_of(tail@) {
                Err(e) => r matches Err(x) && x == e,
                Ok(t) => if HEADER_LEN + t.body_len + t.meta_len + TRAILER_LEN != file_len {
                    r matches Err(x) && x == EntryError::LengthsDisagree
                } else {
                    &&& r is Ok
                    &&& (r->Ok_0).1 == t
                    &&& if t.meta_len + TRAILER_LEN <= tail_len(file_len) {
                        (r->Ok_0).0 matches MetaPlace::Here(meta) && meta@ == tail@.subrange(
                            tail@.len() - TRAILER_LEN - t.meta_len,
                            tail@.len() - TRAILER_LEN,
                        )
                    } else {
                        (r->Ok_0).0 matches MetaPlace::At { offset, len } && offset == HEADER_LEN
                            + t.body_len && len == t.meta_len
                    }
                },
            },
        },
{
    if le::read_u64(header, 0) != ENTRY_MAGIC {
        return Err(EntryError::NotAnEntry);
    }
    if le::read_u32(header, 8) != CACHE_FORMAT as u32 {
        return Err(EntryError::OtherFormat);
    }
    let t: Trailer = match read_trailer(tail) {
        Ok(t) => t,
        Err(e) => return Err(e),
    };
    let meta_len: u64 = t.meta_len as u64;
    let end: Option<u64> = match HEADER_LEN.checked_add(t.body_len) {
        Some(offset) => match offset.checked_add(meta_len) {
            Some(offset) => offset.checked_add(TRAILER_LEN),
            None => None,
        },
        None => None,
    };
    match end {
        Some(end) => {
            if end != file_len {
                return Err(EntryError::LengthsDisagree);
            }
        },
        None => return Err(EntryError::LengthsDisagree),
    }
    let offset: u64 = HEADER_LEN + t.body_len;
    let tail_start: u64 = file_len - tail.len() as u64;
    if offset >= tail_start {
        let start: usize = (offset - tail_start) as usize;
        let meta: Vec<u8> = text::copy_range(tail, start, start + t.meta_len as usize);
        Ok((MetaPlace::Here(meta), t))
    } else {
        Ok((MetaPlace::At { offset, len: meta_len }, t))
    }
}

/// Check the metadata of an entry against its trailer.
pub fn check_meta(meta: &[u8], trailer: &Trailer) -> (r: Result<(), EntryError>)
    ensures
        r == if digest::crc32_of(meta@) == trailer.meta_crc {
            Ok(())
        } else {
            Err::<(), EntryError>(EntryError::CorruptMeta)
        },
{
    if digest::crc32(meta) != trailer.meta_crc {
        return Err(EntryError::CorruptMeta);
    }
    Ok(())
}

/// What a committed entry is made of.
#[derive(Debug)]
pub struct EntryTail {
    pub meta: Vec<u8>,
    pub body_len: u64,
    pub body_crc: u32,
}

/// Read an entry's metadata out of the bytes of its whole file. Fails for a file
/// that was never committed, whose format does not match, or whose metadata does
/// not check out.
pub fn read_tail(file: &[u8]) -> (r: Result<EntryTail, EntryError>)
    ensures
        match parsed(file@) {
            Ok(p) => r matches Ok(t) && t.meta@ == p.meta && t.body_len == p.body_len && t.body_crc
                == p.body_crc,
            Err(e) => r matches Err(x) && x == e,
        },
{
    let file_len: u64 = file.len() as u64;
    let window: u64 = match tail_window(file_len) {
        Ok(window) => window,
        Err(e) => return Err(e),
    };
    let head: Vec<u8> = text::copy_range(file, 0, 16);
    let last: Vec<u8> = text::copy_range(file, file.len() - window as usize, file.len());
    proof {
        law_partial_reads_suffice(file@);
        assert(head@ =~= file@.take(16));
        assert(last@ =~= file@.skip(file@.len() - tail_len(file_len)));
    }
    let (place, t) = match locate(file_len, head.as_slice(), last.as_slice()) {
        Ok(located) => located,
        Err(e) => return Err(e),
    };
    let meta: Vec<u8> = match place {
        MetaPlace::Here(meta) => meta,
        MetaPlace::At { offset, len } => text::copy_range(
            file,
            offset as usize,
            offset as usize + len as usize,
        ),
    };
    assert(meta@ =~= file@.subrange(
        HEADER_LEN + t.body_len,
        HEADER_LEN + t.body_len + t.meta_len,
    ));
    match check_meta(meta.as_slice(), &t) {
        Ok(()) => Ok(EntryTail { meta, body_len: t.body_len, body_crc: t.body_crc }),
        Err(e) => Err(e),
    }
}

/// The first bytes of a file and the end of it say what the whole file says: the
/// header, the trailer and, where the metadata fits in, the metadata.
pub proof fn law_partial_reads_suffice(file: Seq<u8>)
    requires
        HEADER_LEN + TRAILER_LEN <= file.len() <= u64::MAX,
    ensures
        header_error(file.take(HEADER_LEN as int)) == header_error(file),
        trailer_of(file.skip(file.len() - tail_len(file.len() as u64))) == trailer_of(file),
        forall|n: int|
            0 <= n <= tail_len(file.len() as u64) - TRAILER_LEN ==> #[trigger] last_before_trailer(
                file.skip(file.len() - tail_len(file.len() as u64)),
                n,
            ) == last_before_trailer(file, n),
{
    let head = file.take(HEADER_LEN as int);
    let last = file.skip(file.len() - tail_len(file.len() as u64));
    assert(head.subrange(0, 8) =~= file.subrange(0, 8));
    assert(head.subrange(8, 12) =~= file.subrange(8, 12));
    assert(last.skip(last.len() - TRAILER_LEN) =~= file.skip(file.len() - TRAILER_LEN));
    assert forall|n: int|
        0 <= n <= tail_len(file.len() as u64)
            - TRAILER_LEN implies #[trigger] last_before_trailer(last, n) == last_before_trailer(
        file,
        n,
    ) by {
        assert(last_before_trailer(last, n) =~= last_before_trailer(file, n));
    }
}

/// The `n` bytes in front of the trailer.
pub open spec fn last_before_trailer(data: Seq<u8>, n: int) -> Seq<u8> {
    data.subrange(data.len() - TRAILER_LEN - n, data.len() - TRAILER_LEN)
}

/// The bytes of a committed entry.
pub open spec fn entry_file(body: Seq<u8>, meta: Seq<u8>) -> Seq<u8> {
    header() + body + tail(meta, body.len() as u64, digest::crc32_of(body))
}

proof fn lemma_trailer(data: Seq<u8>, meta_len: u32, meta_crc: u32, body_crc: u32, body_len: u64)
    ensures
        trailer(meta_len, meta_crc, body_crc, body_len).len() == TRAILER_LEN,
        trailer_of(data + trailer(meta_len, meta_crc, body_crc, body_len)) == Ok::<
            Trailer,
            EntryError,
        >(Trailer { meta_len, meta_crc, body_crc, body_len }),
{
    bytes::lemma_auto_spec_u32_to_from_le_bytes();
    bytes::lemma_auto_spec_u64_to_from_le_bytes();
    let t = trailer(meta_len, meta_crc, body_crc, body_len);
    let all = data + t;
    assert(all.skip(all.len() - TRAILER_LEN) =~= t);
    assert(t.subrange(0, 4) =~= bytes::spec_u32_to_le_bytes(meta_len));
    assert(t.subrange(4, 8) =~= bytes::spec_u32_to_le_bytes(meta_crc));
    assert(t.subrange(8, 12) =~= bytes::spec_u32_to_le_bytes(body_crc));
    assert(t.subrange(12, 20) =~= bytes::spec_u64_to_le_bytes(body_len));
    assert(t.subrange(20, 28) =~= bytes::spec_u64_to_le_bytes(EOF_MAGIC));
}

/// A committed entry is read back: its metadata, the length of its body and the
/// checksum of its body.
pub proof fn law_entry_reads_back(body: Seq<u8>, meta: Seq<u8>)
    requires
        meta.len() <= u32::MAX,
        HEADER_LEN + body.len() + meta.len() + TRAILER_LEN <= u64::MAX,
    ensures
        parsed(entry_file(body, meta)) == Ok::<Parsed, EntryError>(
            Parsed {
                meta,
                body_len: body.len() as u64,
                body_crc: digest::crc32_of(body),
            },
        ),
        entry_file(body, meta).subrange(HEADER_LEN as int, HEADER_LEN + body.len()) == body,
{
    bytes::lemma_auto_spec_u32_to_from_le_bytes();
    bytes::lemma_auto_spec_u64_to_from_le_bytes();
    let file = entry_file(body, meta);
    let t = trailer(
        meta.len() as u32,
        digest::crc32_of(meta),
        digest::crc32_of(body),
        body.len() as u64,
    );
    assert(file =~= (header() + body + meta) + t);
    lemma_trailer(
        header() + body + meta,
        meta.len() as u32,
        digest::crc32_of(meta),
        digest::crc32_of(body),
        body.len() as u64,
    );
    assert(file.subrange(0, 8) =~= bytes::spec_u64_to_le_bytes(ENTRY_MAGIC));
    assert(file.subrange(8, 12) =~= bytes::spec_u32_to_le_bytes(CACHE_FORMAT as u32));
    assert(file.subrange(HEADER_LEN + body.len(), HEADER_LEN + body.len() + meta.len()) =~= meta);
    assert(file.subrange(HEADER_LEN as int, HEADER_LEN + body.len()) =~= body);
}

/// A file that was cut short in the middle of being written, so that its trailer is
/// missing, is not taken for an entry unless its last bytes happen to be a trailer.
pub proof fn law_uncommitted_is_ignored(file: Seq<u8>)
    requires
        file.len() >= TRAILER_LEN,
        le::u64_at(file.skip(file.len() - TRAILER_LEN), 20) != EOF_MAGIC,
    ensures
        parsed(file) is Err,
{
}

/// How to replace an entry's metadata, keeping its body: the length to cut the file
/// to and the bytes to append then.
#[derive(Debug)]
pub struct Rewrite {
    pub keep: u64,
    pub append: Vec<u8>,
}

/// Replace an entry's metadata, keeping its body. Used to freshen an entry after a
/// 304, which is why the metadata lives at the end of the file.
pub fn rewrite_tail(existing: &EntryTail, meta: &[u8]) -> (r: Result<Rewrite, EntryError>)
    requires
        HEADER_LEN + existing.body_len <= u64::MAX,
    ensures
        match r {
            Ok(w) => meta@.len() <= u32::MAX && w.keep == HEADER_LEN + existing.body_len
                && w.append@ == tail(meta@, existing.body_len, existing.body_crc),
            Err(e) => meta@.len() > u32::MAX && e == EntryError::MetaTooBig,
        },
{
    match write_tail(meta, existing.body_len, existing.body_crc) {
        Ok(append) => Ok(Rewrite { keep: HEADER_LEN + existing.body_len, append }),
        Err(e) => Err(e),
    }
}

/// Replacing the metadata of a committed entry gives the same entry with the new
/// metadata.
pub proof fn law_rewrite_keeps_body(body: Seq<u8>, meta: Seq<u8>, fresh: Seq<u8>)
    requires
        meta.len() <= u32::MAX,
        HEADER_LEN + body.len() + meta.len() + TRAILER_LEN <= u64::MAX,
    ensures
        parsed(entry_file(body, meta)) matches Ok(existing) && entry_file(body, meta).take(
            HEADER_LEN + existing.body_len,
        ) + tail(fresh, existing.body_len, existing.body_crc) == entry_file(body, fresh),
{
    law_entry_reads_back(body, meta);
    bytes::lemma_auto_spec_u32_to_from_le_bytes();
    bytes::lemma_auto_spec_u64_to_from_le_bytes();
    assert(header().len() == HEADER_LEN);
    assert(entry_file(body, meta).take(HEADER_LEN + body.len()) =~= header() + body);
}

/// Take over metadata that was read from an entry. Metadata of another format is
/// refused; the length of the body is the one that the trailer gives.
pub fn accept_meta(meta: EntryMeta, body_len: u64) -> (r: Result<EntryMeta, EntryError>)
    ensures
        match r {
            Ok(m) => meta.format == CACHE_FORMAT && m@ == (MetaView { body_len, ..meta@ })
                && m.policy == meta.policy,
            Err(e) => meta.format != CACHE_FORMAT && e == EntryError::OtherMetaFormat,
        },
{
    if meta.format != CACHE_FORMAT {
        return Err(EntryError::OtherMetaFormat);
    }
    let mut meta: EntryMeta = meta;
    meta.body_len = body_len;
    Ok(meta)
}

/// A file is taken for an entry only if its ends are those of one, its lengths add up to its
/// own, and the metadata in it is what was written.
pub proof fn law_parsed_is_sound(file: Seq<u8>)
    ensures
        parsed(file) matches Ok(p) ==> {
            &&& le::u64_at(file, 0) == ENTRY_MAGIC
            &&& le::u32_at(file, 8) == CACHE_FORMAT
            &&& le::u64_at(file.skip(file.len() - TRAILER_LEN), 20) == EOF_MAGIC
            &&& file.len() == HEADER_LEN + p.body_len + p.meta.len() + TRAILER_LEN
            &&& p.meta == file.subrange(HEADER_LEN + p.body_len, file.len() - TRAILER_LEN)
            &&& digest::crc32_of(p.meta) == le::u32_at(file.skip(file.len() - TRAILER_LEN), 4)
        },
{
}

} // verus!
