//! The storage layer of the HTTP cache.
//!
//! A store owns byte accounting and eviction and knows nothing about RFC 9111;
//! every caching decision is made above it. Bodies are written and read as chunks,
//! exactly as they arrived from the network.
use http::{HeaderMap, HeaderValue};
use vstd::prelude::*;

use crate::fields;
use crate::http_cache::key::{CacheKey, EntryId, KeyView};
use crate::http_cache::policy::{EntryPolicy, PolicyView};
use crate::text;
use crate::time::Span;

verus! {

/// Version of the stored entry format. Bumping it makes existing entries
/// unreadable; a store discards what it has rather than migrating.
pub const CACHE_FORMAT: u16 = 1;

/// The size of one read or write, and of one chunk handed to the decoder.
pub const CHUNK_BYTES: usize = 65536;

/// How much is accumulated before it is handed to a store's writer, since handing
/// over costs several times what a chunk-sized read does.
pub const BATCH_BYTES: usize = 262144;

/// How many batches may be queued towards a store before the network is
/// back-pressured.
pub const WRITE_QUEUE_DEPTH: usize = 4;

/// No entry may be larger than this share of a store's budget, and never less
/// than [`MIN_ENTRY_BYTES`].
pub const ENTRY_BUDGET_SHARE: u64 = 8;

pub const MIN_ENTRY_BYTES: u64 = 5242880;

/// The largest entry a store with the given budget takes.
pub open spec fn entry_cap(max_bytes: u64, configured: u64) -> u64 {
    let cap = if configured != 0 {
        configured
    } else if max_bytes / ENTRY_BUDGET_SHARE >= MIN_ENTRY_BYTES {
        max_bytes / ENTRY_BUDGET_SHARE
    } else {
        MIN_ENTRY_BYTES
    };
    if cap <= u32::MAX {
        cap
    } else {
        u32::MAX as u64
    }
}

/// The per-entry cap for a store with the given budget, unless one is configured.
/// The disk index records an entry's size in 32 bits, so a larger entry could not
/// be accounted for.
pub fn entry_cap_for(max_bytes: u64, configured: u64) -> (r: u64)
    ensures
        r == entry_cap(max_bytes, configured),
{
    let mut cap: u64 = configured;
    if configured == 0 {
        cap = max_bytes / ENTRY_BUDGET_SHARE;
        if cap < MIN_ENTRY_BYTES {
            cap = MIN_ENTRY_BYTES;
        }
    }
    if cap <= u32::MAX as u64 {
        cap
    } else {
        u32::MAX as u64
    }
}

/// How a stored body is encoded.
#[derive(Clone, Copy, Debug, PartialEq, Eq, Structural)]
pub enum DecoderType {
    Gzip,
    Brotli,
    Deflate,
    Zstd,
}

/// Everything about a stored response except its body.
#[derive(Debug)]
pub struct EntryMeta {
    /// Format of the entry this metadata was written with.
    pub format: u16,
    /// The full key, compared on open so that a hash collision cannot serve the
    /// wrong resource.
    pub key: CacheKey,
    /// The RFC 9111 state of the entry.
    pub policy: EntryPolicy,
    /// The response headers as received.
    pub headers: HeaderMap<HeaderValue>,
    /// The status code the response was received with, if it has one.
    pub status: Option<u16>,
    /// The URL the response was received from.
    pub final_url: String,
    /// The body is stored exactly as received, so this records how to decode it.
    pub content_encoding: Option<DecoderType>,
    /// Length of the stored (still encoded) body. Only meaningful once the entry
    /// has been committed.
    pub body_len: u64,
}

/// What the metadata of an entry stands for.
pub struct MetaView {
    pub format: u16,
    pub key: KeyView,
    pub policy: PolicyView,
    pub stale_while_revalidate: Span,
    pub fields: Map<Seq<u8>, Seq<Seq<u8>>>,
    pub status: Option<u16>,
    pub final_url: Seq<char>,
    pub content_encoding: Option<DecoderType>,
    pub body_len: u64,
}

impl EntryMeta {
    pub open spec fn view(&self) -> MetaView {
        MetaView {
            format: self.format,
            key: self.key@,
            policy: self.policy@.judged,
            stale_while_revalidate: self.policy@.stale_while_revalidate,
            fields: fields::header_fields(self.headers),
            status: self.status,
            final_url: self.final_url@,
            content_encoding: self.content_encoding,
            body_len: self.body_len,
        }
    }

    /// Whether the entry can be judged and served at every time that can be written
    /// as a date.
    pub open spec fn usable(&self) -> bool {
        &&& self.policy.usable()
        &&& fields::has_room(fields::header_fields(self.headers), 3)
    }

    /// A copy of the metadata.
    pub fn copy(&self) -> (r: EntryMeta)
        ensures
            r@ == self@,
            r.usable() == self.usable(),
            r.policy.wf() == self.policy.wf(),
            fields::value_count(r.policy.headers) == fields::value_count(self.policy.headers),
    {
        EntryMeta {
            format: self.format,
            key: self.key.copy(),
            policy: self.policy.copy(),
            headers: fields::copy_fields(&self.headers),
            status: self.status,
            final_url: self.final_url.clone(),
            content_encoding: self.content_encoding,
            body_len: self.body_len,
        }
    }
}

/// Entries with the metadata they stand for.
pub open spec fn found(entries: Seq<(EntryId, EntryMeta)>) -> Seq<(EntryId, MetaView)> {
    Seq::new(entries.len(), |i: int| (entries[i].0, entries[i].1@))
}

/// Why a store could not do what was asked. None of these ever fail a fetch.
#[derive(Clone, Copy, Debug, PartialEq, Eq, Structural)]
pub enum StoreError {
    /// The entry is not there: evicted, never committed, or removed behind the
    /// store's back. Always recoverable by fetching from the network.
    Missing,
    /// The store declined to take the entry (over budget, too large, shutting down).
    Rejected,
    /// The underlying storage failed.
    Io,
}

impl StoreError {
    /// The error that a failure of the underlying storage is reported as: something
    /// that was not found is missing.
    pub fn from_io(not_found: bool) -> (r: StoreError)
        ensures
            r == if not_found {
                StoreError::Missing
            } else {
                StoreError::Io
            },
    {
        if not_found {
            StoreError::Missing
        } else {
            StoreError::Io
        }
    }

    /// A description of the error. What the underlying storage says of an I/O error
    /// is given by `detail`.
    pub fn message(&self, detail: &str) -> (r: String)
        ensures
            r@ == match self {
                StoreError::Missing => "cache entry is missing"@,
                StoreError::Rejected => "cache store declined the entry"@,
                StoreError::Io => "cache store I/O error: "@ + detail@,
            },
    {
        match self {
            StoreError::Missing => "cache entry is missing".to_owned(),
            StoreError::Rejected => "cache store declined the entry".to_owned(),
            StoreError::Io => {
                let mut r: String = "cache store I/O error: ".to_owned();
                r.append(detail);
                r
            },
        }
    }
}

/// A byte range within a stored body, inclusive on both ends.
#[derive(Clone, Copy, Debug, PartialEq, Eq, Structural)]
pub struct BodyRange {
    /// First byte of the range.
    pub start: u64,
    /// Last byte of the range, inclusive.
    pub end: u64,
}

/// A range cut off at the end of a body of the given length, if any of it is left.
pub open spec fn clamped(range: BodyRange, len: u64) -> Option<BodyRange> {
    if range.start >= len {
        None
    } else {
        Some(
            BodyRange {
                start: range.start,
                end: if range.end < len {
                    range.end
                } else {
                    (len - 1) as u64
                },
            },
        )
    }
}

/// Clamp a range to a body length, returning `None` when it is unsatisfiable.
pub fn clamp_range(range: BodyRange, len: u64) -> (r: Option<BodyRange>)
    ensures
        r == clamped(range, len),
        r matches Some(c) ==> c.end < len,
{
    if len == 0 || range.start >= len {
        return None;
    }
    let end: u64 = if range.end < len {
        range.end
    } else {
        len - 1
    };
    Some(BodyRange { start: range.start, end })
}

/// The bytes of a list of chunks, one after the other.
pub open spec fn flatten(chunks: Seq<Seq<u8>>) -> Seq<u8>
    decreases chunks.len(),
{
    if chunks.len() == 0 {
        seq![]
    } else {
        flatten(chunks.drop_last()) + chunks.last()
    }
}

/// Chunks that are neither empty nor larger than a chunk may be.
pub open spec fn well_sized(chunks: Seq<Seq<u8>>) -> bool {
    forall|i: int| 0 <= i < chunks.len() ==> 0 < (#[trigger] chunks[i]).len() <= CHUNK_BYTES
}

/// Chunks that are as few as a buffer can be split into: all but the last are full.
pub open spec fn packed(chunks: Seq<Seq<u8>>) -> bool {
    &&& well_sized(chunks)
    &&& forall|i: int| 0 <= i < chunks.len() - 1 ==> (#[trigger] chunks[i]).len() == CHUNK_BYTES
}

pub proof fn lemma_flatten_push(chunks: Seq<Seq<u8>>, chunk: Seq<u8>)
    ensures
        flatten(chunks.push(chunk)) == flatten(chunks) + chunk,
{
    assert(chunks.push(chunk).drop_last() =~= chunks);
}

pub proof fn lemma_flatten_add(a: Seq<Seq<u8>>, b: Seq<Seq<u8>>)
    ensures
        flatten(a + b) == flatten(a) + flatten(b),
    decreases b.len(),
{
    if b.len() == 0 {
        assert(a + b =~= a);
        assert(flatten(a) + flatten(b) =~= flatten(a));
    } else {
        assert((a + b).drop_last() =~= a + b.drop_last());
        lemma_flatten_add(a, b.drop_last());
        assert(flatten(a + b) =~= flatten(a) + flatten(b));
    }
}

/// Split a buffer into chunks: as few as possible, each but the last one full.
pub fn split_into_chunks(buffer: &[u8]) -> (r: Vec<Vec<u8>>)
    ensures
        flatten(text::views(r@)) == buffer@,
        packed(text::views(r@)),
{
    let mut chunks: Vec<Vec<u8>> = Vec::new();
    let mut start: usize = 0;
    assert(flatten(text::views(chunks@)) =~= buffer@.take(0));
    while buffer.len() - start > CHUNK_BYTES
        invariant
            start <= buffer@.len(),
            flatten(text::views(chunks@)) == buffer@.take(start as int),
            forall|i: int| 0 <= i < chunks@.len() ==> (#[trigger] chunks@[i]@).len() == CHUNK_BYTES,
        decreases buffer@.len() - start,
    {
        let chunk: Vec<u8> = text::copy_range(buffer, start, start + CHUNK_BYTES);
        let ghost before = text::views(chunks@);
        let ghost one = chunk@;
        chunks.push(chunk);
        proof {
            lemma_flatten_push(before, one);
            assert(text::views(chunks@) =~= before.push(one));
            assert(buffer@.take(start as int) + one =~= buffer@.take(start + CHUNK_BYTES));
        }
        start += CHUNK_BYTES;
    }
    if start < buffer.len() {
        let chunk: Vec<u8> = text::copy_range(buffer, start, buffer.len());
        let ghost before = text::views(chunks@);
        let ghost one = chunk@;
        chunks.push(chunk);
        proof {
            lemma_flatten_push(before, one);
            assert(text::views(chunks@) =~= before.push(one));
            assert(buffer@.take(start as int) + one =~= buffer@);
        }
    } else {
        assert(buffer@.take(start as int) =~= buffer@);
    }
    chunks
}

/// Splitting a buffer into chunks loses and reorders nothing: two packed chunkings
/// of the same bytes are the same.
pub proof fn law_packed_chunks_unique(a: Seq<Seq<u8>>, b: Seq<Seq<u8>>)
    requires
        packed(a),
        packed(b),
        flatten(a) == flatten(b),
    ensures
        a == b,
    decreases a.len(),
{
    lemma_packed_len(a);
    lemma_packed_len(b);
    if a.len() == 0 || b.len() == 0 {
        assert(a =~= b);
    } else {
        let x = a.drop_last();
        let y = b.drop_last();
        lemma_packed_len(x);
        lemma_packed_len(y);
        assert(flatten(a).len() == flatten(x).len() + a.last().len());
        assert(flatten(b).len() == flatten(y).len() + b.last().len());
        assert(x.len() == y.len() && a.last().len() == b.last().len()) by {
            assert(a.len() == b.len()) by (nonlinear_arith)
                requires
                    (a.len() - 1) * 65536 < flatten(a).len() <= a.len() * 65536,
                    (b.len() - 1) * 65536 < flatten(b).len() <= b.len() * 65536,
                    flatten(a).len() == flatten(b).len(),
            ;
        }
        let n = flatten(x).len() as int;
        assert(flatten(x) =~= flatten(a).take(n));
        assert(flatten(y) =~= flatten(b).take(n));
        assert(a.last() =~= flatten(a).skip(n));
        assert(b.last() =~= flatten(b).skip(n));
        law_packed_chunks_unique(x, y);
        assert(a =~= x.push(a.last()));
        assert(b =~= y.push(b.last()));
    }
}

proof fn lemma_packed_len(a: Seq<Seq<u8>>)
    requires
        packed(a),
    ensures
        a.len() == 0 ==> flatten(a).len() == 0,
        a.len() > 0 ==> flatten(a).len() == (a.len() - 1) * CHUNK_BYTES + a.last().len(),
        a.len() > 0 ==> 0 < a.last().len() <= CHUNK_BYTES,
    decreases a.len(),
{
    if a.len() > 0 {
        lemma_packed_len(a.drop_last());
        if a.len() > 1 {
            assert(a.drop_last().last() == a[a.len() - 2]);
        }
    }
}

/// What the queue towards a store's writer can take.
#[derive(Clone, Copy, Debug, PartialEq, Eq, Structural)]
pub enum QueueState {
    /// There is no room at the moment.
    Full,
    /// The store is gone.
    Closed,
    /// There is room for one batch.
    Room,
}

/// What a writer asks for before it accepts another chunk.
#[derive(Debug)]
pub enum Readiness {
    /// Nothing: another chunk is accepted.
    Ready,
    /// To be asked again once the queue has room.
    Pending,
    /// To put this batch into the queue; another chunk is then accepted.
    Send(Vec<Vec<u8>>),
}

/// Accumulates one entry's body into batches. The entry stays invisible to lookups
/// until it is committed; dropping the writer aborts it.
#[derive(Debug)]
pub struct EntryWriter {
    open: bool,
    batch: Vec<Vec<u8>>,
    batch_len: usize,
}

impl EntryWriter {
    pub closed spec fn is_open(&self) -> bool {
        self.open
    }

    /// The chunks that were accepted and not yet put into the queue.
    pub closed spec fn held(&self) -> Seq<Seq<u8>> {
        text::views(self.batch@)
    }

    pub closed spec fn wf(&self) -> bool {
        &&& self.batch_len == flatten(text::views(self.batch@)).len()
        &&& !self.open ==> self.batch@.len() == 0 || self.batch_len >= BATCH_BYTES
    }

    /// A writer towards a store.
    pub fn new() -> (r: EntryWriter)
        ensures
            r.wf(),
            r.is_open(),
            r.held() == Seq::<Seq<u8>>::empty(),
    {
        let r: EntryWriter = EntryWriter { open: true, batch: Vec::new(), batch_len: 0 };
        assert(text::views(r.batch@) =~= Seq::empty());
        r
    }

    /// A writer that throws everything away, used when the store declined the entry
    /// but the caller has already been handed a writer.
    pub fn sink() -> (r: EntryWriter)
        ensures
            r.wf(),
            !r.is_open(),
            r.held() == Seq::<Seq<u8>>::empty(),
    {
        let r: EntryWriter = EntryWriter { open: false, batch: Vec::new(), batch_len: 0 };
        assert(text::views(r.batch@) =~= Seq::empty());
        r
    }

    /// Ask whether another chunk can be accepted without buffering unboundedly.
    /// This is what back-pressures the network stream onto the store.
    pub fn poll_ready(&mut self, queue: QueueState) -> (r: Readiness)
        requires
            old(self).wf(),
        ensures
            final(self).wf(),
            flatten(old(self).held()).len() < BATCH_BYTES ==> r is Ready && *final(self)
                == *old(self),
            flatten(old(self).held()).len() >= BATCH_BYTES && !old(self).is_open() ==> r is Ready
                && final(self).held().len() == 0 && !final(self).is_open(),
            flatten(old(self).held()).len() >= BATCH_BYTES && old(self).is_open() ==> match queue {
                QueueState::Full => r is Pending && *final(self) == *old(self),
                QueueState::Closed => r is Ready && final(self).held().len() == 0
                    && !final(self).is_open(),
                QueueState::Room => r matches Readiness::Send(batch) && text::views(batch@)
                    == old(self).held() && final(self).held().len() == 0 && final(self).is_open(),
            },
    {
        if self.batch_len < BATCH_BYTES {
            return Readiness::Ready;
        }
        if !self.open {
            self.discard_batch();
            return Readiness::Ready;
        }
        match queue {
            QueueState::Full => Readiness::Pending,
            QueueState::Closed => {
                // The store is gone; keep accepting chunks and drop them.
                self.open = false;
                self.discard_batch();
                Readiness::Ready
            },
            QueueState::Room => Readiness::Send(self.take_batch()),
        }
    }

    /// The store turned out to be gone when a batch was put into the queue.
    pub fn lost(&mut self)
        requires
            old(self).wf(),
            old(self).held().len() == 0,
        ensures
            final(self).wf(),
            !final(self).is_open(),
            final(self).held() == old(self).held(),
    {
        self.open = false;
    }

    /// Hand a chunk to the store. Must be preceded by a readiness from
    /// [`EntryWriter::poll_ready`], otherwise the batch can grow past its bound.
    pub fn push(&mut self, chunk: Vec<u8>)
        requires
            old(self).wf(),
            flatten(old(self).held()).len() + chunk@.len() <= usize::MAX,
        ensures
            final(self).wf(),
            final(self).is_open() == old(self).is_open(),
            final(self).held() == if old(self).is_open() {
                old(self).held().push(chunk@)
            } else {
                old(self).held()
            },
    {
        if !self.open {
            return;
        }
        let ghost before = text::views(self.batch@);
        let ghost one = chunk@;
        proof {
            lemma_flatten_push(before, one);
        }
        self.batch_len = self.batch_len + chunk.len();
        self.batch.push(chunk);
        assert(text::views(self.batch@) =~= before.push(one));
    }

    fn discard_batch(&mut self)
        ensures
            final(self).wf(),
            final(self).held() == Seq::<Seq<u8>>::empty(),
            final(self).open == old(self).open,
    {
        self.batch.clear();
        self.batch_len = 0;
        assert(text::views(self.batch@) =~= Seq::empty());
    }

    fn take_batch(&mut self) -> (r: Vec<Vec<u8>>)
        ensures
            final(self).wf(),
            final(self).held() == Seq::<Seq<u8>>::empty(),
            final(self).open == old(self).open,
            text::views(r@) == old(self).held(),
    {
        let mut batch: Vec<Vec<u8>> = Vec::new();
        batch.append(&mut self.batch);
        self.batch_len = 0;
        assert(text::views(self.batch@) =~= Seq::empty());
        assert(text::views(batch@) =~= old(self).held());
        batch
    }

    /// Publish the entry: what is left to put into the queue before the commit, or
    /// that there is no store to publish it in.
    pub fn commit(self) -> (r: Result<Option<Vec<Vec<u8>>>, StoreError>)
        requires
            self.wf(),
        ensures
            match r {
                Err(e) => !self.is_open() && e == StoreError::Rejected,
                Ok(None) => self.is_open() && self.held().len() == 0,
                Ok(Some(batch)) => self.is_open() && self.held().len() > 0 && text::views(batch@)
                    == self.held(),
            },
    {
        let mut writer: EntryWriter = self;
        if !writer.open {
            return Err(StoreError::Rejected);
        }
        if writer.batch.len() == 0 {
            return Ok(None);
        }
        Ok(Some(writer.take_batch()))
    }
}

/// A stored body, or part of one, ready to be streamed.
#[derive(Debug)]
pub struct BodyReader {
    len: u64,
    content_encoding: Option<DecoderType>,
    chunks: Vec<Vec<u8>>,
}

impl BodyReader {
    /// The bytes this reader produces, still encoded.
    pub closed spec fn bytes(&self) -> Seq<u8> {
        flatten(text::views(self.chunks@))
    }

    pub closed spec fn encoding(&self) -> Option<DecoderType> {
        self.content_encoding
    }

    pub closed spec fn wf(&self) -> bool {
        self.len == flatten(text::views(self.chunks@)).len()
    }

    /// A reader over `chunks`, which hold `len` bytes in `content_encoding`.
    pub fn new(
        len: u64,
        content_encoding: Option<DecoderType>,
        chunks: Vec<Vec<u8>>,
    ) -> (r: BodyReader)
        requires
            len == flatten(text::views(chunks@)).len(),
        ensures
            r.wf(),
            r.bytes() == flatten(text::views(chunks@)),
            r.encoding() == content_encoding,
    {
        BodyReader { len, content_encoding, chunks }
    }

    /// Length of the bytes this reader produces, still encoded.
    pub fn len(&self) -> (r: u64)
        requires
            self.wf(),
        ensures
            r == self.bytes().len(),
    {
        self.len
    }

    /// The coding the stored bytes are in, if any.
    pub fn content_encoding(&self) -> (r: Option<DecoderType>)
        ensures
            r == self.encoding(),
    {
        self.content_encoding
    }

    /// Take the stored bytes, chunk by chunk.
    pub fn into_stream(self) -> (r: Vec<Vec<u8>>)
        ensures
            flatten(text::views(r@)) == self.bytes(),
    {
        self.chunks
    }
}

/// A byte is left of a range that was cut off exactly if it lies in the range and in the
/// body.
pub proof fn law_clamped(range: BodyRange, len: u64, i: u64)
    requires
        range.start <= range.end,
    ensures
        (clamped(range, len) matches Some(c) && c.start <= i <= c.end) <==> (range.start <= i
            <= range.end && i < len),
{
    if let Some(c) = clamped(range, len) {
        assert(c.start <= c.end);
    }
}

/// The cap of an entry is what was configured, and where nothing was, an eighth of what the
/// store holds, but never so little that common responses do not fit. It always fits in the
/// 32 bits that an index has for it, and grows with the store.
pub proof fn law_entry_cap(max_bytes: u64, larger: u64, configured: u64)
    requires
        max_bytes <= larger,
    ensures
        entry_cap(max_bytes, configured) <= u32::MAX,
        0 < configured <= u32::MAX ==> entry_cap(max_bytes, configured) == configured,
        configured > u32::MAX ==> entry_cap(max_bytes, configured) == u32::MAX,
        entry_cap(max_bytes, 0) >= 5 * 1024 * 1024,
        entry_cap(max_bytes, 0) > 5 * 1024 * 1024 ==> entry_cap(max_bytes, 0) * 8 <= max_bytes,
        max_bytes >= 40 * 1024 * 1024 && max_bytes <= u32::MAX ==> max_bytes < (entry_cap(
            max_bytes,
            0,
        ) + 1) * 8,
        entry_cap(max_bytes, configured) <= entry_cap(larger, configured),
{
}

} // verus!
