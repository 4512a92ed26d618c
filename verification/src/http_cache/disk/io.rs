//! What a disk store does next: the decisions between one file operation and the
//! one after it.
use std::collections::VecDeque;
use vstd::prelude::*;

use crate::digest;
use crate::http_cache::disk::entry;
use crate::http_cache::disk::entry::{EntryError, Trailer, HEADER_LEN};
use crate::http_cache::disk::index;
use crate::http_cache::disk::index::{Index, Record, Variant};
use crate::http_cache::key;
use crate::http_cache::key::{entry_id, entry_key_hash, entry_slot, EntryId};
use crate::http_cache::store;
use crate::http_cache::store::{
    clamp_range, split_into_chunks, BodyRange, StoreError, BATCH_BYTES,
};
use crate::text;

verus! {

/// How many seconds the index may stay dirty in memory before it is written out. A
/// crash inside the window costs a directory scan on the next start, never an entry.
pub const INDEX_SAVE_INTERVAL_SECS: u64 = 20;

/// Entries are metered per user on some systems, so the entry count is capped as
/// well as the byte budget.
pub const MAX_ENTRIES: usize = 20_000;

/// The desktop default.
pub const DEFAULT_CACHE_SIZE: u64 = 83_886_080;

pub const MAX_CACHE_SIZE: u64 = 335_544_320;

/// How much the default is scaled up.
pub const CACHE_SIZE_SCALE: u64 = 4;

/// What mobile web views document per app.
pub const MOBILE_CACHE_SIZE: u64 = 104_857_600;

/// How big a cache on a volume with the given free space may grow.
pub open spec fn preferred_size(available: u64) -> int {
    let preferred = if available < DEFAULT_CACHE_SIZE * 10 {
        available / 10 * 8
    } else if available < DEFAULT_CACHE_SIZE * 100 {
        DEFAULT_CACHE_SIZE as int
    } else if available / 100 < MAX_CACHE_SIZE {
        (available / 100) as int
    } else {
        MAX_CACHE_SIZE as int
    };
    if preferred * CACHE_SIZE_SCALE <= MAX_CACHE_SIZE * CACHE_SIZE_SCALE {
        preferred * CACHE_SIZE_SCALE
    } else {
        MAX_CACHE_SIZE * CACHE_SIZE_SCALE
    }
}

/// How big the cache may grow when the embedder did not say. Mobile gets a fixed
/// budget; elsewhere the size follows the free space of the volume the cache is on.
pub fn automatic_cache_size(mobile: bool, available: Option<u64>) -> (r: u64)
    ensures
        r == if mobile {
            MOBILE_CACHE_SIZE as int
        } else {
            match available {
                Some(available) => preferred_size(available),
                None => DEFAULT_CACHE_SIZE * CACHE_SIZE_SCALE,
            }
        },
{
    if mobile {
        return MOBILE_CACHE_SIZE;
    }
    let available: u64 = match available {
        Some(available) => available,
        None => return DEFAULT_CACHE_SIZE * CACHE_SIZE_SCALE,
    };
    let preferred: u64 = if available < DEFAULT_CACHE_SIZE * 10 {
        available / 10 * 8
    } else if available < DEFAULT_CACHE_SIZE * 100 {
        DEFAULT_CACHE_SIZE
    } else if available / 100 < MAX_CACHE_SIZE {
        available / 100
    } else {
        MAX_CACHE_SIZE
    };
    let scaled: u64 = preferred * CACHE_SIZE_SCALE;
    if scaled <= MAX_CACHE_SIZE * CACHE_SIZE_SCALE {
        scaled
    } else {
        MAX_CACHE_SIZE * CACHE_SIZE_SCALE
    }
}

/// The free space of a volume, of which the file system reports the number of free
/// fragments and the size of one.
pub fn available_bytes(fragments: u64, fragment_size: u64) -> (r: Option<u64>)
    ensures
        r == if fragments * fragment_size <= u64::MAX {
            Some((fragments * fragment_size) as u64)
        } else {
            None
        },
{
    fragments.checked_mul(fragment_size)
}

/// How far the index on disk lags behind the one in memory.
#[derive(Debug)]
pub struct IndexState {
    /// Bumped on every index change. A scheduled flush only fires once this stops
    /// moving, which makes the delay count from the last change.
    generation: u64,
    /// Whether a debounced flush is already waiting.
    flush_scheduled: bool,
    /// Whether the on-disk stamp currently says the index is up to date.
    stamp_clean: bool,
}

/// What has to be done because the index changed.
#[derive(Clone, Copy, Debug, PartialEq, Eq, Structural)]
pub struct DirtyActions {
    /// The stamp on disk has to say that the index is out of date.
    pub unstamp: bool,
    /// A flush has to be scheduled.
    pub schedule: bool,
}

/// Whether a change of the index was noted: it is counted, a flush is scheduled, and the
/// stamp on disk does not say any more that the index describes the directory.
pub open spec fn is_dirtied(before: IndexState, after: IndexState) -> bool {
    &&& after.generation() == if before.generation() == u64::MAX {
        0
    } else {
        (before.generation() + 1) as u64
    }
    &&& after.flush_scheduled()
    &&& !after.stamp_clean()
}

impl IndexState {
    pub closed spec fn generation(&self) -> u64 {
        self.generation
    }

    pub closed spec fn flush_scheduled(&self) -> bool {
        self.flush_scheduled
    }

    pub closed spec fn stamp_clean(&self) -> bool {
        self.stamp_clean
    }

    pub fn new() -> (r: IndexState)
        ensures
            r.generation() == 0,
            !r.flush_scheduled(),
            !r.stamp_clean(),
    {
        IndexState { generation: 0, flush_scheduled: false, stamp_clean: false }
    }

    /// The generation to compare against later.
    pub fn current(&self) -> (r: u64)
        ensures
            r == self.generation(),
    {
        self.generation
    }

    /// Note that the index no longer matches the directory. The stamp is taken back
    /// at once, so that a kill before the flush makes the next start reconcile
    /// instead of trusting it; the flush is scheduled once.
    pub fn mark_dirty(&mut self) -> (r: DirtyActions)
        ensures
            is_dirtied(*old(self), *final(self)),
            r == (DirtyActions {
                unstamp: old(self).stamp_clean(),
                schedule: !old(self).flush_scheduled(),
            }),
    {
        self.generation = if self.generation == u64::MAX {
            0
        } else {
            self.generation + 1
        };
        let unstamp: bool = self.stamp_clean;
        self.stamp_clean = false;
        let schedule: bool = !self.flush_scheduled;
        self.flush_scheduled = true;
        DirtyActions { unstamp, schedule }
    }

    /// Whether a scheduled flush, which saw `generation` before it waited, now runs:
    /// only if nothing changed in the meantime. Otherwise it waits again.
    pub fn settle(&mut self, generation: u64) -> (r: bool)
        ensures
            r == (old(self).generation() == generation),
            final(self).generation() == old(self).generation(),
            final(self).stamp_clean() == old(self).stamp_clean(),
            final(self).flush_scheduled() == (!r && old(self).flush_scheduled()),
    {
        if self.generation != generation {
            return false;
        }
        self.flush_scheduled = false;
        true
    }

    /// Note that the index was written, if it was. If nothing changed while it was
    /// being written, the stamp on disk has to say so, and the result is `true`.
    pub fn written(&mut self, wrote: bool, generation: u64) -> (r: bool)
        ensures
            r == (wrote && old(self).generation() == generation),
            final(self).generation() == old(self).generation(),
            final(self).flush_scheduled() == old(self).flush_scheduled(),
            final(self).stamp_clean() == (r || old(self).stamp_clean()),
    {
        if wrote && self.generation == generation {
            self.stamp_clean = true;
            return true;
        }
        false
    }
}

/// Which part of an entry file holds the bytes to stream.
#[derive(Clone, Copy, Debug, PartialEq, Eq, Structural)]
pub struct OpenPlan {
    /// Where in the file they start.
    pub start: u64,
    /// How many there are.
    pub len: u64,
    /// Whether they are the whole body, so that its checksum means something.
    pub whole: bool,
}

/// Plan how to open a stored body, or part of it.
pub fn plan_open(body_len: u64, range: Option<BodyRange>) -> (r: Result<OpenPlan, StoreError>)
    requires
        HEADER_LEN + body_len <= u64::MAX,
        range matches Some(range) ==> range.start <= range.end,
    ensures
        match range {
            None => r == Ok::<OpenPlan, StoreError>(
                OpenPlan { start: HEADER_LEN, len: body_len, whole: true },
            ),
            Some(range) => match store::clamped(range, body_len) {
                Some(c) => r == Ok::<OpenPlan, StoreError>(
                    OpenPlan {
                        start: (HEADER_LEN + c.start) as u64,
                        len: (c.end - c.start + 1) as u64,
                        whole: false,
                    },
                ),
                None => r == Err::<OpenPlan, StoreError>(StoreError::Missing),
            },
        },
{
    match range {
        None => Ok(OpenPlan { start: HEADER_LEN, len: body_len, whole: true }),
        Some(range) => match clamp_range(range, body_len) {
            Some(c) => Ok(
                OpenPlan {
                    start: HEADER_LEN + c.start,
                    len: c.end - c.start + 1,
                    whole: false,
                },
            ),
            None => Err(StoreError::Missing),
        },
    }
}

/// The bytes that a plan opens are the ones asked for: they lie within the body that
/// the file of a committed entry holds.
pub proof fn law_plan_reads_the_body(body: Seq<u8>, meta: Seq<u8>, range: BodyRange)
    requires
        meta.len() <= u32::MAX,
        HEADER_LEN + body.len() + meta.len() + entry::TRAILER_LEN <= u64::MAX,
        range.start <= range.end,
    ensures
        store::clamped(range, body.len() as u64) matches Some(c) ==> entry::entry_file(
            body,
            meta,
        ).subrange(HEADER_LEN + c.start, HEADER_LEN + c.end + 1) == body.subrange(
            c.start as int,
            c.end + 1,
        ),
{
    entry::law_entry_reads_back(body, meta);
    let file = entry::entry_file(body, meta);
    let whole = file.subrange(HEADER_LEN as int, HEADER_LEN + body.len());
    if let Some(c) = store::clamped(range, body.len() as u64) {
        assert(file.subrange(HEADER_LEN + c.start, HEADER_LEN + c.end + 1) =~= whole.subrange(
            c.start as int,
            c.end + 1,
        ));
    }
}

/// Check that the body of an entry is still the one its metadata describes.
pub fn check_body(trailer: &Trailer, body_len: u64) -> (r: Result<u32, EntryError>)
    ensures
        r == if trailer.body_len == body_len {
            Ok(trailer.body_crc)
        } else {
            Err::<u32, EntryError>(EntryError::Changed)
        },
{
    if trailer.body_len != body_len {
        return Err(EntryError::Changed);
    }
    Ok(trailer.body_crc)
}

/// An entry whose body is being written to a temporary file.
pub struct DiskWrite {
    key_hash: u64,
    slot: u8,
    body_len: u64,
    crc: u32,
    cap: u64,
    failed: bool,
    written: Ghost<Seq<u8>>,
}

/// What is done with chunks that were handed to a writer.
#[derive(Clone, Copy, Debug, PartialEq, Eq, Structural)]
pub enum AppendStep {
    /// They are written to the temporary file.
    Write,
    /// They are dropped.
    Skip,
}

/// What is done to commit an entry.
#[derive(Clone, Copy, Debug, PartialEq, Eq, Structural)]
pub enum CommitStep {
    /// The entry is declined.
    Reject,
    /// The metadata and the trailer are appended, for a body of this length and
    /// checksum, and the file gets its final name.
    Finish { body_len: u64, body_crc: u32 },
}

/// What is left to do once an entry was committed or thrown away.
#[derive(Debug)]
pub struct WriteEnd {
    /// What the writer is told.
    pub result: Result<EntryId, StoreError>,
    /// The entries whose files have to be deleted.
    pub unlink: Vec<EntryId>,
}

impl DiskWrite {
    pub closed spec fn key_hash(&self) -> u64 {
        self.key_hash
    }

    pub closed spec fn slot(&self) -> u8 {
        self.slot
    }

    pub closed spec fn cap(&self) -> u64 {
        self.cap
    }

    pub closed spec fn failed(&self) -> bool {
        self.failed
    }

    /// The bytes that were written to the temporary file.
    pub closed spec fn written(&self) -> Seq<u8> {
        self.written@
    }

    pub closed spec fn wf(&self) -> bool {
        &&& self.body_len == self.written@.len()
        &&& self.crc == digest::crc32_of(self.written@)
        &&& self.body_len <= self.cap
    }

    /// Start writing an entry into a reserved slot.
    pub fn new(key_hash: u64, slot: u8, cap: u64) -> (r: DiskWrite)
        ensures
            r.wf(),
            r.key_hash() == key_hash,
            r.slot() == slot,
            r.cap() == cap,
            !r.failed(),
            r.written() == Seq::<u8>::empty(),
    {
        DiskWrite {
            key_hash,
            slot,
            body_len: 0,
            crc: digest::crc32_start(),
            cap,
            failed: false,
            written: Ghost(Seq::empty()),
        }
    }

    /// The entry that is being written.
    pub fn id(&self) -> (r: EntryId)
        ensures
            r == (self.key_hash() % key::HASH_LIMIT) * 256 + self.slot(),
    {
        entry_id(self.key_hash, self.slot)
    }

    /// Decide what to do with a batch of chunks. An entry that outgrows the
    /// per-entry cap is dropped.
    pub fn append(&mut self, chunks: &Vec<Vec<u8>>) -> (r: AppendStep)
        requires
            old(self).wf(),
            old(self).cap() + store::flatten(text::views(chunks@)).len() <= u64::MAX,
        ensures
            final(self).wf(),
            final(self).key_hash() == old(self).key_hash(),
            final(self).slot() == old(self).slot(),
            final(self).cap() == old(self).cap(),
            final(self).written() == old(self).written(),
            r is Write <==> !old(self).failed() && old(self).written().len() + store::flatten(
                text::views(chunks@),
            ).len() <= old(self).cap(),
            final(self).failed() == (r is Skip),
    {
        if self.failed {
            return AppendStep::Skip;
        }
        let added: u64 = batch_len(chunks);
        if self.body_len + added > self.cap {
            self.failed = true;
            return AppendStep::Skip;
        }
        AppendStep::Write
    }

    /// Note how writing a batch to the temporary file went.
    pub fn appended(&mut self, chunks: &Vec<Vec<u8>>, ok: bool)
        requires
            old(self).wf(),
            !old(self).failed(),
            old(self).written().len() + store::flatten(text::views(chunks@)).len() <= old(
                self,
            ).cap(),
        ensures
            final(self).wf(),
            final(self).key_hash() == old(self).key_hash(),
            final(self).slot() == old(self).slot(),
            final(self).cap() == old(self).cap(),
            final(self).failed() == !ok,
            final(self).written() == if ok {
                old(self).written() + store::flatten(text::views(chunks@))
            } else {
                old(self).written()
            },
    {
        if !ok {
            self.failed = true;
            return;
        }
        let ghost before = self.written@;
        let ghost all = text::views(chunks@);
        let mut crc: u32 = self.crc;
        let mut i: usize = 0;
        assert(all.take(0) =~= Seq::<Seq<u8>>::empty());
        assert(before + store::flatten(all.take(0)) =~= before);
        while i < chunks.len()
            invariant
                i <= chunks@.len(),
                all == text::views(chunks@),
                crc == digest::crc32_of(before + store::flatten(all.take(i as int))),
            decreases chunks@.len() - i,
        {
            let ghost so_far = before + store::flatten(all.take(i as int));
            crc = digest::crc32_extend(crc, chunks[i].as_slice());
            proof {
                assert(all.take(i + 1) =~= all.take(i as int).push(all[i as int]));
                store::lemma_flatten_push(all.take(i as int), all[i as int]);
                assert(so_far + chunks@[i as int]@ =~= before + store::flatten(all.take(i + 1)));
            }
            i += 1;
        }
        assert(all.take(i as int) =~= all);
        let added: u64 = batch_len(chunks);
        self.body_len = self.body_len + added;
        self.crc = crc;
        proof {
            self.written@ = before + store::flatten(all);
        }
    }

    /// Decide how to commit the entry.
    pub fn commit(&self) -> (r: CommitStep)
        requires
            self.wf(),
        ensures
            r == if self.failed() {
                CommitStep::Reject
            } else {
                CommitStep::Finish {
                    body_len: self.written().len() as u64,
                    body_crc: digest::crc32_of(self.written()),
                }
            },
    {
        if self.failed {
            return CommitStep::Reject;
        }
        CommitStep::Finish { body_len: self.body_len, body_crc: self.crc }
    }

    /// End the write. `size` is the length of the committed file, or `None` if the
    /// entry was not committed: declined, thrown away, or not to be written. A
    /// committed entry becomes visible, and the budgets are applied.
    pub fn finish(
        self,
        index: &mut Index,
        size: Option<u64>,
        now: u32,
        max_bytes: u64,
        max_entries: usize,
    ) -> (r: WriteEnd)
        requires
            old(index).wf(),
            size matches Some(size) ==> index::accountable(
                index::inserted(
                    old(index).records(),
                    committed_record(self.key_hash(), self.slot(), size, now),
                ),
            ),
        ensures
            final(index).wf(),
            final(index).reserved() == old(index).reserved().remove(
                (self.key_hash(), self.slot()),
            ),
            final(index).spec_is_dirty() == (size is Some || old(index).spec_is_dirty()),
            match size {
                Some(size) => {
                    let after = index::inserted(
                        old(index).records(),
                        committed_record(self.key_hash(), self.slot(), size, now),
                    );
                    &&& r.result == Ok::<EntryId, StoreError>(
                        committed_record(self.key_hash(), self.slot(), size, now).id(),
                    )
                    &&& final(index).records() == index::evicted(after, max_bytes, max_entries).0
                    &&& r.unlink@ == index::evicted(after, max_bytes, max_entries).1
                },
                None => {
                    &&& r.result == Err::<EntryId, StoreError>(StoreError::Rejected)
                    &&& final(index).records() == old(index).records()
                    &&& r.unlink@.len() == 0
                },
            },
    {
        match size {
            Some(size) => {
                let size: u32 = if size <= u32::MAX as u64 {
                    size as u32
                } else {
                    u32::MAX
                };
                index.insert(
                    self.key_hash,
                    Variant { slot: self.slot, size, last_used: now },
                );
                index.release_slot(self.key_hash, self.slot);
                let unlink: Vec<EntryId> = index.evict_to(max_bytes, max_entries);
                WriteEnd { result: Ok(entry_id(self.key_hash, self.slot)), unlink }
            },
            None => {
                index.release_slot(self.key_hash, self.slot);
                WriteEnd { result: Err(StoreError::Rejected), unlink: Vec::new() }
            },
        }
    }
}

/// The record of a file of the given length.
pub open spec fn committed_record(key_hash: u64, slot: u8, size: u64, now: u32) -> Record {
    Record {
        key_hash,
        slot,
        size: if size <= u32::MAX {
            size as u32
        } else {
            u32::MAX
        },
        last_used: now,
    }
}

fn batch_len(chunks: &Vec<Vec<u8>>) -> (r: u64)
    requires
        store::flatten(text::views(chunks@)).len() <= u64::MAX,
    ensures
        r == store::flatten(text::views(chunks@)).len(),
{
    let ghost all = text::views(chunks@);
    let mut n: u64 = 0;
    let mut i: usize = 0;
    assert(all.take(0) =~= Seq::<Seq<u8>>::empty());
    while i < chunks.len()
        invariant
            i <= chunks@.len(),
            all == text::views(chunks@),
            store::flatten(all).len() <= u64::MAX,
            n == store::flatten(all.take(i as int)).len(),
        decreases chunks@.len() - i,
    {
        proof {
            assert(all.take(i + 1) =~= all.take(i as int).push(all[i as int]));
            store::lemma_flatten_push(all.take(i as int), all[i as int]);
            assert(all =~= all.take(i + 1) + all.skip(i + 1));
            store::lemma_flatten_add(all.take(i + 1), all.skip(i + 1));
        }
        n = n + chunks[i].len() as u64;
        i += 1;
    }
    assert(all.take(i as int) =~= all);
    n
}

/// What is committed under the header that a temporary file starts with is a
/// complete entry: it is read back with its body.
pub proof fn law_committed_entry_reads_back(write: DiskWrite, meta: Seq<u8>)
    requires
        write.wf(),
        meta.len() <= u32::MAX,
        HEADER_LEN + write.cap() + meta.len() + entry::TRAILER_LEN <= u64::MAX,
    ensures
        entry::parsed(
            entry::header() + write.written() + entry::tail(
                meta,
                write.written().len() as u64,
                digest::crc32_of(write.written()),
            ),
        ) == Ok::<entry::Parsed, EntryError>(
            entry::Parsed {
                meta,
                body_len: write.written().len() as u64,
                body_crc: digest::crc32_of(write.written()),
            },
        ),
{
    entry::law_entry_reads_back(write.written(), meta);
}

/// Record that the metadata of an entry was replaced, so that its file now has the
/// given length. An entry that was forgotten in the meantime stays forgotten.
pub fn note_update(index: &mut Index, id: EntryId, size: u64, now: u32)
    requires
        old(index).wf(),
        index::knows(old(index).records(), id) ==> index::accountable(
            index::inserted(
                old(index).records(),
                committed_record((id / 256) as u64, (id % 256) as u8, size, now),
            ),
        ),
    ensures
        final(index).wf(),
        final(index).reserved() == old(index).reserved(),
        final(index).spec_is_dirty() == (index::knows(old(index).records(), id) || old(
            index,
        ).spec_is_dirty()),
        final(index).records() == if index::knows(old(index).records(), id) {
            index::inserted(
                old(index).records(),
                committed_record((id / 256) as u64, (id % 256) as u8, size, now),
            )
        } else {
            old(index).records()
        },
{
    if index.get(id).is_some() {
        let size: u32 = if size <= u32::MAX as u64 {
            size as u32
        } else {
            u32::MAX
        };
        index.insert(
            entry_key_hash(id),
            Variant { slot: entry_slot(id), size, last_used: now },
        );
    }
}

/// A body that is being streamed off disk, one batch read ahead of what was handed
/// on.
pub struct BodyStream {
    queue: VecDeque<Vec<u8>>,
    remaining: u64,
    /// The checksum of what was read, and the one expected of the whole body.
    crc: u32,
    expected: Option<u32>,
    failed: bool,
    read: Ghost<Seq<u8>>,
    handed: Ghost<Seq<u8>>,
}

/// What a stream does next.
#[derive(Debug)]
pub enum StreamStep {
    /// It hands on a chunk.
    Chunk(Vec<u8>),
    /// It is at its end.
    End,
    /// It reports that the body failed its checksum; the entry is dropped.
    Corrupt,
    /// It wants this many bytes to be read, and then to be asked again.
    Read(usize),
}

/// How a read went.
#[derive(Debug)]
pub enum ReadOutcome {
    /// The bytes that were asked for.
    Data(Vec<u8>),
    /// The file could not be read.
    Failed,
    /// There is nothing to read with any more.
    Gone,
}

spec fn queued(queue: Seq<Vec<u8>>) -> Seq<u8> {
    store::flatten(text::views(queue))
}

impl BodyStream {
    /// The bytes that were read so far.
    pub closed spec fn read(&self) -> Seq<u8> {
        self.read@
    }

    /// The bytes that were handed on so far.
    pub closed spec fn handed(&self) -> Seq<u8> {
        self.handed@
    }

    pub closed spec fn remaining(&self) -> u64 {
        self.remaining
    }

    /// The checksum expected of the body, until it was checked.
    pub closed spec fn expected(&self) -> Option<u32> {
        self.expected
    }

    pub closed spec fn failed(&self) -> bool {
        self.failed
    }

    /// What holds of every stream: what was handed on and what is queued are what
    /// was read, in order.
    pub closed spec fn wf(&self) -> bool {
        &&& self.read@ == self.handed@ + queued(self.queue@)
        &&& self.crc == digest::crc32_of(self.read@)
        &&& store::well_sized(text::views(self.queue@))
    }

    /// The bytes that were handed on are the first ones that were read.
    pub proof fn law_stream_is_faithful(&self)
        requires
            self.wf(),
        ensures
            self.handed().is_prefix_of(self.read()),
    {
        assert(self.handed@ =~= self.read@.subrange(0, self.handed@.len() as int));
    }

    /// A stream of `len` bytes; `expected` is their checksum where they are a whole
    /// body.
    pub fn new(len: u64, expected: Option<u32>) -> (r: BodyStream)
        ensures
            r.wf(),
            r.remaining() == len,
            r.expected() == expected,
            !r.failed(),
            r.read() == Seq::<u8>::empty(),
            r.handed() == Seq::<u8>::empty(),
    {
        let r: BodyStream = BodyStream {
            queue: VecDeque::new(),
            remaining: len,
            crc: digest::crc32_start(),
            expected,
            failed: false,
            read: Ghost(Seq::empty()),
            handed: Ghost(Seq::empty()),
        };
        assert(text::views(r.queue@) =~= Seq::<Seq<u8>>::empty());
        assert(r.read@ =~= r.handed@ + queued(r.queue@));
        r
    }

    /// What the stream does next.
    pub fn step(&mut self) -> (r: StreamStep)
        requires
            old(self).wf(),
        ensures
            final(self).wf(),
            final(self).read() == old(self).read(),
            final(self).remaining() == old(self).remaining(),
            if old(self).handed().len() < old(self).read().len() {
                &&& r matches StreamStep::Chunk(chunk) && 0 < chunk@.len() <= store::CHUNK_BYTES
                    && final(self).handed() == old(self).handed() + chunk@
                &&& final(self).failed() == old(self).failed()
                &&& final(self).expected() == old(self).expected()
            } else {
                &&& final(self).handed() == old(self).handed()
                &&& if old(self).failed() {
                    r is End && final(self).failed()
                } else if old(self).remaining() > 0 {
                    &&& r matches StreamStep::Read(want) && want == (if old(self).remaining()
                        <= BATCH_BYTES {
                        old(self).remaining() as int
                    } else {
                        BATCH_BYTES as int
                    })
                    &&& !final(self).failed()
                    &&& final(self).expected() == old(self).expected()
                } else {
                    &&& final(self).expected() is None
                    &&& match old(self).expected() {
                        Some(expected) => if digest::crc32_of(old(self).read()) == expected {
                            r is End && !final(self).failed()
                        } else {
                            r is Corrupt && final(self).failed()
                        },
                        None => r is End && !final(self).failed(),
                    }
                }
            },
    {
        let ghost before = text::views(self.queue@);
        let ghost raw = self.queue@;
        match self.queue.pop_front() {
            Some(chunk) => {
                proof {
                    assert(text::views(self.queue@) =~= before.skip(1));
                    assert(before =~= seq![chunk@] + before.skip(1));
                    store::lemma_flatten_add(seq![chunk@], before.skip(1));
                    store::lemma_flatten_push(Seq::empty(), chunk@);
                    assert(Seq::<Seq<u8>>::empty().push(chunk@) =~= seq![chunk@]);
                    assert(store::flatten(Seq::<Seq<u8>>::empty()) + chunk@ =~= chunk@);
                    assert(before[0] == chunk@);
                    self.handed@ = self.handed@ + chunk@;
                    assert(self.read@ =~= self.handed@ + queued(self.queue@));
                    assert forall|i: int| 0 <= i < text::views(self.queue@).len() implies 0 < (
                    #[trigger] text::views(self.queue@)[i]).len() <= store::CHUNK_BYTES by {
                        assert(text::views(self.queue@)[i] == before[i + 1]);
                    }
                }
                return StreamStep::Chunk(chunk);
            },
            None => {},
        }
        assert(text::views(self.queue@) =~= Seq::<Seq<u8>>::empty());
        assert(self.read@ =~= self.handed@);
        if self.failed {
            return StreamStep::End;
        }
        if self.remaining == 0 {
            match self.expected {
                Some(expected) => {
                    self.expected = None;
                    if self.crc != expected {
                        self.failed = true;
                        return StreamStep::Corrupt;
                    }
                },
                None => {},
            }
            return StreamStep::End;
        }
        let want: usize = if self.remaining <= BATCH_BYTES as u64 {
            self.remaining as usize
        } else {
            BATCH_BYTES
        };
        StreamStep::Read(want)
    }

    /// Note how a read went. The result says whether the entry has to be dropped: a
    /// body that could not be read is not a body, so the next fetch goes to the
    /// network instead of failing again. Once there is nothing to read with, the
    /// body would be truncated; this is reported rather than handing on a short
    /// body.
    pub fn supply(&mut self, outcome: ReadOutcome) -> (r: bool)
        requires
            old(self).wf(),
            outcome matches ReadOutcome::Data(data) ==> data@.len() <= old(self).remaining(),
        ensures
            final(self).wf(),
            final(self).handed() == old(self).handed(),
            final(self).expected() == old(self).expected(),
            match outcome {
                ReadOutcome::Data(data) => {
                    &&& !r
                    &&& final(self).read() == old(self).read() + data@
                    &&& final(self).remaining() == old(self).remaining() - data@.len()
                    &&& final(self).failed() == old(self).failed()
                },
                ReadOutcome::Failed => {
                    &&& r
                    &&& final(self).failed()
                    &&& final(self).read() == old(self).read()
                    &&& final(self).remaining() == old(self).remaining()
                },
                ReadOutcome::Gone => {
                    &&& !r
                    &&& final(self).failed()
                    &&& final(self).read() == old(self).read()
                    &&& final(self).remaining() == old(self).remaining()
                },
            },
    {
        match outcome {
            ReadOutcome::Data(data) => {
                let ghost before = text::views(self.queue@);
                let ghost had = self.read@;
                self.remaining = self.remaining - data.len() as u64;
                self.crc = digest::crc32_extend(self.crc, data.as_slice());
                let chunks: Vec<Vec<u8>> = split_into_chunks(data.as_slice());
                let mut more: VecDeque<Vec<u8>> = deque_of(chunks);
                let ghost added = text::views(more@);
                self.queue.append(&mut more);
                proof {
                    assert(text::views(self.queue@) =~= before + added);
                    store::lemma_flatten_add(before, added);
                    self.read@ = had + data@;
                    assert(self.read@ =~= self.handed@ + queued(self.queue@));
                }
                false
            },
            ReadOutcome::Failed => {
                self.failed = true;
                true
            },
            ReadOutcome::Gone => {
                self.failed = true;
                false
            },
        }
    }
}

fn deque_of(chunks: Vec<Vec<u8>>) -> (r: VecDeque<Vec<u8>>)
    ensures
        text::views(r@) == text::views(chunks@),
{
    let mut r: VecDeque<Vec<u8>> = VecDeque::new();
    let mut i: usize = 0;
    while i < chunks.len()
        invariant
            i <= chunks@.len(),
            r@.len() == i,
            forall|j: int| 0 <= j < i ==> (#[trigger] r@[j])@ == chunks@[j]@,
        decreases chunks@.len() - i,
    {
        r.push_back(text::copy_bytes(chunks[i].as_slice()));
        i += 1;
    }
    assert(text::views(r@) =~= text::views(chunks@));
    r
}

/// How large the cache is made by itself. With little space it is four times what four
/// fifths of a tenth at a time come to, with ample space a fixed size, and with plenty a
/// twenty-fifth of it, and it is never larger than four times its limit.
pub proof fn law_preferred_size(available: u64, mib: int)
    requires
        mib == 1024 * 1024,
    ensures
        0 <= preferred_size(available) <= 4 * 320 * mib,
        available < 800 * mib ==> 10 * preferred_size(available) <= 32 * available,
        available < 400 * mib ==> 10 * preferred_size(available) > 32 * available - 320,
        800 * mib <= available < 8000 * mib ==> preferred_size(available) == 320 * mib,
        8000 * mib <= available < 32000 * mib ==> 4 * available - 400 < 100 * preferred_size(
            available,
        ) <= 4 * available,
        32000 * mib <= available ==> preferred_size(available) == 4 * 320 * mib,
{
}

/// The size that is recorded of an entry is its size, or the largest that can be recorded.
pub proof fn law_recorded_size(key_hash: u64, slot: u8, size: u64, now: u32)
    ensures
        ({
            let record = committed_record(key_hash, slot, size, now);
            &&& record.key_hash == key_hash && record.slot == slot && record.last_used == now
            &&& record.size <= size
            &&& size < 0x1_0000_0000 ==> record.size == size
            &&& size >= 0x1_0000_0000 ==> record.size == 0xffff_ffff
        }),
{
}

} // verus!
