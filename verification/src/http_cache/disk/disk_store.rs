//! A store with one file to an entry: what its operations do to the index, and what is
//! left to be done to the files.
use vstd::prelude::*;

use crate::http_cache::disk::index;
use crate::http_cache::disk::index::{Index, Record};
use crate::http_cache::disk::index_file;
use crate::http_cache::disk::io;
use crate::http_cache::disk::io::{DirtyActions, DiskWrite, IndexState, WriteEnd, MAX_ENTRIES};
use crate::http_cache::key;
use crate::http_cache::key::{entry_id, CacheKey, EntryId};
use crate::http_cache::store;
use crate::http_cache::store::{entry_cap_for, EntryMeta, StoreError};

verus! {

/// How reading the end of an entry file went.
#[derive(Debug)]
pub enum TailOutcome {
    /// The metadata that it holds.
    Read(EntryMeta),
    /// The file is missing, or it is no entry.
    Unreadable,
    /// There is nothing to read with any more.
    Gone,
}

/// How an operation on an entry file went that has a number to report.
#[derive(Clone, Copy, Debug, PartialEq, Eq, Structural)]
pub enum FileOutcome {
    Done(u64),
    Failed,
    /// There is nothing to carry it out with any more.
    Gone,
}

/// What looking at a candidate came to.
#[derive(Debug)]
pub struct Looked {
    /// The metadata, if the entry answers for the key.
    pub found: Option<EntryMeta>,
    /// Whether the file has to be deleted.
    pub unlink: bool,
}

/// What replacing the metadata of an entry came to.
#[derive(Debug)]
pub struct Updated {
    pub result: Result<(), StoreError>,
    /// What is to be done about the index on disk, which is now out of date.
    pub dirty: Option<DirtyActions>,
    /// Whether the file has to be deleted.
    pub unlink: bool,
}

/// What ending a write came to.
#[derive(Debug)]
pub struct Ended {
    pub end: WriteEnd,
    /// What is to be done about the index on disk, which is now out of date.
    pub dirty: Option<DirtyActions>,
    /// Whether the temporary file has to be deleted.
    pub unlink_temporary: bool,
}

/// The part of a store with one file to an entry that is kept in memory.
pub struct DiskStore {
    index: Index,
    state: IndexState,
    max_bytes: u64,
    max_entries: usize,
    max_entry_bytes: u64,
}

impl DiskStore {
    pub closed spec fn index(&self) -> Index {
        self.index
    }

    pub closed spec fn state(&self) -> IndexState {
        self.state
    }

    pub closed spec fn max_bytes(&self) -> u64 {
        self.max_bytes
    }

    pub closed spec fn max_entries(&self) -> usize {
        self.max_entries
    }

    pub closed spec fn cap(&self) -> u64 {
        self.max_entry_bytes
    }

    pub open spec fn records(&self) -> Seq<Record> {
        self.index().records()
    }

    pub open spec fn wf(&self) -> bool {
        self.index().wf()
    }

    /// Whether another entry can be accounted for.
    pub open spec fn roomy(&self) -> bool {
        index::total(self.records()) + u32::MAX <= u64::MAX && self.records().len() < usize::MAX
    }

    /// Nothing but the index changed.
    pub open spec fn same_limits(&self, other: &DiskStore) -> bool {
        &&& self.max_bytes() == other.max_bytes()
        &&& self.max_entries() == other.max_entries()
        &&& self.cap() == other.cap()
    }

    /// A store over a loaded index, with a byte budget.
    pub fn open(loaded: Index, max_bytes: u64, configured_cap: u64) -> (r: DiskStore)
        ensures
            r.index() == loaded,
            r.max_bytes() == max_bytes,
            r.max_entries() == MAX_ENTRIES,
            r.cap() == store::entry_cap(max_bytes, configured_cap),
            r.state().generation() == 0,
            !r.state().flush_scheduled(),
            !r.state().stamp_clean(),
    {
        DiskStore {
            index: loaded,
            state: IndexState::new(),
            max_bytes,
            max_entries: MAX_ENTRIES,
            max_entry_bytes: entry_cap_for(max_bytes, configured_cap),
        }
    }

    /// The entries that may answer for a key.
    pub fn candidates(&self, key: &CacheKey) -> (r: Vec<EntryId>)
        requires
            self.wf(),
        ensures
            r@ == index::ids(index::under(self.records(), key::hash_of(key@))),
    {
        let key_hash: u64 = key.hash();
        let records: Vec<Record> = self.index.variants(key_hash);
        let ghost all = index::under(self.records(), key::hash_of(key@));
        let mut r: Vec<EntryId> = Vec::new();
        let mut i: usize = 0;
        while i < records.len()
            invariant
                i <= records@.len(),
                records@ == all,
                r@ == index::ids(all.take(i as int)),
            decreases records@.len() - i,
        {
            r.push(entry_id(records[i].key_hash, records[i].slot));
            assert(r@ =~= index::ids(all.take(i + 1)));
            i += 1;
        }
        assert(all.take(i as int) =~= all);
        r
    }

    /// Decide what a candidate comes to. One whose stored key differs belongs to another
    /// URL with the same hash, and does not answer; one that cannot be read is forgotten.
    pub fn look(&mut self, key: &CacheKey, id: EntryId, outcome: TailOutcome) -> (r: Looked)
        requires
            old(self).wf(),
        ensures
            final(self).wf(),
            final(self).same_limits(old(self)),
            final(self).state() == old(self).state(),
            final(self).index().reserved() == old(self).index().reserved(),
            match outcome {
                TailOutcome::Read(meta) => {
                    &&& r.found == if meta@.key == key@ {
                        Some(meta)
                    } else {
                        None
                    }
                    &&& !r.unlink
                    &&& final(self).index() == old(self).index()
                },
                TailOutcome::Unreadable => {
                    &&& r.found is None
                    &&& r.unlink
                    &&& final(self).records() == index::dropped(old(self).records(), id)
                    &&& final(self).index().spec_is_dirty() == (index::knows(
                        old(self).records(),
                        id,
                    ) || old(self).index().spec_is_dirty())
                },
                TailOutcome::Gone => {
                    &&& r.found is None
                    &&& !r.unlink
                    &&& final(self).index() == old(self).index()
                },
            },
    {
        match outcome {
            TailOutcome::Read(meta) => {
                if meta.key.same(key) {
                    Looked { found: Some(meta), unlink: false }
                } else {
                    Looked { found: None, unlink: false }
                }
            },
            TailOutcome::Unreadable => {
                self.index.remove(id);
                Looked { found: None, unlink: true }
            },
            TailOutcome::Gone => Looked { found: None, unlink: false },
        }
    }

    /// Opening the file of an entry failed; unless there was nothing to open it with, the
    /// entry is forgotten. The caller reports it as missing.
    pub fn open_failed(&mut self, id: EntryId, gone: bool) -> (r: StoreError)
        requires
            old(self).wf(),
        ensures
            r == StoreError::Missing,
            final(self).wf(),
            final(self).same_limits(old(self)),
            final(self).state() == old(self).state(),
            final(self).index().reserved() == old(self).index().reserved(),
            final(self).records() == if gone {
                old(self).records()
            } else {
                index::dropped(old(self).records(), id)
            },
            final(self).index().spec_is_dirty() == (!gone && index::knows(
                old(self).records(),
                id,
            ) || old(self).index().spec_is_dirty()),
    {
        if !gone {
            self.index.remove(id);
        }
        StoreError::Missing
    }

    /// Begin an entry of a key. It is declined where all slots of the key are taken.
    pub fn create(&mut self, key: &CacheKey) -> (r: Result<DiskWrite, StoreError>)
        requires
            old(self).wf(),
        ensures
            final(self).wf(),
            final(self).same_limits(old(self)),
            final(self).state() == old(self).state(),
            final(self).records() == old(self).records(),
            final(self).index().spec_is_dirty() == old(self).index().spec_is_dirty(),
            match r {
                Ok(write) => {
                    &&& write.wf()
                    &&& write.key_hash() == key::hash_of(key@)
                    &&& write.cap() == old(self).cap()
                    &&& !write.failed()
                    &&& write.written() == Seq::<u8>::empty()
                    &&& !index::slot_used(
                        old(self).records(),
                        old(self).index().reserved(),
                        key::hash_of(key@),
                        write.slot(),
                    )
                    &&& write.slot() < key::MAX_SLOTS
                    &&& forall|s: u8|
                        s < write.slot() ==> #[trigger] index::slot_used(
                            old(self).records(),
                            old(self).index().reserved(),
                            key::hash_of(key@),
                            s,
                        )
                    &&& final(self).index().reserved() == old(self).index().reserved().insert(
                        (key::hash_of(key@), write.slot()),
                    )
                },
                Err(error) => {
                    &&& error == StoreError::Rejected
                    &&& final(self).index().reserved() == old(self).index().reserved()
                    &&& forall|s: u8|
                        s < key::MAX_SLOTS ==> #[trigger] index::slot_used(
                            old(self).records(),
                            old(self).index().reserved(),
                            key::hash_of(key@),
                            s,
                        )
                },
            },
    {
        let key_hash: u64 = key.hash();
        match self.index.reserve_slot(key_hash) {
            Some(slot) => Ok(DiskWrite::new(key_hash, slot, self.max_entry_bytes)),
            None => Err(StoreError::Rejected),
        }
    }

    /// End a write: the entry was committed as a file of a size, or it was not. A committed
    /// entry becomes visible, and the budgets are applied.
    pub fn end_write(&mut self, write: DiskWrite, size: Option<u64>, now: u32) -> (r: Ended)
        requires
            old(self).wf(),
            old(self).roomy(),
        ensures
            final(self).wf(),
            final(self).same_limits(old(self)),
            final(self).index().reserved() == old(self).index().reserved().remove(
                (write.key_hash(), write.slot()),
            ),
            final(self).index().spec_is_dirty() == (size is Some
                || old(self).index().spec_is_dirty()),
            match size {
                Some(size) => {
                    let record = io::committed_record(write.key_hash(), write.slot(), size, now);
                    let after = index::evicted(
                        index::inserted(old(self).records(), record),
                        old(self).max_bytes(),
                        old(self).max_entries(),
                    );
                    &&& r.end.result == Ok::<EntryId, StoreError>(record.id())
                    &&& r.end.unlink@ == after.1
                    &&& final(self).records() == after.0
                    &&& r.dirty == Some(
                        DirtyActions {
                            unstamp: old(self).state().stamp_clean(),
                            schedule: !old(self).state().flush_scheduled(),
                        },
                    )
                    &&& io::is_dirtied(old(self).state(), final(self).state())
                    &&& !r.unlink_temporary
                },
                None => {
                    &&& r.end.result == Err::<EntryId, StoreError>(StoreError::Rejected)
                    &&& r.end.unlink@.len() == 0
                    &&& final(self).records() == old(self).records()
                    &&& final(self).state() == old(self).state()
                    &&& r.dirty is None
                    &&& r.unlink_temporary
                },
            },
    {
        proof {
            if let Some(size) = size {
                index::lemma_inserted_total(
                    self.records(),
                    io::committed_record(write.key_hash(), write.slot(), size, now),
                );
            }
        }
        let end: WriteEnd = write.finish(
            &mut self.index,
            size,
            now,
            self.max_bytes,
            self.max_entries,
        );
        match size {
            Some(_) => {
                let dirty: DirtyActions = self.state.mark_dirty();
                Ended { end, dirty: Some(dirty), unlink_temporary: false }
            },
            None => Ended { end, dirty: None, unlink_temporary: true },
        }
    }

    /// The metadata of an entry was replaced in its file, or could not be. A file whose end
    /// was being rewritten may no longer be an entry, so it goes.
    pub fn update_meta(&mut self, id: EntryId, outcome: FileOutcome, now: u32) -> (r: Updated)
        requires
            old(self).wf(),
            old(self).roomy(),
        ensures
            final(self).wf(),
            final(self).same_limits(old(self)),
            final(self).index().reserved() == old(self).index().reserved(),
            final(self).index().spec_is_dirty() == (!(outcome is Gone) && index::knows(
                old(self).records(),
                id,
            ) || old(self).index().spec_is_dirty()),
            match outcome {
                FileOutcome::Done(size) => {
                    &&& r.result is Ok
                    &&& !r.unlink
                    &&& r.dirty == Some(
                        DirtyActions {
                            unstamp: old(self).state().stamp_clean(),
                            schedule: !old(self).state().flush_scheduled(),
                        },
                    )
                    &&& io::is_dirtied(old(self).state(), final(self).state())
                    &&& final(self).records() == if index::knows(old(self).records(), id) {
                        index::inserted(
                            old(self).records(),
                            io::committed_record((id / 256) as u64, (id % 256) as u8, size, now),
                        )
                    } else {
                        old(self).records()
                    }
                },
                FileOutcome::Failed => {
                    &&& r.result == Err::<(), StoreError>(StoreError::Missing)
                    &&& r.unlink
                    &&& r.dirty is None
                    &&& final(self).state() == old(self).state()
                    &&& final(self).records() == index::dropped(old(self).records(), id)
                },
                FileOutcome::Gone => {
                    &&& r.result == Err::<(), StoreError>(StoreError::Missing)
                    &&& !r.unlink
                    &&& r.dirty is None
                    &&& final(self).state() == old(self).state()
                    &&& final(self).records() == old(self).records()
                },
            },
    {
        match outcome {
            FileOutcome::Done(size) => {
                proof {
                    index::lemma_inserted_total(
                        self.records(),
                        io::committed_record((id / 256) as u64, (id % 256) as u8, size, now),
                    );
                }
                io::note_update(&mut self.index, id, size, now);
                let dirty: DirtyActions = self.state.mark_dirty();
                Updated { result: Ok(()), dirty: Some(dirty), unlink: false }
            },
            FileOutcome::Failed => {
                self.index.remove(id);
                Updated { result: Err(StoreError::Missing), dirty: None, unlink: true }
            },
            FileOutcome::Gone => Updated {
                result: Err(StoreError::Missing),
                dirty: None,
                unlink: false,
            },
        }
    }

    /// Forget an entry, whose file has to be deleted.
    pub fn remove(&mut self, id: EntryId)
        requires
            old(self).wf(),
        ensures
            final(self).wf(),
            final(self).same_limits(old(self)),
            final(self).state() == old(self).state(),
            final(self).index().reserved() == old(self).index().reserved(),
            final(self).records() == index::dropped(old(self).records(), id),
            final(self).index().spec_is_dirty() == (index::knows(old(self).records(), id)
                || old(self).index().spec_is_dirty()),
    {
        self.index.remove(id);
    }

    /// Forget the entries of a key; the result is the ones whose files have to be deleted.
    pub fn remove_key(&mut self, key: &CacheKey) -> (r: Vec<EntryId>)
        requires
            old(self).wf(),
        ensures
            final(self).wf(),
            final(self).same_limits(old(self)),
            final(self).state() == old(self).state(),
            final(self).index().reserved() == old(self).index().reserved(),
            final(self).records() == index::others(old(self).records(), key::hash_of(key@)),
            r@ == index::ids(index::under(old(self).records(), key::hash_of(key@))),
            final(self).index().spec_is_dirty() == (r@.len() > 0
                || old(self).index().spec_is_dirty()),
    {
        self.index.remove_key(key.hash())
    }

    /// Forget all entries; the whole directory has to be deleted.
    pub fn clear(&mut self)
        requires
            old(self).wf(),
        ensures
            final(self).wf(),
            final(self).same_limits(old(self)),
            final(self).state() == old(self).state(),
            final(self).index().reserved() == old(self).index().reserved(),
            final(self).records() == Seq::<Record>::empty(),
            final(self).index().spec_is_dirty(),
    {
        self.index.clear();
    }

    /// Note that an entry was used.
    pub fn touch(&mut self, id: EntryId, now: u32)
        requires
            old(self).wf(),
        ensures
            final(self).wf(),
            final(self).same_limits(old(self)),
            final(self).state() == old(self).state(),
            final(self).index().reserved() == old(self).index().reserved(),
            final(self).index().spec_is_dirty() == (index::knows(old(self).records(), id)
                || old(self).index().spec_is_dirty()),
            final(self).records() == index::touched(old(self).records(), id, now),
    {
        self.index.touch(id, now);
    }

    /// Whether another entry can be accounted for.
    pub fn has_room(&self) -> (r: bool)
        requires
            self.wf(),
        ensures
            r == self.roomy(),
    {
        self.index.bytes() <= u64::MAX - u32::MAX as u64 && self.index.count() < usize::MAX
    }

    /// All entries.
    pub fn entries(&self) -> (r: Vec<EntryId>)
        requires
            self.wf(),
        ensures
            index::is_id_list(r@, self.records()),
    {
        self.index.all()
    }

    /// How many bytes the files of the entries take.
    pub fn disk_bytes(&self) -> (r: u64)
        requires
            self.wf(),
        ensures
            r == index::total(self.records()),
    {
        self.index.bytes()
    }

    /// The largest response that may be stored at all.
    pub fn max_entry_bytes(&self) -> (r: u64)
        ensures
            r == self.cap(),
    {
        self.max_entry_bytes
    }

    /// Begin to write the index out: its bytes, stamped with the modification time of the
    /// directory that it describes, and the state that they stand for.
    pub fn write_index(&mut self, dir_mtime: u64) -> (r: (Option<Vec<u8>>, u64))
        requires
            old(self).wf(),
        ensures
            final(self).wf(),
            final(self).same_limits(old(self)),
            final(self).state() == old(self).state(),
            final(self).records() == old(self).records(),
            final(self).index().reserved() == old(self).index().reserved(),
            !final(self).index().spec_is_dirty(),
            r.0 is Some,
            exists|list: Seq<Record>|
                index_file::is_written(
                    #[trigger] index_file::plain(list),
                    list,
                    old(self).records(),
                    dir_mtime,
                    (r.0->0)@,
                ),
            r.1 == old(self).state().generation(),
    {
        let generation: u64 = self.state.current();
        let data: Option<Vec<u8>> = index_file::serialize(&self.index, dir_mtime);
        if data.is_some() {
            self.index.mark_clean();
        }
        (data, generation)
    }

    /// The index was written out, or could not be. The result says whether the stamp on
    /// disk may say that it describes the directory: only if nothing changed meanwhile.
    pub fn index_written(&mut self, wrote: bool, generation: u64) -> (r: bool)
        requires
            old(self).wf(),
        ensures
            final(self).wf(),
            final(self).same_limits(old(self)),
            final(self).index() == old(self).index(),
            r == (wrote && old(self).state().generation() == generation),
            final(self).state().stamp_clean() == (r || old(self).state().stamp_clean()),
            final(self).state().generation() == old(self).state().generation(),
            final(self).state().flush_scheduled() == old(self).state().flush_scheduled(),
    {
        self.state.written(wrote, generation)
    }

    /// Whether a scheduled flush fires: only if nothing changed since it was last asked.
    pub fn settle(&mut self, generation: u64) -> (r: bool)
        requires
            old(self).wf(),
        ensures
            final(self).wf(),
            final(self).same_limits(old(self)),
            final(self).index() == old(self).index(),
            r == (old(self).state().generation() == generation),
            final(self).state().generation() == old(self).state().generation(),
            final(self).state().stamp_clean() == old(self).state().stamp_clean(),
            final(self).state().flush_scheduled() == (!r && old(self).state().flush_scheduled()),
    {
        self.state.settle(generation)
    }

    /// Counts the changes of the index.
    pub fn generation(&self) -> (r: u64)
        ensures
            r == self.state().generation(),
    {
        self.state.current()
    }

    /// Whether the index has to be written out.
    pub fn needs_flush(&self) -> (r: bool)
        ensures
            r == self.index().spec_is_dirty(),
    {
        self.index.is_dirty()
    }
}

} // verus!
