//! The stores of the HTTP cache. A directory in memory stands in for the file system.
use std::collections::BTreeMap;

use browser_core::fetch::{CacheMode, Request, RequestMode};
use browser_core::http_cache::disk::disk_store::{DiskStore, FileOutcome, TailOutcome};
use browser_core::http_cache::disk::entry;
use browser_core::http_cache::disk::index::{Index, Variant};
use browser_core::http_cache::disk::index_file;
use browser_core::http_cache::disk::index_file::{FoundFile, StampVerdict};
use browser_core::http_cache::disk::io::{
    automatic_cache_size, available_bytes, check_body, plan_open, AppendStep, BodyStream,
    CommitStep, DiskWrite, IndexState, ReadOutcome, StreamStep,
};
use browser_core::http_cache::key::{entry_id, entry_key_hash, entry_slot, CacheKey};
use browser_core::http_cache::memory_store::MemoryStore;
use browser_core::http_cache::policy::EntryPolicy;
use browser_core::http_cache::store::{
    clamp_range, entry_cap_for, split_into_chunks, BodyRange, EntryMeta, StoreError, CACHE_FORMAT,
    CHUNK_BYTES,
};
use browser_core::time::Span;
use http::{header, HeaderMap, HeaderValue};

const BUDGET: u64 = 4 * 1024 * 1024;
const NOW: u32 = 1_780_000_000;

fn now() -> Span {
    Span::from_secs(NOW as u64)
}

fn request_with_headers(url: &str, headers: HeaderMap) -> Request {
    Request {
        method: b"GET".to_vec(),
        url: url.to_owned(),
        url_list: vec![url.to_owned()],
        headers,
        cache_mode: CacheMode::Default,
        mode: RequestMode::NoCors,
    }
}

fn meta_of(request: &Request) -> EntryMeta {
    let mut headers = HeaderMap::new();
    headers.insert(
        header::CACHE_CONTROL,
        HeaderValue::from_static("max-age=1000"),
    );
    EntryMeta {
        format: CACHE_FORMAT,
        key: CacheKey::from_url(request.url.clone()),
        policy: EntryPolicy::new(request, 200, &headers, now()),
        headers,
        status: Some(200),
        final_url: request.url.clone(),
        content_encoding: None,
        body_len: 0,
    }
}

fn meta_for(url: &str) -> EntryMeta {
    meta_of(&request_with_headers(url, HeaderMap::new()))
}

fn key_for(url: &str) -> CacheKey {
    CacheKey::from_url(url.to_owned())
}

/// A cache directory. Metadata is written into an entry as its number.
#[derive(Default)]
struct Disk {
    entries: BTreeMap<String, Vec<u8>>,
    index: Option<Vec<u8>>,
    stamp: Option<Vec<u8>>,
    modified: u64,
    metas: Vec<EntryMeta>,
}

impl Disk {
    fn put_meta(&mut self, meta: EntryMeta) -> Vec<u8> {
        self.metas.push(meta);
        (self.metas.len() as u32 - 1).to_le_bytes().to_vec()
    }

    fn get_meta(&self, bytes: &[u8]) -> EntryMeta {
        let number = u32::from_le_bytes([bytes[0], bytes[1], bytes[2], bytes[3]]);
        self.metas[number as usize].copy()
    }

    fn write(&mut self, name: &str, bytes: Vec<u8>) {
        self.entries.insert(name.to_owned(), bytes);
        self.modified += 1;
    }

    fn remove(&mut self, name: &str) {
        if self.entries.remove(name).is_some() {
            self.modified += 1;
        }
    }
}

fn file_name(id: u64) -> String {
    String::from_utf8(index_file::entry_file_name(
        entry_key_hash(id),
        entry_slot(id),
    ))
    .unwrap()
}

struct Store {
    disk: Disk,
    core: DiskStore,
}

impl Store {
    fn open(mut disk: Disk) -> Store {
        let verdict = index_file::check_stamp(disk.stamp.as_ref());
        if verdict == StampVerdict::Discard {
            disk.entries.clear();
            disk.index = None;
            disk.modified += 1;
        }
        disk.stamp = Some(index_file::stamp_bytes(false));
        let (mut index, trusted) = index_file::load(
            disk.index.as_ref(),
            verdict == StampVerdict::Clean,
            disk.modified,
        );
        if !trusted {
            let names: Vec<Vec<u8>> = disk
                .entries
                .keys()
                .map(|name| name.as_bytes().to_vec())
                .collect();
            let scan = index_file::scan(&index, &names);
            for position in scan.temporary {
                let name = String::from_utf8(names[position].clone()).unwrap();
                disk.remove(&name);
            }
            let files: Vec<FoundFile> = scan
                .unknown
                .iter()
                .map(|(key_hash, slot, position)| {
                    let name = String::from_utf8(names[*position].clone()).unwrap();
                    FoundFile {
                        key_hash: *key_hash,
                        slot: *slot,
                        len: disk.entries[&name].len() as u64,
                        modified: Some(NOW),
                    }
                })
                .collect();
            index_file::reconcile(&mut index, &scan.present, &files, NOW);
        }
        Store {
            core: DiskStore::open(index, BUDGET, 0),
            disk,
        }
    }

    fn create(&mut self, url: &str) -> DiskWrite {
        self.core.create(&key_for(url)).expect("create")
    }

    fn push(&mut self, write: &mut DiskWrite, file: &mut Vec<u8>, chunk: &[u8]) {
        let chunks = vec![chunk.to_vec()];
        if write.append(&chunks) == AppendStep::Write {
            file.extend_from_slice(chunk);
            write.appended(&chunks, true);
        }
    }

    fn commit(
        &mut self,
        write: DiskWrite,
        mut file: Vec<u8>,
        mut meta: EntryMeta,
        name: &str,
        at: u32,
    ) -> Result<u64, StoreError> {
        let size = match write.commit() {
            CommitStep::Reject => None,
            CommitStep::Finish { body_len, body_crc } => {
                meta.body_len = body_len;
                let meta = self.disk.put_meta(meta);
                let tail = entry::write_tail(&meta, body_len, body_crc).unwrap();
                file.extend_from_slice(&tail);
                let size = file.len() as u64;
                self.disk.write(name, file);
                Some(size)
            },
        };
        let ended = self.core.end_write(write, size, at);
        for id in &ended.end.unlink {
            let name = file_name(*id);
            self.disk.remove(&name);
        }
        if let Some(dirty) = ended.dirty {
            if dirty.unstamp {
                self.disk.stamp = Some(index_file::stamp_bytes(false));
            }
        }
        ended.end.result
    }

    fn put_meta_at(&mut self, meta: EntryMeta, body: &[u8], at: u32) -> u64 {
        let mut write = self.core.create(&meta.key).expect("create");
        let mut file = entry::header_bytes();
        self.push(&mut write, &mut file, body);
        let name = file_name(write.id());
        self.commit(write, file, meta, &name, at).expect("commit")
    }

    fn put(&mut self, url: &str, body: &[u8]) -> u64 {
        self.put_meta_at(meta_for(url), body, NOW)
    }

    fn lookup(&mut self, key: &CacheKey) -> Vec<(u64, EntryMeta)> {
        let mut found = Vec::new();
        for id in self.core.candidates(key) {
            let name = file_name(id);
            let outcome = match self.disk.entries.get(&name) {
                None => TailOutcome::Unreadable,
                Some(file) => match entry::read_tail(file) {
                    Ok(tail) => {
                        let meta = self.disk.get_meta(&tail.meta);
                        match entry::accept_meta(meta, tail.body_len) {
                            Ok(meta) => TailOutcome::Read(meta),
                            Err(_) => TailOutcome::Unreadable,
                        }
                    },
                    Err(_) => TailOutcome::Unreadable,
                },
            };
            let looked = self.core.look(key, id, outcome);
            if looked.unlink {
                self.disk.remove(&name);
            }
            if let Some(meta) = looked.found {
                found.push((id, meta));
            }
        }
        found
    }

    fn lookup_one(&mut self, url: &str) -> Option<(u64, EntryMeta)> {
        self.lookup(&key_for(url)).into_iter().next()
    }

    /// Read a body; an error is a body that could not be read whole.
    fn read(&mut self, id: u64, meta: &EntryMeta, range: Option<BodyRange>) -> Result<Vec<u8>, ()> {
        let plan = plan_open(meta.body_len, range).map_err(|_| ())?;
        let file = self.disk.entries.get(&file_name(id)).cloned().ok_or(())?;
        let trailer = entry::read_trailer(&file).map_err(|_| ())?;
        let crc = check_body(&trailer, meta.body_len).map_err(|_| ())?;
        let mut stream = BodyStream::new(plan.len, if plan.whole { Some(crc) } else { None });
        let mut at = plan.start as usize;
        let mut body = Vec::new();
        loop {
            match stream.step() {
                StreamStep::Chunk(chunk) => body.extend_from_slice(&chunk),
                StreamStep::End => return Ok(body),
                StreamStep::Corrupt => {
                    self.core.remove(id);
                    self.disk.remove(&file_name(id));
                    return Err(());
                },
                StreamStep::Read(want) => {
                    let data = file[at..at + want].to_vec();
                    at += want;
                    assert!(!stream.supply(ReadOutcome::Data(data)));
                },
            }
        }
    }

    fn read_all(&mut self, id: u64, meta: &EntryMeta) -> Vec<u8> {
        self.read(id, meta, None).expect("read")
    }

    fn flush(&mut self) {
        if !self.core.needs_flush() {
            return;
        }
        let (bytes, generation) = self.core.write_index(self.disk.modified);
        self.disk.index = bytes;
        if self.core.index_written(true, generation) {
            self.disk.stamp = Some(index_file::stamp_bytes(true));
        }
    }
}

fn disk_store() -> Store {
    Store::open(Disk::default())
}

#[test]
fn disk_commit_then_read() {
    let mut store = disk_store();
    let id = store.put("https://servo.org/a", b"hello");
    let (found_id, meta) = store
        .lookup_one("https://servo.org/a")
        .expect("the committed entry should be found");
    assert_eq!(found_id, id);
    assert_eq!(meta.body_len, 5);
    assert_eq!(store.read_all(id, &meta), b"hello");
    assert!(store.core.disk_bytes() > 5);
}

#[test]
fn disk_an_uncommitted_entry_is_invisible() {
    let mut store = disk_store();
    let mut write = store.create("https://servo.org/a");
    let mut file = entry::header_bytes();
    store.push(&mut write, &mut file, b"partial");
    let ended = store.core.end_write(write, None, NOW);
    assert_eq!(ended.end.result, Err(StoreError::Rejected));
    assert!(ended.unlink_temporary);
    assert!(
        store.lookup_one("https://servo.org/a").is_none(),
        "an aborted writer must leave nothing behind"
    );
}

#[test]
fn disk_a_body_larger_than_one_batch_round_trips() {
    let mut store = disk_store();
    let body: Vec<u8> = (0..700_000u32).map(|index| index as u8).collect();
    let meta = meta_for("https://servo.org/big");
    let mut write = store.create("https://servo.org/big");
    let mut file = entry::header_bytes();
    for chunk in body.chunks(64 * 1024) {
        store.push(&mut write, &mut file, chunk);
    }
    let name = file_name(write.id());
    let id = store.commit(write, file, meta, &name, NOW).expect("commit");
    let (_, meta) = store.lookup_one("https://servo.org/big").unwrap();
    assert_eq!(meta.body_len as usize, body.len());
    assert_eq!(store.read_all(id, &meta), body);
}

#[test]
fn disk_several_variants_live_under_one_key() {
    let mut store = disk_store();
    store.put("https://servo.org/v", b"one");
    store.put("https://servo.org/v", b"two");
    assert_eq!(store.lookup(&key_for("https://servo.org/v")).len(), 2);
}

#[test]
fn disk_ranges_read_a_slice_of_the_body() {
    let mut store = disk_store();
    let id = store.put("https://servo.org/r", b"0123456789");
    let (_, meta) = store.lookup_one("https://servo.org/r").unwrap();
    assert_eq!(
        store.read(id, &meta, Some(BodyRange { start: 2, end: 5 })),
        Ok(b"2345".to_vec())
    );
}

#[test]
fn disk_update_meta_keeps_the_body() {
    let mut store = disk_store();
    let id = store.put("https://servo.org/m", b"body");
    let (_, mut meta) = store.lookup_one("https://servo.org/m").unwrap();
    meta.headers
        .insert(header::ETAG, HeaderValue::from_static("\"fresh\""));
    let name = file_name(id);
    let file = store.disk.entries[&name].clone();
    let existing = entry::read_tail(&file).unwrap();
    let meta = store.disk.put_meta(meta);
    let rewrite = entry::rewrite_tail(&existing, &meta).unwrap();
    let mut file = file[..rewrite.keep as usize].to_vec();
    file.extend_from_slice(&rewrite.append);
    let size = file.len() as u64;
    store.disk.write(&name, file);
    let updated = store.core.update_meta(id, FileOutcome::Done(size), NOW);
    assert!(updated.result.is_ok());

    let (_, meta) = store.lookup_one("https://servo.org/m").unwrap();
    assert_eq!(
        meta.headers.get(header::ETAG).map(|value| value.as_bytes()),
        Some(&b"\"fresh\""[..])
    );
    assert_eq!(store.read_all(id, &meta), b"body");
}

#[test]
fn a_failed_update_drops_the_entry() {
    let mut store = disk_store();
    let id = store.put("https://servo.org/m", b"body");
    let updated = store.core.update_meta(id, FileOutcome::Failed, NOW);
    assert_eq!(updated.result, Err(StoreError::Missing));
    assert!(updated.unlink);
    assert!(store.lookup_one("https://servo.org/m").is_none());
    let id = store.put("https://servo.org/n", b"body");
    let updated = store.core.update_meta(id, FileOutcome::Gone, NOW);
    assert_eq!(updated.result, Err(StoreError::Missing));
    assert!(!updated.unlink);
    assert!(store.lookup_one("https://servo.org/n").is_some());
}

#[test]
fn disk_remove_and_clear() {
    let mut store = disk_store();
    let id = store.put("https://servo.org/x", b"x");
    store.put("https://servo.org/y", b"y");
    store.core.remove(id);
    assert!(store.lookup_one("https://servo.org/x").is_none());
    assert!(store.lookup_one("https://servo.org/y").is_some());
    store.core.clear();
    assert!(store.lookup_one("https://servo.org/y").is_none());
    assert!(store.core.entries().is_empty());
    assert_eq!(store.core.disk_bytes(), 0);
}

#[test]
fn disk_remove_key_drops_every_variant() {
    let mut store = disk_store();
    store.put("https://servo.org/k", b"one");
    store.put("https://servo.org/k", b"two");
    let key = key_for("https://servo.org/k");
    assert_eq!(store.core.remove_key(&key).len(), 2);
    assert!(store.lookup(&key).is_empty());
}

#[test]
fn disk_the_byte_budget_evicts_the_least_recently_used() {
    let mut store = disk_store();
    let chunk = vec![0u8; 512 * 1024];
    for index in 0..12 {
        let meta = meta_for(&format!("https://servo.org/e{index}"));
        store.put_meta_at(meta, &chunk, NOW + index);
    }
    let mut kept = 0;
    for index in 0..12 {
        if store
            .lookup_one(&format!("https://servo.org/e{index}"))
            .is_some()
        {
            kept += 1;
        }
    }
    assert!(
        kept < 12,
        "6 MiB of entries must not all fit in a 4 MiB budget"
    );
    assert!(kept > 0, "eviction must not empty the store");
    assert!(
        store.lookup_one("https://servo.org/e11").is_some(),
        "the most recently written entry must survive"
    );
    assert!(store.lookup_one("https://servo.org/e0").is_none());
    assert!(store.core.disk_bytes() <= BUDGET);
}

#[test]
fn disk_concurrent_writers_of_one_key_get_separate_slots() {
    let mut store = disk_store();
    let first = store.create("https://servo.org/c");
    let second = store.create("https://servo.org/c");
    let first = store.core.end_write(first, Some(100), NOW).end.result;
    let second = store.core.end_write(second, Some(100), NOW).end.result;
    assert_ne!(
        first.expect("first commit"),
        second.expect("second commit"),
        "concurrent writers must not share a slot"
    );
}

#[test]
fn a_key_has_no_more_slots_than_there_are() {
    let mut store = disk_store();
    for _ in 0..32 {
        store.create("https://servo.org/c");
    }
    assert!(matches!(
        store.core.create(&key_for("https://servo.org/c")),
        Err(StoreError::Rejected)
    ));
}

#[test]
fn disk_descriptors_name_the_stored_urls() {
    let mut store = disk_store();
    store.put("https://servo.org/d", b"d");
    assert_eq!(store.core.entries().len(), 1);
}

#[test]
fn disk_entries_survive_reopening() {
    let mut store = disk_store();
    store.put("https://servo.org/p", b"persisted");
    store.flush();
    let mut store = Store::open(store.disk);
    let (id, meta) = store
        .lookup_one("https://servo.org/p")
        .expect("the entry should still be there after a restart");
    assert_eq!(store.read_all(id, &meta), b"persisted");
}

#[test]
fn disk_entries_are_found_again_after_the_index_is_lost() {
    let mut store = disk_store();
    store.put("https://servo.org/rebuild", b"body");
    store.flush();
    // A crash before the index was written, or a corrupt index, both look like this.
    let mut disk = store.disk;
    disk.index = Some(b"not an index".to_vec());

    let mut store = Store::open(disk);
    let (id, meta) = store
        .lookup_one("https://servo.org/rebuild")
        .expect("a lost index must be rebuilt from the entry files");
    assert_eq!(store.read_all(id, &meta), b"body");
}

#[test]
fn an_unclean_exit_still_finds_the_entries() {
    // No flush, so the version stamp still says "in use" on the next open
    // and the index cannot be trusted -- the entries must come back by scanning.
    let mut store = disk_store();
    store.put("https://servo.org/unclean", b"body");
    let mut store = Store::open(store.disk);
    let (id, meta) = store
        .lookup_one("https://servo.org/unclean")
        .expect("an unclean exit must not lose entries");
    assert_eq!(store.read_all(id, &meta), b"body");
}

#[test]
fn entries_removed_while_closed_are_not_served_from_a_clean_index() {
    // The dirty flag says the index was up to date, but the system emptied the
    // directory while nothing was running. The directory mtime has to catch that.
    let mut store = disk_store();
    store.put("https://servo.org/a", b"a");
    store.put("https://servo.org/b", b"b");
    store.flush();
    let mut disk = store.disk;
    let names: Vec<String> = disk.entries.keys().cloned().collect();
    for name in names {
        disk.remove(&name);
    }

    let mut store = Store::open(disk);
    assert!(
        store.lookup_one("https://servo.org/a").is_none(),
        "an index that predates an external wipe must not claim the entries exist"
    );
    assert!(store.lookup_one("https://servo.org/b").is_none());
    assert!(store.core.entries().is_empty());
}

#[test]
fn a_flush_makes_the_index_reusable() {
    let mut store = disk_store();
    store.put("https://servo.org/flushed", b"flushed");
    store.flush();
    assert!(store.disk.index.is_some(), "flush must write the index out");
    assert_eq!(
        index_file::check_stamp(store.disk.stamp.as_ref()),
        StampVerdict::Clean
    );
    let mut store = Store::open(store.disk);
    let (id, meta) = store
        .lookup_one("https://servo.org/flushed")
        .expect("a flushed index must still describe the entry");
    assert_eq!(store.read_all(id, &meta), b"flushed");
}

#[test]
fn a_temporary_file_left_by_a_killed_writer_is_cleaned_up() {
    let mut store = disk_store();
    let mut write = store.create("https://servo.org/killed");
    let mut file = entry::header_bytes();
    store.push(&mut write, &mut file, b"never committed");
    // Dropping the write without committing is what a killed fetch does.
    drop(write);
    store.flush();
    let mut disk = store.disk;
    // Leave a stray temporary file behind, as a killed *process* would.
    disk.write("deadbeefdeadbe_0.tmp", b"partial".to_vec());

    let mut store = Store::open(disk);
    assert!(
        store.lookup_one("https://servo.org/killed").is_none(),
        "an entry that was never committed must not be visible"
    );
    assert!(
        !store.disk.entries.contains_key("deadbeefdeadbe_0.tmp"),
        "stray temporary files must be removed when the store is opened"
    );
}

#[test]
fn an_entry_file_removed_behind_our_back_reads_as_a_miss() {
    let mut store = disk_store();
    store.put("https://servo.org/gone", b"body");
    store.disk.entries.clear();
    assert!(
        store.lookup_one("https://servo.org/gone").is_none(),
        "a removed entry file must be reported as a miss, not an error"
    );
    assert!(store.core.entries().is_empty());
}

#[test]
fn the_whole_directory_can_be_removed_while_the_store_runs() {
    let mut store = disk_store();
    store.put("https://servo.org/before", b"before");
    store.disk.entries.clear();
    store.disk.index = None;
    store.disk.stamp = None;

    assert!(store.lookup_one("https://servo.org/before").is_none());
    let id = store.put("https://servo.org/after", b"after");
    let (_, meta) = store
        .lookup_one("https://servo.org/after")
        .expect("the store must recreate its directory and keep working");
    assert_eq!(store.read_all(id, &meta), b"after");
}

#[test]
fn a_directory_written_by_another_format_is_discarded() {
    let mut store = disk_store();
    store.put("https://servo.org/old", b"old");
    store.flush();
    let mut disk = store.disk;
    // A version stamp from another format. There is no migration; the whole
    // directory goes.
    disk.stamp = Some(b"some other format".to_vec());

    let mut store = Store::open(disk);
    assert!(
        store.lookup_one("https://servo.org/old").is_none(),
        "a format bump must discard the directory rather than read it"
    );
    assert!(
        store.disk.entries.is_empty(),
        "the entry files of the old format must be gone"
    );
}

#[test]
fn a_corrupt_body_is_reported_rather_than_served() {
    let mut store = disk_store();
    let id = store.put("https://servo.org/corrupt", b"0123456789");
    let (_, meta) = store.lookup_one("https://servo.org/corrupt").unwrap();

    // Flip a byte in the body, leaving the metadata and lengths intact.
    let name = file_name(id);
    store.disk.entries.get_mut(&name).unwrap()[20] ^= 0xff;

    assert!(
        store.read(id, &meta, None).is_err(),
        "a body that fails its checksum must surface as an error, not as silent corruption"
    );
    assert!(
        store.lookup_one("https://servo.org/corrupt").is_none(),
        "a body that could not be read must be dropped, or every later fetch of that \
         URL fails the same way"
    );
}

#[test]
fn credentials_are_never_written_to_an_entry() {
    // The policy keeps the request headers, and it is written into the entry with
    // the rest of the metadata, so this is what stops a session cookie from living
    // on disk for as long as the cache does.
    let mut headers = HeaderMap::new();
    headers.insert(header::COOKIE, HeaderValue::from_static("sid=SECRETCOOKIE"));
    headers.insert(
        header::AUTHORIZATION,
        HeaderValue::from_static("Basic SECRETAUTH"),
    );
    let meta = meta_of(&request_with_headers("https://servo.org/private", headers));
    let written = format!("{meta:?}");
    assert!(written.contains("https://servo.org/private"));
    for secret in ["SECRETCOOKIE", "SECRETAUTH"] {
        assert!(
            !written.contains(secret),
            "a credential reached the entry file: {secret}"
        );
    }
}

#[test]
fn a_hash_collision_does_not_serve_the_wrong_url() {
    // Entry files are named by a 56-bit hash of the key, and the full key is
    // compared on open. Renaming one entry's file onto another's name is exactly
    // what a collision looks like.
    let mut store = disk_store();
    let id = store.put("https://servo.org/one", b"one");

    let key = key_for("https://servo.org/two");
    let mut disk = store.disk;
    let file = disk.entries.remove(&file_name(id)).unwrap();
    disk.write(&format!("{:014x}_0", key.hash()), file);

    // Reopen so the index picks the renamed file up.
    let mut store = Store::open(disk);
    assert_eq!(store.core.entries().len(), 1);
    assert!(
        store.lookup(&key).is_empty(),
        "an entry whose stored key differs must not answer for this key"
    );
}

#[test]
fn an_entry_larger_than_the_per_entry_cap_is_declined() {
    let mut store = disk_store();
    let meta = meta_for("https://servo.org/huge");
    let mut write = store.create("https://servo.org/huge");
    let mut file = entry::header_bytes();
    // The cap is max(budget / 8, 5 MiB), so 6 MiB is over it.
    let chunk = vec![0u8; 1024 * 1024];
    for _ in 0..6 {
        store.push(&mut write, &mut file, &chunk);
    }
    let name = file_name(write.id());
    assert!(
        matches!(
            store.commit(write, file, meta, &name, NOW),
            Err(StoreError::Rejected)
        ),
        "an outsized entry must be declined rather than written"
    );
    assert!(store.lookup_one("https://servo.org/huge").is_none());
}

fn memory_put(store: &mut MemoryStore, url: &str, body: &[u8]) -> u64 {
    let mut write = store.create(meta_for(url)).expect("create");
    write.append(vec![body.to_vec()]);
    store.commit(write).expect("commit")
}

fn memory_read(store: &MemoryStore, id: u64, range: Option<BodyRange>) -> Vec<u8> {
    store.open(id, range).expect("open").into_stream().concat()
}

fn memory_one(store: &MemoryStore, url: &str) -> Option<(u64, EntryMeta)> {
    store.lookup(&key_for(url)).into_iter().next()
}

#[test]
fn memory_commit_then_read() {
    let mut store = MemoryStore::new(BUDGET as usize, 0);
    let id = memory_put(&mut store, "https://servo.org/a", b"hello");
    let (found_id, meta) = memory_one(&store, "https://servo.org/a").unwrap();
    assert_eq!(found_id, id);
    assert_eq!(meta.body_len, 5);
    assert_eq!(memory_read(&store, id, None), b"hello");
    assert_eq!(
        memory_read(&store, id, Some(BodyRange { start: 1, end: 3 })),
        b"ell"
    );
    assert!(matches!(
        store.open(id, Some(BodyRange { start: 5, end: 9 })),
        Err(StoreError::Missing)
    ));
    assert_eq!(
        store.descriptors(),
        vec!["https://servo.org/a".to_owned()]
    );
}

#[test]
fn memory_an_uncommitted_entry_is_invisible() {
    let mut store = MemoryStore::new(BUDGET as usize, 0);
    let mut write = store.create(meta_for("https://servo.org/a")).unwrap();
    write.append(vec![b"partial".to_vec()]);
    store.abort(write);
    assert!(memory_one(&store, "https://servo.org/a").is_none());
}

#[test]
fn memory_a_body_larger_than_one_batch_round_trips() {
    let mut store = MemoryStore::new(BUDGET as usize, 0);
    let body: Vec<u8> = (0..700_000u32).map(|index| index as u8).collect();
    let mut write = store.create(meta_for("https://servo.org/big")).unwrap();
    write.append(body.chunks(64 * 1024).map(|chunk| chunk.to_vec()).collect());
    let id = store.commit(write).expect("commit");
    let (_, meta) = memory_one(&store, "https://servo.org/big").unwrap();
    assert_eq!(meta.body_len as usize, body.len());
    assert_eq!(memory_read(&store, id, None), body);
}

#[test]
fn memory_variants_ranges_and_removal() {
    let mut store = MemoryStore::new(BUDGET as usize, 0);
    let one = memory_put(&mut store, "https://servo.org/v", b"one");
    memory_put(&mut store, "https://servo.org/v", b"two");
    let key = key_for("https://servo.org/v");
    assert_eq!(store.lookup(&key).len(), 2);
    store.remove(one);
    assert_eq!(store.lookup(&key).len(), 1);
    store.remove_key(&key);
    assert!(store.lookup(&key).is_empty());
    memory_put(&mut store, "https://servo.org/y", b"y");
    store.clear();
    assert!(store.descriptors().is_empty());
    assert_eq!(store.stored_bytes(), 0);
}

#[test]
fn memory_update_meta_keeps_the_body() {
    let mut store = MemoryStore::new(BUDGET as usize, 0);
    let id = memory_put(&mut store, "https://servo.org/m", b"body");
    let (_, mut meta) = memory_one(&store, "https://servo.org/m").unwrap();
    meta.headers
        .insert(header::ETAG, HeaderValue::from_static("\"fresh\""));
    assert!(store.update_meta(id, meta).is_ok());
    let (_, meta) = memory_one(&store, "https://servo.org/m").unwrap();
    assert_eq!(
        meta.headers.get(header::ETAG).map(|value| value.as_bytes()),
        Some(&b"\"fresh\""[..])
    );
    assert_eq!(memory_read(&store, id, None), b"body");
    assert_eq!(
        store.update_meta(id + 1, meta_for("https://servo.org/m")),
        Err(StoreError::Missing)
    );
}

#[test]
fn memory_the_byte_budget_evicts_the_least_recently_used() {
    let mut store = MemoryStore::new(BUDGET as usize, 0);
    let chunk = vec![0u8; 512 * 1024];
    for index in 0..12 {
        memory_put(&mut store, &format!("https://servo.org/e{index}"), &chunk);
    }
    assert!(memory_one(&store, "https://servo.org/e0").is_none());
    assert!(memory_one(&store, "https://servo.org/e11").is_some());
    assert!(store.stored_bytes() <= BUDGET as usize);
}

#[test]
fn an_index_is_written_once_it_settles() {
    let mut state = IndexState::new();
    let actions = state.mark_dirty();
    assert!(actions.schedule);
    assert!(!actions.unstamp);
    let seen = state.current();
    assert!(!state.mark_dirty().schedule);
    assert!(!state.settle(seen));
    let seen = state.current();
    assert!(state.settle(seen));
    assert!(state.written(true, seen));
    assert!(state.mark_dirty().unstamp);
}

#[test]
fn names_and_numbers_of_entries() {
    let key = key_for("https://servo.org/");
    assert!(key.hash() < 1 << 56);
    let id = entry_id(key.hash(), 3);
    assert_eq!(entry_key_hash(id), key.hash());
    assert_eq!(entry_slot(id), 3);
    assert_eq!(index_file::entry_file_name(0xab, 7), b"000000000000ab_7");
    assert_eq!(
        index_file::parse_entry_name(b"000000000000ab_7"),
        Some((0xab, 7))
    );
    assert_eq!(index_file::parse_entry_name(b"readme"), None);
}

#[test]
fn budgets_and_chunks() {
    assert_eq!(entry_cap_for(BUDGET, 0), 5 * 1024 * 1024);
    assert_eq!(entry_cap_for(400 * 1024 * 1024, 0), 50 * 1024 * 1024);
    assert_eq!(entry_cap_for(BUDGET, 1000), 1000);
    assert_eq!(
        clamp_range(BodyRange { start: 2, end: 90 }, 10),
        Some(BodyRange { start: 2, end: 9 })
    );
    assert_eq!(clamp_range(BodyRange { start: 10, end: 90 }, 10), None);
    let chunks = split_into_chunks(&vec![1u8; CHUNK_BYTES + 1]);
    assert_eq!(chunks.len(), 2);
    assert_eq!(chunks[1].len(), 1);
    assert_eq!(available_bytes(3, 4096), Some(12288));
    assert_eq!(available_bytes(u64::MAX, 2), None);
    assert_eq!(automatic_cache_size(true, None), 100 * 1024 * 1024);
    assert_eq!(automatic_cache_size(false, None), 320 * 1024 * 1024);
    assert_eq!(automatic_cache_size(false, Some(0)), 0);
}

#[test]
fn what_is_no_entry_is_told_apart() {
    assert_eq!(
        entry::read_tail(b"short").unwrap_err(),
        entry::EntryError::TooShort
    );
    assert_eq!(
        entry::read_tail(&[0u8; 64]).unwrap_err(),
        entry::EntryError::NotAnEntry
    );
    let mut never = entry::header_bytes();
    never.extend_from_slice(&[0u8; 40]);
    assert_eq!(
        entry::read_tail(&never).unwrap_err(),
        entry::EntryError::NeverCommitted
    );
    assert_eq!(
        entry::EntryError::NeverCommitted.message(),
        "cache entry was never committed"
    );
    let body = b"body";
    let mut file = entry::header_bytes();
    file.extend_from_slice(body);
    file.extend_from_slice(&entry::write_tail(b"meta", 4, 0x1234).unwrap());
    let tail = entry::read_tail(&file).unwrap();
    assert_eq!(tail.meta, b"meta");
    assert_eq!(tail.body_len, 4);
    assert_eq!(tail.body_crc, 0x1234);
    let at = file.len() - 28 - 1;
    file[at] ^= 1;
    assert_eq!(
        entry::read_tail(&file).unwrap_err(),
        entry::EntryError::CorruptMeta
    );
}

#[test]
fn an_index_is_read_back() {
    let mut index = Index::new();
    let variant = |slot, size, last_used| Variant {
        slot,
        size,
        last_used,
    };
    index.insert(7, variant(0, 100, 1));
    index.insert(7, variant(1, 200, 2));
    index.insert(9, variant(0, 50, 3));
    index.insert(7, variant(0, 120, 4));
    assert_eq!(index.reserve_slot(9), Some(1));
    let data = index_file::serialize(&index, 77).expect("it is written");
    assert_eq!(&data[12..16], &[3, 0, 0, 0][..]);
    let (read, modified) = index_file::deserialize(&data).expect("it is read back");
    assert_eq!(modified, 77);
    assert_eq!(read.count(), 3);
    assert_eq!(read.bytes(), 370);
    assert!(!read.is_dirty());
    for id in index.all() {
        assert_eq!(read.get(id), index.get(id));
    }
    let mut read = read;
    assert_eq!(read.reserve_slot(9), Some(1));
    let mut broken = data.clone();
    broken[30] ^= 1;
    assert!(index_file::deserialize(&broken).is_none());
}

#[test]
fn an_index_has_room_for_found_files() {
    let mut index = Index::new();
    let found = |key_hash, len| FoundFile {
        key_hash,
        slot: 0,
        len,
        modified: None,
    };
    let files = vec![found(7, 10), found(9, u64::MAX)];
    assert!(index_file::check_room_for(&index, &files));
    let names = vec![
        b"00000000000007_0".to_vec(),
        b"00000000000007_1".to_vec(),
        b"x.tmp".to_vec(),
    ];
    let scan = index_file::scan(&index, &names);
    assert_eq!(scan.temporary, [2]);
    assert_eq!(scan.unknown, [(7, 0, 0), (7, 1, 1)]);
    assert_eq!(scan.present[&7], [0, 1]);
    index.insert(
        8,
        Variant {
            slot: 0,
            size: 1,
            last_used: 1,
        },
    );
    index_file::reconcile(&mut index, &scan.present, &files, 5);
    // What is not there is forgotten, and a long file counts as much as is recorded.
    assert_eq!(index.count(), 2);
    assert_eq!(index.bytes(), 10 + u32::MAX as u64);
    let mut ids = index.all();
    ids.sort_unstable();
    assert_eq!(ids, [7 * 256, 9 * 256]);
    assert!(DiskStore::open(index, BUDGET, 0).has_room());
}
