//! A byte-bounded in-process store.
//!
//! Used for private browsing, for temporary storage, and for embedders that give
//! the engine no cache directory.
use vstd::prelude::*;

use crate::digest;
use crate::http_cache::key;
use crate::http_cache::key::{entry_id, entry_key_hash, CacheKey, EntryId, KeyView, MAX_SLOTS};
use crate::http_cache::store;
use crate::http_cache::store::{
    clamp_range, entry_cap_for, split_into_chunks, BodyRange, BodyReader, EntryMeta, MetaView,
    StoreError,
};
use crate::text;

verus! {

#[derive(Debug)]
struct MemoryVariant {
    id: EntryId,
    meta: EntryMeta,
    chunks: Vec<Vec<u8>>,
    bytes: usize,
    last_used: u64,
}

/// One stored variant.
pub struct VariantView {
    pub id: EntryId,
    pub meta: MetaView,
    pub body: Seq<u8>,
    pub last_used: u64,
}

impl MemoryVariant {
    spec fn view(&self) -> VariantView {
        VariantView {
            id: self.id,
            meta: self.meta@,
            body: store::flatten(text::views(self.chunks@)),
            last_used: self.last_used,
        }
    }

    spec fn wf(&self) -> bool {
        self.bytes == self@.body.len() && self.meta.usable()
    }
}

spec fn listed(variants: Seq<MemoryVariant>) -> Seq<VariantView> {
    Seq::new(variants.len(), |i: int| variants[i]@)
}

/// The length of all the bodies together.
pub open spec fn total(variants: Seq<VariantView>) -> nat
    decreases variants.len(),
{
    if variants.len() == 0 {
        0
    } else {
        total(variants.drop_last()) + variants.last().body.len()
    }
}

/// The index of the variant that was used least recently.
pub open spec fn oldest(variants: Seq<VariantView>) -> int
    decreases variants.len(),
{
    if variants.len() <= 1 {
        0
    } else {
        let before = oldest(variants.drop_last());
        if variants.last().last_used < variants[before].last_used {
            variants.len() - 1
        } else {
            before
        }
    }
}

/// What is left once the least recently used variants were dropped, one after the
/// other, until at most `max_bytes` bytes are held.
pub open spec fn evicted(variants: Seq<VariantView>, max_bytes: nat) -> Seq<VariantView>
    decreases variants.len(),
{
    if total(variants) <= max_bytes || variants.len() == 0 {
        variants
    } else {
        proof {
            lemma_oldest(variants);
        }
        evicted(variants.remove(oldest(variants)), max_bytes)
    }
}

/// The index of the variant with the given identifier, or the number of variants
/// without one.
pub open spec fn index_of(variants: Seq<VariantView>, id: EntryId) -> int
    decreases variants.len(),
{
    if variants.len() == 0 {
        0
    } else {
        let before = index_of(variants.drop_last(), id);
        if before < variants.len() - 1 {
            before
        } else if variants.last().id == id {
            variants.len() - 1
        } else {
            variants.len() as int
        }
    }
}

/// Whether a variant with the given identifier is stored.
pub open spec fn holds(variants: Seq<VariantView>, id: EntryId) -> bool {
    exists|i: int| 0 <= i < variants.len() && (#[trigger] variants[i]).id == id
}

/// The variants without the one with the given identifier.
pub open spec fn dropped(variants: Seq<VariantView>, id: EntryId) -> Seq<VariantView> {
    if index_of(variants, id) < variants.len() {
        variants.remove(index_of(variants, id))
    } else {
        variants
    }
}

/// The variants that are stored under other key hashes.
pub open spec fn others(variants: Seq<VariantView>, key_hash: u64) -> Seq<VariantView>
    decreases variants.len(),
{
    if variants.len() == 0 {
        seq![]
    } else if variants.last().id / 256 == key_hash {
        others(variants.drop_last(), key_hash)
    } else {
        others(variants.drop_last(), key_hash).push(variants.last())
    }
}

/// The variants stored under a key, with their identifiers, in the order in which
/// they were stored. A variant whose key merely has the same hash is not among them.
pub open spec fn matching(
    variants: Seq<VariantView>,
    key_hash: u64,
    key: KeyView,
) -> Seq<(EntryId, MetaView)>
    decreases variants.len(),
{
    if variants.len() == 0 {
        seq![]
    } else if variants.last().id / 256 == key_hash && variants.last().meta.key == key {
        matching(variants.drop_last(), key_hash, key).push(
            (variants.last().id, variants.last().meta),
        )
    } else {
        matching(variants.drop_last(), key_hash, key)
    }
}

pub proof fn lemma_oldest(variants: Seq<VariantView>)
    requires
        variants.len() > 0,
    ensures
        0 <= oldest(variants) < variants.len(),
        forall|i: int|
            0 <= i < variants.len() ==> variants[oldest(variants)].last_used
                <= (#[trigger] variants[i]).last_used,
    decreases variants.len(),
{
    if variants.len() > 1 {
        lemma_oldest(variants.drop_last());
        assert forall|i: int| 0 <= i < variants.len() implies variants[oldest(variants)].last_used
            <= (#[trigger] variants[i]).last_used by {
            if i < variants.len() - 1 {
                assert(variants.drop_last()[i] == variants[i]);
            }
        }
    }
}

pub proof fn lemma_index_of(variants: Seq<VariantView>, id: EntryId)
    ensures
        0 <= index_of(variants, id) <= variants.len(),
        index_of(variants, id) < variants.len() ==> variants[index_of(variants, id)].id == id,
        index_of(variants, id) < variants.len() <==> holds(variants, id),
        forall|i: int| 0 <= i < index_of(variants, id) ==> (#[trigger] variants[i]).id != id,
    decreases variants.len(),
{
    if variants.len() > 0 {
        let front = variants.drop_last();
        lemma_index_of(front, id);
        assert forall|i: int| 0 <= i < index_of(variants, id) implies (#[trigger] variants[i]).id
            != id by {
            if i < front.len() {
                assert(front[i] == variants[i]);
                if front[i].id == id {
                    assert(holds(front, id));
                }
            }
        }
        if index_of(front, id) < front.len() {
            assert(variants[index_of(front, id)].id == id);
        }
        if index_of(variants, id) == variants.len() && holds(variants, id) {
            let i = choose|i: int| 0 <= i < variants.len() && (#[trigger] variants[i]).id == id;
            if i < front.len() {
                assert(front[i].id == id);
            }
        }
    }
}

proof fn lemma_index_is(variants: Seq<VariantView>, id: EntryId, i: int)
    requires
        0 <= i <= variants.len(),
        i < variants.len() ==> variants[i].id == id,
        forall|j: int| 0 <= j < i ==> (#[trigger] variants[j]).id != id,
    ensures
        index_of(variants, id) == i,
{
    lemma_index_of(variants, id);
    let k = index_of(variants, id);
    if k < i {
        assert(variants[k].id != id);
    } else if i < k {
        assert(variants[i].id != id);
    }
}

proof fn lemma_total_push(variants: Seq<VariantView>, variant: VariantView)
    ensures
        total(variants.push(variant)) == total(variants) + variant.body.len(),
{
    assert(variants.push(variant).drop_last() =~= variants);
}

pub proof fn lemma_total_remove(variants: Seq<VariantView>, i: int)
    requires
        0 <= i < variants.len(),
    ensures
        total(variants.remove(i)) == total(variants) - variants[i].body.len(),
    decreases variants.len(),
{
    if i == variants.len() - 1 {
        assert(variants.remove(i) =~= variants.drop_last());
    } else {
        lemma_total_remove(variants.drop_last(), i);
        assert(variants.remove(i).drop_last() =~= variants.drop_last().remove(i));
        assert(variants.remove(i).last() == variants.last());
    }
}

proof fn lemma_total_same(a: Seq<VariantView>, b: Seq<VariantView>)
    requires
        a.len() == b.len(),
        forall|i: int| 0 <= i < a.len() ==> (#[trigger] a[i]).body == b[i].body,
    ensures
        total(a) == total(b),
    decreases a.len(),
{
    if a.len() > 0 {
        assert(a[a.len() - 1].body == b[b.len() - 1].body);
        assert forall|i: int| 0 <= i < a.drop_last().len() implies (#[trigger] a.drop_last()[i]).body
            == b.drop_last()[i].body by {
            assert(a[i].body == b[i].body);
        }
        lemma_total_same(a.drop_last(), b.drop_last());
    }
}

/// Eviction keeps the order of the variants that it keeps, and keeps nothing that
/// was not there.
pub proof fn lemma_evicted_subset(variants: Seq<VariantView>, max_bytes: nat)
    ensures
        forall|i: int|
            0 <= i < evicted(variants, max_bytes).len() ==> variants.contains(
                #[trigger] evicted(variants, max_bytes)[i],
            ),
        evicted(variants, max_bytes).len() <= variants.len(),
    decreases variants.len(),
{
    if !(total(variants) <= max_bytes || variants.len() == 0) {
        lemma_oldest(variants);
        let k = oldest(variants);
        let rest = variants.remove(k);
        lemma_evicted_subset(rest, max_bytes);
        assert forall|i: int| 0 <= i < evicted(rest, max_bytes).len() implies variants.contains(
            #[trigger] evicted(rest, max_bytes)[i],
        ) by {
            let v = evicted(rest, max_bytes)[i];
            assert(rest.contains(v));
            let j = choose|j: int| 0 <= j < rest.len() && rest[j] == v;
            assert(variants[if j < k {
                j
            } else {
                j + 1
            }] == v);
        }
    }
}

/// Eviction meets the budget.
pub proof fn law_eviction_meets_budget(variants: Seq<VariantView>, max_bytes: nat)
    ensures
        total(evicted(variants, max_bytes)) <= max_bytes,
    decreases variants.len(),
{
    if !(total(variants) <= max_bytes || variants.len() == 0) {
        lemma_oldest(variants);
        law_eviction_meets_budget(variants.remove(oldest(variants)), max_bytes);
    }
}

/// Eviction drops what was used least recently: nothing that it drops was used more
/// recently than anything that it keeps.
pub proof fn law_eviction_drops_oldest(
    variants: Seq<VariantView>,
    max_bytes: nat,
    dropped: int,
    kept: int,
)
    requires
        0 <= dropped < variants.len(),
        !evicted(variants, max_bytes).contains(variants[dropped]),
        0 <= kept < evicted(variants, max_bytes).len(),
    ensures
        variants[dropped].last_used <= evicted(variants, max_bytes)[kept].last_used,
    decreases variants.len(),
{
    if total(variants) <= max_bytes || variants.len() == 0 {
        assert(evicted(variants, max_bytes)[dropped] == variants[dropped]);
    } else {
        lemma_oldest(variants);
        let k = oldest(variants);
        let rest = variants.remove(k);
        if dropped == k {
            lemma_evicted_subset(rest, max_bytes);
            let v = evicted(rest, max_bytes)[kept];
            assert(rest.contains(v));
            let j = choose|j: int| 0 <= j < rest.len() && rest[j] == v;
            assert(variants[if j < k {
                j
            } else {
                j + 1
            }] == v);
        } else {
            let j = if dropped < k {
                dropped
            } else {
                dropped - 1
            };
            assert(rest[j] == variants[dropped]);
            law_eviction_drops_oldest(rest, max_bytes, j, kept);
        }
    }
}

/// The variant that was used most recently survives eviction if it fits the budget
/// on its own.
pub proof fn law_eviction_keeps_newest(variants: Seq<VariantView>, max_bytes: nat)
    requires
        variants.len() > 0,
        variants.last().body.len() <= max_bytes,
        forall|i: int|
            0 <= i < variants.len() - 1 ==> (#[trigger] variants[i]).last_used
                < variants.last().last_used,
    ensures
        evicted(variants, max_bytes).len() > 0,
        evicted(variants, max_bytes).last() == variants.last(),
    decreases variants.len(),
{
    if !(total(variants) <= max_bytes) {
        lemma_oldest(variants);
        let k = oldest(variants);
        assert(variants.len() > 1) by {
            if variants.len() == 1 {
                assert(variants.drop_last() =~= Seq::empty());
                assert(total(variants.drop_last()) == 0);
            }
        }
        assert(variants[k].last_used <= variants[0].last_used);
        assert(k < variants.len() - 1);
        let rest = variants.remove(k);
        assert(rest.last() == variants.last());
        assert forall|i: int| 0 <= i < rest.len() - 1 implies (#[trigger] rest[i]).last_used
            < rest.last().last_used by {
            assert(rest[i] == variants[if i < k {
                i
            } else {
                i + 1
            }]);
        }
        law_eviction_keeps_newest(rest, max_bytes);
    }
}

/// The contents of a store, apart from its bookkeeping.
spec fn distinct(variants: Seq<VariantView>) -> bool {
    forall|i: int, j: int|
        0 <= i < j < variants.len() ==> (#[trigger] variants[i]).id != (#[trigger] variants[j]).id
}

/// An in-memory store holding bodies as the chunks they arrived in.
#[derive(Debug)]
pub struct MemoryStore {
    variants: Vec<MemoryVariant>,
    /// Identifiers handed out to writers that have not committed or aborted yet.
    reserved: Vec<EntryId>,
    usage: usize,
    clock: u64,
    max_bytes: usize,
    configured_cap: u64,
}

/// One entry that is being written to a [`MemoryStore`].
pub struct MemoryWrite {
    id: EntryId,
    meta: EntryMeta,
    chunks: Vec<Vec<u8>>,
    bytes: usize,
    cap: u64,
    written: Ghost<Seq<u8>>,
}

impl MemoryWrite {
    pub closed spec fn id(&self) -> EntryId {
        self.id
    }

    pub closed spec fn meta(&self) -> MetaView {
        self.meta@
    }

    /// All the bytes that were appended.
    pub closed spec fn written(&self) -> Seq<u8> {
        self.written@
    }

    /// The largest entry that is kept.
    pub closed spec fn cap(&self) -> u64 {
        self.cap
    }

    pub closed spec fn wf(&self) -> bool {
        &&& self.bytes == self.written@.len()
        &&& self.bytes as u64 <= self.cap ==> store::flatten(text::views(self.chunks@))
            == self.written@
        &&& self.bytes as u64 > self.cap ==> self.chunks@.len() == 0
        &&& self.meta.usable()
    }

    /// Append a batch of chunks to the body. A response without a `Content-Length`
    /// is only found to be outsized here, and holding the rest of it would mean
    /// buffering a body the commit is going to decline.
    pub fn append(&mut self, batch: Vec<Vec<u8>>)
        requires
            old(self).wf(),
            old(self).written().len() + store::flatten(text::views(batch@)).len() <= usize::MAX,
        ensures
            final(self).wf(),
            final(self).written() == old(self).written() + store::flatten(text::views(batch@)),
            final(self).id() == old(self).id(),
            final(self).meta() == old(self).meta(),
            final(self).cap() == old(self).cap(),
    {
        let ghost all = text::views(batch@);
        let ghost before = self.written@;
        let ghost had = text::views(self.chunks@);
        let mut rest: Vec<Vec<u8>> = batch;
        let mut bytes: usize = self.bytes;
        let mut i: usize = 0;
        assert(all.take(0) =~= Seq::<Seq<u8>>::empty());
        while i < rest.len()
            invariant
                i <= rest@.len(),
                all == text::views(rest@),
                bytes == before.len() + store::flatten(all.take(i as int)).len(),
                before.len() + store::flatten(all).len() <= usize::MAX,
            decreases rest@.len() - i,
        {
            proof {
                assert(all.take(i + 1) =~= all.take(i as int).push(all[i as int]));
                store::lemma_flatten_push(all.take(i as int), all[i as int]);
                assert(all =~= all.take(i + 1) + all.skip(i + 1));
                store::lemma_flatten_add(all.take(i + 1), all.skip(i + 1));
            }
            bytes += rest[i].len();
            i += 1;
        }
        assert(all.take(i as int) =~= all);
        self.bytes = bytes;
        self.chunks.append(&mut rest);
        assert(text::views(self.chunks@) =~= had + all);
        proof {
            store::lemma_flatten_add(had, all);
            self.written@ = before + store::flatten(all);
        }
        if self.bytes as u64 > self.cap {
            self.chunks.clear();
        }
    }
}

impl MemoryStore {
    /// The stored variants, in the order in which they were stored.
    pub closed spec fn variants(&self) -> Seq<VariantView> {
        listed(self.variants@)
    }

    /// The identifiers handed out to writers.
    pub closed spec fn reserved(&self) -> Seq<EntryId> {
        self.reserved@
    }

    pub closed spec fn clock(&self) -> u64 {
        self.clock
    }

    pub closed spec fn max_bytes(&self) -> usize {
        self.max_bytes
    }

    /// The largest entry the store takes.
    pub closed spec fn spec_max_entry_bytes(&self) -> u64 {
        store::entry_cap(self.max_bytes as u64, self.configured_cap)
    }

    /// What holds of every store: the bodies are within the budget and accounted
    /// for, no two variants share an identifier, none of them has one that is
    /// handed out to a writer, and none was used after the clock's last tick.
    pub closed spec fn wf(&self) -> bool {
        &&& forall|i: int| 0 <= i < self.variants@.len() ==> (#[trigger] self.variants@[i]).wf()
        &&& distinct(self.variants())
        &&& self.reserved@.no_duplicates()
        &&& forall|i: int|
            0 <= i < self.variants@.len() ==> !self.reserved@.contains(
                (#[trigger] self.variants@[i]).id,
            )
        &&& self.usage == total(self.variants())
        &&& self.usage <= self.max_bytes
        &&& forall|i: int|
            0 <= i < self.variants@.len() ==> (#[trigger] self.variants@[i]).last_used
                <= self.clock
    }

    /// Every store holds at most its budget, and no two variants share an
    /// identifier.
    pub proof fn law_store_invariant(&self)
        requires
            self.wf(),
        ensures
            total(self.variants()) <= self.max_bytes(),
            forall|i: int, j: int|
                0 <= i < j < self.variants().len() ==> (#[trigger] self.variants()[i]).id != (
                #[trigger] self.variants()[j]).id,
            forall|i: int|
                0 <= i < self.variants().len() ==> !self.reserved().contains(
                    (#[trigger] self.variants()[i]).id,
                ),
            forall|i: int|
                0 <= i < self.variants().len() ==> (#[trigger] self.variants()[i]).last_used
                    <= self.clock(),
    {
        assert forall|i: int| 0 <= i < self.variants().len() implies !self.reserved().contains(
            (#[trigger] self.variants()[i]).id,
        ) && self.variants()[i].last_used <= self.clock() by {
            assert(self.variants@[i].id == self.variants()[i].id);
        }
    }

    /// A store that holds at most `max_bytes` of stored bodies, and no entry larger
    /// than `configured_cap` unless that is zero.
    pub fn new(max_bytes: usize, configured_cap: u64) -> (r: MemoryStore)
        ensures
            r.wf(),
            r.variants() == Seq::<VariantView>::empty(),
            r.reserved() == Seq::<EntryId>::empty(),
            r.clock() == 0,
            r.max_bytes() == max_bytes,
            r.spec_max_entry_bytes() == store::entry_cap(max_bytes as u64, configured_cap),
    {
        let r: MemoryStore = MemoryStore {
            variants: Vec::new(),
            reserved: Vec::new(),
            usage: 0,
            clock: 0,
            max_bytes,
            configured_cap,
        };
        assert(r.variants() =~= Seq::empty());
        r
    }

    /// The largest response this store will take.
    pub fn max_entry_bytes(&self) -> (r: u64)
        ensures
            r == self.spec_max_entry_bytes(),
    {
        entry_cap_for(self.max_bytes as u64, self.configured_cap)
    }

    /// Bytes held in this process.
    pub fn stored_bytes(&self) -> (r: usize)
        requires
            self.wf(),
        ensures
            r == total(self.variants()),
    {
        self.usage
    }

    fn position(&self, id: EntryId) -> (r: usize)
        ensures
            r == index_of(self.variants(), id),
            r <= self.variants@.len(),
            r < self.variants@.len() ==> self.variants@[r as int].id == id,
            r < self.variants@.len() <==> holds(self.variants(), id),
    {
        let mut i: usize = 0;
        while i < self.variants.len()
            invariant
                i <= self.variants@.len(),
                forall|j: int| 0 <= j < i ==> (#[trigger] self.variants@[j]).id != id,
            decreases self.variants@.len() - i,
        {
            if self.variants[i].id == id {
                proof {
                    assert forall|j: int| 0 <= j < i implies (#[trigger] self.variants()[j]).id
                        != id by {
                        assert(self.variants@[j].id != id);
                    }
                    lemma_index_is(self.variants(), id, i as int);
                    lemma_index_of(self.variants(), id);
                }
                return i;
            }
            i += 1;
        }
        proof {
            assert forall|j: int| 0 <= j < i implies (#[trigger] self.variants()[j]).id != id by {
                assert(self.variants@[j].id != id);
            }
            lemma_index_is(self.variants(), id, i as int);
            lemma_index_of(self.variants(), id);
        }
        i
    }

    /// Drop one variant.
    pub fn remove(&mut self, id: EntryId)
        requires
            old(self).wf(),
        ensures
            final(self).wf(),
            final(self).variants() == dropped(old(self).variants(), id),
            final(self).reserved() == old(self).reserved(),
            final(self).clock() == old(self).clock(),
            final(self).max_bytes() == old(self).max_bytes(),
            final(self).spec_max_entry_bytes() == old(self).spec_max_entry_bytes(),
    {
        let i: usize = self.position(id);
        if i < self.variants.len() {
            self.remove_at(i);
        }
    }

    fn remove_at(&mut self, i: usize)
        requires
            old(self).wf(),
            i < old(self).variants@.len(),
        ensures
            final(self).wf(),
            final(self).variants() == old(self).variants().remove(i as int),
            final(self).reserved == old(self).reserved,
            final(self).clock == old(self).clock,
            final(self).max_bytes == old(self).max_bytes,
            final(self).configured_cap == old(self).configured_cap,
    {
        let ghost before = self.variants();
        let ghost raw = self.variants@;
        proof {
            lemma_total_remove(before, i as int);
            assert(raw[i as int].wf());
        }
        let gone: MemoryVariant = self.variants.remove(i);
        self.usage = self.usage - gone.bytes;
        proof {
            assert(self.variants() =~= before.remove(i as int));
            assert forall|j: int| 0 <= j < self.variants@.len() implies (
            #[trigger] self.variants@[j]) == raw[if j < i {
                j
            } else {
                j + 1
            }] by {}
            assert forall|a: int, b: int| 0 <= a < b < self.variants().len() implies (
            #[trigger] self.variants()[a]).id != (#[trigger] self.variants()[b]).id by {
                let a0 = if a < i {
                    a
                } else {
                    a + 1
                };
                let b0 = if b < i {
                    b
                } else {
                    b + 1
                };
                assert(before[a0].id != before[b0].id);
            }
        }
    }

    fn evict(&mut self, max_bytes: usize)
        requires
            forall|i: int|
                0 <= i < old(self).variants@.len() ==> (#[trigger] old(self).variants@[i]).wf(),
            distinct(old(self).variants()),
            old(self).reserved@.no_duplicates(),
            forall|i: int|
                0 <= i < old(self).variants@.len() ==> !old(self).reserved@.contains(
                    (#[trigger] old(self).variants@[i]).id,
                ),
            old(self).usage == total(old(self).variants()),
            max_bytes <= old(self).max_bytes || old(self).usage <= old(self).max_bytes,
            forall|i: int|
                0 <= i < old(self).variants@.len() ==> (#[trigger] old(self).variants@[i]).last_used
                    <= old(self).clock,
        ensures
            final(self).wf(),
            final(self).variants() == evicted(old(self).variants(), max_bytes as nat),
            final(self).reserved == old(self).reserved,
            final(self).clock == old(self).clock,
            final(self).max_bytes == old(self).max_bytes,
            final(self).configured_cap == old(self).configured_cap,
    {
        let ghost start = self.variants();
        while self.usage > max_bytes && self.variants.len() > 0
            invariant
                forall|i: int| 0 <= i < self.variants@.len() ==> (#[trigger] self.variants@[i]).wf(),
                distinct(self.variants()),
                self.reserved@.no_duplicates(),
                forall|i: int|
                    0 <= i < self.variants@.len() ==> !self.reserved@.contains(
                        (#[trigger] self.variants@[i]).id,
                    ),
                self.usage == total(self.variants()),
                max_bytes <= self.max_bytes || self.usage <= self.max_bytes,
                forall|i: int|
                    0 <= i < self.variants@.len() ==> (#[trigger] self.variants@[i]).last_used
                        <= self.clock,
                evicted(self.variants(), max_bytes as nat) == evicted(start, max_bytes as nat),
                self.reserved == old(self).reserved,
                self.clock == old(self).clock,
                self.max_bytes == old(self).max_bytes,
                self.configured_cap == old(self).configured_cap,
            decreases self.variants@.len(),
        {
            let ghost before = self.variants();
            let ghost raw = self.variants@;
            let k: usize = self.find_oldest();
            proof {
                lemma_total_remove(before, k as int);
                assert(raw[k as int].wf());
            }
            let gone: MemoryVariant = self.variants.remove(k);
            self.usage = self.usage - gone.bytes;
            proof {
                assert(self.variants() =~= before.remove(k as int));
                assert forall|j: int| 0 <= j < self.variants@.len() implies (
                #[trigger] self.variants@[j]) == raw[if j < k {
                    j
                } else {
                    j + 1
                }] by {}
                assert forall|a: int, b: int| 0 <= a < b < self.variants().len() implies (
                #[trigger] self.variants()[a]).id != (#[trigger] self.variants()[b]).id by {
                    let a0 = if a < k {
                        a
                    } else {
                        a + 1
                    };
                    let b0 = if b < k {
                        b
                    } else {
                        b + 1
                    };
                    assert(before[a0].id != before[b0].id);
                }
            }
        }
        proof {
            if self.variants@.len() == 0 {
                assert(total(self.variants()) == 0);
            }
        }
    }

    fn find_oldest(&self) -> (r: usize)
        requires
            self.variants@.len() > 0,
        ensures
            r < self.variants@.len(),
            r == oldest(self.variants()),
    {
        let mut best: usize = 0;
        let mut i: usize = 1;
        assert(oldest(self.variants().take(1)) == 0);
        while i < self.variants.len()
            invariant
                1 <= i <= self.variants@.len(),
                best < i,
                best == oldest(self.variants().take(i as int)),
            decreases self.variants@.len() - i,
        {
            let ghost upto = self.variants().take(i + 1);
            assert(upto.drop_last() =~= self.variants().take(i as int));
            assert(upto.last() == self.variants@[i as int]@);
            assert(upto[best as int] == self.variants@[best as int]@);
            if self.variants[i].last_used < self.variants[best].last_used {
                best = i;
            }
            i += 1;
        }
        assert(self.variants().take(i as int) =~= self.variants());
        best
    }

    /// Trim the store down to `target_bytes`, for use under memory pressure.
    pub fn trim(&mut self, target_bytes: usize)
        requires
            old(self).wf(),
        ensures
            final(self).wf(),
            final(self).variants() == evicted(old(self).variants(), target_bytes as nat),
            final(self).reserved() == old(self).reserved(),
            final(self).clock() == old(self).clock(),
            final(self).max_bytes() == old(self).max_bytes(),
            final(self).spec_max_entry_bytes() == old(self).spec_max_entry_bytes(),
    {
        self.evict(target_bytes)
    }

    /// All variants stored under `key`. The semantics layer picks one.
    pub fn lookup(&self, key: &CacheKey) -> (r: Vec<(EntryId, EntryMeta)>)
        requires
            self.wf(),
        ensures
            store::found(r@) == matching(
                self.variants(),
                key::leading_56(digest::sha1_of(key::key_bytes(key@))) as u64,
                key@,
            ),
            forall|i: int| 0 <= i < r@.len() ==> (#[trigger] r@[i]).1.usable(),
    {
        let key_hash: u64 = key.hash();
        let mut r: Vec<(EntryId, EntryMeta)> = Vec::new();
        let mut i: usize = 0;
        let ghost all = self.variants();
        assert(store::found(r@) =~= matching(all.take(0), key_hash, key@));
        while i < self.variants.len()
            invariant
                self.wf(),
                all == self.variants(),
                i <= self.variants@.len(),
                store::found(r@) == matching(all.take(i as int), key_hash, key@),
                forall|j: int| 0 <= j < r@.len() ==> (#[trigger] r@[j]).1.usable(),
            decreases self.variants@.len() - i,
        {
            let ghost upto = all.take(i + 1);
            assert(upto.drop_last() =~= all.take(i as int));
            assert(upto.last() == self.variants@[i as int]@);
            assert(self.variants@[i as int].wf());
            let ghost before = store::found(r@);
            if entry_key_hash(self.variants[i].id) == key_hash && self.variants[i].meta.key.same(
                key,
            ) {
                let meta: EntryMeta = self.variants[i].meta.copy();
                r.push((self.variants[i].id, meta));
                assert(store::found(r@) =~= before.push(
                    (self.variants@[i as int].id, self.variants@[i as int].meta@),
                ));
            }
            i += 1;
        }
        assert(all.take(i as int) =~= all);
        r
    }

    /// Open a stored body. `range` selects a byte range of the stored (still
    /// encoded) bytes.
    pub fn open(&self, id: EntryId, range: Option<BodyRange>) -> (r: Result<
        BodyReader,
        StoreError,
    >)
        requires
            self.wf(),
            range matches Some(range) ==> range.start <= range.end,
        ensures
            match opened(self.variants(), id, range) {
                Some(bytes) => r matches Ok(reader) && reader.wf() && reader.bytes() == bytes
                    && reader.encoding() == self.variants()[index_of(
                    self.variants(),
                    id,
                )].meta.content_encoding,
                None => r matches Err(e) && e == StoreError::Missing,
            },
    {
        let i: usize = self.position(id);
        if i >= self.variants.len() {
            return Err(StoreError::Missing);
        }
        let variant: &MemoryVariant = &self.variants[i];
        assert(self.variants@[i as int].wf());
        let encoding: Option<store::DecoderType> = variant.meta.content_encoding;
        let len: u64 = variant.bytes as u64;
        match range {
            None => {
                let chunks: Vec<Vec<u8>> = copy_chunks(&variant.chunks);
                Ok(BodyReader::new(len, encoding, chunks))
            },
            Some(range) => match clamp_range(range, len) {
                None => Err(StoreError::Missing),
                Some(range) => {
                    let chunks: Vec<Vec<u8>> = slice_chunks(&variant.chunks, range);
                    Ok(BodyReader::new(range.end - range.start + 1, encoding, chunks))
                },
            },
        }
    }

    /// Reserve a slot for a new variant. The entry is invisible until it is
    /// committed.
    pub fn create(&mut self, meta: EntryMeta) -> (r: Result<MemoryWrite, StoreError>)
        requires
            old(self).wf(),
            meta.usable(),
        ensures
            final(self).wf(),
            final(self).variants() == old(self).variants(),
            final(self).clock() == old(self).clock(),
            final(self).max_bytes() == old(self).max_bytes(),
            final(self).spec_max_entry_bytes() == old(self).spec_max_entry_bytes(),
            match r {
                Ok(write) => {
                    &&& write.wf()
                    &&& write.meta() == meta@
                    &&& write.written() == Seq::<u8>::empty()
                    &&& write.cap() == old(self).spec_max_entry_bytes()
                    &&& write.id() / 256 == key::leading_56(
                        digest::sha1_of(key::key_bytes(meta@.key)),
                    )
                    &&& write.id() % 256 < MAX_SLOTS
                    &&& is_free(old(self).variants(), old(self).reserved(), write.id())
                    &&& forall|slot: u8|
                        slot < write.id() % 256 ==> !is_free(
                            old(self).variants(),
                            old(self).reserved(),
                            #[trigger] slot_id(write.id(), slot),
                        )
                    &&& final(self).reserved() == old(self).reserved().push(write.id())
                },
                Err(e) => {
                    &&& e == StoreError::Rejected
                    &&& final(self).reserved() == old(self).reserved()
                    &&& forall|slot: u8|
                        slot < MAX_SLOTS ==> !is_free(
                            old(self).variants(),
                            old(self).reserved(),
                            #[trigger] id_of(meta@.key, slot),
                        )
                },
            },
    {
        let key_hash: u64 = meta.key.hash();
        let mut slot: u8 = 0;
        while slot < MAX_SLOTS
            invariant
                *self == *old(self),
                self.wf(),
                slot <= MAX_SLOTS,
                key_hash == key::leading_56(digest::sha1_of(key::key_bytes(meta@.key))),
                key_hash < key::HASH_LIMIT,
                meta.usable(),
                forall|s: u8|
                    s < slot ==> !is_free(
                        self.variants(),
                        self.reserved(),
                        #[trigger] id_of(meta@.key, s),
                    ),
            decreases MAX_SLOTS - slot,
        {
            let id: EntryId = entry_id(key_hash, slot);
            assert(id == id_of(meta@.key, slot));
            if self.check_free(id) {
                let cap: u64 = self.max_entry_bytes();
                self.reserved.push(id);
                proof {
                    assert(self.variants() =~= old(self).variants());
                    assert forall|i: int| 0 <= i < self.variants@.len() implies !self.reserved@.contains(
                        (#[trigger] self.variants@[i]).id,
                    ) by {
                        assert(self.variants()[i].id != id);
                        if self.reserved@.contains(self.variants@[i].id) {
                            let k = choose|k: int|
                                0 <= k < self.reserved@.len() && self.reserved@[k]
                                    == self.variants@[i].id;
                            assert(old(self).reserved@[k] == self.variants@[i].id);
                        }
                    }
                    assert forall|s: u8| s < id % 256 implies !is_free(
                        old(self).variants(),
                        old(self).reserved(),
                        #[trigger] slot_id(id, s),
                    ) by {
                        assert(slot_id(id, s) == id_of(meta@.key, s));
                    }
                }
                let write: MemoryWrite = MemoryWrite {
                    id,
                    meta,
                    chunks: Vec::new(),
                    bytes: 0,
                    cap,
                    written: Ghost(Seq::empty()),
                };
                assert(text::views(write.chunks@) =~= Seq::empty());
                return Ok(write);
            }
            slot += 1;
        }
        Err(StoreError::Rejected)
    }

    fn check_free(&self, id: EntryId) -> (r: bool)
        ensures
            r == is_free(self.variants(), self.reserved(), id),
    {
        if self.position(id) < self.variants.len() {
            return false;
        }
        let mut i: usize = 0;
        while i < self.reserved.len()
            invariant
                i <= self.reserved@.len(),
                forall|j: int| 0 <= j < i ==> self.reserved@[j] != id,
            decreases self.reserved@.len() - i,
        {
            if self.reserved[i] == id {
                assert(self.reserved@.contains(id));
                return false;
            }
            i += 1;
        }
        true
    }

    fn release(&mut self, id: EntryId)
        requires
            old(self).reserved@.no_duplicates(),
        ensures
            final(self).reserved@ == released(old(self).reserved@, id),
            final(self).reserved@.no_duplicates(),
            !final(self).reserved@.contains(id),
            forall|x: EntryId| #[trigger] final(self).reserved@.contains(x) ==> old(
                self,
            ).reserved@.contains(x),
            final(self).variants == old(self).variants,
            final(self).usage == old(self).usage,
            final(self).clock == old(self).clock,
            final(self).max_bytes == old(self).max_bytes,
            final(self).configured_cap == old(self).configured_cap,
    {
        let ghost before = self.reserved@;
        let mut i: usize = 0;
        while i < self.reserved.len()
            invariant
                *self == *old(self),
                i <= self.reserved@.len(),
                before == self.reserved@,
                before.no_duplicates(),
                forall|j: int| 0 <= j < i ==> self.reserved@[j] != id,
            decreases self.reserved@.len() - i,
        {
            if self.reserved[i] == id {
                self.reserved.remove(i);
                proof {
                    assert(before.index_of_first(id) == Some(i as int)) by {
                        before.index_of_first_ensures(id);
                    }
                    assert forall|x: EntryId| #[trigger] self.reserved@.contains(x) implies before.contains(
                        x,
                    ) by {
                        let k = choose|k: int|
                            0 <= k < self.reserved@.len() && self.reserved@[k] == x;
                        assert(before[if k < i {
                            k
                        } else {
                            k + 1
                        }] == x);
                    }
                    assert(!self.reserved@.contains(id)) by {
                        if self.reserved@.contains(id) {
                            let k = choose|k: int|
                                0 <= k < self.reserved@.len() && self.reserved@[k] == id;
                            assert(before[if k < i {
                                k
                            } else {
                                k + 1
                            }] == id);
                        }
                    }
                }
                return;
            }
            i += 1;
        }
        proof {
            before.index_of_first_ensures(id);
        }
    }

    /// Publish an entry. Only after this does a lookup see it.
    pub fn commit(&mut self, write: MemoryWrite) -> (r: Result<EntryId, StoreError>)
        requires
            old(self).wf(),
            write.wf(),
            old(self).reserved().contains(write.id()),
            old(self).clock() < u64::MAX,
            total(old(self).variants()) + write.written().len() <= usize::MAX,
            write.cap() == old(self).spec_max_entry_bytes(),
        ensures
            final(self).wf(),
            final(self).reserved() == released(old(self).reserved(), write.id()),
            final(self).max_bytes() == old(self).max_bytes(),
            final(self).spec_max_entry_bytes() == old(self).spec_max_entry_bytes(),
            if write.written().len() > old(self).max_bytes() || write.written().len() > old(
                self,
            ).spec_max_entry_bytes() {
                &&& r matches Err(e) && e == StoreError::Rejected
                &&& final(self).variants() == old(self).variants()
                &&& final(self).clock() == old(self).clock()
            } else {
                &&& r matches Ok(id) && id == write.id()
                &&& final(self).clock() == old(self).clock() + 1
                &&& final(self).variants() == evicted(
                    old(self).variants().push(
                        new_variant(write, (old(self).clock() + 1) as u64),
                    ),
                    old(self).max_bytes() as nat,
                )
                &&& final(self).variants().len() > 0
                &&& final(self).variants().last() == new_variant(
                    write,
                    (old(self).clock() + 1) as u64,
                )
            },
    {
        let ghost before = self.variants();
        let ghost raw = self.variants@;
        self.release(write.id);
        proof {
            assert forall|i: int| 0 <= i < self.variants@.len() implies !self.reserved@.contains(
                (#[trigger] self.variants@[i]).id,
            ) && self.variants@[i].id != write.id by {
                assert(!old(self).reserved@.contains(raw[i].id));
            }
        }
        if write.bytes > self.max_bytes || write.bytes as u64 > self.max_entry_bytes() {
            return Err(StoreError::Rejected);
        }
        self.clock = self.clock + 1;
        self.usage = self.usage + write.bytes;
        let id: EntryId = write.id;
        let mut meta: EntryMeta = write.meta;
        meta.body_len = write.bytes as u64;
        let variant: MemoryVariant = MemoryVariant {
            id,
            meta,
            chunks: write.chunks,
            bytes: write.bytes,
            last_used: self.clock,
        };
        let ghost newest = variant@;
        self.variants.push(variant);
        proof {
            assert(newest == new_variant(write, self.clock));
            assert(self.variants() =~= before.push(newest));
            lemma_total_push(before, newest);
            assert forall|i: int| 0 <= i < self.variants().len() - 1 implies (
            #[trigger] self.variants()[i]).last_used < self.variants().last().last_used by {
                assert(raw[i].last_used <= old(self).clock);
            }
            law_eviction_keeps_newest(self.variants(), self.max_bytes as nat);
            assert forall|a: int, b: int| 0 <= a < b < self.variants().len() implies (
            #[trigger] self.variants()[a]).id != (#[trigger] self.variants()[b]).id by {
                if b < before.len() {
                    assert(before[a].id != before[b].id);
                } else {
                    assert(raw[a].id != write.id);
                }
            }
        }
        let max_bytes: usize = self.max_bytes;
        self.evict(max_bytes);
        Ok(id)
    }

    /// Throw an entry away that was not committed.
    pub fn abort(&mut self, write: MemoryWrite)
        requires
            old(self).wf(),
        ensures
            final(self).wf(),
            final(self).variants() == old(self).variants(),
            final(self).reserved() == released(old(self).reserved(), write.id()),
            final(self).clock() == old(self).clock(),
            final(self).max_bytes() == old(self).max_bytes(),
            final(self).spec_max_entry_bytes() == old(self).spec_max_entry_bytes(),
    {
        let ghost raw = self.variants@;
        self.release(write.id);
        assert forall|i: int| 0 <= i < self.variants@.len() implies !self.reserved@.contains(
            (#[trigger] self.variants@[i]).id,
        ) by {
            assert(!old(self).reserved@.contains(raw[i].id));
        }
    }

    /// Replace an entry's metadata after a 304, keeping its body.
    pub fn update_meta(&mut self, id: EntryId, meta: EntryMeta) -> (r: Result<(), StoreError>)
        requires
            old(self).wf(),
            old(self).clock() < u64::MAX,
            meta.usable(),
        ensures
            final(self).wf(),
            final(self).reserved() == old(self).reserved(),
            final(self).clock() == old(self).clock() + 1,
            final(self).max_bytes() == old(self).max_bytes(),
            final(self).spec_max_entry_bytes() == old(self).spec_max_entry_bytes(),
            if holds(old(self).variants(), id) {
                &&& r is Ok
                &&& final(self).variants() == old(self).variants().update(
                    index_of(old(self).variants(), id),
                    VariantView {
                        meta: MetaView {
                            body_len: old(self).variants()[index_of(
                                old(self).variants(),
                                id,
                            )].meta.body_len,
                            ..meta@
                        },
                        last_used: (old(self).clock() + 1) as u64,
                        ..old(self).variants()[index_of(old(self).variants(), id)]
                    },
                )
            } else {
                &&& r matches Err(e) && e == StoreError::Missing
                &&& final(self).variants() == old(self).variants()
            },
    {
        let ghost before = self.variants();
        let ghost raw = self.variants@;
        self.clock = self.clock + 1;
        let i: usize = self.position(id);
        if i >= self.variants.len() {
            assert(self.variants() =~= before);
            return Err(StoreError::Missing);
        }
        assert(raw[i as int].wf());
        let old_variant: MemoryVariant = self.variants.remove(i);
        let mut meta: EntryMeta = meta;
        meta.body_len = old_variant.meta.body_len;
        let variant: MemoryVariant = MemoryVariant {
            id: old_variant.id,
            meta,
            chunks: old_variant.chunks,
            bytes: old_variant.bytes,
            last_used: self.clock,
        };
        let ghost fresh = variant@;
        self.variants.insert(i, variant);
        proof {
            assert(self.variants() =~= before.update(i as int, fresh));
            lemma_total_same(before, self.variants());
            assert forall|a: int, b: int| 0 <= a < b < self.variants().len() implies (
            #[trigger] self.variants()[a]).id != (#[trigger] self.variants()[b]).id by {
                assert(before[a].id != before[b].id);
            }
            assert forall|j: int| 0 <= j < self.variants@.len() implies (
            #[trigger] self.variants@[j]).wf() && !self.reserved@.contains(self.variants@[j].id)
                && self.variants@[j].last_used <= self.clock by {
                assert(raw[j].wf());
                assert(!old(self).reserved@.contains(raw[j].id));
            }
        }
        Ok(())
    }

    /// Mark an entry as recently used.
    pub fn touch(&mut self, id: EntryId)
        requires
            old(self).wf(),
            old(self).clock() < u64::MAX,
        ensures
            final(self).wf(),
            final(self).reserved() == old(self).reserved(),
            final(self).clock() == old(self).clock() + 1,
            final(self).max_bytes() == old(self).max_bytes(),
            final(self).spec_max_entry_bytes() == old(self).spec_max_entry_bytes(),
            final(self).variants() == if holds(old(self).variants(), id) {
                old(self).variants().update(
                    index_of(old(self).variants(), id),
                    VariantView {
                        last_used: (old(self).clock() + 1) as u64,
                        ..old(self).variants()[index_of(old(self).variants(), id)]
                    },
                )
            } else {
                old(self).variants()
            },
    {
        let ghost before = self.variants();
        let ghost raw = self.variants@;
        self.clock = self.clock + 1;
        let i: usize = self.position(id);
        if i >= self.variants.len() {
            assert(self.variants() =~= before);
            return;
        }
        assert(raw[i as int].wf());
        let mut variant: MemoryVariant = self.variants.remove(i);
        variant.last_used = self.clock;
        let ghost fresh = variant@;
        self.variants.insert(i, variant);
        proof {
            assert(self.variants() =~= before.update(i as int, fresh));
            lemma_total_same(before, self.variants());
            assert forall|a: int, b: int| 0 <= a < b < self.variants().len() implies (
            #[trigger] self.variants()[a]).id != (#[trigger] self.variants()[b]).id by {
                assert(before[a].id != before[b].id);
            }
            assert forall|j: int| 0 <= j < self.variants@.len() implies (
            #[trigger] self.variants@[j]).wf() && !self.reserved@.contains(self.variants@[j].id)
                && self.variants@[j].last_used <= self.clock by {
                assert(raw[j].wf());
                assert(!old(self).reserved@.contains(raw[j].id));
            }
        }
    }

    /// Drop every variant under `key`, for "Invalidating Stored Responses". Variants
    /// whose key merely has the same hash go with them.
    pub fn remove_key(&mut self, key: &CacheKey)
        requires
            old(self).wf(),
        ensures
            final(self).wf(),
            final(self).variants() == others(
                old(self).variants(),
                key::leading_56(digest::sha1_of(key::key_bytes(key@))) as u64,
            ),
            final(self).reserved() == old(self).reserved(),
            final(self).clock() == old(self).clock(),
            final(self).max_bytes() == old(self).max_bytes(),
            final(self).spec_max_entry_bytes() == old(self).spec_max_entry_bytes(),
    {
        let key_hash: u64 = key.hash();
        let ghost all = self.variants();
        let ghost n = self.variants@.len();
        let mut i: usize = self.variants.len();
        assert(all.take(n as int) =~= all);
        assert(others(all.take(n as int), key_hash) + all.subrange(n as int, n as int) =~= others(
            all,
            key_hash,
        ));
        let ghost mut kept: Seq<VariantView> = Seq::empty();
        while i > 0
            invariant
                self.wf(),
                i <= n,
                i + kept.len() == self.variants@.len(),
                all.len() == n,
                self.variants() == all.take(i as int) + kept,
                others(all.take(i as int), key_hash) + kept == others(all, key_hash),
                self.reserved == old(self).reserved,
                self.clock == old(self).clock,
                self.max_bytes == old(self).max_bytes,
                self.configured_cap == old(self).configured_cap,
            decreases i,
        {
            i -= 1;
            let ghost upto = all.take(i + 1);
            assert(upto.drop_last() =~= all.take(i as int));
            assert(self.variants()[i as int] == upto.last());
            assert(self.variants@[i as int].id == upto.last().id);
            if entry_key_hash(self.variants[i].id) == key_hash {
                self.remove_at(i);
                assert(self.variants() =~= all.take(i as int) + kept);
            } else {
                proof {
                    let last = upto.last();
                    let more = seq![last] + kept;
                    assert(others(all.take(i as int), key_hash) + more =~= others(upto, key_hash)
                        + kept);
                    assert(self.variants() =~= all.take(i as int) + more);
                    kept = more;
                }
            }
        }
        proof {
            assert(others(all.take(0), key_hash) + kept =~= kept);
            assert(all.take(0) + kept =~= kept);
        }
    }

    /// Drop everything. Slots handed out to writers stay reserved.
    pub fn clear(&mut self)
        requires
            old(self).wf(),
        ensures
            final(self).wf(),
            final(self).variants() == Seq::<VariantView>::empty(),
            final(self).reserved() == old(self).reserved(),
            final(self).clock() == old(self).clock(),
            final(self).max_bytes() == old(self).max_bytes(),
            final(self).spec_max_entry_bytes() == old(self).spec_max_entry_bytes(),
    {
        self.variants.clear();
        self.usage = 0;
        assert(self.variants() =~= Seq::empty());
    }

    /// The URLs of the stored entries.
    pub fn descriptors(&self) -> (r: Vec<String>)
        ensures
            r@.len() == self.variants().len(),
            forall|i: int|
                0 <= i < r@.len() ==> (#[trigger] r@[i])@ == self.variants()[i].meta.key.url,
    {
        let mut r: Vec<String> = Vec::new();
        let mut i: usize = 0;
        while i < self.variants.len()
            invariant
                i <= self.variants@.len(),
                r@.len() == i,
                forall|j: int|
                    0 <= j < i ==> (#[trigger] r@[j])@ == self.variants()[j].meta.key.url,
            decreases self.variants@.len() - i,
        {
            r.push(self.variants[i].meta.key.url().clone());
            i += 1;
        }
        r
    }
}

/// The identifier of another slot under the key hash of an identifier.
pub open spec fn slot_id(id: EntryId, slot: u8) -> EntryId {
    (id - id % 256 + slot) as u64
}

/// The identifier of a slot under a key.
pub open spec fn id_of(key: KeyView, slot: u8) -> EntryId {
    (key::leading_56(digest::sha1_of(key::key_bytes(key))) * 256 + slot) as u64
}

/// Whether an identifier is neither stored nor handed out.
pub open spec fn is_free(variants: Seq<VariantView>, reserved: Seq<EntryId>, id: EntryId) -> bool {
    !holds(variants, id) && !reserved.contains(id)
}

/// The identifiers that stay handed out once one of them is given back.
pub open spec fn released(reserved: Seq<EntryId>, id: EntryId) -> Seq<EntryId> {
    match reserved.index_of_first(id) {
        Some(i) => reserved.remove(i),
        None => reserved,
    }
}

/// The variant that a finished write becomes.
pub open spec fn new_variant(write: MemoryWrite, last_used: u64) -> VariantView {
    VariantView {
        id: write.id(),
        meta: MetaView { body_len: write.written().len() as u64, ..write.meta() },
        body: write.written(),
        last_used,
    }
}

/// The bytes that opening a stored body gives.
pub open spec fn opened(
    variants: Seq<VariantView>,
    id: EntryId,
    range: Option<BodyRange>,
) -> Option<Seq<u8>> {
    if !holds(variants, id) {
        None
    } else {
        let body = variants[index_of(variants, id)].body;
        match range {
            None => Some(body),
            Some(range) => match store::clamped(range, body.len() as u64) {
                Some(c) => Some(body.subrange(c.start as int, c.end + 1)),
                None => None,
            },
        }
    }
}

fn copy_chunks(chunks: &Vec<Vec<u8>>) -> (r: Vec<Vec<u8>>)
    ensures
        text::views(r@) == text::views(chunks@),
{
    let mut r: Vec<Vec<u8>> = Vec::new();
    let mut i: usize = 0;
    while i < chunks.len()
        invariant
            i <= chunks@.len(),
            r@.len() == i,
            forall|j: int| 0 <= j < i ==> (#[trigger] r@[j])@ == chunks@[j]@,
        decreases chunks@.len() - i,
    {
        r.push(text::copy_bytes(chunks[i].as_slice()));
        i += 1;
    }
    assert(text::views(r@) =~= text::views(chunks@));
    r
}

/// Take an inclusive byte range out of a list of chunks.
pub fn slice_chunks(chunks: &Vec<Vec<u8>>, range: BodyRange) -> (r: Vec<Vec<u8>>)
    requires
        range.start <= range.end < store::flatten(text::views(chunks@)).len(),
        store::flatten(text::views(chunks@)).len() <= u64::MAX,
    ensures
        store::flatten(text::views(r@)) == store::flatten(text::views(chunks@)).subrange(
            range.start as int,
            range.end + 1,
        ),
        store::well_sized(text::views(r@)),
{
    let ghost all = text::views(chunks@);
    let ghost body = store::flatten(all);
    let mut out: Vec<Vec<u8>> = Vec::new();
    let mut offset: u64 = 0;
    let mut i: usize = 0;
    assert(all.take(0) =~= Seq::<Seq<u8>>::empty());
    assert(text::views(out@) =~= Seq::<Seq<u8>>::empty());
    while i < chunks.len() && offset <= range.end
        invariant
            i <= chunks@.len(),
            all == text::views(chunks@),
            body == store::flatten(all),
            body.len() <= u64::MAX,
            range.start <= range.end < body.len(),
            offset == store::flatten(all.take(i as int)).len(),
            offset <= body.len(),
            store::flatten(all.take(i as int)) == body.take(offset as int),
            store::well_sized(text::views(out@)),
            store::flatten(text::views(out@)) == sliced(body, range, offset as int),
        decreases chunks@.len() - i,
    {
        let ghost chunk = all[i as int];
        proof {
            assert(all.take(i + 1) =~= all.take(i as int).push(chunk));
            store::lemma_flatten_push(all.take(i as int), chunk);
            assert(all =~= all.take(i + 1) + all.skip(i + 1));
            store::lemma_flatten_add(all.take(i + 1), all.skip(i + 1));
            assert(body.take(offset + chunk.len()) =~= store::flatten(all.take(i + 1)));
            assert(chunk =~= body.subrange(offset as int, offset + chunk.len()));
        }
        let chunk_end: u64 = offset + chunks[i].len() as u64;
        if chunk_end <= range.start {
            assert(sliced(body, range, chunk_end as int) =~= sliced(body, range, offset as int));
        } else {
            let start: usize = if range.start > offset {
                (range.start - offset) as usize
            } else {
                0
            };
            let end: usize = if range.end + 1 - offset < chunks[i].len() as u64 {
                (range.end + 1 - offset) as usize
            } else {
                chunks[i].len()
            };
            let piece: Vec<u8> = text::copy_range(chunks[i].as_slice(), start, end);
            let mut pieces: Vec<Vec<u8>> = split_into_chunks(piece.as_slice());
            let ghost before = text::views(out@);
            let ghost more = text::views(pieces@);
            out.append(&mut pieces);
            proof {
                assert(text::views(out@) =~= before + more);
                store::lemma_flatten_add(before, more);
                assert(piece@ =~= body.subrange(offset + start, offset + end));
                assert(sliced(body, range, chunk_end as int) =~= sliced(body, range, offset as int)
                    + piece@);
            }
        }
        offset = chunk_end;
        i += 1;
    }
    proof {
        if i == chunks@.len() {
            assert(all.take(i as int) =~= all);
        }
        assert(sliced(body, range, offset as int) =~= body.subrange(
            range.start as int,
            range.end + 1,
        ));
    }
    out
}

/// The part of a range that lies before an offset.
spec fn sliced(body: Seq<u8>, range: BodyRange, offset: int) -> Seq<u8> {
    let end = if offset <= range.end + 1 {
        offset
    } else {
        range.end + 1
    };
    if end <= range.start {
        Seq::empty()
    } else {
        body.subrange(range.start as int, end)
    }
}

/// What is found under a key is what is stored under it: each variant with that key and a
/// place of its hash, in the order in which they are stored, and nothing else.
pub proof fn law_found_is_stored(variants: Seq<VariantView>, key_hash: u64, key: KeyView)
    ensures
        matching(variants, key_hash, key) == variants.filter(
            |v: VariantView| v.id / 256 == key_hash && v.meta.key == key,
        ).map_values(|v: VariantView| (v.id, v.meta)),
    decreases variants.len(),
{
    let wanted = |v: VariantView| v.id / 256 == key_hash && v.meta.key == key;
    let told = |v: VariantView| (v.id, v.meta);
    reveal(Seq::filter);
    if variants.len() > 0 {
        let front = variants.drop_last();
        law_found_is_stored(front, key_hash, key);
        if wanted(variants.last()) {
            assert(front.filter(wanted).push(variants.last()).map_values(told) =~= front.filter(
                wanted,
            ).map_values(told).push(told(variants.last())));
        }
    }
    assert(matching(variants, key_hash, key) =~= variants.filter(wanted).map_values(told));
}

/// Taking out a key hash takes out every place of that hash, and leaves the rest as it was.
pub proof fn law_others_stay(variants: Seq<VariantView>, key_hash: u64)
    ensures
        others(variants, key_hash) == variants.filter(|v: VariantView| v.id / 256 != key_hash),
    decreases variants.len(),
{
    reveal(Seq::filter);
    if variants.len() > 0 {
        law_others_stay(variants.drop_last(), key_hash);
    }
}

/// An entry that was taken out is gone, and every other one is where it was, with its body.
pub proof fn law_dropped_is_gone(variants: Seq<VariantView>, id: EntryId, other: EntryId)
    requires
        forall|i: int, j: int|
            0 <= i < j < variants.len() ==> (#[trigger] variants[i]).id != (
            #[trigger] variants[j]).id,
    ensures
        !holds(dropped(variants, id), id),
        opened(dropped(variants, id), id, None) is None,
        other != id ==> holds(dropped(variants, id), other) == holds(variants, other),
        other != id ==> forall|part: Option<BodyRange>| #[trigger]
            opened(dropped(variants, id), other, part) == opened(variants, other, part),
        holds(variants, id) ==> dropped(variants, id).len() == variants.len() - 1,
{
    let after = dropped(variants, id);
    let k = index_of(variants, id);
    lemma_index_of(variants, id);
    if holds(variants, id) {
        assert(forall|i: int|
            0 <= i < after.len() ==> #[trigger] after[i] == variants[if i < k {
                i
            } else {
                i + 1
            }]);
        assert forall|i: int| 0 <= i < after.len() implies (#[trigger] after[i]).id != id by {
            if i < k {
                assert(variants[i].id != variants[k].id);
            } else {
                assert(variants[k].id != variants[i + 1].id);
            }
        }
        if other != id {
            lemma_index_of(variants, other);
            lemma_index_of(after, other);
            if holds(variants, other) {
                let i = index_of(variants, other);
                let j = if i < k {
                    i
                } else {
                    i - 1
                };
                assert(i != k);
                assert(after[j] == variants[i]);
                assert(holds(after, other));
                let n = index_of(after, other);
                let m = if n < k {
                    n
                } else {
                    n + 1
                };
                assert(variants[m].id == other);
                if m < i {
                    assert(variants[m].id != variants[i].id);
                } else if i < m {
                    assert(variants[i].id != variants[m].id);
                }
                assert(after[n] == variants[i]);
            }
            if holds(after, other) {
                let n = index_of(after, other);
                let m = if n < k {
                    n
                } else {
                    n + 1
                };
                assert(variants[m].id == other);
            }
        }
    }
}

/// Opening a part of a body gives the bytes at the places that were asked for, as far as
/// the body goes, and nothing where it does not reach.
pub proof fn law_opened_part(variants: Seq<VariantView>, id: EntryId, part: BodyRange, i: int)
    requires
        holds(variants, id),
        opened(variants, id, None) matches Some(body) && body.len() <= u64::MAX,
        part.start <= part.end,
    ensures
        match (opened(variants, id, None), opened(variants, id, Some(part))) {
            (Some(body), Some(bytes)) => {
                &&& part.start < body.len()
                &&& part.end < body.len() ==> bytes.len() == part.end - part.start + 1
                &&& part.end >= body.len() ==> bytes.len() == body.len() - part.start
                &&& 0 <= i < bytes.len() ==> bytes[i] == body[part.start + i]
            },
            (Some(body), None) => part.start >= body.len(),
            (None, _) => false,
        },
{
    lemma_index_of(variants, id);
}

/// Another slot of an identifier is under the same key hash.
pub proof fn law_slots_share_the_hash(id: EntryId, slot: u8)
    ensures
        slot_id(id, slot) / 256 == id / 256,
        slot_id(id, slot) % 256 == slot,
{
}

/// An identifier that is given back is handed out once less, and no other is touched.
pub proof fn law_released_once(reserved: Seq<EntryId>, id: EntryId, other: EntryId)
    requires
        reserved.no_duplicates(),
    ensures
        !released(reserved, id).contains(id),
        other != id ==> released(reserved, id).contains(other) == reserved.contains(other),
        reserved.contains(id) ==> released(reserved, id).len() == reserved.len() - 1,
        !reserved.contains(id) ==> released(reserved, id) == reserved,
{
    reserved.index_of_first_ensures(id);
    if let Some(i) = reserved.index_of_first(id) {
        let after = reserved.remove(i);
        assert forall|k: int| 0 <= k < after.len() implies #[trigger] after[k] == reserved[if k < i {
            k
        } else {
            k + 1
        }] by {}
        if after.contains(id) {
            let k = choose|k: int| 0 <= k < after.len() && after[k] == id;
            let m = if k < i {
                k
            } else {
                k + 1
            };
            assert(reserved[m] == reserved[i]);
        }
        if reserved.contains(other) && other != id {
            let m = choose|m: int| 0 <= m < reserved.len() && reserved[m] == other;
            let k = if m < i {
                m
            } else {
                m - 1
            };
            assert(after[k] == other);
        }
        if after.contains(other) {
            let k = choose|k: int| 0 <= k < after.len() && after[k] == other;
            let m = if k < i {
                k
            } else {
                k + 1
            };
            assert(reserved[m] == other);
        }
    }
}

/// A variant that was written holds what was written, under the identifier that it was given,
/// and says how much it is.
pub proof fn law_written_variant(write: MemoryWrite, last_used: u64)
    requires
        write.written().len() <= u64::MAX,
    ensures
        new_variant(write, last_used).id == write.id(),
        new_variant(write, last_used).body == write.written(),
        new_variant(write, last_used).meta.body_len == write.written().len(),
        new_variant(write, last_used).meta.key == write.meta().key,
        new_variant(write, last_used).meta.fields == write.meta().fields,
        new_variant(write, last_used).meta.status == write.meta().status,
        new_variant(write, last_used).last_used == last_used,
{
}

} // verus!
