//! The in-memory index of a disk store, and the bytes it is persisted as.
//!
//! The index is a derived artifact: losing it costs a directory scan, never an
//! entry. It holds no metadata beyond what eviction needs; the response headers and
//! policy are read from the entry file on lookup.
use std::collections::HashMap;

use vstd::prelude::*;
use vstd::relations;

use crate::http_cache::key;
use crate::http_cache::key::{entry_id, entry_key_hash, entry_slot, EntryId, MAX_SLOTS};
use crate::numbered;
use crate::numbered::numbers;

verus! {

pub const INDEX_MAGIC: u64 = 0x5845_444e_495f_4341;

/// Length of the header of the index file: magic, format, count, directory
/// modification time, checksum.
pub const INDEX_HEADER_LEN: usize = 28;

/// One stored variant, as the index knows it.
#[derive(Clone, Copy, Debug, PartialEq, Eq, Structural)]
pub struct Record {
    pub key_hash: u64,
    pub slot: u8,
    pub size: u32,
    pub last_used: u32,
}

/// What the index knows of a variant besides its key.
#[derive(Clone, Copy, Debug, PartialEq, Eq, Structural)]
pub struct Variant {
    pub slot: u8,
    pub size: u32,
    pub last_used: u32,
}

impl Record {
    /// The identifier of the variant. Only the lower 56 bits of its key hash find
    /// room in it.
    pub open spec fn id(self) -> EntryId {
        ((self.key_hash % key::HASH_LIMIT) * 256 + self.slot) as u64
    }

    /// Whether an identifier is the one of this variant.
    pub open spec fn is(self, id: EntryId) -> bool {
        self.key_hash == id / 256 && self.slot == id % 256
    }

    pub open spec fn variant(self) -> Variant {
        Variant { slot: self.slot, size: self.size, last_used: self.last_used }
    }
}

/// The size of all the variants together.
pub open spec fn total(records: Seq<Record>) -> nat
    decreases records.len(),
{
    if records.len() == 0 {
        0
    } else {
        total(records.drop_last()) + records.last().size as nat
    }
}

/// The index of the variant with the given identifier, or the number of variants
/// without one.
pub open spec fn index_of(records: Seq<Record>, id: EntryId) -> int
    decreases records.len(),
{
    if records.len() == 0 {
        0
    } else {
        let before = index_of(records.drop_last(), id);
        if before < records.len() - 1 {
            before
        } else if records.last().is(id) {
            records.len() - 1
        } else {
            records.len() as int
        }
    }
}

/// Whether a variant with the given identifier is known.
pub open spec fn knows(records: Seq<Record>, id: EntryId) -> bool {
    index_of(records, id) < records.len()
}

/// The records without the one of the given identifier.
pub open spec fn dropped(records: Seq<Record>, id: EntryId) -> Seq<Record> {
    if knows(records, id) {
        records.remove(index_of(records, id))
    } else {
        records
    }
}

/// The records with one more, in place of one with the same identifier.
pub open spec fn inserted(records: Seq<Record>, record: Record) -> Seq<Record> {
    dropped(records, record.id()).push(record)
}

/// The records under other key hashes.
pub open spec fn others(records: Seq<Record>, key_hash: u64) -> Seq<Record>
    decreases records.len(),
{
    if records.len() == 0 {
        seq![]
    } else if records.last().key_hash == key_hash {
        others(records.drop_last(), key_hash)
    } else {
        others(records.drop_last(), key_hash).push(records.last())
    }
}

/// The records under a key hash.
pub open spec fn under(records: Seq<Record>, key_hash: u64) -> Seq<Record>
    decreases records.len(),
{
    if records.len() == 0 {
        seq![]
    } else if records.last().key_hash == key_hash {
        under(records.drop_last(), key_hash).push(records.last())
    } else {
        under(records.drop_last(), key_hash)
    }
}

/// The identifiers of the records.
pub open spec fn ids(records: Seq<Record>) -> Seq<EntryId> {
    Seq::new(records.len(), |i: int| records[i].id())
}

/// Whether no two records have the same identifier and every key hash fits into
/// one.
pub open spec fn proper(records: Seq<Record>) -> bool {
    &&& forall|i: int| 0 <= i < records.len() ==> (#[trigger] records[i]).key_hash < key::HASH_LIMIT
    &&& forall|i: int, j: int|
        0 <= i < j < records.len() ==> (#[trigger] records[i]).id() != (#[trigger] records[j]).id()
}

/// Whether inserting a record leaves another one alone.
pub open spec fn leaves(record: Record, other: Record) -> bool {
    !other.is(record.id())
}

/// Whether no record stands where inserting a later one would have taken it out.
pub open spec fn settled(records: Seq<Record>) -> bool {
    forall|i: int, j: int|
        0 <= i < j < records.len() ==> #[trigger] leaves(records[j], records[i])
}

/// Whether inserting any of the records leaves the others alone, so that they can be
/// inserted in any order. Only a key hash that does not fit into an identifier can be in
/// the way of that.
pub open spec fn undisturbed(records: Seq<Record>) -> bool {
    forall|i: int, j: int|
        0 <= i < records.len() && 0 <= j < records.len() && i != j ==> #[trigger] leaves(
            records[j],
            records[i],
        )
}

/// When a variant was used and which it is: what eviction orders by.
pub open spec fn ages(records: Seq<Record>) -> Seq<(u32, EntryId)> {
    Seq::new(records.len(), |i: int| (records[i].last_used, records[i].id()))
}

pub open spec fn no_later(a: (u32, EntryId), b: (u32, EntryId)) -> bool {
    a.0 < b.0 || (a.0 == b.0 && a.1 <= b.1)
}

pub open spec fn no_later_fn() -> spec_fn((u32, EntryId), (u32, EntryId)) -> bool {
    |a: (u32, EntryId), b: (u32, EntryId)| no_later(a, b)
}

/// The variants in the order in which eviction considers them: the least recently
/// used first, and by identifier where two were used in the same second.
pub open spec fn eviction_order(records: Seq<Record>) -> Seq<(u32, EntryId)> {
    ages(records).sort_by(no_later_fn())
}

/// What is left once variants were dropped in the given order until the targets are
/// met, and which variants were dropped.
pub open spec fn evict_run(
    records: Seq<Record>,
    order: Seq<(u32, EntryId)>,
    target_bytes: nat,
    target_entries: nat,
) -> (Seq<Record>, Seq<EntryId>)
    decreases order.len(),
{
    if order.len() == 0 || (total(records) <= target_bytes && records.len() <= target_entries) {
        (records, seq![])
    } else if knows(records, order[0].1) {
        let rest = evict_run(
            dropped(records, order[0].1),
            order.skip(1),
            target_bytes,
            target_entries,
        );
        (rest.0, seq![order[0].1] + rest.1)
    } else {
        evict_run(records, order.skip(1), target_bytes, target_entries)
    }
}

/// What eviction to the given budgets leaves, and which variants it drops: nothing
/// while the budgets are met, and otherwise enough for some headroom, so that
/// eviction does not run on every commit.
pub open spec fn evicted(records: Seq<Record>, max_bytes: u64, max_entries: usize) -> (
    Seq<Record>,
    Seq<EntryId>,
) {
    if total(records) <= max_bytes && records.len() <= max_entries {
        (records, seq![])
    } else {
        evict_run(
            records,
            eviction_order(records),
            (max_bytes / 10 * 9) as nat,
            (max_entries / 10 * 9) as nat,
        )
    }
}

pub proof fn lemma_index_of(records: Seq<Record>, id: EntryId)
    ensures
        0 <= index_of(records, id) <= records.len(),
        knows(records, id) ==> records[index_of(records, id)].is(id),
        knows(records, id) <==> exists|i: int|
            0 <= i < records.len() && (#[trigger] records[i]).is(id),
        forall|i: int| 0 <= i < index_of(records, id) ==> !(#[trigger] records[i]).is(id),
    decreases records.len(),
{
    if records.len() > 0 {
        let front = records.drop_last();
        lemma_index_of(front, id);
        assert forall|i: int| 0 <= i < index_of(records, id) implies !(#[trigger] records[i]).is(
            id,
        ) by {
            if i < front.len() {
                assert(front[i] == records[i]);
                if front[i].is(id) {
                    assert(knows(front, id));
                }
            }
        }
        if knows(front, id) {
            assert(records[index_of(front, id)].is(id));
        }
    }
}

proof fn lemma_index_is(records: Seq<Record>, id: EntryId, i: int)
    requires
        0 <= i <= records.len(),
        i < records.len() ==> records[i].is(id),
        forall|j: int| 0 <= j < i ==> !(#[trigger] records[j]).is(id),
    ensures
        index_of(records, id) == i,
{
    lemma_index_of(records, id);
    let k = index_of(records, id);
    if k < i {
        assert(!records[k].is(id));
    } else if i < k {
        assert(!records[i].is(id));
    }
}

proof fn lemma_total_push(records: Seq<Record>, record: Record)
    ensures
        total(records.push(record)) == total(records) + record.size,
{
    assert(records.push(record).drop_last() =~= records);
}

pub proof fn lemma_total_remove(records: Seq<Record>, i: int)
    requires
        0 <= i < records.len(),
    ensures
        total(records.remove(i)) == total(records) - records[i].size,
    decreases records.len(),
{
    if i == records.len() - 1 {
        assert(records.remove(i) =~= records.drop_last());
    } else {
        lemma_total_remove(records.drop_last(), i);
        assert(records.remove(i).drop_last() =~= records.drop_last().remove(i));
        assert(records.remove(i).last() == records.last());
    }
}

/// The variants of records.
pub open spec fn variants_of(records: Seq<Record>) -> Seq<Variant> {
    Seq::new(records.len(), |i: int| records[i].variant())
}

/// Whether a list holds the given records, those of each key hash in the same order.
pub open spec fn is_listing(list: Seq<Record>, records: Seq<Record>) -> bool {
    forall|key_hash: u64| #[trigger] under(list, key_hash) == under(records, key_hash)
}

/// The index of a disk store.
pub struct Index {
    entries: HashMap<u64, Vec<Variant>>,
    /// Slots handed to writers that have not committed or aborted yet.
    reserved: HashMap<u64, Vec<u8>>,
    bytes: u64,
    count: usize,
    dirty: bool,
    /// The known variants, in the order in which they were inserted.
    records: Ghost<Seq<Record>>,
}

/// Whether the variants under each key hash are those of the records under it.
spec fn held(entries: Map<u64, Vec<Variant>>, records: Seq<Record>) -> bool {
    forall|key_hash: u64|
        #![trigger entries.contains_key(key_hash)]
        #![trigger under(records, key_hash)]
        held_under(entries, records, key_hash)
}

spec fn held_under(entries: Map<u64, Vec<Variant>>, records: Seq<Record>, key_hash: u64) -> bool {
    &&& entries.contains_key(key_hash) == (under(records, key_hash).len() > 0)
    &&& entries.contains_key(key_hash) ==> entries[key_hash]@ == variants_of(
        under(records, key_hash),
    )
}

/// The pairs of a number and a slot under it.
pub open spec fn pairs(slots: Map<u64, Vec<u8>>) -> Set<(u64, u8)> {
    Set::new(|pair: (u64, u8)| slots.contains_key(pair.0) && slots[pair.0]@.contains(pair.1))
}

/// Whether no slot stands twice under a number, and no number is without one.
spec fn each_once(slots: Map<u64, Vec<u8>>) -> bool {
    forall|key_hash: u64| #[trigger]
        slots.contains_key(key_hash) ==> slots[key_hash]@.len() > 0
            && slots[key_hash]@.no_duplicates()
}

/// `sort_unstable` of std puts pairs of numbers into lexicographic order, keeping
/// each as often as it occurs.
#[verifier::external_body]
fn sort_ages(list: &mut Vec<(u32, EntryId)>)
    ensures
        relations::sorted_by(final(list)@, no_later_fn()),
        final(list)@.to_multiset() == old(list)@.to_multiset(),
{
    list.sort_unstable();
}

proof fn lemma_order_total()
    ensures
        relations::total_ordering(no_later_fn()),
{
}

impl Index {
    /// The known variants, in the order in which they were inserted.
    pub closed spec fn records(&self) -> Seq<Record> {
        self.records@
    }

    /// The slots handed to writers, with the key hashes they are under.
    pub closed spec fn reserved(&self) -> Set<(u64, u8)> {
        pairs(self.reserved@)
    }

    pub closed spec fn spec_is_dirty(&self) -> bool {
        self.dirty
    }

    /// What holds of every index: it accounts for its variants and their sizes, and none
    /// of them is one that another replaced.
    pub closed spec fn wf(&self) -> bool {
        &&& held(self.entries@, self.records@)
        &&& self.bytes == total(self.records@)
        &&& self.count == self.records@.len()
        &&& settled(self.records@)
        &&& each_once(self.reserved@)
    }

    /// The variants of an index and their sizes can be counted, and no variant stands
    /// where inserting a later one would have taken it out.
    pub proof fn law_index_invariant(&self)
        requires
            self.wf(),
        ensures
            accountable(self.records()),
            settled(self.records()),
    {
    }

    /// An index without variants.
    pub fn new() -> (r: Index)
        ensures
            r.wf(),
            r.records() == Seq::<Record>::empty(),
            r.reserved() == Set::<(u64, u8)>::empty(),
            !r.spec_is_dirty(),
    {
        broadcast use vstd::std_specs::hash::group_hash_axioms;

        let r: Index = Index {
            entries: HashMap::new(),
            reserved: HashMap::new(),
            bytes: 0,
            count: 0,
            dirty: false,
            records: Ghost(Seq::empty()),
        };
        assert(r.reserved() =~= Set::<(u64, u8)>::empty());
        r
    }

    pub fn bytes(&self) -> (r: u64)
        requires
            self.wf(),
        ensures
            r == total(self.records()),
    {
        self.bytes
    }

    pub fn count(&self) -> (r: usize)
        requires
            self.wf(),
        ensures
            r == self.records().len(),
    {
        self.count
    }

    pub fn is_dirty(&self) -> (r: bool)
        ensures
            r == self.spec_is_dirty(),
    {
        self.dirty
    }

    pub fn mark_clean(&mut self)
        requires
            old(self).wf(),
        ensures
            final(self).wf(),
            final(self).records() == old(self).records(),
            final(self).reserved() == old(self).reserved(),
            !final(self).spec_is_dirty(),
    {
        self.dirty = false;
    }

    /// The known variants, those of each key hash in the order in which they were inserted.
    pub fn list(&self) -> (r: Vec<Record>)
        requires
            self.wf(),
        ensures
            is_listing(r@, self.records()),
    {
        broadcast use vstd::std_specs::hash::group_hash_axioms;

        let hashes: Vec<u64> = numbers(&self.entries);
        let mut r: Vec<Record> = Vec::new();
        let mut i: usize = 0;
        while i < hashes.len()
            invariant
                i <= hashes@.len(),
                self.wf(),
                hashes@.no_duplicates(),
                forall|key_hash: u64| #[trigger]
                    hashes@.contains(key_hash) <==> self.entries@.contains_key(key_hash),
                forall|key_hash: u64| #[trigger]
                    under(r@, key_hash) == if hashes@.take(i as int).contains(key_hash) {
                        under(self.records@, key_hash)
                    } else {
                        seq![]
                    },
            decreases hashes@.len() - i,
        {
            broadcast use vstd::std_specs::hash::group_hash_axioms;

            let key_hash: u64 = hashes[i];
            let mut group: Vec<Record> = self.variants(key_hash);
            let ghost before = r@;
            let ghost given = group@;
            r.append(&mut group);
            proof {
                numbered::lemma_take_more(hashes@, i as int);
                if hashes@.take(i as int).contains(key_hash) {
                    let j = choose|j: int| 0 <= j < i && hashes@.take(i as int)[j] == key_hash;
                    assert(hashes@[j] == hashes@[i as int]);
                }
                assert forall|k: u64| #[trigger] under(r@, k) == if hashes@.take(
                    i + 1,
                ).contains(k) {
                    under(self.records@, k)
                } else {
                    seq![]
                } by {
                    lemma_under_all(self.records@, key_hash);
                    lemma_under_joined(before, given, k);
                    lemma_under_group(given, key_hash, k);
                }
            }
            i += 1;
        }
        proof {
            assert(hashes@.take(i as int) =~= hashes@);
            assert forall|key_hash: u64| #[trigger] under(r@, key_hash) == under(
                self.records@,
                key_hash,
            ) by {
                assert(held_under(self.entries@, self.records@, key_hash));
                assert(hashes@.contains(key_hash) == self.entries@.contains_key(key_hash));
                if !hashes@.contains(key_hash) {
                    assert(under(self.records@, key_hash) =~= seq![]);
                }
            }
        }
        r
    }

    /// The variants under a key hash.
    pub fn variants(&self, key_hash: u64) -> (r: Vec<Record>)
        requires
            self.wf(),
        ensures
            r@ == under(self.records(), key_hash),
    {
        broadcast use vstd::std_specs::hash::group_hash_axioms;

        let ghost all = under(self.records@, key_hash);
        let mut r: Vec<Record> = Vec::new();
        proof {
            lemma_under_all(self.records@, key_hash);
            assert(held_under(self.entries@, self.records@, key_hash));
        }
        match self.entries.get(&key_hash) {
            Some(variants) => {
                let mut i: usize = 0;
                while i < variants.len()
                    invariant
                        i <= variants@.len(),
                        variants@ == variants_of(all),
                        forall|j: int| 0 <= j < all.len() ==> (#[trigger] all[j]).key_hash == key_hash,
                        r@ == all.take(i as int),
                    decreases variants@.len() - i,
                {
                    let variant: Variant = variants[i];
                    r.push(
                        Record {
                            key_hash,
                            slot: variant.slot,
                            size: variant.size,
                            last_used: variant.last_used,
                        },
                    );
                    assert(all[i as int].variant() == variant);
                    assert(r@ =~= all.take(i + 1));
                    i += 1;
                }
                assert(all.take(i as int) =~= all);
            },
            None => {
                assert(all =~= seq![]);
            },
        }
        r
    }

    pub fn get(&self, id: EntryId) -> (r: Option<Variant>)
        requires
            self.wf(),
        ensures
            r == if knows(self.records(), id) {
                Some(self.records()[index_of(self.records(), id)].variant())
            } else {
                None
            },
    {
        broadcast use vstd::std_specs::hash::group_hash_axioms;

        let key_hash: u64 = entry_key_hash(id);
        proof {
            lemma_place(self.records@, id);
            assert(held_under(self.entries@, self.records@, key_hash));
        }
        match self.entries.get(&key_hash) {
            Some(variants) => {
                let i: usize = find_slot(variants, entry_slot(id));
                proof {
                    lemma_slot_at(under(self.records@, key_hash), entry_slot_of(id));
                }
                if i < variants.len() {
                    Some(variants[i])
                } else {
                    None
                }
            },
            None => None,
        }
    }

    /// The identifiers of all the variants, those of each key hash in the order in which
    /// they were inserted.
    pub fn all(&self) -> (r: Vec<EntryId>)
        requires
            self.wf(),
        ensures
            is_id_list(r@, self.records()),
    {
        let list: Vec<Record> = self.list();
        let mut r: Vec<EntryId> = Vec::new();
        let mut i: usize = 0;
        while i < list.len()
            invariant
                i <= list@.len(),
                r@.len() == i,
                forall|j: int| 0 <= j < i ==> r@[j] == (#[trigger] list@[j]).id(),
            decreases list@.len() - i,
        {
            r.push(entry_id(list[i].key_hash, list[i].slot));
            i += 1;
        }
        assert(r@ =~= ids(list@));
        r
    }

    fn is_used(&self, key_hash: u64, slot: u8) -> (r: bool)
        requires
            self.wf(),
        ensures
            r == slot_used(self.records(), self.reserved(), key_hash, slot),
    {
        broadcast use vstd::std_specs::hash::group_hash_axioms;

        let ghost all = under(self.records@, key_hash);
        proof {
            lemma_under_all(self.records@, key_hash);
            lemma_used_under(self.records@, key_hash, slot);
            assert(held_under(self.entries@, self.records@, key_hash));
        }
        match self.entries.get(&key_hash) {
            Some(variants) => {
                let i: usize = find_slot(variants, slot);
                proof {
                    lemma_slot_at(all, slot);
                }
                if i < variants.len() {
                    assert(all[i as int].slot == slot);
                    return true;
                }
            },
            None => {
                proof {
                    lemma_slot_at(all, slot);
                }
            },
        }
        match self.reserved.get(&key_hash) {
            Some(slots) => has_slot(slots, slot),
            None => false,
        }
    }

    /// Reserve a slot for a writer, or `None` when this key already has as many
    /// variants as it may have.
    pub fn reserve_slot(&mut self, key_hash: u64) -> (r: Option<u8>)
        requires
            old(self).wf(),
        ensures
            final(self).wf(),
            final(self).records() == old(self).records(),
            final(self).spec_is_dirty() == old(self).spec_is_dirty(),
            match r {
                Some(slot) => {
                    &&& slot < MAX_SLOTS
                    &&& !slot_used(old(self).records(), old(self).reserved(), key_hash, slot)
                    &&& forall|s: u8|
                        s < slot ==> #[trigger] slot_used(
                            old(self).records(),
                            old(self).reserved(),
                            key_hash,
                            s,
                        )
                    &&& final(self).reserved() == old(self).reserved().insert((key_hash, slot))
                },
                None => {
                    &&& final(self).reserved() == old(self).reserved()
                    &&& forall|s: u8|
                        s < MAX_SLOTS ==> #[trigger] slot_used(
                            old(self).records(),
                            old(self).reserved(),
                            key_hash,
                            s,
                        )
                },
            },
    {
        broadcast use vstd::std_specs::hash::group_hash_axioms;

        let mut slot: u8 = 0;
        while slot < MAX_SLOTS
            invariant
                *self == *old(self),
                self.wf(),
                slot <= MAX_SLOTS,
                forall|s: u8|
                    s < slot ==> #[trigger] slot_used(
                        self.records(),
                        self.reserved(),
                        key_hash,
                        s,
                    ),
            decreases MAX_SLOTS - slot,
        {
            broadcast use vstd::std_specs::hash::group_hash_axioms;

            if !self.is_used(key_hash, slot) {
                assert(!pairs(self.reserved@).contains((key_hash, slot)));
                put_slot(&mut self.reserved, key_hash, slot);
                return Some(slot);
            }
            slot += 1;
        }
        None
    }

    /// Give back a slot that was handed to a writer.
    pub fn release_slot(&mut self, key_hash: u64, slot: u8)
        requires
            old(self).wf(),
        ensures
            final(self).wf(),
            final(self).records() == old(self).records(),
            final(self).spec_is_dirty() == old(self).spec_is_dirty(),
            final(self).reserved() == old(self).reserved().remove((key_hash, slot)),
    {
        broadcast use vstd::std_specs::hash::group_hash_axioms;

        let ghost before = self.reserved@;
        match self.reserved.remove(&key_hash) {
            Some(slots) => {
                let ghost given = slots@;
                let left: Vec<u8> = without_slot(slots, slot);
                if left.len() > 0 {
                    self.reserved.insert(key_hash, left);
                } else {
                    assert forall|x: u8| given.contains(x) implies x == slot by {
                        if x != slot {
                            assert(left@.contains(x));
                        }
                    }
                }
            },
            None => {},
        }
        assert(pairs(self.reserved@) =~= pairs(before).remove((key_hash, slot)));
    }

    /// Record a variant, in place of one with the same identifier.
    pub fn insert(&mut self, key_hash: u64, variant: Variant)
        requires
            old(self).wf(),
            accountable(
                inserted(
                    old(self).records(),
                    (Record {
                        key_hash,
                        slot: variant.slot,
                        size: variant.size,
                        last_used: variant.last_used,
                    }),
                ),
            ),
        ensures
            final(self).wf(),
            final(self).records() == inserted(
                old(self).records(),
                Record {
                    key_hash,
                    slot: variant.slot,
                    size: variant.size,
                    last_used: variant.last_used,
                },
            ),
            final(self).reserved() == old(self).reserved(),
            final(self).spec_is_dirty(),
    {
        broadcast use vstd::std_specs::hash::group_hash_axioms;

        let ghost record: Record = Record {
            key_hash,
            slot: variant.slot,
            size: variant.size,
            last_used: variant.last_used,
        };
        proof {
            lemma_inserted_settled(self.records@, record);
            lemma_index_of(self.records@, record.id());
        }
        self.remove(entry_id(key_hash, variant.slot));
        let ghost kept = self.records@;
        let ghost entries = self.entries@;
        proof {
            lemma_total_push(kept, record);
            assert(held_under(entries, kept, key_hash));
        }
        self.bytes = self.bytes + variant.size as u64;
        self.count = self.count + 1;
        let mut variants: Vec<Variant> = match self.entries.remove(&key_hash) {
            Some(variants) => variants,
            None => Vec::new(),
        };
        assert(variants@ =~= variants_of(under(kept, key_hash)));
        variants.push(variant);
        let ghost grown = variants@;
        self.entries.insert(key_hash, variants);
        self.dirty = true;
        proof {
            self.records = Ghost(kept.push(record));
            assert forall|k: u64|
                #![trigger self.entries@.contains_key(k)]
                #![trigger under(self.records@, k)]
                held_under(self.entries@, self.records@, k) by {
                lemma_under_push(kept, record, k);
                assert(held_under(entries, kept, k));
                if k == key_hash {
                    assert(grown =~= variants_of(under(kept, k).push(record)));
                }
            }
        }
    }

    /// Forget a variant; says whether it was known.
    pub fn remove(&mut self, id: EntryId) -> (r: bool)
        requires
            old(self).wf(),
        ensures
            final(self).wf(),
            r == knows(old(self).records(), id),
            final(self).records() == dropped(old(self).records(), id),
            final(self).reserved() == old(self).reserved(),
            final(self).spec_is_dirty() == (r || old(self).spec_is_dirty()),
    {
        broadcast use vstd::std_specs::hash::group_hash_axioms;

        let key_hash: u64 = entry_key_hash(id);
        let slot: u8 = entry_slot(id);
        let ghost records = self.records@;
        let ghost entries = self.entries@;
        let ghost all = under(records, key_hash);
        proof {
            lemma_place(records, id);
            lemma_slot_at(all, slot);
            assert(held_under(entries, records, key_hash));
        }
        let mut variants: Vec<Variant> = match self.entries.remove(&key_hash) {
            Some(variants) => variants,
            None => return false,
        };
        let i: usize = find_slot(&variants, slot);
        if i >= variants.len() {
            self.entries.insert(key_hash, variants);
            assert(self.entries@ =~= entries);
            return false;
        }
        let gone: Variant = variants.remove(i);
        proof {
            let at = index_of(records, id);
            lemma_index_of(records, id);
            assert(records[at] == all[i as int]);
            assert(gone == all[i as int].variant());
            lemma_total_remove(records, at);
            lemma_removed_settled(records, at);
            assert(variants@ =~= variants_of(all.remove(i as int)));
        }
        let ghost left = variants@;
        if variants.len() > 0 {
            self.entries.insert(key_hash, variants);
        }
        self.bytes = self.bytes - gone.size as u64;
        self.count = self.count - 1;
        self.dirty = true;
        proof {
            self.records = Ghost(dropped(records, id));
            assert forall|k: u64|
                #![trigger self.entries@.contains_key(k)]
                #![trigger under(self.records@, k)]
                held_under(self.entries@, self.records@, k) by {
                assert(held_under(entries, records, k));
                lemma_dropped_under(records, id, k);
            }
        }
        true
    }

    /// Forget every variant under a key hash, and say which these were.
    pub fn remove_key(&mut self, key_hash: u64) -> (r: Vec<EntryId>)
        requires
            old(self).wf(),
        ensures
            final(self).wf(),
            r@ == ids(under(old(self).records(), key_hash)),
            final(self).records() == others(old(self).records(), key_hash),
            final(self).reserved() == old(self).reserved(),
            final(self).spec_is_dirty() == (r@.len() > 0 || old(self).spec_is_dirty()),
    {
        broadcast use vstd::std_specs::hash::group_hash_axioms;

        let mut gone: Vec<EntryId> = Vec::new();
        let ghost records = self.records@;
        let ghost entries = self.entries@;
        let ghost all = under(records, key_hash);
        proof {
            lemma_under_all(records, key_hash);
            lemma_parted(records, key_hash);
            assert(held_under(entries, records, key_hash));
        }
        let variants: Vec<Variant> = match self.entries.remove(&key_hash) {
            Some(variants) => variants,
            None => {
                proof {
                    lemma_others_same(records, key_hash);
                    assert(self.entries@ =~= entries);
                    assert(gone@ =~= ids(all));
                }
                return gone;
            },
        };
        let mut i: usize = 0;
        assert(all.take(0) =~= seq![]);
        while i < variants.len()
            invariant
                i <= variants@.len(),
                variants@ == variants_of(all),
                self.reserved@ == old(self).reserved@,
                self.dirty == old(self).dirty,
                self.entries@ == entries.remove(key_hash),
                total(all) <= total(records),
                all.len() <= records.len(),
                total(records) <= u64::MAX,
                total(all.take(i as int)) <= total(all),
                self.bytes == total(records) - total(all.take(i as int)),
                self.count == records.len() - i,
                forall|j: int| 0 <= j < all.len() ==> (#[trigger] all[j]).key_hash == key_hash,
                gone@ == ids(all.take(i as int)),
            decreases variants@.len() - i,
        {
            let variant: Variant = variants[i];
            proof {
                assert(all[i as int].variant() == variant);
                assert(all.take(i + 1).drop_last() =~= all.take(i as int));
                lemma_total_prefix(all, i + 1);
            }
            self.bytes = self.bytes - variant.size as u64;
            self.count = self.count - 1;
            gone.push(entry_id(key_hash, variant.slot));
            assert(gone@ =~= ids(all.take(i + 1)));
            i += 1;
        }
        self.dirty = true;
        proof {
            assert(all.take(i as int) =~= all);
            lemma_others_settled(records, key_hash);
            self.records = Ghost(others(records, key_hash));
            assert forall|k: u64|
                #![trigger self.entries@.contains_key(k)]
                #![trigger under(self.records@, k)]
                held_under(self.entries@, self.records@, k) by {
                assert(held_under(entries, records, k));
                lemma_others_under(records, key_hash, k);
            }
        }
        gone
    }

    /// Forget everything, and say what this was.
    pub fn clear(&mut self) -> (r: Vec<EntryId>)
        requires
            old(self).wf(),
        ensures
            final(self).wf(),
            is_id_list(r@, old(self).records()),
            final(self).records() == Seq::<Record>::empty(),
            final(self).reserved() == old(self).reserved(),
            final(self).spec_is_dirty(),
    {
        broadcast use vstd::std_specs::hash::group_hash_axioms;

        let gone: Vec<EntryId> = self.all();
        self.entries.clear();
        self.bytes = 0;
        self.count = 0;
        self.dirty = true;
        proof {
            self.records = Ghost(Seq::empty());
        }
        gone
    }

    /// Note that a variant was used at the given second.
    pub fn touch(&mut self, id: EntryId, now: u32)
        requires
            old(self).wf(),
        ensures
            final(self).wf(),
            final(self).reserved() == old(self).reserved(),
            final(self).records() == touched(old(self).records(), id, now),
            final(self).spec_is_dirty() == (knows(old(self).records(), id) || old(
                self,
            ).spec_is_dirty()),
    {
        broadcast use vstd::std_specs::hash::group_hash_axioms;

        let key_hash: u64 = entry_key_hash(id);
        let slot: u8 = entry_slot(id);
        let ghost records = self.records@;
        let ghost entries = self.entries@;
        let ghost all = under(records, key_hash);
        proof {
            lemma_place(records, id);
            lemma_slot_at(all, slot);
            assert(held_under(entries, records, key_hash));
        }
        let mut variants: Vec<Variant> = match self.entries.remove(&key_hash) {
            Some(variants) => variants,
            None => return,
        };
        let i: usize = find_slot(&variants, slot);
        if i >= variants.len() {
            self.entries.insert(key_hash, variants);
            assert(self.entries@ =~= entries);
            return;
        }
        let mut variant: Variant = variants[i];
        variant.last_used = now;
        variants.set(i, variant);
        let ghost after = variants@;
        self.entries.insert(key_hash, variants);
        self.dirty = true;
        proof {
            let at = index_of(records, id);
            lemma_index_of(records, id);
            let record = Record { last_used: now, ..records[at] };
            assert(records[at] == all[i as int]);
            assert(after =~= variants_of(all.update(i as int, record)));
            lemma_total_update(records, at, record);
            self.records = Ghost(touched(records, id, now));
            assert forall|a: int, b: int| 0 <= a < b < records.len() implies #[trigger] leaves(
                self.records@[b],
                self.records@[a],
            ) by {
                assert(leaves(records[b], records[a]));
            }
            assert forall|k: u64|
                #![trigger self.entries@.contains_key(k)]
                #![trigger under(self.records@, k)]
                held_under(self.entries@, self.records@, k) by {
                assert(held_under(entries, records, k));
                lemma_touched_under(records, id, now, k);
            }
        }
    }

    /// Drop the least recently used variants so that the store fits in its budgets
    /// again, and say which these were.
    pub fn evict_to(&mut self, max_bytes: u64, max_entries: usize) -> (r: Vec<EntryId>)
        requires
            old(self).wf(),
        ensures
            final(self).wf(),
            final(self).records() == evicted(old(self).records(), max_bytes, max_entries).0,
            r@ == evicted(old(self).records(), max_bytes, max_entries).1,
            final(self).reserved() == old(self).reserved(),
            final(self).spec_is_dirty() == (r@.len() > 0 || old(self).spec_is_dirty()),
    {
        let mut gone: Vec<EntryId> = Vec::new();
        if self.bytes <= max_bytes && self.count <= max_entries {
            return gone;
        }
        let target_bytes: u64 = max_bytes / 10 * 9;
        let target_entries: usize = max_entries / 10 * 9;
        let list: Vec<Record> = self.list();
        let mut order: Vec<(u32, EntryId)> = Vec::new();
        let mut i: usize = 0;
        while i < list.len()
            invariant
                i <= list@.len(),
                order@.len() == i,
                forall|j: int|
                    0 <= j < i ==> order@[j] == ((#[trigger] list@[j]).last_used, list@[j].id()),
            decreases list@.len() - i,
        {
            let record: Record = list[i];
            order.push((record.last_used, entry_id(record.key_hash, record.slot)));
            i += 1;
        }
        assert(order@ =~= ages(list@));
        sort_ages(&mut order);
        proof {
            lemma_listing_ages(list@, self.records@);
            lemma_order_total();
            ages(self.records@).lemma_sort_by_ensures(no_later_fn());
            vstd::seq_lib::lemma_sorted_unique(
                order@,
                eviction_order(self.records@),
                no_later_fn(),
            );
        }
        let ghost start = self.records@;
        let ghost whole = evict_run(
            start,
            order@,
            target_bytes as nat,
            target_entries as nat,
        );
        let mut k: usize = 0;
        assert(order@.skip(0) =~= order@);
        assert(gone@ + whole.1 =~= whole.1);
        while k < order.len() && !(self.bytes <= target_bytes && self.count <= target_entries)
            invariant
                self.wf(),
                k <= order@.len(),
                self.reserved() == old(self).reserved(),
                self.dirty == (gone@.len() > 0 || old(self).dirty),
                evict_run(
                    self.records@,
                    order@.skip(k as int),
                    target_bytes as nat,
                    target_entries as nat,
                ).0 == whole.0,
                gone@ + evict_run(
                    self.records@,
                    order@.skip(k as int),
                    target_bytes as nat,
                    target_entries as nat,
                ).1 == whole.1,
            decreases order@.len() - k,
        {
            let id: EntryId = order[k].1;
            let ghost rest = order@.skip(k as int);
            assert(rest[0] == order@[k as int]);
            assert(rest.skip(1) =~= order@.skip(k + 1));
            let ghost before = gone@;
            let ghost current = self.records@;
            if self.remove(id) {
                gone.push(id);
                assert(before + (seq![id] + evict_run(
                    dropped(current, id),
                    rest.skip(1),
                    target_bytes as nat,
                    target_entries as nat,
                ).1) =~= gone@ + evict_run(
                    dropped(current, id),
                    rest.skip(1),
                    target_bytes as nat,
                    target_entries as nat,
                ).1);
            }
            k += 1;
        }
        assert(evict_run(
            self.records@,
            order@.skip(k as int),
            target_bytes as nat,
            target_entries as nat,
        ).1 =~= Seq::<EntryId>::empty());
        assert(gone@ =~= whole.1);
        gone
    }
}

/// The records after one of them was used at the given second.
pub open spec fn touched(records: Seq<Record>, id: EntryId, now: u32) -> Seq<Record> {
    if knows(records, id) {
        let i = index_of(records, id);
        records.update(i, Record { last_used: now, ..records[i] })
    } else {
        records
    }
}

/// Whether records can be counted, and their sizes added up.
pub open spec fn accountable(records: Seq<Record>) -> bool {
    total(records) <= u64::MAX && records.len() <= usize::MAX
}

/// Whether identifiers are those of the records in a list of them.
pub open spec fn is_id_list(list: Seq<EntryId>, records: Seq<Record>) -> bool {
    exists|listing: Seq<Record>| #[trigger] is_listing(listing, records) && list == ids(listing)
}

/// Whether a slot under a key hash is taken by a variant or handed to a writer.
pub open spec fn slot_used(
    records: Seq<Record>,
    reserved: Set<(u64, u8)>,
    key_hash: u64,
    slot: u8,
) -> bool {
    ||| exists|i: int|
        0 <= i < records.len() && (#[trigger] records[i]).key_hash == key_hash && records[i].slot
            == slot
    ||| reserved.contains((key_hash, slot))
}

/// The first record of a list that takes a slot, or the number of them if none does.
spec fn slot_at(list: Seq<Record>, slot: u8) -> int
    decreases list.len(),
{
    if list.len() == 0 {
        0
    } else {
        let before = slot_at(list.drop_last(), slot);
        if before < list.len() - 1 || list.last().slot == slot {
            before
        } else {
            list.len() as int
        }
    }
}

spec fn entry_slot_of(id: EntryId) -> u8 {
    (id % 256) as u8
}

proof fn lemma_slot_at(list: Seq<Record>, slot: u8)
    ensures
        0 <= slot_at(list, slot) <= list.len(),
        slot_at(list, slot) < list.len() ==> list[slot_at(list, slot)].slot == slot,
        forall|i: int| 0 <= i < slot_at(list, slot) ==> (#[trigger] list[i]).slot != slot,
        first_slot(variants_of(list), slot) == slot_at(list, slot),
    decreases list.len(),
{
    if list.len() > 0 {
        let front = list.drop_last();
        lemma_slot_at(front, slot);
        assert forall|i: int| 0 <= i < slot_at(list, slot) implies (#[trigger] list[i]).slot
            != slot by {
            if i < front.len() {
                assert(front[i] == list[i]);
            }
        }
        assert(variants_of(list).drop_last() =~= variants_of(front));
        assert(variants_of(list).last() == list.last().variant());
    }
}

spec fn first_slot(variants: Seq<Variant>, slot: u8) -> int
    decreases variants.len(),
{
    if variants.len() == 0 {
        0
    } else {
        let before = first_slot(variants.drop_last(), slot);
        if before < variants.len() - 1 || variants.last().slot == slot {
            before
        } else {
            variants.len() as int
        }
    }
}

proof fn lemma_first_slot(variants: Seq<Variant>, slot: u8)
    ensures
        0 <= first_slot(variants, slot) <= variants.len(),
        first_slot(variants, slot) < variants.len() ==> variants[first_slot(variants, slot)].slot
            == slot,
        forall|i: int| 0 <= i < first_slot(variants, slot) ==> (#[trigger] variants[i]).slot != slot,
    decreases variants.len(),
{
    if variants.len() > 0 {
        let front = variants.drop_last();
        lemma_first_slot(front, slot);
        assert forall|i: int| 0 <= i < first_slot(variants, slot) implies (
        #[trigger] variants[i]).slot != slot by {
            if i < front.len() {
                assert(front[i] == variants[i]);
            }
        }
    }
}

fn find_slot(variants: &Vec<Variant>, slot: u8) -> (r: usize)
    ensures
        r == first_slot(variants@, slot),
        r <= variants@.len(),
{
    proof {
        lemma_first_slot(variants@, slot);
    }
    let mut i: usize = 0;
    while i < variants.len()
        invariant
            i <= first_slot(variants@, slot) <= variants@.len(),
            first_slot(variants@, slot) < variants@.len() ==> variants@[first_slot(
                variants@,
                slot,
            )].slot == slot,
            forall|j: int|
                0 <= j < first_slot(variants@, slot) ==> (#[trigger] variants@[j]).slot != slot,
        decreases variants@.len() - i,
    {
        if variants[i].slot == slot {
            return i;
        }
        i += 1;
    }
    i
}

/// Put a slot under a number.
pub fn put_slot(slots: &mut HashMap<u64, Vec<u8>>, key_hash: u64, slot: u8)
    ensures
        pairs(final(slots)@) == pairs(old(slots)@).insert((key_hash, slot)),
        final(slots)@.dom() == old(slots)@.dom().insert(key_hash),
        forall|k: u64| #[trigger]
            final(slots)@.contains_key(k) && k != key_hash ==> final(slots)@[k] == old(slots)@[k],
        final(slots)@[key_hash]@ == if old(slots)@.contains_key(key_hash) {
            old(slots)@[key_hash]@.push(slot)
        } else {
            seq![slot]
        },
{
    broadcast use vstd::std_specs::hash::group_hash_axioms;

    let ghost before = slots@;
    let mut list: Vec<u8> = match slots.remove(&key_hash) {
        Some(list) => list,
        None => Vec::new(),
    };
    let ghost given = list@;
    list.push(slot);
    slots.insert(key_hash, list);
    proof {
        assert(slots@[key_hash]@ =~= given.push(slot));
        assert forall|x: u8| #[trigger] slots@[key_hash]@.contains(x) <==> given.contains(x) || x
            == slot by {
            lemma_push_contains(given, slot, x);
        }
        assert(pairs(slots@) =~= pairs(before).insert((key_hash, slot)));
        assert(slots@.dom() =~= before.dom().insert(key_hash));
    }
}

/// Whether a slot is one of some.
pub fn has_slot(slots: &Vec<u8>, slot: u8) -> (r: bool)
    ensures
        r == slots@.contains(slot),
{
    let mut i: usize = 0;
    while i < slots.len()
        invariant
            i <= slots@.len(),
            forall|j: int| 0 <= j < i ==> slots@[j] != slot,
        decreases slots@.len() - i,
    {
        if slots[i] == slot {
            assert(slots@[i as int] == slot);
            return true;
        }
        i += 1;
    }
    false
}

fn without_slot(slots: Vec<u8>, slot: u8) -> (r: Vec<u8>)
    requires
        slots@.no_duplicates(),
    ensures
        r@.no_duplicates(),
        forall|x: u8| #[trigger] r@.contains(x) <==> slots@.contains(x) && x != slot,
{
    let mut r: Vec<u8> = Vec::new();
    let mut i: usize = 0;
    while i < slots.len()
        invariant
            i <= slots@.len(),
            slots@.no_duplicates(),
            r@.no_duplicates(),
            forall|x: u8| #[trigger] r@.contains(x) <==> slots@.take(i as int).contains(x) && x
                != slot,
        decreases slots@.len() - i,
    {
        let ghost before = r@;
        let ghost upto = slots@.take(i as int);
        let one: u8 = slots[i];
        proof {
            assert(slots@.take(i + 1) =~= upto.push(one));
            if upto.contains(one) {
                let j = choose|j: int| 0 <= j < upto.len() && upto[j] == one;
                assert(slots@[j] == slots@[i as int]);
            }
            assert forall|x: u8| slots@.take(i + 1).contains(x) <==> upto.contains(x) || x == one by {
                lemma_push_contains(upto, one, x);
            }
        }
        if one != slot {
            r.push(one);
            assert(!before.contains(one));
            assert forall|a: int, b: int| 0 <= a < b < r@.len() implies r@[a] != r@[b] by {
                if b == before.len() {
                    assert(before.contains(before[a]));
                } else {
                    assert(before[a] != before[b]);
                }
            }
            assert forall|x: u8| #[trigger] r@.contains(x) <==> before.contains(x) || x == one by {
                lemma_push_contains(before, one, x);
            }
        }
        i += 1;
    }
    assert(slots@.take(i as int) =~= slots@);
    r
}

proof fn lemma_push_contains(list: Seq<u8>, one: u8, x: u8)
    ensures
        list.push(one).contains(x) <==> list.contains(x) || x == one,
{
    if list.contains(x) {
        let j = choose|j: int| 0 <= j < list.len() && list[j] == x;
        assert(list.push(one)[j] == x);
    }
    if x == one {
        assert(list.push(one)[list.len() as int] == x);
    }
}

proof fn lemma_under_all(records: Seq<Record>, key_hash: u64)
    ensures
        forall|i: int|
            0 <= i < under(records, key_hash).len() ==> (#[trigger] under(
                records,
                key_hash,
            )[i]).key_hash == key_hash,
        under(records, key_hash).len() <= records.len(),
    decreases records.len(),
{
    if records.len() > 0 {
        lemma_under_all(records.drop_last(), key_hash);
    }
}

proof fn lemma_under_push(records: Seq<Record>, record: Record, key_hash: u64)
    ensures
        under(records.push(record), key_hash) == if record.key_hash == key_hash {
            under(records, key_hash).push(record)
        } else {
            under(records, key_hash)
        },
{
    assert(records.push(record).drop_last() =~= records);
}

proof fn lemma_under_joined(a: Seq<Record>, b: Seq<Record>, key_hash: u64)
    ensures
        under(a + b, key_hash) == under(a, key_hash) + under(b, key_hash),
    decreases b.len(),
{
    if b.len() == 0 {
        assert(a + b =~= a);
        assert(under(a, key_hash) + under(b, key_hash) =~= under(a, key_hash));
    } else {
        lemma_under_joined(a, b.drop_last(), key_hash);
        assert((a + b).drop_last() =~= a + b.drop_last());
        assert((a + b).last() == b.last());
        assert(under(a + b, key_hash) =~= under(a, key_hash) + under(b, key_hash));
    }
}

/// Of records under one key hash, all are under it and none under another.
proof fn lemma_under_group(group: Seq<Record>, of: u64, key_hash: u64)
    requires
        forall|i: int| 0 <= i < group.len() ==> (#[trigger] group[i]).key_hash == of,
    ensures
        under(group, key_hash) == if key_hash == of {
            group
        } else {
            seq![]
        },
    decreases group.len(),
{
    if group.len() > 0 {
        let front = group.drop_last();
        assert forall|i: int| 0 <= i < front.len() implies (#[trigger] front[i]).key_hash == of by {
            assert(group[i].key_hash == of);
        }
        lemma_under_group(front, of, key_hash);
        assert(group[group.len() - 1].key_hash == of);
        assert(front.push(group.last()) =~= group);
    } else {
        assert(under(group, key_hash) =~= group);
    }
}

/// A record is known by its identifier where its slot is taken under its key hash.
proof fn lemma_place(records: Seq<Record>, id: EntryId)
    ensures
        ({
            let all = under(records, (id / 256) as u64);
            let p = slot_at(all, entry_slot_of(id));
            &&& knows(records, id) == (p < all.len())
            &&& knows(records, id) ==> records[index_of(records, id)] == all[p]
        }),
    decreases records.len(),
{
    if records.len() > 0 {
        let front = records.drop_last();
        lemma_place(front, id);
        lemma_index_of(front, id);
        let before = under(front, (id / 256) as u64);
        lemma_slot_at(before, entry_slot_of(id));
        if records.last().key_hash == id / 256 {
            assert(before.push(records.last()).drop_last() =~= before);
        }
    }
}

proof fn lemma_dropped_under(records: Seq<Record>, id: EntryId, key_hash: u64)
    requires
        knows(records, id),
    ensures
        ({
            let all = under(records, key_hash);
            under(dropped(records, id), key_hash) == if key_hash == id / 256 {
                all.remove(slot_at(all, entry_slot_of(id)))
            } else {
                all
            }
        }),
    decreases records.len(),
{
    if records.len() > 0 {
        let front = records.drop_last();
        let last = records.last();
        let before = under(front, key_hash);
        lemma_index_of(front, id);
        lemma_place(front, id);
        lemma_place(records, id);
        lemma_slot_at(before, entry_slot_of(id));
        if knows(front, id) {
            lemma_dropped_under(front, id, key_hash);
            let at = index_of(front, id);
            assert(records.remove(at) =~= front.remove(at).push(last));
            lemma_under_push(front.remove(at), last, key_hash);
            let p = slot_at(before, entry_slot_of(id));
            if last.key_hash == key_hash {
                assert(before.push(last).drop_last() =~= before);
                if key_hash == id / 256 {
                    assert(before.push(last).remove(p) =~= before.remove(p).push(last));
                }
            }
        } else {
            assert(records.remove(records.len() - 1) =~= front);
            if key_hash == id / 256 {
                assert(before.push(last).drop_last() =~= before);
                assert(before.push(last).remove(before.len() as int) =~= before);
            }
        }
    }
}

proof fn lemma_touched_under(records: Seq<Record>, id: EntryId, now: u32, key_hash: u64)
    requires
        knows(records, id),
    ensures
        ({
            let all = under(records, key_hash);
            let p = slot_at(all, entry_slot_of(id));
            under(touched(records, id, now), key_hash) == if key_hash == id / 256 {
                all.update(p, Record { last_used: now, ..all[p] })
            } else {
                all
            }
        }),
    decreases records.len(),
{
    if records.len() > 0 {
        let front = records.drop_last();
        let last = records.last();
        let before = under(front, key_hash);
        let after = touched(records, id, now);
        lemma_index_of(front, id);
        lemma_place(front, id);
        lemma_place(records, id);
        lemma_slot_at(before, entry_slot_of(id));
        let p = slot_at(before, entry_slot_of(id));
        if knows(front, id) {
            lemma_touched_under(front, id, now, key_hash);
            assert(after =~= touched(front, id, now).push(last));
            lemma_under_push(touched(front, id, now), last, key_hash);
            if last.key_hash == key_hash {
                assert(before.push(last).drop_last() =~= before);
                if key_hash == id / 256 {
                    let record = Record { last_used: now, ..before[p] };
                    assert(before.push(last).update(p, record) =~= before.update(p, record).push(
                        last,
                    ));
                }
            }
        } else {
            let record = Record { last_used: now, ..last };
            assert(after =~= front.push(record));
            lemma_under_push(front, record, key_hash);
            if key_hash == id / 256 {
                assert(before.push(last).drop_last() =~= before);
                assert(before.push(last).update(before.len() as int, record) =~= before.push(
                    record,
                ));
            }
        }
    }
}

proof fn lemma_others_under(records: Seq<Record>, gone: u64, key_hash: u64)
    ensures
        under(others(records, gone), key_hash) == if key_hash == gone {
            seq![]
        } else {
            under(records, key_hash)
        },
    decreases records.len(),
{
    if records.len() > 0 {
        let front = records.drop_last();
        lemma_others_under(front, gone, key_hash);
        if records.last().key_hash != gone {
            lemma_under_push(others(front, gone), records.last(), key_hash);
        }
    }
}

proof fn lemma_others_same(records: Seq<Record>, key_hash: u64)
    requires
        under(records, key_hash).len() == 0,
    ensures
        others(records, key_hash) == records,
    decreases records.len(),
{
    if records.len() > 0 {
        lemma_others_same(records.drop_last(), key_hash);
        assert(records.drop_last().push(records.last()) =~= records);
    } else {
        assert(others(records, key_hash) =~= records);
    }
}

/// The records under a key hash and the others are all the records.
proof fn lemma_parted(records: Seq<Record>, key_hash: u64)
    ensures
        total(records) == total(under(records, key_hash)) + total(others(records, key_hash)),
        records.len() == under(records, key_hash).len() + others(records, key_hash).len(),
    decreases records.len(),
{
    if records.len() > 0 {
        let front = records.drop_last();
        lemma_parted(front, key_hash);
        if records.last().key_hash == key_hash {
            lemma_total_push(under(front, key_hash), records.last());
        } else {
            lemma_total_push(others(front, key_hash), records.last());
        }
    }
}

proof fn lemma_used_under(records: Seq<Record>, key_hash: u64, slot: u8)
    ensures
        (exists|i: int|
            0 <= i < records.len() && (#[trigger] records[i]).key_hash == key_hash
                && records[i].slot == slot) <==> (exists|i: int|
            0 <= i < under(records, key_hash).len() && (#[trigger] under(
                records,
                key_hash,
            )[i]).slot == slot),
    decreases records.len(),
{
    if records.len() > 0 {
        let front = records.drop_last();
        let last = records.last();
        lemma_used_under(front, key_hash, slot);
        let before = under(front, key_hash);
        let all = under(records, key_hash);
        if exists|i: int|
            0 <= i < records.len() && (#[trigger] records[i]).key_hash == key_hash
                && records[i].slot == slot {
            let i = choose|i: int|
                0 <= i < records.len() && (#[trigger] records[i]).key_hash == key_hash
                    && records[i].slot == slot;
            if i < front.len() {
                assert(front[i] == records[i]);
                let j = choose|j: int| 0 <= j < before.len() && (#[trigger] before[j]).slot == slot;
                assert(all[j].slot == slot);
            } else {
                assert(all[before.len() as int].slot == slot);
            }
        }
        if exists|i: int| 0 <= i < all.len() && (#[trigger] all[i]).slot == slot {
            let i = choose|i: int| 0 <= i < all.len() && (#[trigger] all[i]).slot == slot;
            if i < before.len() {
                assert(before[i].slot == slot);
                let j = choose|j: int|
                    0 <= j < front.len() && (#[trigger] front[j]).key_hash == key_hash
                        && front[j].slot == slot;
                assert(records[j].key_hash == key_hash);
            } else {
                assert(records[front.len() as int].key_hash == key_hash);
            }
        }
    }
}

proof fn lemma_count_under(records: Seq<Record>, record: Record)
    ensures
        records.to_multiset().count(record) == under(
            records,
            record.key_hash,
        ).to_multiset().count(record),
    decreases records.len(),
{
    broadcast use vstd::seq_lib::group_to_multiset_ensures;

    if records.len() > 0 {
        let front = records.drop_last();
        let last = records.last();
        lemma_count_under(front, record);
        assert(front.push(last) =~= records);
        assert(records.to_multiset() =~= front.to_multiset().insert(last));
        if last.key_hash == record.key_hash {
            assert(under(front, record.key_hash).push(last).to_multiset() =~= under(
                front,
                record.key_hash,
            ).to_multiset().insert(last));
        }
    }
}

proof fn lemma_listing_multiset(list: Seq<Record>, records: Seq<Record>)
    requires
        is_listing(list, records),
    ensures
        list.to_multiset() == records.to_multiset(),
{
    assert forall|record: Record| list.to_multiset().count(record)
        == records.to_multiset().count(record) by {
        lemma_count_under(list, record);
        lemma_count_under(records, record);
        assert(under(list, record.key_hash) == under(records, record.key_hash));
    }
    assert(list.to_multiset() =~= records.to_multiset());
}

/// The records but those with an identifier.
spec fn all_but(records: Seq<Record>, id: EntryId) -> Seq<Record>
    decreases records.len(),
{
    if records.len() == 0 {
        seq![]
    } else if records.last().is(id) {
        all_but(records.drop_last(), id)
    } else {
        all_but(records.drop_last(), id).push(records.last())
    }
}

proof fn lemma_all_but(records: Seq<Record>, id: EntryId)
    requires
        settled(records),
    ensures
        dropped(records, id) == all_but(records, id),
    decreases records.len(),
{
    lemma_index_of(records, id);
    if records.len() > 0 {
        let front = records.drop_last();
        let last = records.last();
        assert(settled(front)) by {
            assert forall|i: int, j: int| 0 <= i < j < front.len() implies #[trigger] leaves(
                front[j],
                front[i],
            ) by {
                assert(leaves(records[j], records[i]));
            }
        }
        lemma_all_but(front, id);
        lemma_index_of(front, id);
        if knows(front, id) {
            let k = index_of(front, id);
            if last.is(id) {
                lemma_is_id(last, id);
                assert(leaves(records[records.len() - 1], records[k]));
            }
            assert(records.remove(k) =~= front.remove(k).push(last));
        } else {
            assert(front.push(last) =~= records);
            if last.is(id) {
                assert(records.remove(records.len() - 1) =~= front);
            }
        }
    } else {
        assert(dropped(records, id) =~= all_but(records, id));
    }
}

/// Whether a record goes once some identifiers were looked for among the pairs that are
/// there: the pair of its identifier is not.
pub open spec fn is_missing(record: Record, there: Set<(u64, u8)>) -> bool {
    record.key_hash < key::HASH_LIMIT && !there.contains((record.key_hash, record.slot))
}

/// The records that are left once those that are not there are gone.
pub open spec fn still_there(records: Seq<Record>, there: Set<(u64, u8)>) -> Seq<Record>
    decreases records.len(),
{
    if records.len() == 0 {
        seq![]
    } else if is_missing(records.last(), there) {
        still_there(records.drop_last(), there)
    } else {
        still_there(records.drop_last(), there).push(records.last())
    }
}

pub proof fn lemma_still_there(records: Seq<Record>, there: Set<(u64, u8)>)
    ensures
        total(still_there(records, there)) <= total(records),
        still_there(records, there).len() <= records.len(),
    decreases records.len(),
{
    if records.len() > 0 {
        let front = records.drop_last();
        lemma_still_there(front, there);
        lemma_total_push(still_there(front, there), records.last());
    }
}

/// The same, where only some identifiers were looked for.
pub open spec fn sifted(
    records: Seq<Record>,
    there: Set<(u64, u8)>,
    looked_for: Seq<EntryId>,
) -> Seq<Record>
    decreases records.len(),
{
    if records.len() == 0 {
        seq![]
    } else if is_missing(records.last(), there) && looked_for.contains(records.last().id()) {
        sifted(records.drop_last(), there, looked_for)
    } else {
        sifted(records.drop_last(), there, looked_for).push(records.last())
    }
}

proof fn lemma_sifted_more(
    records: Seq<Record>,
    there: Set<(u64, u8)>,
    looked_for: Seq<EntryId>,
    id: EntryId,
)
    ensures
        sifted(records, there, looked_for.push(id)) == if there.contains(
            ((id / 256) as u64, (id % 256) as u8),
        ) {
            sifted(records, there, looked_for)
        } else {
            all_but(sifted(records, there, looked_for), id)
        },
    decreases records.len(),
{
    if records.len() > 0 {
        let front = records.drop_last();
        let last = records.last();
        let more = looked_for.push(id);
        lemma_sifted_more(front, there, looked_for, id);
        assert(more.contains(last.id()) <==> looked_for.contains(last.id()) || last.id() == id) by {
            if looked_for.contains(last.id()) {
                let j = choose|j: int| 0 <= j < looked_for.len() && looked_for[j] == last.id();
                assert(more[j] == last.id());
            }
            if last.id() == id {
                assert(more[looked_for.len() as int] == id);
            }
        }
        let kept = sifted(front, there, looked_for);
        assert(kept.push(last).drop_last() =~= kept);
        assert(last.is(id) <==> last.key_hash < key::HASH_LIMIT && last.id() == id);
    }
}

/// Looking for one more identifier, and forgetting it where it is not there.
pub proof fn lemma_sift(
    records: Seq<Record>,
    there: Set<(u64, u8)>,
    looked_for: Seq<EntryId>,
    id: EntryId,
)
    requires
        settled(sifted(records, there, looked_for)),
    ensures
        sifted(records, there, looked_for.push(id)) == if there.contains(
            ((id / 256) as u64, (id % 256) as u8),
        ) {
            sifted(records, there, looked_for)
        } else {
            dropped(sifted(records, there, looked_for), id)
        },
{
    lemma_sifted_more(records, there, looked_for, id);
    lemma_all_but(sifted(records, there, looked_for), id);
}

proof fn lemma_sifted_all(
    records: Seq<Record>,
    there: Set<(u64, u8)>,
    looked_for: Seq<EntryId>,
)
    requires
        forall|i: int| 0 <= i < records.len() ==> looked_for.contains((#[trigger] records[i]).id()),
    ensures
        sifted(records, there, looked_for) == still_there(records, there),
    decreases records.len(),
{
    if records.len() > 0 {
        let front = records.drop_last();
        assert forall|i: int| 0 <= i < front.len() implies looked_for.contains(
            (#[trigger] front[i]).id(),
        ) by {
            assert(front[i] == records[i]);
        }
        lemma_sifted_all(front, there, looked_for);
        assert(looked_for.contains(records[records.len() - 1].id()));
    }
}

/// Nothing is gone as long as nothing was looked for.
pub proof fn lemma_sifted_none(records: Seq<Record>, there: Set<(u64, u8)>)
    ensures
        sifted(records, there, seq![]) == records,
    decreases records.len(),
{
    if records.len() > 0 {
        lemma_sifted_none(records.drop_last(), there);
        assert(records.drop_last().push(records.last()) =~= records);
    } else {
        assert(sifted(records, there, seq![]) =~= records);
    }
}

/// Once every identifier was looked for, what is missing is gone.
pub proof fn lemma_sifted_list(records: Seq<Record>, there: Set<(u64, u8)>, list: Seq<EntryId>)
    requires
        is_id_list(list, records),
    ensures
        sifted(records, there, list) == still_there(records, there),
{
    broadcast use vstd::seq_lib::group_to_multiset_ensures;

    let listing = choose|listing: Seq<Record>|
        #[trigger] is_listing(listing, records) && list == ids(listing);
    lemma_listing_multiset(listing, records);
    assert forall|i: int| 0 <= i < records.len() implies list.contains(
        (#[trigger] records[i]).id(),
    ) by {
        assert(records.contains(records[i]));
        assert(records.to_multiset().count(records[i]) > 0);
        assert(listing.to_multiset().count(records[i]) > 0);
        assert(listing.contains(records[i]));
        let j = choose|j: int| 0 <= j < listing.len() && listing[j] == records[i];
        assert(list[j] == records[i].id());
    }
    lemma_sifted_all(records, there, list);
}

/// Lists of the same records have the same ages and sizes.
proof fn lemma_same_records(a: Seq<Record>, b: Seq<Record>)
    requires
        a.to_multiset() == b.to_multiset(),
    ensures
        a.len() == b.len(),
        total(a) == total(b),
        ages(a).to_multiset() == ages(b).to_multiset(),
    decreases a.len(),
{
    broadcast use vstd::seq_lib::group_to_multiset_ensures;

    assert(a.to_multiset().len() == a.len());
    assert(b.to_multiset().len() == b.len());
    if a.len() == 0 {
        assert(a =~= b);
    } else {
        let last = a.last();
        let front = a.drop_last();
        assert(front.push(last) =~= a);
        assert(a.to_multiset() =~= front.to_multiset().insert(last));
        assert(b.to_multiset().count(last) > 0);
        assert(b.contains(last));
        let j = choose|j: int| 0 <= j < b.len() && b[j] == last;
        assert(b.remove(j).to_multiset() =~= b.to_multiset().remove(last));
        assert(front.to_multiset() =~= b.remove(j).to_multiset());
        lemma_same_records(front, b.remove(j));
        lemma_total_remove(b, j);
        let age = (last.last_used, last.id());
        assert(ages(front).push(age) =~= ages(a));
        assert(ages(b)[j] == age);
        assert(ages(b).remove(j) =~= ages(b.remove(j)));
        assert(ages(b.remove(j)).to_multiset() =~= ages(b).to_multiset().remove(age));
        assert(ages(b).to_multiset().count(age) > 0);
        assert(ages(a).to_multiset() =~= ages(front).to_multiset().insert(age));
        assert(ages(a).to_multiset() =~= ages(b).to_multiset());
    }
}

proof fn lemma_twice(list: Seq<Record>, i: int, j: int)
    requires
        0 <= i < j < list.len(),
        list[i] == list[j],
    ensures
        list.to_multiset().count(list[i]) >= 2,
{
    broadcast use vstd::seq_lib::group_to_multiset_ensures;

    let rest = list.remove(j);
    assert(rest[i] == list[i]);
    assert(rest.contains(list[i]));
    assert(rest.to_multiset() =~= list.to_multiset().remove(list[j]));
    assert(rest.to_multiset().count(list[i]) > 0);
}

proof fn lemma_two_places(records: Seq<Record>, record: Record) -> (r: (int, int))
    requires
        records.to_multiset().count(record) >= 2,
    ensures
        0 <= r.0 < records.len(),
        0 <= r.1 < records.len(),
        r.0 != r.1,
        records[r.0] == record,
        records[r.1] == record,
{
    broadcast use vstd::seq_lib::group_to_multiset_ensures;

    assert(records.contains(record));
    let i = choose|i: int| 0 <= i < records.len() && records[i] == record;
    let rest = records.remove(i);
    assert(rest.to_multiset() =~= records.to_multiset().remove(record));
    assert(rest.to_multiset().count(record) > 0);
    assert(rest.contains(record));
    let j = choose|j: int| 0 <= j < rest.len() && rest[j] == record;
    if j < i {
        (i, j)
    } else {
        (i, j + 1)
    }
}

proof fn lemma_undisturbed_list(list: Seq<Record>, records: Seq<Record>)
    requires
        list.to_multiset() == records.to_multiset(),
        undisturbed(records),
    ensures
        settled(list),
{
    broadcast use vstd::seq_lib::group_to_multiset_ensures;

    assert forall|i: int, j: int| 0 <= i < j < list.len() implies #[trigger] leaves(
        list[j],
        list[i],
    ) by {
        if list[i] == list[j] {
            lemma_twice(list, i, j);
            let places = lemma_two_places(records, list[i]);
            assert(leaves(records[places.1], records[places.0]));
        } else {
            assert(list.contains(list[i]) && list.contains(list[j]));
            assert(records.to_multiset().count(list[i]) > 0);
            assert(records.to_multiset().count(list[j]) > 0);
            assert(records.contains(list[i]) && records.contains(list[j]));
            let a = choose|a: int| 0 <= a < records.len() && records[a] == list[i];
            let b = choose|b: int| 0 <= b < records.len() && records[b] == list[j];
            assert(leaves(records[b], records[a]));
        }
    }
}

proof fn lemma_listing_ages(list: Seq<Record>, records: Seq<Record>)
    requires
        is_listing(list, records),
    ensures
        ages(list).to_multiset() == ages(records).to_multiset(),
{
    lemma_listing_multiset(list, records);
    lemma_same_records(list, records);
}

/// A list of the records of an index holds as many, of the same size in all. Where they
/// can be inserted in any order, they can be in that of the list.
pub proof fn lemma_listing(list: Seq<Record>, records: Seq<Record>)
    requires
        is_listing(list, records),
    ensures
        list.len() == records.len(),
        total(list) == total(records),
        list.to_multiset() == records.to_multiset(),
        undisturbed(records) ==> settled(list),
{
    lemma_listing_multiset(list, records);
    lemma_same_records(list, records);
    if undisturbed(records) {
        lemma_undisturbed_list(list, records);
    }
}

proof fn lemma_dropped_total(records: Seq<Record>, id: EntryId)
    ensures
        total(dropped(records, id)) <= total(records),
{
    lemma_index_of(records, id);
    if knows(records, id) {
        lemma_total_remove(records, index_of(records, id));
    }
}

pub proof fn lemma_inserted_total(records: Seq<Record>, record: Record)
    ensures
        total(inserted(records, record)) == total(dropped(records, record.id())) + record.size,
        total(dropped(records, record.id())) <= total(records),
        inserted(records, record).len() <= records.len() + 1,
{
    lemma_index_of(records, record.id());
    lemma_total_push(dropped(records, record.id()), record);
    lemma_dropped_total(records, record.id());
}

pub proof fn lemma_total_prefix(records: Seq<Record>, i: int)
    requires
        0 <= i <= records.len(),
    ensures
        total(records.take(i)) <= total(records),
    decreases records.len(),
{
    if i == records.len() {
        assert(records.take(i) =~= records);
    } else {
        assert(records.drop_last().take(i) =~= records.take(i));
        lemma_total_prefix(records.drop_last(), i);
    }
}

proof fn lemma_total_update(records: Seq<Record>, i: int, record: Record)
    requires
        0 <= i < records.len(),
        record.size == records[i].size,
    ensures
        total(records.update(i, record)) == total(records),
    decreases records.len(),
{
    if i == records.len() - 1 {
        assert(records.update(i, record).drop_last() =~= records.drop_last());
    } else {
        lemma_total_update(records.drop_last(), i, record);
        assert(records.update(i, record).drop_last() =~= records.drop_last().update(i, record));
        assert(records.update(i, record).last() == records.last());
    }
}

proof fn lemma_removed_settled(records: Seq<Record>, i: int)
    requires
        settled(records),
        0 <= i < records.len(),
    ensures
        settled(records.remove(i)),
{
    let after = records.remove(i);
    assert forall|a: int, b: int| 0 <= a < b < after.len() implies #[trigger] leaves(
        after[b],
        after[a],
    ) by {
        let a0 = if a < i {
            a
        } else {
            a + 1
        };
        let b0 = if b < i {
            b
        } else {
            b + 1
        };
        assert(leaves(records[b0], records[a0]));
    }
}

proof fn lemma_is_id(record: Record, id: EntryId)
    requires
        record.is(id),
    ensures
        record.id() == id,
{
}

proof fn lemma_inserted_settled(records: Seq<Record>, record: Record)
    requires
        settled(records),
    ensures
        settled(inserted(records, record)),
{
    let id = record.id();
    let kept = dropped(records, id);
    lemma_index_of(records, id);
    if knows(records, id) {
        lemma_removed_settled(records, index_of(records, id));
    }
    assert forall|i: int| 0 <= i < kept.len() implies !(#[trigger] kept[i]).is(id) by {
        if knows(records, id) {
            let k = index_of(records, id);
            let i0 = if i < k {
                i
            } else {
                i + 1
            };
            assert(kept[i] == records[i0]);
            if i0 > k && records[i0].is(id) {
                lemma_is_id(records[i0], id);
                assert(leaves(records[i0], records[k]));
            }
        }
    }
    let after = kept.push(record);
    assert forall|a: int, b: int| 0 <= a < b < after.len() implies #[trigger] leaves(
        after[b],
        after[a],
    ) by {
        assert(after[a] == kept[a]);
        if b < kept.len() {
            assert(after[b] == kept[b]);
        }
    }
}

proof fn lemma_others_settled(records: Seq<Record>, key_hash: u64)
    requires
        settled(records),
    ensures
        settled(others(records, key_hash)),
        forall|i: int|
            0 <= i < others(records, key_hash).len() ==> records.contains(
                #[trigger] others(records, key_hash)[i],
            ),
    decreases records.len(),
{
    if records.len() > 0 {
        let front = records.drop_last();
        let last = records.len() - 1;
        assert(settled(front));
        lemma_others_settled(front, key_hash);
        let before = others(front, key_hash);
        let after = others(records, key_hash);
        assert forall|i: int| 0 <= i < after.len() implies records.contains(#[trigger] after[i]) by {
            if i < before.len() {
                assert(front.contains(before[i]));
                let k = choose|k: int| 0 <= k < front.len() && front[k] == before[i];
                assert(records[k] == after[i]);
            } else {
                assert(records[last] == after[i]);
            }
        }
        assert forall|a: int, b: int| 0 <= a < b < after.len() implies #[trigger] leaves(
            after[b],
            after[a],
        ) by {
            assert(after[a] == before[a]);
            if b < before.len() {
                assert(after[b] == before[b]);
            } else {
                assert(front.contains(before[a]));
                let k = choose|k: int| 0 <= k < front.len() && front[k] == before[a];
                assert(leaves(records[last], records[k]));
            }
        }
    }
}

proof fn lemma_id_is(record: Record, id: EntryId)
    requires
        record.key_hash < key::HASH_LIMIT,
    ensures
        record.is(id) <==> record.id() == id,
{
}

/// A variant that was inserted is known, under its identifier and with its size.
pub proof fn law_inserted_is_known(records: Seq<Record>, record: Record)
    requires
        record.key_hash < key::HASH_LIMIT,
    ensures
        knows(inserted(records, record), record.id()),
        proper(records) ==> proper(inserted(records, record)) && inserted(
            records,
            record,
        )[index_of(inserted(records, record), record.id())] == record,
{
    let after = inserted(records, record);
    let id = record.id();
    lemma_id_is(record, id);
    lemma_index_of(records, id);
    lemma_index_of(after, id);
    assert(after.last() == record);
    assert(after[after.len() - 1].is(id));
    if proper(records) {
        let kept = dropped(records, id);
        let k = index_of(records, id);
        assert forall|i: int| 0 <= i < kept.len() implies (#[trigger] kept[i]).key_hash
            < key::HASH_LIMIT && kept[i].id() != id by {
            let j = if knows(records, id) && i >= k {
                i + 1
            } else {
                i
            };
            assert(kept[i] == records[j]);
            lemma_id_is(records[j], id);
            if records[j].id() == id {
                assert(records[j].is(id));
                lemma_id_is(records[k], id);
                assert(records[k].id() == id);
                if j < k {
                    assert(records[j].id() != records[k].id());
                } else {
                    assert(records[k].id() != records[j].id());
                }
            }
        }
        assert forall|i: int, j: int| 0 <= i < j < after.len() implies (#[trigger] after[i]).id()
            != (#[trigger] after[j]).id() by {
            if j < kept.len() {
                let a = if knows(records, id) && i >= k {
                    i + 1
                } else {
                    i
                };
                let b = if knows(records, id) && j >= k {
                    j + 1
                } else {
                    j
                };
                assert(records[a].id() != records[b].id());
            } else {
                assert(kept[i].id() != id);
            }
        }
        let n = after.len() - 1;
        assert forall|i: int| 0 <= i < n implies !(#[trigger] after[i]).is(id) by {
            assert(kept[i].id() != id);
            lemma_id_is(kept[i], id);
        }
        lemma_index_is(after, id, n);
    }
}

/// An index whose variants are those of another in the order of a list knows the same ones
/// under each identifier and key hash: that is what one that was written out is read back
/// as.
pub proof fn law_listing_knows_the_same(list: Seq<Record>, records: Seq<Record>, id: EntryId)
    requires
        is_listing(list, records),
    ensures
        list.len() == records.len(),
        total(list) == total(records),
        knows(list, id) == knows(records, id),
        knows(records, id) ==> list[index_of(list, id)] == records[index_of(records, id)],
{
    lemma_listing(list, records);
    lemma_place(list, id);
    lemma_place(records, id);
    assert(under(list, (id / 256) as u64) == under(records, (id / 256) as u64));
}

/// A variant that was removed is no longer known, and the others stay.
pub proof fn law_removed_is_unknown(records: Seq<Record>, id: EntryId, other: EntryId)
    requires
        proper(records),
    ensures
        !knows(dropped(records, id), id),
        other != id ==> knows(dropped(records, id), other) == knows(records, other),
        knows(records, id) ==> total(dropped(records, id)) == total(records)
            - records[index_of(records, id)].size,
{
    let after = dropped(records, id);
    let k = index_of(records, id);
    lemma_index_of(records, id);
    lemma_index_of(after, id);
    lemma_index_of(records, other);
    lemma_index_of(after, other);
    if knows(records, id) {
        lemma_total_remove(records, k);
        lemma_id_is(records[k], id);
        assert forall|i: int| 0 <= i < after.len() implies !(#[trigger] after[i]).is(id) by {
            let j = if i < k {
                i
            } else {
                i + 1
            };
            assert(after[i] == records[j]);
            lemma_id_is(records[j], id);
            if j < k {
                assert(records[j].id() != records[k].id());
            } else {
                assert(records[k].id() != records[j].id());
            }
        }
        if other != id {
            if knows(records, other) {
                let j = index_of(records, other);
                assert(j != k) by {
                    lemma_id_is(records[j], other);
                }
                assert(after[if j < k {
                    j
                } else {
                    j - 1
                }].is(other));
            }
            if knows(after, other) {
                let i = index_of(after, other);
                assert(records[if i < k {
                    i
                } else {
                    i + 1
                }].is(other));
            }
        }
    }
}

proof fn lemma_run(
    records: Seq<Record>,
    order: Seq<(u32, EntryId)>,
    target_bytes: nat,
    target_entries: nat,
)
    requires
        proper(records),
        ids_listed(records, order),
        each_known_once(records, order),
    ensures
        total(evict_run(records, order, target_bytes, target_entries).0) <= target_bytes,
        evict_run(records, order, target_bytes, target_entries).0.len() <= target_entries,
        evict_run(records, order, target_bytes, target_entries).1.len() <= order.len(),
        forall|i: int|
            0 <= i < evict_run(records, order, target_bytes, target_entries).1.len()
                ==> #[trigger] evict_run(records, order, target_bytes, target_entries).1[i]
                == order[i].1,
    decreases order.len(),
{
    if order.len() == 0 {
        if records.len() > 0 {
            assert(listed_at(order, records[0].id()));
        }
        assert(records =~= Seq::<Record>::empty());
    } else if !(total(records) <= target_bytes && records.len() <= target_entries) {
        let id = order[0].1;
        let rest = order.skip(1);
        assert(knows(records, id)) by {
            assert(known_at(records, order, 0));
        }
        let after = dropped(records, id);
        let k = index_of(records, id);
        lemma_index_of(records, id);
        lemma_id_is(records[k], id);
        assert forall|i: int| 0 <= i < after.len() implies #[trigger] listed_at(
            rest,
            after[i].id(),
        ) && after[i].id() != id && after[i].key_hash < key::HASH_LIMIT by {
            let j = if i < k {
                i
            } else {
                i + 1
            };
            assert(after[i] == records[j]);
            if j < k {
                assert(records[j].id() != records[k].id());
            } else {
                assert(records[k].id() != records[j].id());
            }
            assert(listed_at(order, records[j].id()));
            let p = choose|p: int| 0 <= p < order.len() && (#[trigger] order[p]).1 == records[j].id();
            assert(rest[p - 1].1 == records[j].id());
        }
        assert(proper(after)) by {
            assert forall|i: int, j: int| 0 <= i < j < after.len() implies (#[trigger] after[i]).id()
                != (#[trigger] after[j]).id() by {
                let a = if i < k {
                    i
                } else {
                    i + 1
                };
                let b = if j < k {
                    j
                } else {
                    j + 1
                };
                assert(records[a].id() != records[b].id());
            }
            assert forall|i: int| 0 <= i < after.len() implies (#[trigger] after[i]).key_hash
                < key::HASH_LIMIT by {
                assert(listed_at(rest, after[i].id()));
            }
        }
        assert forall|p: int| 0 <= p < rest.len() implies #[trigger] known_at(after, rest, p) by {
            assert(known_at(records, order, p + 1));
            assert(rest[p] == order[p + 1]);
            assert(order[0].1 != order[p + 1].1);
            law_removed_is_unknown(records, id, rest[p].1);
        }
        assert forall|p: int, q: int| 0 <= p < q < rest.len() implies (#[trigger] rest[p]).1 != (
        #[trigger] rest[q]).1 by {
            assert(order[p + 1].1 != order[q + 1].1);
        }
        lemma_run(after, rest, target_bytes, target_entries);
        let run = evict_run(after, rest, target_bytes, target_entries);
        assert forall|i: int| 0 <= i < run.1.len() + 1 implies #[trigger] (seq![id] + run.1)[i]
            == order[i].1 by {
            if i > 0 {
                assert(run.1[i - 1] == rest[i - 1].1);
            }
        }
    }
}

spec fn listed_at(order: Seq<(u32, EntryId)>, id: EntryId) -> bool {
    exists|p: int| 0 <= p < order.len() && (#[trigger] order[p]).1 == id
}

spec fn ids_listed(records: Seq<Record>, order: Seq<(u32, EntryId)>) -> bool {
    forall|i: int| 0 <= i < records.len() ==> listed_at(order, (#[trigger] records[i]).id())
}

spec fn known_at(records: Seq<Record>, order: Seq<(u32, EntryId)>, p: int) -> bool {
    knows(records, order[p].1)
}

spec fn each_known_once(records: Seq<Record>, order: Seq<(u32, EntryId)>) -> bool {
    &&& forall|p: int| 0 <= p < order.len() ==> #[trigger] known_at(records, order, p)
    &&& forall|p: int, q: int|
        0 <= p < q < order.len() ==> (#[trigger] order[p]).1 != (#[trigger] order[q]).1
}

proof fn lemma_order(records: Seq<Record>)
    requires
        proper(records),
    ensures
        ids_listed(records, eviction_order(records)),
        each_known_once(records, eviction_order(records)),
        eviction_order(records).len() == records.len(),
{
    let list = ages(records);
    let order = eviction_order(records);
    lemma_order_total();
    list.lemma_sort_by_ensures(no_later_fn());
    list.to_multiset_ensures();
    order.to_multiset_ensures();
    assert forall|i: int| 0 <= i < records.len() implies listed_at(
        order,
        (#[trigger] records[i]).id(),
    ) by {
        assert(list[i] == (records[i].last_used, records[i].id()));
        assert(list.contains(list[i]));
        assert(order.to_multiset().count(list[i]) > 0);
        assert(order.contains(list[i]));
        let p = choose|p: int| 0 <= p < order.len() && order[p] == list[i];
        assert(order[p].1 == records[i].id());
    }
    assert forall|p: int| 0 <= p < order.len() implies #[trigger] known_at(records, order, p) by {
        assert(order.contains(order[p]));
        assert(list.contains(order[p]));
        let i = choose|i: int| 0 <= i < list.len() && list[i] == order[p];
        lemma_id_is(records[i], order[p].1);
        lemma_index_of(records, order[p].1);
        assert(records[i].is(order[p].1));
    }
    assert(list.no_duplicates()) by {
        assert forall|i: int, j: int| 0 <= i < list.len() && 0 <= j < list.len() && i
            != j implies list[i] != list[j] by {
            if i < j {
                assert(records[i].id() != records[j].id());
            } else {
                assert(records[j].id() != records[i].id());
            }
        }
    }
    list.lemma_multiset_has_no_duplicates();
    order.lemma_multiset_has_no_duplicates_conv();
    assert forall|p: int, q: int| 0 <= p < q < order.len() implies (#[trigger] order[p]).1 != (
    #[trigger] order[q]).1 by {
        assert(order[p] != order[q]);
        assert(list.contains(order[p])) by {
            assert(order.contains(order[p]));
        }
        assert(list.contains(order[q])) by {
            assert(order.contains(order[q]));
        }
        let i = choose|i: int| 0 <= i < list.len() && list[i] == order[p];
        let j = choose|j: int| 0 <= j < list.len() && list[j] == order[q];
        if i < j {
            assert(records[i].id() != records[j].id());
        } else if j < i {
            assert(records[j].id() != records[i].id());
        }
    }
}

/// Eviction brings an index back within its budgets: within a tenth of headroom if
/// it dropped anything at all.
pub proof fn law_eviction_meets_budgets(
    records: Seq<Record>,
    max_bytes: u64,
    max_entries: usize,
)
    requires
        proper(records),
    ensures
        total(evicted(records, max_bytes, max_entries).0) <= max_bytes,
        evicted(records, max_bytes, max_entries).0.len() <= max_entries,
        evicted(records, max_bytes, max_entries).1.len() > 0 ==> total(
            evicted(records, max_bytes, max_entries).0,
        ) <= max_bytes / 10 * 9 && evicted(records, max_bytes, max_entries).0.len() <= max_entries
            / 10 * 9,
{
    lemma_order(records);
    lemma_run(
        records,
        eviction_order(records),
        (max_bytes / 10 * 9) as nat,
        (max_entries / 10 * 9) as nat,
    );
}

/// Eviction drops the least recently used variants: those that come first when all
/// the variants are ordered by when they were used.
pub proof fn law_eviction_is_least_recently_used(
    records: Seq<Record>,
    max_bytes: u64,
    max_entries: usize,
    i: int,
)
    requires
        proper(records),
        0 <= i < evicted(records, max_bytes, max_entries).1.len(),
    ensures
        i < eviction_order(records).len(),
        evicted(records, max_bytes, max_entries).1[i] == eviction_order(records)[i].1,
        relations::sorted_by(eviction_order(records), no_later_fn()),
        eviction_order(records).to_multiset() == ages(records).to_multiset(),
{
    lemma_order(records);
    lemma_order_total();
    ages(records).lemma_sort_by_ensures(no_later_fn());
    lemma_run(
        records,
        eviction_order(records),
        (max_bytes / 10 * 9) as nat,
        (max_entries / 10 * 9) as nat,
    );
}

proof fn lemma_dropped_proper(records: Seq<Record>, id: EntryId)
    requires
        proper(records),
    ensures
        proper(dropped(records, id)),
        forall|i: int|
            0 <= i < dropped(records, id).len() ==> records.contains(
                #[trigger] dropped(records, id)[i],
            ),
{
    let after = dropped(records, id);
    let k = index_of(records, id);
    lemma_index_of(records, id);
    if knows(records, id) {
        assert forall|i: int| 0 <= i < after.len() implies #[trigger] after[i] == records[if i < k {
            i
        } else {
            i + 1
        }] by {}
        assert forall|i: int| 0 <= i < after.len() implies records.contains(
            #[trigger] after[i],
        ) by {
            let j = if i < k {
                i
            } else {
                i + 1
            };
            assert(records[j] == after[i]);
        }
        assert forall|i: int, j: int| 0 <= i < j < after.len() implies (#[trigger] after[i]).id()
            != (#[trigger] after[j]).id() by {
            let a = if i < k {
                i
            } else {
                i + 1
            };
            let b = if j < k {
                j
            } else {
                j + 1
            };
            assert(records[a].id() != records[b].id());
        }
        assert forall|i: int| 0 <= i < after.len() implies (#[trigger] after[i]).key_hash
            < key::HASH_LIMIT by {
            let j = if i < k {
                i
            } else {
                i + 1
            };
            assert(records[j].key_hash < key::HASH_LIMIT);
        }
    } else {
        assert forall|i: int| 0 <= i < after.len() implies records.contains(
            #[trigger] after[i],
        ) by {
            assert(records[i] == after[i]);
        }
    }
}

proof fn lemma_run_parts(
    records: Seq<Record>,
    order: Seq<(u32, EntryId)>,
    target_bytes: nat,
    target_entries: nat,
    i: int,
    k: int,
)
    requires
        proper(records),
        0 <= k < evict_run(records, order, target_bytes, target_entries).0.len(),
    ensures
        records.contains(evict_run(records, order, target_bytes, target_entries).0[k]),
        0 <= i < evict_run(records, order, target_bytes, target_entries).1.len() ==> evict_run(
            records,
            order,
            target_bytes,
            target_entries,
        ).0[k].id() != evict_run(records, order, target_bytes, target_entries).1[i],
    decreases order.len(),
{
    let run = evict_run(records, order, target_bytes, target_entries);
    if order.len() == 0 || (total(records) <= target_bytes && records.len() <= target_entries) {
        assert(records[k] == run.0[k]);
    } else if knows(records, order[0].1) {
        let id = order[0].1;
        let after = dropped(records, id);
        let rest = evict_run(after, order.skip(1), target_bytes, target_entries);
        lemma_dropped_proper(records, id);
        lemma_run_parts(after, order.skip(1), target_bytes, target_entries, i - 1, k);
        let c = rest.0[k];
        let j = choose|j: int| 0 <= j < after.len() && after[j] == c;
        assert(records.contains(after[j]));
        law_removed_is_unknown(records, id, id);
        lemma_index_of(after, id);
        if c.id() == id {
            lemma_id_is(c, id);
            assert(after[j].is(id));
        }
        if i > 0 && i < run.1.len() {
            assert(run.1[i] == rest.1[i - 1]);
        }
    } else {
        lemma_run_parts(records, order.skip(1), target_bytes, target_entries, i, k);
    }
}

/// What eviction drops was used no later than anything that it keeps, is not kept, and was
/// known before.
pub proof fn law_evicted_were_used_earlier(
    records: Seq<Record>,
    max_bytes: u64,
    max_entries: usize,
    i: int,
    k: int,
)
    requires
        proper(records),
        0 <= i < evicted(records, max_bytes, max_entries).1.len(),
        0 <= k < evicted(records, max_bytes, max_entries).0.len(),
    ensures
        ({
            let (kept, gone) = evicted(records, max_bytes, max_entries);
            &&& knows(records, gone[i])
            &&& records[index_of(records, gone[i])].last_used <= kept[k].last_used
            &&& kept[k].id() != gone[i]
            &&& records.contains(kept[k])
        }),
{
    let (kept, gone) = evicted(records, max_bytes, max_entries);
    let order = eviction_order(records);
    let list = ages(records);
    let bytes = (max_bytes / 10 * 9) as nat;
    let entries = (max_entries / 10 * 9) as nat;
    lemma_order(records);
    lemma_order_total();
    list.lemma_sort_by_ensures(no_later_fn());
    list.to_multiset_ensures();
    order.to_multiset_ensures();
    lemma_run(records, order, bytes, entries);
    lemma_run_parts(records, order, bytes, entries, i, k);
    assert(gone[i] == order[i].1);
    assert(known_at(records, order, i));
    let c = kept[k];
    let j = choose|j: int| 0 <= j < records.len() && records[j] == c;
    assert(list[j] == (c.last_used, c.id()));
    assert(list.contains(list[j]));
    assert(order.to_multiset().count(list[j]) > 0);
    assert(order.contains(list[j]));
    let p = choose|p: int| 0 <= p < order.len() && order[p] == list[j];
    assert(p >= gone.len()) by {
        if p < gone.len() {
            lemma_run_parts(records, order, bytes, entries, p, k);
            assert(gone[p] == order[p].1);
        }
    }
    assert(no_later_fn()(order[i], order[p]));
    assert(order.contains(order[i]));
    assert(list.to_multiset().count(order[i]) > 0);
    assert(list.contains(order[i]));
    let q = choose|q: int| 0 <= q < list.len() && list[q] == order[i];
    lemma_index_of(records, gone[i]);
    let m = index_of(records, gone[i]);
    lemma_id_is(records[m], gone[i]);
    if m < q {
        assert(records[m].id() != records[q].id());
    } else if q < m {
        assert(records[q].id() != records[m].id());
    }
}

/// An index that is within its limits is left as it is.
pub proof fn law_nothing_is_evicted_without_need(
    records: Seq<Record>,
    max_bytes: u64,
    max_entries: usize,
)
    ensures
        total(records) <= max_bytes && records.len() <= max_entries ==> evicted(
            records,
            max_bytes,
            max_entries,
        ).0 == records && evicted(records, max_bytes, max_entries).1.len() == 0,
{
}

/// The records under a key hash and the others are what they say, in the order in which they
/// were.
pub proof fn law_parted_by_hash(records: Seq<Record>, key_hash: u64)
    ensures
        under(records, key_hash) == records.filter(|r: Record| r.key_hash == key_hash),
        others(records, key_hash) == records.filter(|r: Record| r.key_hash != key_hash),
    decreases records.len(),
{
    reveal(Seq::filter);
    if records.len() > 0 {
        law_parted_by_hash(records.drop_last(), key_hash);
    }
}

/// Using a variant changes when it was used last, and nothing else of the index.
pub proof fn law_touched(records: Seq<Record>, id: EntryId, now: u32, i: int)
    requires
        0 <= i < records.len(),
    ensures
        ({
            let after = touched(records, id, now);
            &&& after.len() == records.len()
            &&& after[i].key_hash == records[i].key_hash && after[i].slot == records[i].slot
            &&& after[i].size == records[i].size
            &&& !records[i].is(id) ==> after[i] == records[i]
            &&& knows(records, id) ==> after[index_of(records, id)].last_used == now
        }),
{
    lemma_index_of(records, id);
}

/// A record whose file is there stays in the index, and one whose file is not is forgotten.
pub proof fn law_missing_are_forgotten(records: Seq<Record>, there: Set<(u64, u8)>)
    ensures
        still_there(records, there) == records.filter(
            |r: Record| r.key_hash >= key::HASH_LIMIT || there.contains((r.key_hash, r.slot)),
        ),
    decreases records.len(),
{
    reveal(Seq::filter);
    if records.len() > 0 {
        law_missing_are_forgotten(records.drop_last(), there);
    }
}

} // verus!
