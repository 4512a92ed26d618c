//! The cached resources that a process has seen, by key.
use vstd::prelude::*;

use crate::http_cache::key::{CacheKey, KeyView};
use crate::resource;
use crate::resource::{CachedResource, ResourceView};

verus! {

#[derive(Debug)]
struct LiveEntry {
    key: CacheKey,
    list: Vec<CachedResource>,
}

/// Lists of resources by key.
#[derive(Debug)]
pub struct LiveEntries {
    entries: Vec<LiveEntry>,
}

spec fn mapped(entries: Seq<LiveEntry>) -> Map<KeyView, Seq<ResourceView>>
    decreases entries.len(),
{
    if entries.len() == 0 {
        Map::empty()
    } else {
        mapped(entries.drop_last()).insert(
            entries.last().key@,
            resource::resources(entries.last().list@),
        )
    }
}

spec fn unique(entries: Seq<LiveEntry>) -> bool {
    forall|i: int, j: int|
        0 <= i < j < entries.len() ==> (#[trigger] entries[i]).key@ != (#[trigger] entries[j]).key@
}

proof fn lemma_mapped(entries: Seq<LiveEntry>, i: int)
    requires
        0 <= i < entries.len(),
        unique(entries),
    ensures
        mapped(entries).contains_key(entries[i].key@),
        mapped(entries)[entries[i].key@] == resource::resources(entries[i].list@),
    decreases entries.len(),
{
    if i < entries.len() - 1 {
        assert(entries.drop_last()[i] == entries[i]);
        lemma_mapped(entries.drop_last(), i);
        assert(entries[i].key@ != entries[entries.len() - 1].key@);
    }
}

proof fn lemma_unmapped(entries: Seq<LiveEntry>, key: KeyView)
    requires
        forall|i: int| 0 <= i < entries.len() ==> (#[trigger] entries[i]).key@ != key,
    ensures
        !mapped(entries).contains_key(key),
    decreases entries.len(),
{
    if entries.len() > 0 {
        assert forall|i: int| 0 <= i < entries.drop_last().len() implies (
        #[trigger] entries.drop_last()[i]).key@ != key by {
            assert(entries.drop_last()[i] == entries[i]);
        }
        lemma_unmapped(entries.drop_last(), key);
        assert(entries[entries.len() - 1].key@ != key);
    }
}

proof fn lemma_removed(entries: Seq<LiveEntry>, i: int)
    requires
        0 <= i < entries.len(),
        unique(entries),
    ensures
        mapped(entries.remove(i)) == mapped(entries).remove(entries[i].key@),
        unique(entries.remove(i)),
    decreases entries.len(),
{
    let key = entries[i].key@;
    let last = entries.len() - 1;
    let rest = entries.drop_last();
    assert forall|a: int, b: int|
        0 <= a < b < entries.remove(i).len() implies (#[trigger] entries.remove(i)[a]).key@ != (
    #[trigger] entries.remove(i)[b]).key@ by {
        let a0 = if a < i {
            a
        } else {
            a + 1
        };
        let b0 = if b < i {
            b
        } else {
            b + 1
        };
        assert(entries[a0].key@ != entries[b0].key@);
    }
    if i == last {
        assert(entries.remove(i) =~= rest);
        assert forall|j: int| 0 <= j < rest.len() implies (#[trigger] rest[j]).key@ != key by {
            assert(entries[j].key@ != entries[last].key@);
        }
        lemma_unmapped(rest, key);
        assert(mapped(entries).remove(key) =~= mapped(rest));
    } else {
        assert(unique(rest)) by {
            assert forall|a: int, b: int| 0 <= a < b < rest.len() implies (#[trigger] rest[a]).key@
                != (#[trigger] rest[b]).key@ by {
                assert(entries[a].key@ != entries[b].key@);
            }
        }
        lemma_removed(rest, i);
        assert(entries.remove(i).drop_last() =~= rest.remove(i));
        assert(entries.remove(i).last() == entries[last]);
        assert(entries[i].key@ != entries[last].key@);
        assert(mapped(entries.remove(i)) =~= mapped(entries).remove(key));
    }
}

impl LiveEntries {
    pub closed spec fn view(&self) -> Map<KeyView, Seq<ResourceView>> {
        mapped(self.entries@)
    }

    pub closed spec fn wf(&self) -> bool {
        unique(self.entries@)
    }

    pub fn new() -> (r: LiveEntries)
        ensures
            r.wf(),
            r@ == Map::<KeyView, Seq<ResourceView>>::empty(),
    {
        LiveEntries { entries: Vec::new() }
    }

    /// Drop everything.
    pub fn clear(&mut self)
        ensures
            final(self).wf(),
            final(self)@ == Map::<KeyView, Seq<ResourceView>>::empty(),
    {
        self.entries.clear();
    }

    fn position(&self, key: &CacheKey) -> (r: usize)
        requires
            self.wf(),
        ensures
            r <= self.entries@.len(),
            r < self.entries@.len() ==> self.entries@[r as int].key@ == key@,
            r < self.entries@.len() <==> self@.contains_key(key@),
            r == self.entries@.len() ==> forall|j: int|
                0 <= j < self.entries@.len() ==> (#[trigger] self.entries@[j]).key@ != key@,
    {
        let mut i: usize = 0;
        while i < self.entries.len()
            invariant
                i <= self.entries@.len(),
                self.wf(),
                forall|j: int| 0 <= j < i ==> (#[trigger] self.entries@[j]).key@ != key@,
            decreases self.entries@.len() - i,
        {
            if self.entries[i].key.same(key) {
                proof {
                    lemma_mapped(self.entries@, i as int);
                }
                return i;
            }
            i += 1;
        }
        proof {
            lemma_unmapped(self.entries@, key@);
        }
        i
    }

    /// Whether there are resources under a key.
    pub fn contains(&self, key: &CacheKey) -> (r: bool)
        requires
            self.wf(),
        ensures
            r == self@.contains_key(key@),
    {
        self.position(key) < self.entries.len()
    }

    /// The resources under a key.
    pub fn get(&self, key: &CacheKey) -> (r: Option<&Vec<CachedResource>>)
        requires
            self.wf(),
        ensures
            r is Some == self@.contains_key(key@),
            r matches Some(list) ==> resource::resources(list@) == self@[key@],
    {
        let i: usize = self.position(key);
        if i >= self.entries.len() {
            return None;
        }
        proof {
            lemma_mapped(self.entries@, i as int);
        }
        Some(&self.entries[i].list)
    }

    /// Take the resources under a key out.
    pub fn take(&mut self, key: &CacheKey) -> (r: Option<Vec<CachedResource>>)
        requires
            old(self).wf(),
        ensures
            final(self).wf(),
            final(self)@ == old(self)@.remove(key@),
            r is Some == old(self)@.contains_key(key@),
            r matches Some(list) ==> resource::resources(list@) == old(self)@[key@],
    {
        let i: usize = self.position(key);
        if i >= self.entries.len() {
            assert(self@.remove(key@) =~= self@);
            return None;
        }
        proof {
            lemma_mapped(self.entries@, i as int);
            lemma_removed(self.entries@, i as int);
        }
        let entry: LiveEntry = self.entries.remove(i);
        Some(entry.list)
    }

    /// Put resources under a key that has none.
    pub fn put(&mut self, key: &CacheKey, list: Vec<CachedResource>)
        requires
            old(self).wf(),
            !old(self)@.contains_key(key@),
        ensures
            final(self).wf(),
            final(self)@ == old(self)@.insert(key@, resource::resources(list@)),
    {
        let ghost before = self.entries@;
        proof {
            assert forall|j: int| 0 <= j < before.len() implies (#[trigger] before[j]).key@
                != key@ by {
                lemma_mapped(before, j);
            }
        }
        self.entries.push(LiveEntry { key: key.copy(), list });
        assert(self.entries@.drop_last() =~= before);
    }
}

} // verus!
