//! Cache keys and the identifiers of the entries stored under them.
use vstd::prelude::*;

use crate::digest;
use crate::fetch::Request;
use crate::text;

verus! {

/// Identifies one stored variant: the upper 56 bits are [`CacheKey::hash`], the
/// lower 8 bits the variant slot under that key.
pub type EntryId = u64;

/// How many variants may be stored under a single key.
pub const MAX_SLOTS: u8 = 32;

/// The number of hashes a key can have.
pub const HASH_LIMIT: u64 = 0x100_0000_0000_0000;

/// The entry identifier of a slot under a key hash.
pub open spec fn spec_entry_id(key_hash: u64, slot: u8) -> int {
    key_hash * 256 + slot
}

/// The entry identifier of a slot under a key hash. Only the lower 56 bits of the
/// hash find room in it.
pub fn entry_id(key_hash: u64, slot: u8) -> (r: EntryId)
    ensures
        r == (key_hash % HASH_LIMIT) * 256 + slot,
        key_hash < HASH_LIMIT ==> r == spec_entry_id(key_hash, slot),
{
    let r: u64 = (key_hash << 8) | slot as u64;
    assert(r == (key_hash % 0x100_0000_0000_0000) * 256 + slot) by (bit_vector)
        requires
            r == (key_hash << 8) | slot as u64,
    ;
    r
}

/// The key hash that an entry identifier was made of.
pub fn entry_key_hash(id: EntryId) -> (r: u64)
    ensures
        r == id / 256,
        r < HASH_LIMIT,
{
    assert(id >> 8 == id / 256 && id >> 8 < 0x100_0000_0000_0000) by (bit_vector);
    id >> 8
}

/// The slot that an entry identifier was made of.
pub fn entry_slot(id: EntryId) -> (r: u8)
    ensures
        r == id % 256,
{
    let low: u64 = id & 0xff;
    assert(id & 0xff == id % 256) by (bit_vector);
    low as u8
}

/// An entry identifier gives back the key hash and the slot that it was made of.
pub proof fn law_entry_id_round_trip(key_hash: u64, slot: u8)
    requires
        key_hash < HASH_LIMIT,
    ensures
        spec_entry_id(key_hash, slot) <= u64::MAX,
        spec_entry_id(key_hash, slot) / 256 == key_hash,
        spec_entry_id(key_hash, slot) % 256 == slot,
{
}

/// An entry identifier is made of exactly one key hash and one slot, so no two
/// variants share one.
pub proof fn law_entry_id_unique(a: u64, slot_a: u8, b: u64, slot_b: u8)
    requires
        spec_entry_id(a, slot_a) == spec_entry_id(b, slot_b),
    ensures
        a == b,
        slot_a == slot_b,
{
}

/// The key used to differentiate requests in the cache.
#[derive(Debug)]
pub struct CacheKey {
    url: String,
    /// The HTTP cache partition. Reserved: always `None` until cache partitioning
    /// lands, so that adding it is not a format bump.
    partition: Option<String>,
}

/// What a cache key stands for: the URL and the partition.
pub struct KeyView {
    pub url: Seq<char>,
    pub partition: Option<Seq<char>>,
}

/// The bytes a key is hashed from.
pub open spec fn key_bytes(key: KeyView) -> Seq<u8> {
    (match key.partition {
        Some(partition) => vstd::utf8::encode_utf8(partition),
        None => seq![],
    }) + seq![0u8] + vstd::utf8::encode_utf8(key.url)
}

/// The number that the first eight bytes spell, most significant first, without its
/// lowest eight bits.
pub open spec fn leading_56(digest: Seq<u8>) -> int {
    digest[0] * 0x1_0000_0000_0000 + digest[1] * 0x100_0000_0000 + digest[2] * 0x1_0000_0000
        + digest[3] * 0x100_0000 + digest[4] * 0x1_0000 + digest[5] * 0x100 + digest[6]
}

/// The hash of a key: the first 56 bits of the digest of what it is made of.
pub open spec fn hash_of(key: KeyView) -> u64 {
    leading_56(digest::sha1_of(key_bytes(key))) as u64
}

impl CacheKey {
    pub closed spec fn view(&self) -> KeyView {
        KeyView {
            url: self.url@,
            partition: match self.partition {
                Some(partition) => Some(partition@),
                None => None,
            },
        }
    }

    /// Create a cache key from a request.
    pub fn new(request: &Request) -> (r: CacheKey)
        ensures
            r@ == (KeyView { url: request.url@, partition: None }),
    {
        CacheKey { url: request.url.clone(), partition: None }
    }

    /// Create a cache key from a resolved URL.
    pub fn from_url(url: String) -> (r: CacheKey)
        ensures
            r@ == (KeyView { url: url@, partition: None }),
    {
        CacheKey { url, partition: None }
    }

    /// A copy of the key.
    pub fn copy(&self) -> (r: CacheKey)
        ensures
            r@ == self@,
    {
        CacheKey {
            url: self.url.clone(),
            partition: match &self.partition {
                Some(partition) => Some(partition.clone()),
                None => None,
            },
        }
    }

    /// Whether two keys are the same.
    pub fn same(&self, other: &CacheKey) -> (r: bool)
        ensures
            r == (self@ == other@),
    {
        if self.url != other.url {
            return false;
        }
        match (&self.partition, &other.partition) {
            (Some(a), Some(b)) => *a == *b,
            (None, None) => true,
            _ => false,
        }
    }

    /// The URL this key was built from.
    pub fn url(&self) -> (r: &String)
        ensures
            r@ == self@.url,
    {
        &self.url
    }

    /// A stable 56-bit hash of the key, used to name entry files and to index them
    /// in memory. Collisions are resolved by comparing the full key stored in the
    /// entry's metadata.
    pub fn hash(&self) -> (r: u64)
        ensures
            r == hash_of(self@),
            r == leading_56(digest::sha1_of(key_bytes(self@))),
            r < HASH_LIMIT,
    {
        let mut data: Vec<u8> = match &self.partition {
            Some(partition) => text::copy_bytes(partition.as_str().as_bytes()),
            None => Vec::new(),
        };
        data.push(0);
        let mut url: Vec<u8> = text::copy_bytes(self.url.as_str().as_bytes());
        data.append(&mut url);
        assert(data@ =~= key_bytes(self@));
        let d: Vec<u8> = digest::sha1(data.as_slice());
        d[0] as u64 * 0x1_0000_0000_0000 + d[1] as u64 * 0x100_0000_0000 + d[2] as u64
            * 0x1_0000_0000 + d[3] as u64 * 0x100_0000 + d[4] as u64 * 0x1_0000 + d[5] as u64
            * 0x100 + d[6] as u64
    }
}

/// The hash of a key are the first seven bytes of its digest: digests with the same hash
/// agree in each of these, and the first of them counts most.
pub proof fn law_hash_is_the_first_bytes(a: Seq<u8>, b: Seq<u8>)
    requires
        a.len() >= 7,
        b.len() >= 7,
    ensures
        0 <= leading_56(a) < HASH_LIMIT,
        leading_56(a) == leading_56(b) <==> a.take(7) == b.take(7),
        a[0] < b[0] ==> leading_56(a) < leading_56(b),
        a.take(6) == b.take(6) ==> leading_56(a) - leading_56(b) == a[6] - b[6],
{
    if a.take(6) == b.take(6) {
        assert(forall|i: int| 0 <= i < 6 ==> a[i] == a.take(6)[i] && b[i] == b.take(6)[i]);
        assert(a[0] == b[0] && a[1] == b[1] && a[2] == b[2] && a[3] == b[3] && a[4] == b[4] && a[5]
            == b[5]);
    }
    if a.take(7) == b.take(7) {
        assert(forall|i: int| 0 <= i < 7 ==> a[i] == a.take(7)[i] && b[i] == b.take(7)[i]);
        assert(a[0] == b[0] && a[1] == b[1] && a[2] == b[2] && a[3] == b[3] && a[4] == b[4] && a[5]
            == b[5] && a[6] == b[6]);
    }
    if leading_56(a) == leading_56(b) {
        assert(a[0] == b[0]);
        assert(a[1] == b[1]);
        assert(a[2] == b[2]);
        assert(a[3] == b[3]);
        assert(a[4] == b[4]);
        assert(a[5] == b[5]);
        assert(a[6] == b[6]);
        assert(a.take(7) =~= b.take(7));
    }
}

} // verus!
