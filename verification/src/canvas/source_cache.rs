//! Images that were uploaded for drawing, kept for the next time they are drawn.
use vstd::prelude::*;

verus! {

/// Upper bound on the number of distinct source images kept resident.
pub const SOURCE_CACHE_MAX_ENTRIES: usize = 32;

/// Upper bound on the total source-pixel bytes kept resident.
pub const SOURCE_CACHE_MAX_BYTES: usize = 67108864;

/// An uploaded image: the key of its content, its size, the bytes of its pixels and the
/// number that it is known by.
#[derive(Clone, Copy, Debug, PartialEq, Eq, Structural)]
pub struct SourceImage {
    pub key: u64,
    pub width: i32,
    pub height: i32,
    pub bytes: usize,
    pub image: u64,
}

/// A small move-to-front cache bounded by both entry count and total bytes.
#[derive(Debug)]
pub struct SourceImageCache {
    entries: Vec<SourceImage>,
}

/// The bytes of the pixels of all images.
pub open spec fn total(entries: Seq<SourceImage>) -> nat
    decreases entries.len(),
{
    if entries.len() == 0 {
        0
    } else {
        total(entries.drop_last()) + entries.last().bytes as nat
    }
}

pub open spec fn is_image(entry: SourceImage, key: u64, width: i32, height: i32) -> bool {
    entry.key == key && entry.width == width && entry.height == height
}

/// The first image with a key and a size, or the number of images if none has them.
pub open spec fn place_of(entries: Seq<SourceImage>, key: u64, width: i32, height: i32) -> int
    decreases entries.len(),
{
    if entries.len() == 0 {
        0
    } else {
        let before = place_of(entries.drop_last(), key, width, height);
        if before < entries.len() - 1 || is_image(entries.last(), key, width, height) {
            before
        } else {
            entries.len() as int
        }
    }
}

proof fn lemma_place_of(entries: Seq<SourceImage>, key: u64, width: i32, height: i32)
    ensures
        0 <= place_of(entries, key, width, height) <= entries.len(),
        place_of(entries, key, width, height) < entries.len() ==> is_image(
            entries[place_of(entries, key, width, height)],
            key,
            width,
            height,
        ),
        forall|i: int|
            0 <= i < place_of(entries, key, width, height) ==> !is_image(
                #[trigger] entries[i],
                key,
                width,
                height,
            ),
    decreases entries.len(),
{
    if entries.len() > 0 {
        lemma_place_of(entries.drop_last(), key, width, height);
        assert forall|i: int| 0 <= i < place_of(entries, key, width, height) implies !is_image(
            #[trigger] entries[i],
            key,
            width,
            height,
        ) by {
            if i < entries.len() - 1 {
                assert(entries.drop_last()[i] == entries[i]);
            }
        }
    }
}

/// Whether the images exceed a bound.
pub open spec fn exceeds(entries: Seq<SourceImage>) -> bool {
    entries.len() > 1 && (entries.len() > SOURCE_CACHE_MAX_ENTRIES || total(entries)
        > SOURCE_CACHE_MAX_BYTES)
}

/// The images that stay: the last ones leave until the bounds are kept.
pub open spec fn kept(entries: Seq<SourceImage>) -> Seq<SourceImage>
    decreases entries.len(),
{
    if exceeds(entries) {
        kept(entries.drop_last())
    } else {
        entries
    }
}

/// Both bounds are kept, unless there is one image only; and the image in front always
/// stays.
pub proof fn law_bounds_are_kept(entries: Seq<SourceImage>)
    requires
        entries.len() > 0,
    ensures
        kept(entries).len() > 0,
        kept(entries)[0] == entries[0],
        kept(entries).len() == 1 || (kept(entries).len() <= SOURCE_CACHE_MAX_ENTRIES && total(
            kept(entries),
        ) <= SOURCE_CACHE_MAX_BYTES),
    decreases entries.len(),
{
    if exceeds(entries) {
        law_bounds_are_kept(entries.drop_last());
    }
}

/// An image that was just kept is the one that is found next for its key and size.
pub proof fn law_inserted_is_found(entries: Seq<SourceImage>, entry: SourceImage)
    ensures
        place_of(
            kept(seq![entry] + entries),
            entry.key,
            entry.width,
            entry.height,
        ) == 0,
        kept(seq![entry] + entries)[0] == entry,
{
    let all = seq![entry] + entries;
    law_bounds_are_kept(all);
    lemma_place_of(kept(all), entry.key, entry.width, entry.height);
    if place_of(kept(all), entry.key, entry.width, entry.height) > 0 {
        assert(!is_image(kept(all)[0], entry.key, entry.width, entry.height));
    }
}

impl SourceImageCache {
    /// The images, those used last in front.
    pub closed spec fn view(&self) -> Seq<SourceImage> {
        self.entries@
    }

    pub fn new() -> (r: SourceImageCache)
        ensures
            r@ == Seq::<SourceImage>::empty(),
    {
        SourceImageCache { entries: Vec::new() }
    }

    /// The image with a key and a size, which then comes to the front.
    pub fn find(&mut self, key: u64, width: i32, height: i32) -> (r: Option<u64>)
        ensures
            ({
                let i = place_of(old(self)@, key, width, height);
                if i < old(self)@.len() {
                    &&& r == Some(old(self)@[i].image)
                    &&& final(self)@ == seq![old(self)@[i]] + old(self)@.remove(i)
                } else {
                    &&& r is None
                    &&& final(self)@ == old(self)@
                }
            }),
    {
        let ghost all = self.entries@;
        proof {
            lemma_place_of(all, key, width, height);
        }
        let mut i: usize = 0;
        while i < self.entries.len()
            invariant
                self.entries@ == all,
                i <= place_of(all, key, width, height) <= all.len(),
                place_of(all, key, width, height) < all.len() ==> is_image(
                    all[place_of(all, key, width, height)],
                    key,
                    width,
                    height,
                ),
                forall|j: int|
                    0 <= j < place_of(all, key, width, height) ==> !is_image(
                        #[trigger] all[j],
                        key,
                        width,
                        height,
                    ),
                all == old(self)@,
            decreases all.len() - i,
        {
            let entry: SourceImage = self.entries[i];
            if entry.key == key && entry.width == width && entry.height == height {
                self.entries.remove(i);
                self.entries.insert(0, entry);
                assert(self.entries@ =~= seq![entry] + all.remove(i as int));
                return Some(entry.image);
            }
            i += 1;
        }
        None
    }

    /// Keep an image that was just uploaded. The result are the images that leave, the
    /// one used longest ago first.
    pub fn insert(&mut self, entry: SourceImage) -> (r: Vec<u64>)
        requires
            total(old(self)@) + entry.bytes <= usize::MAX,
        ensures
            final(self)@ == kept(seq![entry] + old(self)@),
            r@.len() == 1 + old(self)@.len() - final(self)@.len(),
            forall|i: int|
                0 <= i < r@.len() ==> #[trigger] r@[i] == (seq![entry] + old(self)@)[old(
                    self,
                )@.len() - i].image,
    {
        let ghost all = seq![entry] + self.entries@;
        let ghost rest = self.entries@;
        self.entries.insert(0, entry);
        assert(self.entries@ =~= all);
        proof {
            lemma_total_front(entry, rest);
        }
        let mut sum: usize = 0;
        let mut i: usize = 0;
        while i < self.entries.len()
            invariant
                self.entries@ == all,
                i <= all.len(),
                sum == total(all.take(i as int)),
                total(all) <= usize::MAX,
            decreases all.len() - i,
        {
            proof {
                assert(all.take(i + 1).drop_last() =~= all.take(i as int));
                lemma_total_take(all, i + 1);
            }
            sum = sum + self.entries[i].bytes;
            i += 1;
        }
        assert(all.take(all.len() as int) =~= all);
        let mut r: Vec<u64> = Vec::new();
        while self.entries.len() > 1 && (self.entries.len() > SOURCE_CACHE_MAX_ENTRIES || sum
            > SOURCE_CACHE_MAX_BYTES)
            invariant
                all.len() == rest.len() + 1,
                self.entries@.len() + r@.len() == all.len(),
                self.entries@.len() >= 1,
                self.entries@ == all.take(self.entries@.len() as int),
                kept(self.entries@) == kept(all),
                sum == total(self.entries@),
                forall|j: int| 0 <= j < r@.len() ==> #[trigger] r@[j] == all[rest.len() - j].image,
            decreases self.entries@.len(),
        {
            let ghost before = self.entries@;
            match self.entries.pop() {
                Some(evicted) => {
                    assert(evicted == before.last());
                    sum = sum - evicted.bytes;
                    r.push(evicted.image);
                    assert(self.entries@ =~= before.drop_last());
                    assert(self.entries@ =~= all.take(self.entries@.len() as int));
                },
                None => {},
            }
        }
        r
    }
}

proof fn lemma_total_take(entries: Seq<SourceImage>, n: int)
    requires
        0 <= n <= entries.len(),
    ensures
        total(entries.take(n)) <= total(entries),
    decreases entries.len(),
{
    if n < entries.len() {
        lemma_total_take(entries.drop_last(), n);
        assert(entries.drop_last().take(n) =~= entries.take(n));
    } else {
        assert(entries.take(n) =~= entries);
    }
}

proof fn lemma_total_front(entry: SourceImage, rest: Seq<SourceImage>)
    ensures
        total(seq![entry] + rest) == entry.bytes + total(rest),
    decreases rest.len(),
{
    if rest.len() == 0 {
        assert(seq![entry] + rest =~= seq![entry]);
        assert(seq![entry].drop_last() =~= Seq::<SourceImage>::empty());
        reveal_with_fuel(total, 2);
    } else {
        lemma_total_front(entry, rest.drop_last());
        assert((seq![entry] + rest).drop_last() =~= seq![entry] + rest.drop_last());
    }
}

/// An image is found by its key and its size together, and the one that was used last is.
pub proof fn law_found_image(
    entries: Seq<SourceImage>,
    key: u64,
    width: i32,
    height: i32,
    i: int,
)
    requires
        0 <= i < entries.len(),
    ensures
        ({
            let k = place_of(entries, key, width, height);
            &&& 0 <= k <= entries.len()
            &&& k < entries.len() ==> entries[k].key == key && entries[k].width == width
                && entries[k].height == height
            &&& entries[i].key == key && entries[i].width == width && entries[i].height == height
                ==> k <= i
        }),
{
    lemma_place_of(entries, key, width, height);
}

/// Images are dropped from the end that was used longest ago, and no more of them than the
/// bounds ask for: with one more the bounds would not be kept.
pub proof fn law_no_more_than_needed(entries: Seq<SourceImage>)
    ensures
        kept(entries).len() <= entries.len(),
        kept(entries) == entries.take(kept(entries).len() as int),
        kept(entries).len() < entries.len() ==> {
            let one_more = entries.take(kept(entries).len() as int + 1);
            one_more.len() > 32 || total(one_more) > 64 * 1024 * 1024
        },
        entries.len() <= 32 && total(entries) <= 64 * 1024 * 1024 ==> kept(entries) == entries,
    decreases entries.len(),
{
    if exceeds(entries) {
        let front = entries.drop_last();
        law_no_more_than_needed(front);
        let n = kept(entries).len() as int;
        assert(front.take(n) =~= entries.take(n));
        if n < front.len() {
            assert(front.take(n + 1) =~= entries.take(n + 1));
        } else {
            assert(entries.take(n + 1) =~= entries);
        }
    } else {
        assert(entries.take(entries.len() as int) =~= entries);
    }
}

} // verus!
