//! Coordination between concurrent fetches of the same resource.
//!
//! Exactly one fetch per key writes to the store; the others wait for it to resolve
//! and then read the committed entry, or go to the network if it aborted.
use vstd::prelude::*;

use crate::http_cache::key::{CacheKey, EntryId, KeyView};

verus! {

#[derive(Clone, Copy, Debug, PartialEq, Eq, Structural)]
pub enum InFlightState {
    /// A fetch is writing this entry.
    Writing,
    /// The entry was committed and can be read.
    Committed(EntryId),
    /// The entry will not appear: the response was not storable, the fetch failed,
    /// or it was cancelled.
    Aborted,
}

#[derive(Debug)]
struct Writer {
    key: CacheKey,
    ticket: u64,
}

/// The set of keys currently being written. Each is written under a ticket, by which
/// those who wait for it are notified.
#[derive(Debug)]
pub struct InFlight {
    writers: Vec<Writer>,
    next_ticket: u64,
}

/// Held by the one fetch that may write a given key. It resolves the key when it is
/// given up, so a cancelled fetch cannot leave waiters stuck.
#[derive(Debug)]
pub struct InFlightWriter {
    key: CacheKey,
    ticket: u64,
}

impl InFlightWriter {
    pub closed spec fn key(&self) -> KeyView {
        self.key@
    }

    pub closed spec fn ticket(&self) -> u64 {
        self.ticket
    }
}

/// The keys that are being written and the tickets they are written under.
spec fn table(writers: Seq<Writer>) -> Seq<(KeyView, u64)> {
    Seq::new(writers.len(), |i: int| (writers[i].key@, writers[i].ticket))
}

/// Whether a key is being written.
pub open spec fn is_written(writers: Seq<(KeyView, u64)>, key: KeyView) -> bool {
    exists|i: int| 0 <= i < writers.len() && (#[trigger] writers[i]).0 == key
}

/// Whether a key is being written under a ticket.
pub open spec fn written_under(writers: Seq<(KeyView, u64)>, key: KeyView, ticket: u64) -> bool {
    exists|i: int| 0 <= i < writers.len() && #[trigger] writers[i] == (key, ticket)
}

/// Whether a key is being written under a ticket, whichever key that is.
pub open spec fn is_ticket(writers: Seq<(KeyView, u64)>, ticket: u64) -> bool {
    exists|i: int| 0 <= i < writers.len() && (#[trigger] writers[i]).1 == ticket
}

/// The ticket that comes a number of places after another. After the last one they
/// start over.
pub open spec fn ticket_after(from: u64, places: int) -> u64 {
    if from + places <= u64::MAX {
        (from + places) as u64
    } else {
        (from + places - 0x1_0000_0000_0000_0000) as u64
    }
}

/// How many places a ticket comes after another.
pub open spec fn places_after(from: u64, ticket: u64) -> int {
    if ticket >= from {
        ticket - from
    } else {
        ticket - from + 0x1_0000_0000_0000_0000
    }
}

/// Whether the key of a writer began to be written, under the first ticket from the
/// upcoming one on that is not in use.
pub open spec fn is_registered(before: InFlight, after: InFlight, writer: InFlightWriter) -> bool {
    &&& !is_written(before.writers(), writer.key())
    &&& !is_ticket(before.writers(), writer.ticket())
    &&& forall|other: u64|
        places_after(before.upcoming(), other) < places_after(before.upcoming(), writer.ticket())
            ==> #[trigger] is_ticket(before.writers(), other)
    &&& after.writers() == before.writers().push((writer.key(), writer.ticket()))
    &&& after.upcoming() == ticket_after(writer.ticket(), 1)
}

/// Whether a key is no longer being written, and everything else is as it was; a ticket that
/// it was written under is handed out.
pub open spec fn is_resolved(
    before: InFlight,
    after: InFlight,
    key: KeyView,
    ticket: Option<u64>,
) -> bool {
    &&& after.upcoming() == before.upcoming()
    &&& !is_written(after.writers(), key)
    &&& ticket is Some == is_written(before.writers(), key)
    &&& match ticket {
        Some(ticket) => exists|i: int|
            0 <= i < before.writers().len() && #[trigger] before.writers()[i] == (key, ticket)
                && after.writers() == before.writers().remove(i),
        None => after.writers() == before.writers(),
    }
}

/// Among one more ticket than there are in use there is one that is not.
proof fn lemma_unused(writers: Seq<(KeyView, u64)>, from: u64)
    requires
        writers.len() <= u64::MAX,
    ensures
        exists|k: int|
            0 <= k <= writers.len() && !is_ticket(writers, #[trigger] ticket_after(from, k)),
{
    let tickets = Seq::new(writers.len(), |i: int| writers[i].1);
    let tried = Seq::new((writers.len() + 1) as nat, |k: int| ticket_after(from, k));
    if forall|k: int|
        0 <= k <= writers.len() ==> is_ticket(writers, #[trigger] ticket_after(from, k)) {
        assert(tried.no_duplicates());
        tried.unique_seq_to_set();
        tickets.lemma_cardinality_of_set();
        assert forall|ticket: u64| #[trigger] tried.to_set().contains(ticket) implies tickets.to_set().contains(
            ticket,
        ) by {
            let k = choose|k: int| 0 <= k < tried.len() && tried[k] == ticket;
            assert(is_ticket(writers, ticket_after(from, k)));
            let i = choose|i: int| 0 <= i < writers.len() && (#[trigger] writers[i]).1 == ticket;
            assert(tickets[i] == ticket);
        }
        vstd::seq_lib::seq_to_set_is_finite(tickets);
        vstd::set_lib::lemma_len_subset(tried.to_set(), tickets.to_set());
    }
}

impl InFlight {
    pub closed spec fn writers(&self) -> Seq<(KeyView, u64)> {
        table(self.writers@)
    }

    /// The ticket that is tried first for the next writer.
    pub closed spec fn upcoming(&self) -> u64 {
        self.next_ticket
    }

    /// What holds of every set: no key is written twice, and no ticket is in use
    /// twice.
    pub closed spec fn wf(&self) -> bool {
        &&& forall|i: int, j: int|
            0 <= i < j < self.writers@.len() ==> (#[trigger] self.writers@[i]).key@ != (
            #[trigger] self.writers@[j]).key@
        &&& forall|i: int, j: int|
            0 <= i < j < self.writers@.len() ==> (#[trigger] self.writers@[i]).ticket != (
            #[trigger] self.writers@[j]).ticket
    }

    /// At most one fetch writes a key at any time.
    pub proof fn law_one_writer_per_key(&self, i: int, j: int)
        requires
            self.wf(),
            0 <= i < self.writers().len(),
            0 <= j < self.writers().len(),
            self.writers()[i].0 == self.writers()[j].0,
        ensures
            i == j,
    {
        if i < j {
            assert(self.writers@[i].key@ != self.writers@[j].key@);
        } else if j < i {
            assert(self.writers@[j].key@ != self.writers@[i].key@);
        }
    }

    /// No two keys are written under the same ticket: those who wait for one are not
    /// told of another.
    pub proof fn law_one_key_per_ticket(&self, i: int, j: int)
        requires
            self.wf(),
            0 <= i < self.writers().len(),
            0 <= j < self.writers().len(),
            self.writers()[i].1 == self.writers()[j].1,
        ensures
            i == j,
    {
        if i < j {
            assert(self.writers@[i].ticket != self.writers@[j].ticket);
        } else if j < i {
            assert(self.writers@[j].ticket != self.writers@[i].ticket);
        }
    }

    pub fn new() -> (r: InFlight)
        ensures
            r.wf(),
            r.writers() == Seq::<(KeyView, u64)>::empty(),
            r.upcoming() == 0,
    {
        let r: InFlight = InFlight { writers: Vec::new(), next_ticket: 0 };
        assert(r.writers() =~= Seq::empty());
        r
    }

    fn position(&self, key: &CacheKey) -> (r: usize)
        ensures
            r <= self.writers@.len(),
            r < self.writers@.len() ==> self.writers@[r as int].key@ == key@,
            forall|i: int| 0 <= i < r ==> (#[trigger] self.writers@[i]).key@ != key@,
            r < self.writers@.len() <==> is_written(self.writers(), key@),
    {
        let mut i: usize = 0;
        while i < self.writers.len()
            invariant
                i <= self.writers@.len(),
                forall|j: int| 0 <= j < i ==> (#[trigger] self.writers@[j]).key@ != key@,
            decreases self.writers@.len() - i,
        {
            if self.writers[i].key.same(key) {
                assert(self.writers()[i as int].0 == key@);
                return i;
            }
            i += 1;
        }
        assert(!is_written(self.writers(), key@)) by {
            if is_written(self.writers(), key@) {
                let k = choose|k: int|
                    0 <= k < self.writers().len() && (#[trigger] self.writers()[k]).0 == key@;
                assert(self.writers@[k].key@ == key@);
            }
        }
        i
    }

    fn uses(&self, ticket: u64) -> (r: bool)
        ensures
            r == is_ticket(self.writers(), ticket),
    {
        let mut i: usize = 0;
        while i < self.writers.len()
            invariant
                i <= self.writers@.len(),
                forall|j: int| 0 <= j < i ==> (#[trigger] self.writers()[j]).1 != ticket,
            decreases self.writers@.len() - i,
        {
            if self.writers[i].ticket == ticket {
                assert(self.writers()[i as int].1 == ticket);
                return true;
            }
            i += 1;
        }
        false
    }

    /// The first ticket from the upcoming one on that is not in use.
    fn unused(&self) -> (r: u64)
        ensures
            !is_ticket(self.writers(), r),
            forall|other: u64|
                places_after(self.upcoming(), other) < places_after(self.upcoming(), r)
                    ==> #[trigger] is_ticket(self.writers(), other),
    {
        let ghost writers = self.writers();
        let ghost from = self.next_ticket;
        let len: usize = self.writers.len();
        proof {
            lemma_unused(writers, from);
        }
        let ghost end = choose|k: int|
            0 <= k <= writers.len() && !is_ticket(writers, #[trigger] ticket_after(from, k));
        let mut ticket: u64 = self.next_ticket;
        let ghost mut tried: int = 0;
        while self.uses(ticket)
            invariant
                writers == self.writers(),
                from == self.upcoming(),
                writers.len() == len,
                0 <= tried <= end <= writers.len(),
                !is_ticket(writers, ticket_after(from, end)),
                ticket == ticket_after(from, tried),
                forall|k: int| 0 <= k < tried ==> is_ticket(writers, #[trigger] ticket_after(from, k)),
            decreases end - tried,
        {
            ticket = ticket.wrapping_add(1);
            proof {
                tried = tried + 1;
            }
        }
        proof {
            assert forall|other: u64|
                places_after(from, other) < places_after(from, ticket) implies #[trigger] is_ticket(
                writers,
                other,
            ) by {
                assert(ticket_after(from, places_after(from, other)) == other);
            }
        }
        ticket
    }

    /// Become the writer for `key`, or get the ticket to wait on of the fetch that
    /// already is.
    pub fn register(&mut self, key: &CacheKey) -> (r: Result<InFlightWriter, u64>)
        requires
            old(self).wf(),
        ensures
            final(self).wf(),
            r is Ok == !is_written(old(self).writers(), key@),
            match r {
                Ok(writer) => {
                    &&& writer.key() == key@
                    &&& is_registered(*old(self), *final(self), writer)
                },
                Err(ticket) => {
                    &&& written_under(old(self).writers(), key@, ticket)
                    &&& *final(self) == *old(self)
                },
            },
    {
        let i: usize = self.position(key);
        if i < self.writers.len() {
            let ticket: u64 = self.writers[i].ticket;
            assert(self.writers()[i as int] == (key@, ticket));
            return Err(ticket);
        }
        let ticket: u64 = self.unused();
        let ghost before = self.writers();
        let ghost raw = self.writers@;
        self.writers.push(Writer { key: key.copy(), ticket });
        self.next_ticket = ticket.wrapping_add(1);
        proof {
            assert(self.writers() =~= before.push((key@, ticket)));
            assert forall|a: int, b: int| 0 <= a < b < self.writers@.len() implies (
            #[trigger] self.writers@[a]).key@ != (#[trigger] self.writers@[b]).key@ by {
                if b == raw.len() {
                    assert(raw[a].key@ != key@);
                } else {
                    assert(raw[a].key@ != raw[b].key@);
                }
            }
            assert forall|a: int, b: int| 0 <= a < b < self.writers@.len() implies (
            #[trigger] self.writers@[a]).ticket != (#[trigger] self.writers@[b]).ticket by {
                if b == raw.len() {
                    assert(before[a].1 != ticket);
                } else {
                    assert(raw[a].ticket != raw[b].ticket);
                }
            }
        }
        Ok(InFlightWriter { key: key.copy(), ticket })
    }

    /// No key is being written any more. The tickets go on from where they are.
    pub fn clear(&mut self)
        ensures
            final(self).wf(),
            final(self).writers() == Seq::<(KeyView, u64)>::empty(),
            final(self).upcoming() == old(self).upcoming(),
    {
        self.writers.clear();
        assert(self.writers() =~= Seq::empty());
    }

    /// Resolve the key of a writer. The result is the ticket whose waiters are to be
    /// told, if the key was still being written.
    pub fn resolve(&mut self, writer: InFlightWriter) -> (r: Option<u64>)
        requires
            old(self).wf(),
        ensures
            final(self).wf(),
            is_resolved(*old(self), *final(self), writer.key(), r),
    {
        let i: usize = self.position(&writer.key);
        if i >= self.writers.len() {
            return None;
        }
        let ghost before = self.writers();
        let ghost raw = self.writers@;
        let gone: Writer = self.writers.remove(i);
        proof {
            assert(self.writers() =~= before.remove(i as int));
            assert(before[i as int] == (writer.key@, gone.ticket));
            assert forall|j: int| 0 <= j < self.writers@.len() implies (
            #[trigger] self.writers@[j]) == raw[if j < i {
                j
            } else {
                j + 1
            }] by {}
            assert forall|a: int, b: int| 0 <= a < b < self.writers@.len() implies (
            #[trigger] self.writers@[a]).key@ != (#[trigger] self.writers@[b]).key@ by {
                let a0 = if a < i {
                    a
                } else {
                    a + 1
                };
                let b0 = if b < i {
                    b
                } else {
                    b + 1
                };
                assert(raw[a0].key@ != raw[b0].key@);
            }
            assert forall|a: int, b: int| 0 <= a < b < self.writers@.len() implies (
            #[trigger] self.writers@[a]).ticket != (#[trigger] self.writers@[b]).ticket by {
                let a0 = if a < i {
                    a
                } else {
                    a + 1
                };
                let b0 = if b < i {
                    b
                } else {
                    b + 1
                };
                assert(raw[a0].ticket != raw[b0].ticket);
            }
            if is_written(self.writers(), writer.key@) {
                let k = choose|k: int|
                    0 <= k < self.writers().len() && (#[trigger] self.writers()[k]).0
                        == writer.key@;
                let k0 = if k < i {
                    k
                } else {
                    k + 1
                };
                assert(raw[k0].key@ == writer.key@);
                if k0 < i {
                    assert(raw[k0].key@ != raw[i as int].key@);
                } else {
                    assert(raw[i as int].key@ != raw[k0].key@);
                }
            }
        }
        Some(gone.ticket)
    }
}

/// While a key is being written no one else may write it, and others are told of its
/// writer's ticket; once it is resolved, those who wait under that ticket are told, and the
/// key may be written again. Every other key is left alone throughout.
pub proof fn law_resolving_undoes_registering(
    before: InFlight,
    begun: InFlight,
    after: InFlight,
    writer: InFlightWriter,
    ticket: Option<u64>,
    other: KeyView,
)
    requires
        before.wf(),
        begun.wf(),
        is_registered(before, begun, writer),
        is_resolved(begun, after, writer.key(), ticket),
    ensures
        written_under(begun.writers(), writer.key(), writer.ticket()),
        is_written(begun.writers(), writer.key()),
        ticket == Some(writer.ticket()),
        !is_written(after.writers(), writer.key()),
        after.writers() == before.writers(),
        other != writer.key() ==> is_written(begun.writers(), other) == is_written(
            before.writers(),
            other,
        ),
{
    let last = before.writers().len() as int;
    assert(begun.writers()[last] == (writer.key(), writer.ticket()));
    let i = choose|i: int|
        0 <= i < begun.writers().len() && #[trigger] begun.writers()[i] == (
            writer.key(),
            ticket->0,
        ) && after.writers() == begun.writers().remove(i);
    begun.law_one_writer_per_key(i, last);
    assert(after.writers() =~= before.writers());
    if other != writer.key() {
        if is_written(before.writers(), other) {
            let k = choose|k: int|
                0 <= k < before.writers().len() && (#[trigger] before.writers()[k]).0 == other;
            assert(begun.writers()[k].0 == other);
        }
        if is_written(begun.writers(), other) {
            let k = choose|k: int|
                0 <= k < begun.writers().len() && (#[trigger] begun.writers()[k]).0 == other;
            assert(before.writers()[k].0 == other);
        }
    }
}

/// What one who waits for a key sees next: the state that the key resolved to, or
/// `None` if the wait goes on.
pub open spec fn seen(state: InFlightState, writer_gone: bool) -> Option<InFlightState> {
    match state {
        InFlightState::Writing => if writer_gone {
            Some(InFlightState::Aborted)
        } else {
            None
        },
        _ => Some(state),
    }
}

/// One who waits learns the entry that was committed, or that the key was aborted, as it
/// also counts where the writer is gone without a word. No one is told that the key is
/// being written.
pub proof fn law_waiting_ends_with_the_outcome(
    state: InFlightState,
    id: EntryId,
    writer_gone: bool,
)
    ensures
        seen(InFlightState::Committed(id), writer_gone) == Some(InFlightState::Committed(id)),
        seen(InFlightState::Aborted, writer_gone) == Some(InFlightState::Aborted),
        seen(InFlightState::Writing, true) == Some(InFlightState::Aborted),
        seen(state, writer_gone) matches Some(told) ==> !(told is Writing),
        writer_gone ==> seen(state, writer_gone) is Some,
{
}

/// What one who waits for a key sees next. A writer that vanished without resolving is
/// treated as an abort rather than waited for forever.
pub fn wait(state: InFlightState, writer_gone: bool) -> (r: Option<InFlightState>)
    ensures
        r == seen(state, writer_gone),
{
    match state {
        InFlightState::Writing => if writer_gone {
            Some(InFlightState::Aborted)
        } else {
            None
        },
        _ => Some(state),
    }
}

/// Single-flight guard for `stale-while-revalidate` background refreshes, so a stale
/// entry served to many consumers is only revalidated once.
#[derive(Debug)]
pub struct RevalidationGuards {
    keys: Vec<CacheKey>,
}

/// The keys that are being revalidated without one of them.
pub open spec fn without_key(keys: Seq<KeyView>, key: KeyView) -> Seq<KeyView> {
    match keys.index_of_first(key) {
        Some(i) => keys.remove(i),
        None => keys,
    }
}

/// Held for as long as a background revalidation of one key is in flight.
#[derive(Debug)]
pub struct RevalidationGuard {
    key: CacheKey,
}

impl RevalidationGuard {
    pub closed spec fn key(&self) -> KeyView {
        self.key@
    }
}

spec fn key_list(keys: Seq<CacheKey>) -> Seq<KeyView> {
    Seq::new(keys.len(), |i: int| keys[i]@)
}

impl RevalidationGuards {
    /// The keys that are being revalidated.
    pub closed spec fn keys(&self) -> Seq<KeyView> {
        key_list(self.keys@)
    }

    pub closed spec fn wf(&self) -> bool {
        self.keys().no_duplicates()
    }

    pub fn new() -> (r: RevalidationGuards)
        ensures
            r.wf(),
            r.keys() == Seq::<KeyView>::empty(),
    {
        let r: RevalidationGuards = RevalidationGuards { keys: Vec::new() };
        assert(r.keys() =~= Seq::empty());
        r
    }

    fn position(&self, key: &CacheKey) -> (r: usize)
        ensures
            r <= self.keys@.len(),
            r < self.keys@.len() ==> self.keys@[r as int]@ == key@,
            forall|i: int| 0 <= i < r ==> (#[trigger] self.keys@[i])@ != key@,
            r < self.keys@.len() <==> self.keys().contains(key@),
    {
        let mut i: usize = 0;
        while i < self.keys.len()
            invariant
                i <= self.keys@.len(),
                forall|j: int| 0 <= j < i ==> (#[trigger] self.keys@[j])@ != key@,
            decreases self.keys@.len() - i,
        {
            if self.keys[i].same(key) {
                assert(self.keys()[i as int] == key@);
                return i;
            }
            i += 1;
        }
        assert(!self.keys().contains(key@)) by {
            if self.keys().contains(key@) {
                let k = choose|k: int| 0 <= k < self.keys().len() && self.keys()[k] == key@;
                assert(self.keys@[k]@ == key@);
            }
        }
        i
    }

    /// Start revalidating a key, unless it is being revalidated already.
    pub fn try_acquire(&mut self, key: &CacheKey) -> (r: Option<RevalidationGuard>)
        requires
            old(self).wf(),
        ensures
            final(self).wf(),
            r is Some == !old(self).keys().contains(key@),
            r matches Some(guard) ==> guard.key() == key@,
            final(self).keys() == if r is Some {
                old(self).keys().push(key@)
            } else {
                old(self).keys()
            },
    {
        if self.position(key) < self.keys.len() {
            return None;
        }
        let ghost before = self.keys();
        self.keys.push(key.copy());
        assert(self.keys() =~= before.push(key@));
        Some(RevalidationGuard { key: key.copy() })
    }

    /// A background revalidation is over; the next stale hit may start another one.
    pub fn release(&mut self, guard: RevalidationGuard)
        requires
            old(self).wf(),
        ensures
            final(self).wf(),
            !final(self).keys().contains(guard.key()),
            final(self).keys() == without_key(old(self).keys(), guard.key()),
    {
        let i: usize = self.position(&guard.key);
        let ghost before = self.keys();
        let ghost raw = self.keys@;
        proof {
            before.index_of_first_ensures(guard.key@);
        }
        if i < self.keys.len() {
            self.keys.remove(i);
            proof {
                assert forall|j: int| 0 <= j < i implies before[j] != guard.key@ by {
                    assert(raw[j]@ != guard.key@);
                }
                assert(before[i as int] == guard.key@);
                assert(self.keys() =~= before.remove(i as int));
                if self.keys().contains(guard.key@) {
                    let k = choose|k: int|
                        0 <= k < self.keys().len() && self.keys()[k] == guard.key@;
                    assert(before[if k < i {
                        k
                    } else {
                        k + 1
                    }] == guard.key@);
                }
            }
        }
    }
}

/// Tickets go round: one comes after the other, the last is followed by the first, and how far
/// one is behind another tells which it is.
pub proof fn law_tickets_go_round(from: u64, ticket: u64)
    ensures
        0 <= places_after(from, ticket) <= u64::MAX,
        ticket_after(from, places_after(from, ticket)) == ticket,
        places_after(from, from) == 0,
        from < u64::MAX ==> ticket_after(from, 1) == from + 1,
        ticket_after(u64::MAX, 1) == 0,
{
}

/// A revalidation that is over is the one that ends, and no other.
pub proof fn law_released_revalidation(keys: Seq<KeyView>, key: KeyView, other: KeyView)
    requires
        keys.no_duplicates(),
    ensures
        !without_key(keys, key).contains(key),
        other != key ==> without_key(keys, key).contains(other) == keys.contains(other),
{
    keys.index_of_first_ensures(key);
    if let Some(i) = keys.index_of_first(key) {
        let after = keys.remove(i);
        assert forall|k: int| 0 <= k < after.len() implies #[trigger] after[k] == keys[if k < i {
            k
        } else {
            k + 1
        }] by {}
        if after.contains(key) {
            let k = choose|k: int| 0 <= k < after.len() && after[k] == key;
            let m = if k < i {
                k
            } else {
                k + 1
            };
            assert(keys[m] == keys[i]);
        }
        if keys.contains(other) && other != key {
            let m = choose|m: int| 0 <= m < keys.len() && keys[m] == other;
            let k = if m < i {
                m
            } else {
                m - 1
            };
            assert(after[k] == other);
        }
        if after.contains(other) {
            let k = choose|k: int| 0 <= k < after.len() && after[k] == other;
            let m = if k < i {
                k
            } else {
                k + 1
            };
            assert(keys[m] == other);
        }
    }
}

} // verus!
