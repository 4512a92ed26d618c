//! The cache as fetches see it: selecting, serving, storing and invalidating
//! responses.
use http::{HeaderMap, HeaderValue};
use vstd::prelude::*;

use crate::fetch;
use crate::fetch::Request;
use crate::fields;
use crate::http_cache::front;
use crate::http_cache::front::{CacheTransaction, Decision, Front, Round};
use crate::http_cache::inflight;
use crate::http_cache::inflight::{
    InFlight, InFlightState, InFlightWriter, RevalidationGuard, RevalidationGuards,
};
use crate::http_cache::key;
use crate::http_cache::key::{CacheKey, EntryId, KeyView};
use crate::http_cache::lookup;
use crate::http_cache::lookup::{
    entry_meta, invalidated_keys, plan_serve, select_variant, validation_status,
    HttpCacheAssignment, Judgement, Selection, ValidationStatus,
};
use crate::http_cache::memory_store;
use crate::http_cache::memory_store::{MemoryStore, MemoryWrite, VariantView};
use crate::http_cache::policy;
use crate::http_cache::policy::Freshness;
use crate::http_cache::range;
use crate::http_cache::store;
use crate::http_cache::store::{BodyReader, DecoderType, EntryMeta, MetaView};
use crate::text;
use crate::time::Span;

verus! {

/// The HTTP cache, with its entries in memory.
pub struct HttpCache {
    store: MemoryStore,
    front: Front,
    /// Which side of the browsing session this cache serves.
    assignment: HttpCacheAssignment,
}

/// A stored response that is being served.
pub struct CachedResponse {
    pub url: String,
    pub status: Option<u16>,
    pub headers: HeaderMap<HeaderValue>,
    pub body: BodyReader,
}

/// What a cache lookup produced.
pub struct CacheLookup {
    /// The response to serve, if the cache could answer the request.
    pub response: Option<CachedResponse>,
    /// Held while a `stale-while-revalidate` refresh should be started for this
    /// key; releasing it lets the next stale hit start another one.
    pub revalidate_in_background: Option<RevalidationGuard>,
    /// Whether the request was made conditional, to revalidate a stored response.
    pub revalidating: bool,
}

/// The entries under a key.
pub open spec fn entries(variants: Seq<VariantView>, key: KeyView) -> Seq<(EntryId, MetaView)> {
    memory_store::matching(variants, key::hash_of(key), key)
}

/// A store after a list of entries was taken out.
pub open spec fn without_all(variants: Seq<VariantView>, ids: Seq<EntryId>) -> Seq<VariantView>
    decreases ids.len(),
{
    if ids.len() == 0 {
        variants
    } else {
        memory_store::dropped(without_all(variants, ids.drop_last()), ids.last())
    }
}

/// A store after everything under a list of keys was taken out.
pub open spec fn without_keys(variants: Seq<VariantView>, keys: Seq<KeyView>) -> Seq<VariantView>
    decreases keys.len(),
{
    if keys.len() == 0 {
        variants
    } else {
        memory_store::others(without_keys(variants, keys.drop_last()), key::hash_of(keys.last()))
    }
}

/// What was stored last is found again under its key, with its whole body.
pub proof fn law_stored_is_found(store: &MemoryStore)
    requires
        store.wf(),
        store.variants().len() > 0,
        store.variants().last().id / 256 == key::hash_of(store.variants().last().meta.key),
    ensures
        ({
            let stored = store.variants().last();
            let found = entries(store.variants(), stored.meta.key);
            &&& found.len() > 0
            &&& found.last() == (stored.id, stored.meta)
            &&& memory_store::opened(store.variants(), stored.id, None) == Some(stored.body)
        }),
{
    let variants = store.variants();
    let last = variants.len() - 1;
    store.law_store_invariant();
    memory_store::lemma_index_of(variants, variants[last].id);
    let i = memory_store::index_of(variants, variants[last].id);
    assert(variants[last].id == variants.last().id);
    assert(memory_store::holds(variants, variants.last().id));
    if i < last {
        assert(variants[i].id != variants[last].id);
    }
}

/// A variant that fits beside those that are held takes the place of none of them: it is
/// found under its key after those that were, and what is found under another key stays.
pub proof fn law_stored_joins_the_others(
    before: Seq<VariantView>,
    stored: VariantView,
    max_bytes: nat,
    other: KeyView,
)
    requires
        memory_store::total(before) + stored.body.len() <= max_bytes,
        stored.id / 256 == key::hash_of(stored.meta.key),
    ensures
        memory_store::evicted(before.push(stored), max_bytes) == before.push(stored),
        entries(before.push(stored), stored.meta.key) == entries(before, stored.meta.key).push(
            (stored.id, stored.meta),
        ),
        other != stored.meta.key ==> entries(before.push(stored), other) == entries(before, other),
{
    assert(before.push(stored).drop_last() =~= before);
}

/// Whether a cache is what it was set up as, whatever it holds.
pub open spec fn same_setup(before: HttpCache, after: HttpCache) -> bool {
    &&& after.side() == before.side()
    &&& after.is_disabled() == before.is_disabled()
    &&& after.store().max_bytes() == before.store().max_bytes()
    &&& after.store().spec_max_entry_bytes() == before.store().spec_max_entry_bytes()
}

impl HttpCache {
    pub closed spec fn variants(&self) -> Seq<VariantView> {
        self.store.variants()
    }

    pub closed spec fn store(&self) -> MemoryStore {
        self.store
    }

    pub closed spec fn front(&self) -> Front {
        self.front
    }

    pub open spec fn inflight(&self) -> InFlight {
        self.front().inflight()
    }

    pub open spec fn revalidations(&self) -> RevalidationGuards {
        self.front().revalidations()
    }

    pub closed spec fn side(&self) -> HttpCacheAssignment {
        self.assignment
    }

    pub open spec fn is_disabled(&self) -> bool {
        self.front().is_disabled()
    }

    pub open spec fn wf(&self) -> bool {
        &&& self.store().wf()
        &&& self.front().wf()
        &&& self.variants() == self.store().variants()
    }

    /// Create a cache for the given side of the browsing session, with a budget in
    /// bytes; a negative one counts as none.
    pub fn new(
        assignment: HttpCacheAssignment,
        memory_budget: i64,
        configured_cap: u64,
        disabled: bool,
    ) -> (r: HttpCache)
        requires
            memory_budget <= usize::MAX,
        ensures
            r.wf(),
            r.variants() == Seq::<VariantView>::empty(),
            r.side() == assignment,
            r.is_disabled() == disabled,
            r.store().max_bytes() == if memory_budget < 0 {
                0
            } else {
                memory_budget as int
            },
            r.store().spec_max_entry_bytes() == store::entry_cap(
                r.store().max_bytes() as u64,
                configured_cap,
            ),
            r.inflight().upcoming() == 0,
            r.inflight().writers().len() == 0,
            r.revalidations().keys().len() == 0,
            r.store().clock() == 0,
            r.store().reserved().len() == 0,
    {
        let budget: usize = if memory_budget < 0 {
            0
        } else {
            memory_budget as usize
        };
        HttpCache {
            store: MemoryStore::new(budget, configured_cap),
            front: Front::new(disabled),
            assignment,
        }
    }

    /// A cache backed by an explicit store.
    pub fn with_store(store: MemoryStore) -> (r: HttpCache)
        requires
            store.wf(),
        ensures
            r.wf(),
            r.store() == store,
            r.side() == HttpCacheAssignment::Public,
            !r.is_disabled(),
            r.inflight().upcoming() == 0,
            r.inflight().writers().len() == 0,
            r.revalidations().keys().len() == 0,
    {
        HttpCache {
            store,
            front: Front::new(false),
            assignment: HttpCacheAssignment::Public,
        }
    }

    /// The bytes this cache holds in the process.
    pub fn stored_bytes(&self) -> (r: usize)
        requires
            self.wf(),
        ensures
            r == memory_store::total(self.variants()),
    {
        self.store.stored_bytes()
    }

    /// The bytes this cache holds on disk: none, since it is kept in memory.
    pub fn disk_bytes(&self) -> (r: u64)
        ensures
            r == 0,
    {
        0
    }

    /// Which side of the browsing session this cache serves.
    pub fn assignment(&self) -> (r: HttpCacheAssignment)
        ensures
            r == self.side(),
    {
        self.assignment
    }

    /// The addresses of the entries, in the order in which they were stored.
    pub fn cache_entry_descriptors(&self) -> (r: Vec<String>)
        requires
            self.wf(),
        ensures
            r@.len() == self.variants().len(),
            forall|i: int|
                0 <= i < r@.len() ==> (#[trigger] r@[i])@ == self.variants()[i].meta.key.url,
    {
        self.store.descriptors()
    }

    /// Drop everything this cache holds.
    pub fn clear(&mut self)
        requires
            old(self).wf(),
        ensures
            final(self).wf(),
            same_setup(*old(self), *final(self)),
            final(self).variants() == Seq::<VariantView>::empty(),
            final(self).store().reserved() == old(self).store().reserved(),
            final(self).store().clock() == old(self).store().clock(),
            final(self).front() == old(self).front(),
    {
        self.store.clear();
    }

    /// The transaction that a fetch of the request starts with.
    pub fn new_transaction(&self, request: &Request) -> (r: CacheTransaction)
        ensures
            r.key@ == (KeyView { url: request.url@, partition: None }),
            r.superseded@ == Seq::<EntryId>::empty(),
            r.revalidating is None,
            r.writer is None,
            r.storable == (!self.is_disabled() && request.method@ == text::bytes("GET")),
    {
        self.front.new_transaction(request)
    }

    /// One round of a lookup: select among the stored variants; if none answers,
    /// become the writer of the key, or learn whom to wait for.
    pub fn look_up(
        &mut self,
        transaction: &mut CacheTransaction,
        request: &Request,
        now: Span,
    ) -> (r: Round)
        requires
            old(self).wf(),
            old(transaction).writer is None,
            lookup::is_request(request),
            policy::is_date(now),
        ensures
            final(self).wf(),
            final(self).store() == old(self).store(),
            final(self).revalidations() == old(self).revalidations(),
            final(self).side() == old(self).side(),
            final(self).is_disabled() == old(self).is_disabled(),
            front::is_round(
                r,
                entries(old(self).variants(), old(transaction).key@),
                request,
                now,
                *old(transaction),
                *final(transaction),
                old(self).inflight(),
                final(self).inflight(),
            ),
    {
        let variants: Vec<(EntryId, EntryMeta)> = self.store.lookup(&transaction.key);
        self.front.select(transaction, &variants, request, now)
    }

    /// Apply the request's cache mode to the selected response: serve it, or set the
    /// conditional headers when it has to be revalidated. Where the request is not
    /// answered, it becomes the writer of the key unless another fetch is.
    pub fn answer(
        &mut self,
        transaction: &mut CacheTransaction,
        request: &mut Request,
        id: EntryId,
        meta: EntryMeta,
        freshness: Freshness,
        now: Span,
    ) -> (r: CacheLookup)
        requires
            old(self).wf(),
            old(self).store().clock() < u64::MAX,
            meta.usable(),
            policy::is_date(now),
            fields::has_room(old(request).fields(), 1),
            freshness matches Freshness::Stale { stale_for, revalidation } ==> stale_for.wf(),
        ensures
            final(self).wf(),
            same_setup(*old(self), *final(self)),
            final(self).store().reserved() == old(self).store().reserved(),
            final(self).store().clock() == old(self).store().clock() + (if r.response is Some {
                1int
            } else {
                0
            }),
            final(transaction).key == old(transaction).key,
            final(transaction).storable == old(transaction).storable,
            final(transaction).superseded == old(transaction).superseded,
            ({
                let judgement = front::judgement_of(old(request), meta, freshness);
                &&& is_answer(
                    r,
                    judgement,
                    range::selected(old(request).fields(), meta@),
                    old(self).variants(),
                    final(self).variants(),
                    old(self).store().clock(),
                    id,
                    meta@,
                    now,
                )
                &&& r.revalidating == judgement.revalidate
                &&& r.revalidating ==> *final(request) == (Request {
                    headers: final(request).headers,
                    ..*old(request)
                }) && (freshness matches Freshness::Stale { stale_for, revalidation }
                    ==> final(request).fields() == lookup::conditional(
                    old(request).fields(),
                    fields::header_fields(revalidation),
                )) && (final(transaction).revalidating matches Some(entry) && entry.0 == id
                    && entry.1 == meta)
                &&& !r.revalidating ==> *final(request) == *old(request)
                    && final(transaction).revalidating == old(transaction).revalidating
                &&& r.revalidate_in_background is Some == (r.response is Some
                    && judgement.serve_stale && !old(self).revalidations().keys().contains(
                    old(transaction).key@,
                ))
                &&& r.revalidate_in_background matches Some(guard) ==> guard.key() == old(
                    transaction,
                ).key@
                &&& final(self).revalidations().keys() == if r.revalidate_in_background is Some {
                    old(self).revalidations().keys().push(old(transaction).key@)
                } else {
                    old(self).revalidations().keys()
                }
                &&& front::takes_over(
                    *old(transaction),
                    *final(transaction),
                    r.response is Some,
                    old(self).inflight(),
                    final(self).inflight(),
                )
            }),
    {
        let mut lookup: CacheLookup = CacheLookup {
            response: None,
            revalidate_in_background: None,
            revalidating: false,
        };
        match self.front.decide(transaction, request, id, meta, freshness, now) {
            Decision::Serve { meta, plan, stale } => match self.store.open(id, plan.range) {
                Ok(body) => {
                    self.store.touch(id);
                    lookup.revalidate_in_background = self.front.served(transaction, stale, true);
                    lookup.response = Some(
                        CachedResponse {
                            url: meta.final_url,
                            status: plan.status,
                            headers: plan.headers,
                            body,
                        },
                    );
                },
                Err(_) => {
                    self.store.remove(id);
                    self.front.served(transaction, stale, false);
                },
            },
            Decision::Revalidate => {
                lookup.revalidating = true;
            },
            Decision::Fetch => {},
        }
        lookup
    }

    /// Serve a stored entry, if it is there and the requested range can be answered.
    fn serve(&self, request: &Request, id: EntryId, meta: EntryMeta, now: Span) -> (r: Option<
        CachedResponse,
    >)
        requires
            self.wf(),
            meta.usable(),
            policy::is_date(now),
        ensures
            ({
                let outcome = range::selected(request.fields(), meta@);
                match r {
                    Some(response) => memory_store::opened(
                        self.variants(),
                        id,
                        part_of(outcome),
                    ) matches Some(body) && is_served(response, outcome, meta@, body, now),
                    None => outcome is Unsatisfiable || memory_store::opened(
                        self.variants(),
                        id,
                        part_of(outcome),
                    ) is None,
                }
            }),
    {
        match plan_serve(request, &meta, now) {
            Ok(plan) => match self.store.open(id, plan.range) {
                Ok(body) => Some(
                    CachedResponse {
                        url: meta.final_url,
                        status: plan.status,
                        headers: plan.headers,
                        body,
                    },
                ),
                Err(_) => None,
            },
            Err(_) => None,
        }
    }

    /// Consult the cache for a request that nothing answers, after the waiting for
    /// other fetches was given up: it becomes the writer of the key unless another
    /// fetch still is.
    pub fn give_up(&mut self, transaction: &mut CacheTransaction)
        requires
            old(self).wf(),
        ensures
            final(self).wf(),
            same_setup(*old(self), *final(self)),
            final(self).store() == old(self).store(),
            final(self).revalidations() == old(self).revalidations(),
            *final(transaction) == (CacheTransaction {
                writer: final(transaction).writer,
                ..*old(transaction)
            }),
            front::takes_over(
                *old(transaction),
                *final(transaction),
                false,
                old(self).inflight(),
                final(self).inflight(),
            ),
    {
        self.front.give_up(transaction);
    }

    /// Freshening a stored response upon validation. The result is the response to
    /// serve; `None` where nothing was being revalidated, the answer was no
    /// confirmation, the entry is gone, or the new metadata could not be judged
    /// later.
    pub fn refresh(
        &mut self,
        transaction: &mut CacheTransaction,
        request: &Request,
        status: Option<u16>,
        headers: &HeaderMap<HeaderValue>,
        now: Span,
    ) -> (r: Option<CachedResponse>)
        requires
            old(self).wf(),
            old(self).store().clock() < u64::MAX - 1,
            lookup::is_request(request),
            policy::is_date(now),
            old(transaction).revalidating matches Some(entry) ==> entry.1.usable() && (
            entry.1.status matches Some(code) ==> 100 <= code <= 999) && fields::has_room(
                fields::header_fields(*headers),
                entry.1@.policy.fields.dom().len() as int + 6,
            ),
            status matches Some(code) ==> 100 <= code <= 999,
            fields::value_count(*headers) + 2 <= fields::MAX_VALUES,
        ensures
            final(self).wf(),
            same_setup(*old(self), *final(self)),
            *final(transaction) == (CacheTransaction { revalidating: None, ..*old(transaction) }),
            final(self).front() == old(self).front(),
            final(self).store().reserved() == old(self).store().reserved(),
            old(self).store().clock() <= final(self).store().clock() <= old(self).store().clock()
                + 2,
            match front::freshened(
                old(transaction).revalidating,
                request,
                status,
                fields::header_fields(*headers),
                now,
            ) {
                Some((id, fresh)) => is_refreshed(
                    r,
                    old(self).variants(),
                    final(self).variants(),
                    old(self).store().clock(),
                    request,
                    id,
                    fresh,
                    now,
                ),
                None => r is None && final(self).store() == old(self).store(),
            },
    {
        match front::freshen(transaction, request, status, headers, now) {
            Some((id, fresh)) => {
                let ghost before = self.variants();
                let ghost clock = self.store.clock();
                if self.store.update_meta(id, fresh.copy()).is_err() {
                    return None;
                }
                let ghost updated = self.variants();
                self.store.touch(id);
                proof {
                    lemma_updated(before, updated, self.variants(), id, fresh@, clock);
                }
                self.serve(request, id, fresh, now)
            },
            None => None,
        }
    }

    /// Begin to store a network response, when it may be stored. The variants that
    /// the request matched make room for it. An error means that the response is not
    /// copied; the key is then no longer being written, and those who wait under the
    /// ticket are to be told.
    pub fn tee(
        &mut self,
        transaction: &mut CacheTransaction,
        request: &Request,
        status: Option<u16>,
        headers: &HeaderMap<HeaderValue>,
        encoding: Option<DecoderType>,
        now: Span,
    ) -> (r: Result<(MemoryWrite, InFlightWriter), Option<u64>>)
        requires
            old(self).wf(),
            fetch::is_method(request.method@),
            fields::has_room(request.fields(), 0),
            front::is_response(*headers),
            status matches Some(code) ==> 100 <= code <= 999,
            policy::is_date(now),
        ensures
            final(self).wf(),
            same_setup(*old(self), *final(self)),
            final(self).revalidations() == old(self).revalidations(),
            final(self).store().clock() == old(self).store().clock(),
            final(transaction).key == old(transaction).key,
            final(transaction).revalidating == old(transaction).revalidating,
            final(transaction).storable == old(transaction).storable,
            final(transaction).writer is None,
            match old(transaction).writer {
                None => r matches Err(ticket) && ticket is None && *final(self) == *old(self)
                    && final(transaction).superseded == old(transaction).superseded,
                Some(writer) => if !lookup::may_store(
                    old(transaction).key@,
                    old(transaction).storable,
                    request,
                    status,
                    fields::header_fields(*headers),
                    old(self).store().spec_max_entry_bytes(),
                    now,
                ) {
                    &&& final(self).store() == old(self).store()
                    &&& r matches Err(ticket) && inflight::is_resolved(
                        old(self).inflight(),
                        final(self).inflight(),
                        writer.key(),
                        ticket,
                    )
                    &&& final(transaction).superseded == old(transaction).superseded
                } else {
                    &&& final(transaction).superseded@.len() == 0
                    &&& final(self).variants() == without_all(
                        old(self).variants(),
                        old(transaction).superseded@,
                    )
                    &&& match r {
                        Ok((write, held)) => {
                            &&& held == writer
                            &&& write.wf()
                            &&& write.meta() == lookup::stored_meta(
                                old(transaction).key@,
                                request,
                                status->0,
                                fields::header_fields(*headers),
                                encoding,
                                now,
                            )
                            &&& write.written().len() == 0
                            &&& write.cap() == final(self).store().spec_max_entry_bytes()
                            &&& write.id() / 256 == key::hash_of(old(transaction).key@)
                            &&& final(self).store().reserved() == old(
                                self,
                            ).store().reserved().push(write.id())
                            &&& final(self).inflight() == old(self).inflight()
                        },
                        Err(ticket) => {
                            &&& forall|slot: u8|
                                slot < key::MAX_SLOTS ==> !memory_store::is_free(
                                    final(self).variants(),
                                    old(self).store().reserved(),
                                    #[trigger] memory_store::id_of(old(transaction).key@, slot),
                                )
                            &&& final(self).store().reserved() == old(self).store().reserved()
                            &&& inflight::is_resolved(
                                old(self).inflight(),
                                final(self).inflight(),
                                writer.key(),
                                ticket,
                            )
                        },
                    }
                },
            },
    {
        let (meta, writer, ids): (EntryMeta, InFlightWriter, Vec<EntryId>) =
            match self.front.begin_store(
            transaction,
            request,
            status,
            headers,
            encoding,
            self.store.max_entry_bytes(),
            now,
        ) {
            Ok(storing) => (storing.meta, storing.writer, storing.superseded),
            Err(ticket) => return Err(ticket),
        };
        let ghost before = self.variants();
        let ghost cap = self.store.spec_max_entry_bytes();
        let ghost reserved = self.store.reserved();
        let ghost front = self.front;
        let mut i: usize = 0;
        assert(ids@.take(0) =~= Seq::<EntryId>::empty());
        while i < ids.len()
            invariant
                i <= ids@.len(),
                self.wf(),
                self.variants() == without_all(before, ids@.take(i as int)),
                self.store.spec_max_entry_bytes() == cap,
                self.store.reserved() == reserved,
                self.store.max_bytes() == old(self).store.max_bytes(),
                self.store.clock() == old(self).store.clock(),
                self.assignment == old(self).assignment,
                self.front == front,
            decreases ids@.len() - i,
        {
            assert(ids@.take(i + 1).drop_last() =~= ids@.take(i as int));
            self.store.remove(ids[i]);
            i += 1;
        }
        assert(ids@.take(ids@.len() as int) =~= ids@);
        match self.store.create(meta) {
            Ok(write) => Ok((write, writer)),
            Err(_) => Err(self.front.resolve(writer)),
        }
    }

    /// The network body ended cleanly: publish what was copied of it. The state is
    /// what those who wait under the ticket are told.
    pub fn finish(&mut self, write: MemoryWrite, writer: InFlightWriter) -> (r: (
        InFlightState,
        Option<u64>,
    ))
        requires
            old(self).wf(),
            old(self).store().clock() < u64::MAX,
            write.wf(),
            old(self).store().reserved().contains(write.id()),
            memory_store::total(old(self).variants()) + write.written().len() <= usize::MAX,
            write.cap() == old(self).store().spec_max_entry_bytes(),
        ensures
            final(self).wf(),
            same_setup(*old(self), *final(self)),
            final(self).revalidations() == old(self).revalidations(),
            inflight::is_resolved(
                old(self).inflight(),
                final(self).inflight(),
                writer.key(),
                r.1,
            ),
            final(self).store().reserved() == memory_store::released(
                old(self).store().reserved(),
                write.id(),
            ),
            if write.written().len() > old(self).store().max_bytes() || write.written().len() > old(
                self,
            ).store().spec_max_entry_bytes() {
                &&& r.0 == InFlightState::Aborted
                &&& final(self).variants() == old(self).variants()
                &&& final(self).store().clock() == old(self).store().clock()
            } else {
                &&& r.0 == InFlightState::Committed(write.id())
                &&& final(self).store().clock() == old(self).store().clock() + 1
                &&& final(self).variants() == memory_store::evicted(
                    old(self).variants().push(
                        memory_store::new_variant(write, (old(self).store().clock() + 1) as u64),
                    ),
                    old(self).store().max_bytes() as nat,
                )
                &&& final(self).variants().len() > 0
                &&& final(self).variants().last() == memory_store::new_variant(
                    write,
                    (old(self).store().clock() + 1) as u64,
                )
            },
    {
        let state: InFlightState = match self.store.commit(write) {
            Ok(id) => InFlightState::Committed(id),
            Err(_) => InFlightState::Aborted,
        };
        let ticket: Option<u64> = self.front.resolve(writer);
        (state, ticket)
    }

    /// The network body failed: drop what was copied of it.
    pub fn abandon(&mut self, write: MemoryWrite, writer: InFlightWriter) -> (r: Option<u64>)
        requires
            old(self).wf(),
        ensures
            final(self).wf(),
            same_setup(*old(self), *final(self)),
            final(self).variants() == old(self).variants(),
            final(self).store().clock() == old(self).store().clock(),
            final(self).revalidations() == old(self).revalidations(),
            final(self).store().reserved() == memory_store::released(
                old(self).store().reserved(),
                write.id(),
            ),
            inflight::is_resolved(
                old(self).inflight(),
                final(self).inflight(),
                writer.key(),
                r,
            ),
    {
        self.store.abort(write);
        self.front.resolve(writer)
    }

    /// Invalidating stored responses after an unsafe method.
    pub fn invalidate(
        &mut self,
        transaction: &CacheTransaction,
        request: &Request,
        headers: &HeaderMap<HeaderValue>,
    )
        requires
            old(self).wf(),
        ensures
            final(self).wf(),
            same_setup(*old(self), *final(self)),
            final(self).front() == old(self).front(),
            final(self).store().reserved() == old(self).store().reserved(),
            final(self).store().clock() == old(self).store().clock(),
            final(self).variants() == without_keys(
                old(self).variants(),
                lookup::invalidated(
                    transaction.key@,
                    seq![
                        lookup::location(
                            request,
                            fields::header_fields(*headers),
                            text::bytes("location"),
                        ),
                        lookup::location(
                            request,
                            fields::header_fields(*headers),
                            text::bytes("content-location"),
                        ),
                    ],
                ),
            ),
            entries(final(self).variants(), transaction.key@).len() == 0,
    {
        let keys: Vec<CacheKey> = invalidated_keys(&transaction.key, request, headers);
        let ghost before = self.variants();
        let ghost views = lookup::key_views(keys@);
        let ghost front = self.front;
        let mut i: usize = 0;
        assert(views.take(0) =~= Seq::<KeyView>::empty());
        while i < keys.len()
            invariant
                i <= keys@.len(),
                views == lookup::key_views(keys@),
                self.wf(),
                self.variants() == without_keys(before, views.take(i as int)),
                self.front == front,
                self.assignment == old(self).assignment,
                self.store.max_bytes() == old(self).store.max_bytes(),
                self.store.spec_max_entry_bytes() == old(self).store.spec_max_entry_bytes(),
                self.store.reserved() == old(self).store.reserved(),
                self.store.clock() == old(self).store.clock(),
            decreases keys@.len() - i,
        {
            assert(views.take(i + 1).drop_last() =~= views.take(i as int));
            self.store.remove_key(&keys[i]);
            i += 1;
        }
        assert(views.take(views.len() as int) =~= views);
        proof {
            law_invalidated_is_not_found(
                before,
                transaction.key@,
                request,
                fields::header_fields(*headers),
            );
        }
    }

    /// A background revalidation is over.
    pub fn release(&mut self, guard: RevalidationGuard)
        requires
            old(self).wf(),
        ensures
            final(self).wf(),
            same_setup(*old(self), *final(self)),
            final(self).store() == old(self).store(),
            final(self).inflight() == old(self).inflight(),
            !final(self).revalidations().keys().contains(guard.key()),
            final(self).revalidations().keys() == inflight::without_key(
                old(self).revalidations().keys(),
                guard.key(),
            ),
    {
        self.front.release(guard);
    }

    fn select(&self, request: &Request, now: Span) -> (r: Selection)
        requires
            self.wf(),
            lookup::is_request(request),
            policy::is_date(now),
        ensures
            r.is_of(
                request,
                entries(self.variants(), KeyView { url: request.url@, partition: None }),
                now,
            ),
    {
        let variants: Vec<(EntryId, EntryMeta)> = self.store.lookup(&CacheKey::new(request));
        select_variant(&variants, request, now)
    }

    /// The variant that answers a request.
    pub open spec fn answering(&self, request: &Request, now: Span) -> Option<
        (EntryId, MetaView),
    > {
        let all = entries(self.variants(), KeyView { url: request.url@, partition: None });
        match lookup::chosen(lookup::standings(request, all, now)) {
            Some(i) => Some(all[i]),
            None => None,
        }
    }

    /// Where one entry only is held under the key of a request, that entry answers it,
    /// unless it does not match the request or does not hold what the request asks for.
    pub proof fn law_only_entry_answers(
        &self,
        request: &Request,
        entry: (EntryId, MetaView),
        now: Span,
    )
        requires
            entries(self.variants(), KeyView { url: request.url@, partition: None }) == seq![entry],
        ensures
            self.answering(request, now) == if lookup::standing(request, entry.1, now)
                == lookup::Standing::Other {
                None
            } else {
                Some(entry)
            },
            range::selected(request.fields(), entry.1) is Unsatisfiable ==> self.answering(
                request,
                now,
            ) is None,
    {
        let standings = lookup::standings(request, seq![entry], now);
        lookup::lemma_first_of(standings, lookup::Standing::Fresh);
        lookup::lemma_first_of(standings, lookup::Standing::Stale);
        assert(standings[0] == lookup::standing(request, entry.1, now));
    }

    /// Store a response and its body the way the network path would. Returns whether
    /// the response was storable.
    pub fn store_for_test(
        &mut self,
        request: &Request,
        status: Option<u16>,
        headers: &HeaderMap<HeaderValue>,
        encoding: Option<DecoderType>,
        body: &[u8],
        now: Span,
    ) -> (r: bool)
        requires
            old(self).wf(),
            old(self).store().clock() < u64::MAX,
            lookup::is_request(request),
            front::is_response(*headers),
            status matches Some(code) ==> 100 <= code <= 999,
            policy::is_date(now),
            memory_store::total(old(self).variants()) + body@.len() <= usize::MAX,
        ensures
            final(self).wf(),
            same_setup(*old(self), *final(self)),
            final(self).front() == old(self).front(),
            final(self).store().reserved() == old(self).store().reserved(),
            !r ==> final(self).variants() == old(self).variants(),
            r == (lookup::may_store(
                KeyView { url: request.url@, partition: None },
                !old(self).is_disabled() && request.method@ == text::bytes("GET"),
                request,
                status,
                fields::header_fields(*headers),
                old(self).store().spec_max_entry_bytes(),
                now,
            ) && has_free_slot(
                old(self).store(),
                KeyView { url: request.url@, partition: None },
            ) && body@.len() <= old(self).store().max_bytes() && body@.len() <= old(
                self,
            ).store().spec_max_entry_bytes()),
            final(self).store().clock() == old(self).store().clock() + if r {
                1int
            } else {
                0
            },
            r ==> final(self).variants().len() > 0 && ({
                let variant = final(self).variants().last();
                &&& is_stored(
                    variant,
                    lookup::stored_meta(
                        KeyView { url: request.url@, partition: None },
                        request,
                        status->0,
                        fields::header_fields(*headers),
                        encoding,
                        now,
                    ),
                    body@,
                )
                &&& is_first_place(
                    old(self).store(),
                    KeyView { url: request.url@, partition: None },
                    variant.id,
                )
                &&& variant.last_used == old(self).store().clock() + 1
                &&& final(self).variants() == memory_store::evicted(
                    old(self).variants().push(variant),
                    old(self).store().max_bytes() as nat,
                )
            }),
    {
        let key: CacheKey = CacheKey::new(request);
        let storable: bool = self.front.new_transaction(request).storable;
        let meta: EntryMeta = match entry_meta(
            &key,
            storable,
            request,
            status,
            headers,
            encoding,
            self.store.max_entry_bytes(),
            now,
        ) {
            Some(meta) => meta,
            None => return false,
        };
        proof {
            front::lemma_stripped_room(fields::header_fields(*headers));
        }
        let ghost before = self.store;
        let mut write: MemoryWrite = match self.store.create(meta) {
            Ok(write) => write,
            Err(_) => {
                proof {
                    if has_free_slot(before, key@) {
                        let slot = choose|slot: u8|
                            slot < key::MAX_SLOTS && memory_store::is_free(
                                before.variants(),
                                before.reserved(),
                                #[trigger] memory_store::id_of(key@, slot),
                            );
                        assert(memory_store::is_free(
                            before.variants(),
                            before.reserved(),
                            memory_store::id_of(key@, slot),
                        ));
                    }
                }
                return false;
            },
        };
        proof {
            let slot = (write.id() % 256) as u8;
            assert(memory_store::id_of(key@, slot) == write.id());
            assert(has_free_slot(before, key@));
            assert forall|lower: u8| lower < write.id() % 256 implies !memory_store::is_free(
                before.variants(),
                before.reserved(),
                #[trigger] memory_store::id_of(key@, lower),
            ) by {
                assert(memory_store::id_of(key@, lower) == memory_store::slot_id(write.id(), lower));
            }
        }
        if body.len() > 0 {
            let mut batch: Vec<Vec<u8>> = Vec::new();
            batch.push(text::copy_bytes(body));
            proof {
                assert(text::views(batch@) =~= seq![body@]);
                assert(seq![body@].drop_last() =~= Seq::<Seq<u8>>::empty());
                reveal_with_fuel(store::flatten, 2);
                assert(store::flatten(text::views(batch@)) =~= body@);
            }
            write.append(batch);
        }
        assert(write.written() =~= body@);
        let ghost reserved = self.store.reserved();
        assert(reserved[reserved.len() - 1] == write.id());
        proof {
            reserved.index_of_first_ensures(write.id());
            let i = reserved.index_of_first(write.id())->0;
            if i < reserved.len() - 1 {
                assert(before.reserved()[i] == write.id());
                assert(before.reserved().contains(write.id()));
            }
            assert(reserved.remove(i) =~= before.reserved());
        }
        self.store.commit(write).is_ok()
    }

    /// What the cache would do with `request`, or `None` for a miss.
    pub fn probe(&self, request: &Request, now: Span) -> (r: Option<ValidationStatus>)
        requires
            self.wf(),
            lookup::is_request(request),
            policy::is_date(now),
        ensures
            r == match self.answering(request, now) {
                Some(entry) => Some(status_of(request, entry.1, now)),
                None => None,
            },
    {
        match self.select(request, now).answer {
            Some((_, meta, freshness)) => {
                let window: Span = meta.policy.stale_while_revalidate();
                validation_status(request, &freshness, window)
            },
            None => None,
        }
    }

    /// The headers a stored response would be served with.
    pub fn headers_for_test(&self, request: &Request, now: Span) -> (r: Option<
        HeaderMap<HeaderValue>,
    >)
        requires
            self.wf(),
            lookup::is_request(request),
            policy::is_date(now),
        ensures
            match self.answering(request, now) {
                Some(entry) => r matches Some(headers) && fields::header_fields(headers)
                    == lookup::presented_fields(entry.1, now),
                None => r is None,
            },
    {
        match self.select(request, now).answer {
            Some((_, meta, _)) => {
                proof {
                    meta.policy.lemma_usable(now);
                }
                Some(policy::presented_headers(&meta.headers, &meta.policy, now))
            },
            None => None,
        }
    }

    /// Read a stored response back as one buffer.
    pub fn read_body_for_test(&self, request: &Request, now: Span) -> (r: Option<Vec<u8>>)
        requires
            self.wf(),
            lookup::is_request(request),
            policy::is_date(now),
        ensures
            match self.answering(request, now) {
                Some(entry) => match memory_store::opened(self.variants(), entry.0, None) {
                    Some(body) => r matches Some(read) && read@ == body,
                    None => r is None,
                },
                None => r is None,
            },
    {
        match self.select(request, now).answer {
            Some((id, _, _)) => match self.store.open(id, None) {
                Ok(reader) => {
                    let chunks: Vec<Vec<u8>> = reader.into_stream();
                    let mut body: Vec<u8> = Vec::new();
                    let mut i: usize = 0;
                    assert(text::views(chunks@).take(0) =~= Seq::<Seq<u8>>::empty());
                    while i < chunks.len()
                        invariant
                            i <= chunks@.len(),
                            body@ == store::flatten(text::views(chunks@).take(i as int)),
                        decreases chunks@.len() - i,
                    {
                        let mut chunk: Vec<u8> = text::copy_bytes(&chunks[i]);
                        proof {
                            let views = text::views(chunks@);
                            assert(views.take(i + 1) =~= views.take(i as int).push(chunk@));
                            store::lemma_flatten_push(views.take(i as int), chunk@);
                        }
                        body.append(&mut chunk);
                        i += 1;
                    }
                    assert(text::views(chunks@).take(chunks@.len() as int) =~= text::views(chunks@));
                    Some(body)
                },
                Err(_) => None,
            },
            None => None,
        }
    }
}

/// Whether a key has a place left for another variant.
pub open spec fn has_free_slot(store: MemoryStore, key: KeyView) -> bool {
    exists|slot: u8|
        slot < key::MAX_SLOTS && memory_store::is_free(
            store.variants(),
            store.reserved(),
            #[trigger] memory_store::id_of(key, slot),
        )
}

/// Whether an identifier stands for the first place of a key that was left.
pub open spec fn is_first_place(store: MemoryStore, key: KeyView, id: EntryId) -> bool {
    &&& id % 256 < key::MAX_SLOTS
    &&& id == memory_store::id_of(key, (id % 256) as u8)
    &&& memory_store::is_free(store.variants(), store.reserved(), id)
    &&& forall|slot: u8|
        slot < id % 256 ==> !memory_store::is_free(
            store.variants(),
            store.reserved(),
            #[trigger] memory_store::id_of(key, slot),
        )
}

/// Whether a variant is what was stored of a response.
pub open spec fn is_stored(variant: VariantView, meta: MetaView, body: Seq<u8>) -> bool {
    &&& variant.id / 256 == key::hash_of(meta.key)
    &&& variant.meta == (MetaView { body_len: body.len() as u64, ..meta })
    &&& variant.body == body
}

/// What is told of a stored entry, if it is asked about only.
pub open spec fn status_of(request: &Request, meta: MetaView, now: Span) -> ValidationStatus {
    match policy::verdict(meta.policy, policy::policy_view(request, meta.fields), now) {
        policy::VerdictView::Fresh => ValidationStatus::Valid,
        _ => {
            let age = policy::spec_age(meta.policy.fields, meta.policy.response_time, now);
            let lifetime = policy::stored_lifetime(meta.policy);
            ValidationStatus::Stale {
                revalidate_in_background: meta.stale_while_revalidate.total() > 0 && (if age
                    >= lifetime {
                    age - lifetime
                } else {
                    0
                }) <= meta.stale_while_revalidate.total() && !policy::demands_revalidation(
                    request,
                ),
            }
        },
    }
}

/// Whether a response is how an entry is served.
pub open spec fn is_served(
    response: CachedResponse,
    outcome: range::RangeOutcome,
    meta: MetaView,
    body: Seq<u8>,
    now: Span,
) -> bool {
    &&& response.url@ == meta.final_url
    &&& response.body.wf()
    &&& response.body.bytes() == body
    &&& match outcome {
        range::RangeOutcome::Whole => response.status == meta.status && fields::header_fields(
            response.headers,
        ) == lookup::presented_fields(meta, now),
        range::RangeOutcome::Satisfiable(hit) => response.status == Some(206u16)
            && fields::header_fields(response.headers) == range::described(
            lookup::presented_fields(meta, now),
            hit,
        ),
        range::RangeOutcome::Unsatisfiable => false,
    }
}

/// The part of a body that is sent.
pub open spec fn part_of(outcome: range::RangeOutcome) -> Option<store::BodyRange> {
    match outcome {
        range::RangeOutcome::Satisfiable(hit) => Some(hit.body),
        _ => None,
    }
}

/// A store after an entry was used.
pub open spec fn touched(variants: Seq<VariantView>, id: EntryId, clock: u64) -> Seq<VariantView> {
    if memory_store::holds(variants, id) {
        variants.update(
            memory_store::index_of(variants, id),
            VariantView {
                last_used: clock,
                ..variants[memory_store::index_of(variants, id)]
            },
        )
    } else {
        variants
    }
}

/// Whether a lookup answered with an entry as judged.
pub open spec fn is_answer(
    r: CacheLookup,
    judgement: Judgement,
    outcome: range::RangeOutcome,
    before: Seq<VariantView>,
    after: Seq<VariantView>,
    clock: u64,
    id: EntryId,
    meta: MetaView,
    now: Span,
) -> bool {
    if judgement.usable && !judgement.revalidate && !(outcome is Unsatisfiable) {
        match memory_store::opened(before, id, part_of(outcome)) {
            Some(body) => {
                &&& r.response matches Some(response) && is_served(
                    response,
                    outcome,
                    meta,
                    body,
                    now,
                )
                &&& after == touched(before, id, (clock + 1) as u64)
            },
            None => r.response is None && after == memory_store::dropped(before, id),
        }
    } else {
        r.response is None && after == before
    }
}

/// Updating and then using an entry changes that entry only, and not its body.
proof fn lemma_updated(
    before: Seq<VariantView>,
    updated: Seq<VariantView>,
    after: Seq<VariantView>,
    id: EntryId,
    fresh: MetaView,
    clock: u64,
)
    requires
        memory_store::holds(before, id),
        updated == before.update(
            memory_store::index_of(before, id),
            VariantView {
                meta: MetaView {
                    body_len: before[memory_store::index_of(before, id)].meta.body_len,
                    ..fresh
                },
                last_used: (clock + 1) as u64,
                ..before[memory_store::index_of(before, id)]
            },
        ),
        clock < u64::MAX - 1,
        after == touched(updated, id, (clock + 2) as u64),
    ensures
        after == before.update(
            memory_store::index_of(before, id),
            VariantView {
                meta: MetaView {
                    body_len: before[memory_store::index_of(before, id)].meta.body_len,
                    ..fresh
                },
                last_used: (clock + 2) as u64,
                ..before[memory_store::index_of(before, id)]
            },
        ),
        forall|part: Option<store::BodyRange>| #[trigger]
            memory_store::opened(after, id, part) == memory_store::opened(before, id, part),
{
    let i = memory_store::index_of(before, id);
    memory_store::lemma_index_of(before, id);
    lemma_index_kept(before, updated, id);
    lemma_index_kept(updated, after, id);
    assert(after =~= before.update(i, after[i]));
}

proof fn lemma_index_kept(a: Seq<VariantView>, b: Seq<VariantView>, id: EntryId)
    requires
        a.len() == b.len(),
        memory_store::holds(a, id),
        forall|j: int| 0 <= j < a.len() ==> (#[trigger] a[j]).id == b[j].id,
    ensures
        memory_store::index_of(a, id) == memory_store::index_of(b, id),
        memory_store::holds(b, id),
{
    memory_store::lemma_index_of(a, id);
    memory_store::lemma_index_of(b, id);
    let i = memory_store::index_of(a, id);
    let j = memory_store::index_of(b, id);
    assert(a[i].id == b[i].id);
    assert(memory_store::holds(b, id));
    assert(a[j].id == b[j].id);
    if i < j {
        assert(b[i].id != id);
    } else if j < i {
        assert(a[j].id != id);
    }
}

/// Whether an entry was freshened and is served again, as it is where it is still
/// there and can be judged later.
pub open spec fn is_refreshed(
    r: Option<CachedResponse>,
    before: Seq<VariantView>,
    after: Seq<VariantView>,
    clock: u64,
    request: &Request,
    id: EntryId,
    fresh: MetaView,
    now: Span,
) -> bool {
    let i = memory_store::index_of(before, id);
    let outcome = range::selected(request.fields(), fresh);
    let updated = before.update(
        i,
        VariantView {
            meta: MetaView { body_len: before[i].meta.body_len, ..fresh },
            last_used: (clock + 2) as u64,
            ..before[i]
        },
    );
    &&& !memory_store::holds(before, id) ==> r is None && after == before
    &&& memory_store::holds(before, id) && front::fits(fresh) ==> after == updated
    &&& after == before && r is None || after == updated && match r {
        Some(response) => memory_store::opened(before, id, part_of(outcome)) matches Some(body)
            && is_served(response, outcome, fresh, body, now),
        None => outcome is Unsatisfiable || memory_store::opened(
            before,
            id,
            part_of(outcome),
        ) is None,
    }
}

/// After everything under a list of keys was taken out, nothing is found under any of them,
/// and what is found under a key with another hash is what was found before.
pub proof fn law_nothing_is_found_under_removed_keys(
    variants: Seq<VariantView>,
    keys: Seq<KeyView>,
    key: KeyView,
)
    ensures
        keys.contains(key) ==> entries(without_keys(variants, keys), key).len() == 0,
        (forall|i: int| 0 <= i < keys.len() ==> key::hash_of(#[trigger] keys[i]) != key::hash_of(
            key,
        )) ==> entries(without_keys(variants, keys), key) == entries(variants, key),
    decreases keys.len(),
{
    if keys.len() > 0 {
        let before = keys.drop_last();
        let rest = without_keys(variants, before);
        law_nothing_is_found_under_removed_keys(variants, before, key);
        lemma_others_found(rest, key::hash_of(keys.last()), key);
        if keys.contains(key) {
            let i = choose|i: int| 0 <= i < keys.len() && keys[i] == key;
            if i < before.len() {
                assert(before[i] == key);
            }
        }
        if forall|i: int|
            0 <= i < keys.len() ==> key::hash_of(#[trigger] keys[i]) != key::hash_of(key) {
            assert forall|i: int| 0 <= i < before.len() implies key::hash_of(#[trigger] before[i])
                != key::hash_of(key) by {
                assert(before[i] == keys[i]);
            }
            assert(keys[keys.len() - 1] == keys.last());
        }
    }
}

proof fn lemma_others_found(variants: Seq<VariantView>, key_hash: u64, key: KeyView)
    ensures
        key_hash == key::hash_of(key) ==> entries(
            memory_store::others(variants, key_hash),
            key,
        ).len() == 0,
        key_hash != key::hash_of(key) ==> entries(memory_store::others(variants, key_hash), key)
            == entries(variants, key),
        entries(variants, key).len() == 0 ==> entries(
            memory_store::others(variants, key_hash),
            key,
        ).len() == 0,
    decreases variants.len(),
{
    if variants.len() > 0 {
        let front = variants.drop_last();
        lemma_others_found(front, key_hash, key);
        if variants.last().id / 256 != key_hash {
            assert(memory_store::others(front, key_hash).push(variants.last()).drop_last()
                =~= memory_store::others(front, key_hash));
        }
    }
}

/// Once an unsafe request was answered, no entry is found under its own key, nor under the
/// keys of the places that the response points to, whatever was stored.
pub proof fn law_invalidated_is_not_found(
    variants: Seq<VariantView>,
    key: KeyView,
    request: &Request,
    fields: Map<Seq<u8>, Seq<Seq<u8>>>,
)
    ensures
        ({
            let moved = lookup::location(request, fields, text::bytes("location"));
            let content = lookup::location(request, fields, text::bytes("content-location"));
            let left = without_keys(variants, lookup::invalidated(key, seq![moved, content]));
            &&& entries(left, key).len() == 0
            &&& moved matches Some(url) ==> entries(
                left,
                KeyView { url, partition: None },
            ).len() == 0
            &&& content matches Some(url) ==> entries(
                left,
                KeyView { url, partition: None },
            ).len() == 0
        }),
{
    let moved = lookup::location(request, fields, text::bytes("location"));
    let content = lookup::location(request, fields, text::bytes("content-location"));
    let keys = lookup::invalidated(key, seq![moved, content]);
    lookup::law_unsafe_request_invalidates(key, request, fields, key);
    law_nothing_is_found_under_removed_keys(variants, keys, key);
    if let Some(url) = moved {
        law_nothing_is_found_under_removed_keys(
            variants,
            keys,
            KeyView { url, partition: None },
        );
    }
    if let Some(url) = content {
        law_nothing_is_found_under_removed_keys(
            variants,
            keys,
            KeyView { url, partition: None },
        );
    }
}

/// Using an entry changes when it was used and nothing else: every body is what it was, and
/// so is what is found under every key.
pub proof fn law_use_changes_nothing_stored(
    variants: Seq<VariantView>,
    id: EntryId,
    clock: u64,
    other: EntryId,
    key: KeyView,
)
    ensures
        ({
            let after = touched(variants, id, clock);
            &&& after.len() == variants.len()
            &&& forall|part: Option<store::BodyRange>| #[trigger]
                memory_store::opened(after, other, part) == memory_store::opened(
                    variants,
                    other,
                    part,
                )
            &&& entries(after, key) == entries(variants, key)
            &&& memory_store::holds(variants, id) ==> after[memory_store::index_of(
                after,
                id,
            )].last_used == clock
        }),
{
    let after = touched(variants, id, clock);
    memory_store::lemma_index_of(variants, id);
    lemma_same_found(variants, after, key);
    if memory_store::holds(variants, id) {
        lemma_index_kept(variants, after, id);
    }
    memory_store::lemma_index_of(variants, other);
    memory_store::lemma_index_of(after, other);
    if memory_store::holds(variants, other) {
        lemma_index_kept(variants, after, other);
    }
    if memory_store::holds(after, other) {
        lemma_index_kept(after, variants, other);
    }
}

proof fn lemma_same_found(a: Seq<VariantView>, b: Seq<VariantView>, key: KeyView)
    requires
        a.len() == b.len(),
        forall|j: int|
            0 <= j < a.len() ==> (#[trigger] a[j]).id == b[j].id && a[j].meta == b[j].meta,
    ensures
        entries(a, key) == entries(b, key),
    decreases a.len(),
{
    if a.len() > 0 {
        let fa = a.drop_last();
        let fb = b.drop_last();
        assert forall|j: int| 0 <= j < fa.len() implies (#[trigger] fa[j]).id == fb[j].id
            && fa[j].meta == fb[j].meta by {
            assert(a[j].id == b[j].id);
        }
        lemma_same_found(fa, fb, key);
        assert(a[a.len() - 1].id == b[a.len() - 1].id);
    }
}

/// An entry that answers a range request does so with the bytes that were asked for: byte
/// `i` of the response is byte `first + i` of the resource, of which the stored body holds
/// a part, and there are as many as its `Content-Length` says.
pub proof fn law_range_is_answered_with_its_bytes(
    r: CacheLookup,
    judgement: Judgement,
    request: &Request,
    before: Seq<VariantView>,
    after: Seq<VariantView>,
    clock: u64,
    id: EntryId,
    meta: MetaView,
    now: Span,
    resource: Seq<u8>,
    i: int,
)
    requires
        is_answer(
            r,
            judgement,
            range::selected(request.fields(), meta),
            before,
            after,
            clock,
            id,
            meta,
            now,
        ),
        judgement.usable && !judgement.revalidate,
        memory_store::opened(before, id, None) matches Some(body) && body.len() == meta.body_len
            && forall|j: int|
            0 <= j < body.len() && range::held_from(meta.fields) + j < resource.len()
                ==> #[trigger] body[j] == resource[range::held_from(meta.fields) + j],
    ensures
        range::selected(request.fields(), meta) matches range::RangeOutcome::Satisfiable(hit) ==> {
            &&& r.response matches Some(response)
            &&& response.status == Some(206u16)
            &&& response.body.bytes().len() == hit.last - hit.first + 1
            &&& 0 <= i < response.body.bytes().len() && hit.last < resource.len()
                ==> response.body.bytes()[i] == resource[hit.first + i]
        },
        range::selected(request.fields(), meta) is Whole ==> {
            &&& r.response matches Some(response)
            &&& response.status == meta.status
            &&& memory_store::opened(before, id, None) == Some(response.body.bytes())
        },
        range::selected(request.fields(), meta) is Unsatisfiable ==> r.response is None,
{
    if let range::RangeOutcome::Satisfiable(hit) = range::selected(request.fields(), meta) {
        range::law_hit_lies_in_body(request.fields(), meta);
        range::law_sent_part_is_the_announced_one(request.fields(), meta);
        if let Some(body) = memory_store::opened(before, id, None) {
            range::law_sent_bytes_are_those_of_the_resource(
                request.fields(),
                meta,
                body,
                resource,
                i,
            );
        }
    }
}

/// What is told of an entry that is only asked about: it is valid while it is fresh, and
/// once it is stale it is revalidated in the background exactly if it has a window, is not
/// stale for longer, and the request does not insist.
pub proof fn law_told_status(request: &Request, meta: MetaView, now: Span)
    ensures
        ({
            let verdict = policy::verdict(
                meta.policy,
                policy::policy_view(request, meta.fields),
                now,
            );
            let over = policy::spec_age(meta.policy.fields, meta.policy.response_time, now)
                - policy::stored_lifetime(meta.policy);
            let window = meta.stale_while_revalidate.total();
            match status_of(request, meta, now) {
                ValidationStatus::Valid => verdict is Fresh,
                ValidationStatus::Stale { revalidate_in_background } => {
                    &&& !(verdict is Fresh)
                    &&& over > window ==> !revalidate_in_background
                    &&& window <= 0 ==> !revalidate_in_background
                    &&& policy::demands_revalidation(request) ==> !revalidate_in_background
                    &&& window > 0 && over <= window && !policy::demands_revalidation(request)
                        ==> revalidate_in_background
                },
            }
        }),
{
}

/// Entries that were superseded are gone, each of them, and nothing else is.
pub proof fn law_superseded_are_gone(
    variants: Seq<VariantView>,
    ids: Seq<EntryId>,
    other: EntryId,
)
    requires
        forall|i: int, j: int|
            0 <= i < j < variants.len() ==> (#[trigger] variants[i]).id != (
            #[trigger] variants[j]).id,
    ensures
        ids.contains(other) ==> !memory_store::holds(without_all(variants, ids), other),
        !ids.contains(other) ==> memory_store::holds(without_all(variants, ids), other)
            == memory_store::holds(variants, other) && (forall|part: Option<store::BodyRange>|
            #[trigger] memory_store::opened(without_all(variants, ids), other, part)
                == memory_store::opened(variants, other, part)),
        forall|i: int, j: int|
            0 <= i < j < without_all(variants, ids).len() ==> (#[trigger] without_all(
                variants,
                ids,
            )[i]).id != (#[trigger] without_all(variants, ids)[j]).id,
    decreases ids.len(),
{
    if ids.len() > 0 {
        let front = ids.drop_last();
        let rest = without_all(variants, front);
        law_superseded_are_gone(variants, front, other);
        memory_store::law_dropped_is_gone(rest, ids.last(), other);
        memory_store::lemma_index_of(rest, ids.last());
        assert(front.push(ids.last()) =~= ids);
        if ids.contains(other) {
            let k = choose|k: int| 0 <= k < ids.len() && ids[k] == other;
            if k < front.len() {
                assert(front[k] == other);
            }
        } else {
            if front.contains(other) {
                let k = choose|k: int| 0 <= k < front.len() && front[k] == other;
                assert(ids[k] == other);
            }
            assert(ids[ids.len() - 1] != other);
        }
        let after = without_all(variants, ids);
        let k = memory_store::index_of(rest, ids.last());
        assert forall|i: int, j: int| 0 <= i < j < after.len() implies (#[trigger] after[i]).id
            != (#[trigger] after[j]).id by {
            if memory_store::holds(rest, ids.last()) {
                let m = if i < k {
                    i
                } else {
                    i + 1
                };
                let n = if j < k {
                    j
                } else {
                    j + 1
                };
                assert(rest[m].id != rest[n].id);
            } else {
                assert(rest[i].id != rest[j].id);
            }
        }
    }
}

} // verus!
