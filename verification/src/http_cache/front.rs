//! What the cache decides for a fetch, wherever its entries are kept: which variant is
//! selected, whether it is served or revalidated, and who writes a key.
use http::{HeaderMap, HeaderValue};
use vstd::prelude::*;

use crate::fetch;
use crate::fetch::Request;
use crate::fields;
use crate::http_cache::inflight;
use crate::http_cache::inflight::{
    InFlight, InFlightWriter, RevalidationGuard, RevalidationGuards,
};
use crate::http_cache::key::{CacheKey, EntryId, KeyView};
use crate::http_cache::lookup;
use crate::http_cache::lookup::{
    copy_conditional_headers, entry_meta, is_cacheable_request, judge, plan_serve, refreshed_meta,
    select_variant, Judgement, Selection, ServePlan,
};
use crate::http_cache::policy;
use crate::http_cache::policy::Freshness;
use crate::http_cache::range;
use crate::http_cache::store;
use crate::http_cache::store::{DecoderType, EntryMeta, MetaView};
use crate::text;
use crate::time::Span;

verus! {

/// The decisions of a cache, with what they are remembered by: the fetches that write a
/// key, and the background revalidations.
#[derive(Debug)]
pub struct Front {
    inflight: InFlight,
    revalidations: RevalidationGuards,
    disabled: bool,
}

/// State a fetch carries from consulting the cache to storing the network response.
#[derive(Debug)]
pub struct CacheTransaction {
    pub key: CacheKey,
    /// Variants this request matched. A newly stored response replaces them.
    pub superseded: Vec<EntryId>,
    /// The entry a 304 would freshen.
    pub revalidating: Option<(EntryId, EntryMeta)>,
    /// Held while this fetch is the one allowed to write `key`.
    pub writer: Option<InFlightWriter>,
    /// False when this request can never be cached, whatever comes back.
    pub storable: bool,
}

/// What one round of a lookup came to.
#[derive(Debug)]
pub enum Round {
    /// A stored variant answers.
    Selected(EntryId, EntryMeta, Freshness),
    /// Nothing answers, and this fetch now writes the key.
    Miss,
    /// Nothing answers yet, but another fetch writes the key under this ticket.
    Wait(u64),
}

/// What is done about a request for which a stored variant was selected.
#[derive(Debug)]
pub enum Decision {
    /// The entry is opened and served as planned. What came of it goes to
    /// [`Front::served`].
    Serve {
        meta: EntryMeta,
        plan: ServePlan,
        /// Whether it is served stale, and revalidated in the background.
        stale: bool,
    },
    /// The request was made conditional, to revalidate the entry.
    Revalidate,
    /// The request goes to the network as it is.
    Fetch,
}

/// A network response that is going to be stored.
#[derive(Debug)]
pub struct Storing {
    pub meta: EntryMeta,
    /// The right to write the key.
    pub writer: InFlightWriter,
    /// The entries that make room for it.
    pub superseded: Vec<EntryId>,
}

/// Whether the header fields of a response can be judged at every later time.
pub open spec fn is_response(headers: HeaderMap<HeaderValue>) -> bool {
    &&& fields::has_room(fields::header_fields(headers), 3)
    &&& fields::value_count(headers) <= fields::MAX_VALUES
    &&& policy::age_secs(fields::header_fields(headers)) <= u64::MAX - fields::DATE_LIMIT
}

pub proof fn lemma_stripped_room(fields: Map<Seq<u8>, Seq<Seq<u8>>>)
    requires
        fields::has_room(fields, 3),
    ensures
        fields::has_room(policy::stripped(fields), 3),
        policy::age_secs(policy::stripped(fields)) == policy::age_secs(fields),
{
    policy::lemma_cookie_names();
    assert(policy::stripped(fields).dom().subset_of(fields.dom()));
    vstd::set_lib::lemma_len_subset(policy::stripped(fields).dom(), fields.dom());
}

/// Whether the metadata of an entry can be judged at every later time.
pub open spec fn fits(meta: MetaView) -> bool {
    &&& fields::has_room(meta.policy.fields, 2)
    &&& fields::has_room(meta.fields, 3)
    &&& policy::age_secs(meta.policy.fields) <= u64::MAX - fields::DATE_LIMIT
    &&& forall|headers: HeaderMap<HeaderValue>|
        #![trigger fields::header_fields(headers)]
        fields::header_fields(headers) == meta.policy.fields ==> fields::value_count(headers)
            <= fields::MAX_VALUES
}

/// Whether the metadata of an entry can be judged at every later time.
fn check_fits(meta: &EntryMeta) -> (r: bool)
    requires
        meta.policy.wf(),
    ensures
        r == meta.usable(),
        fits(meta@) ==> r,
{
    let age: u64 = policy::find_age_secs(&meta.policy.headers);
    fields::check_room(&meta.policy.headers, 2) && fields::check_room(&meta.headers, 3) && fields::count_values(
        &meta.policy.headers,
    ) <= fields::MAX_VALUES && age <= u64::MAX - fields::DATE_LIMIT
}

/// Whether metadata that was read from somewhere can be judged at every later time.
pub fn check_usable(meta: &EntryMeta) -> (r: bool)
    ensures
        r == meta.usable(),
{
    let policy = &meta.policy;
    fetch::check_method(&policy.request.method) && fields::check_room(&policy.request.headers, 0) && 100
        <= policy.status && policy.status <= 999 && policy.response_time.check()
        && policy.response_time.secs < fields::DATE_LIMIT && policy.stale_while_revalidate.check()
        && check_fits(meta)
}

/// Whether a request can be compared with stored ones.
pub fn check_request(request: &Request) -> (r: bool)
    ensures
        r == lookup::is_request(request),
{
    fetch::check_method(&request.method) && fields::check_room(&request.headers, 2)
        && fields::count_values(&request.headers) <= fields::MAX_VALUES
}

/// Whether the header fields of a response can be judged at every later time.
pub fn check_response(headers: &HeaderMap<HeaderValue>) -> (r: bool)
    ensures
        r == is_response(*headers),
{
    let age: u64 = policy::find_age_secs(headers);
    fields::check_room(headers, 3) && fields::count_values(headers) <= fields::MAX_VALUES && age
        <= u64::MAX - fields::DATE_LIMIT
}

/// Whether a key began to be written.
pub open spec fn is_begun(
    writer: InFlightWriter,
    key: KeyView,
    before: InFlight,
    after: InFlight,
) -> bool {
    &&& writer.key() == key
    &&& inflight::is_registered(before, after, writer)
}

/// Whether a fetch became the writer of its key, as it does where it is not answered
/// and no fetch is the writer yet.
pub open spec fn takes_over(
    before: CacheTransaction,
    after: CacheTransaction,
    answered: bool,
    inflight_before: InFlight,
    inflight_after: InFlight,
) -> bool {
    if answered || before.writer is Some || inflight::is_written(
        inflight_before.writers(),
        before.key@,
    ) {
        &&& after.writer == before.writer
        &&& inflight_after == inflight_before
    } else {
        after.writer matches Some(writer) && is_begun(
            writer,
            before.key@,
            inflight_before,
            inflight_after,
        )
    }
}

/// What a round of a lookup came to, among the given entries.
pub open spec fn is_round(
    r: Round,
    all: Seq<(EntryId, MetaView)>,
    request: &Request,
    now: Span,
    before: CacheTransaction,
    after: CacheTransaction,
    inflight_before: InFlight,
    inflight_after: InFlight,
) -> bool {
    let s = lookup::standings(request, all, now);
    let key = before.key@;
    &&& after.key == before.key
    &&& after.storable == before.storable
    &&& after.revalidating == before.revalidating
    &&& after.superseded@ == before.superseded@ + lookup::matched(all, s, lookup::looked_at(s))
    &&& match lookup::chosen(s) {
        Some(i) => {
            &&& r matches Round::Selected(id, meta, freshness) && id == all[i].0 && meta@
                == all[i].1 && meta.usable() && lookup::is_state(request, all[i].1, now, freshness)
                && !(freshness is NoMatch)
            &&& after.writer is None
            &&& inflight_after == inflight_before
        },
        None => if inflight::is_written(inflight_before.writers(), key) {
            &&& r matches Round::Wait(ticket) && inflight::written_under(
                inflight_before.writers(),
                key,
                ticket,
            )
            &&& after.writer is None
            &&& inflight_after == inflight_before
        } else {
            &&& r is Miss
            &&& after.writer matches Some(writer) && is_begun(
                writer,
                key,
                inflight_before,
                inflight_after,
            )
        },
    }
}

/// How an entry is judged for a request.
pub open spec fn judgement_of(
    request: &Request,
    meta: EntryMeta,
    freshness: Freshness,
) -> Judgement {
    lookup::judged(
        freshness,
        meta.policy.stale_while_revalidate,
        policy::demands_revalidation(request),
        lookup::forbids_stored_responses(request),
        request.cache_mode,
        request.mode,
    )
}

/// Whether an entry that is judged usable has what the request asks for.
pub open spec fn is_servable(request: &Request, meta: EntryMeta, freshness: Freshness) -> bool {
    let judgement = judgement_of(request, meta, freshness);
    judgement.usable && !judgement.revalidate && !(range::selected(
        request.fields(),
        meta@,
    ) is Unsatisfiable)
}

/// The entry that a confirmed revalidation leaves, if the answer was a confirmation.
pub open spec fn freshened(
    revalidating: Option<(EntryId, EntryMeta)>,
    request: &Request,
    status: Option<u16>,
    fields: Map<Seq<u8>, Seq<Seq<u8>>>,
    now: Span,
) -> Option<(EntryId, MetaView)> {
    match revalidating {
        None => None,
        Some((id, meta)) => match (status, meta.status) {
            (Some(status), Some(stored_status)) => match policy::refreshed(
                meta@.policy,
                request,
                status,
                fields,
                meta@.fields,
                now,
            ) {
                Some(merged) => Some(
                    (id, lookup::freshened(meta@, request, status, fields, merged, now)),
                ),
                None => None,
            },
            _ => None,
        },
    }
}

/// Freshen the metadata of the entry that was being revalidated. `None` where nothing
/// was, the answer was no confirmation, or the new metadata could not be judged later.
pub fn freshen(
    transaction: &mut CacheTransaction,
    request: &Request,
    status: Option<u16>,
    headers: &HeaderMap<HeaderValue>,
    now: Span,
) -> (r: Option<(EntryId, EntryMeta)>)
    requires
        lookup::is_request(request),
        policy::is_date(now),
        old(transaction).revalidating matches Some(entry) ==> entry.1.usable() && (
        entry.1.status matches Some(code) ==> 100 <= code <= 999) && fields::has_room(
            fields::header_fields(*headers),
            entry.1@.policy.fields.dom().len() as int + 6,
        ),
        status matches Some(code) ==> 100 <= code <= 999,
        fields::value_count(*headers) + 2 <= fields::MAX_VALUES,
    ensures
        *final(transaction) == (CacheTransaction { revalidating: None, ..*old(transaction) }),
        match freshened(
            old(transaction).revalidating,
            request,
            status,
            fields::header_fields(*headers),
            now,
        ) {
            Some((id, fresh)) => {
                &&& fits(fresh) ==> r is Some
                &&& r matches Some(entry) ==> entry.0 == id && entry.1@ == fresh
                    && entry.1.usable()
            },
            None => r is None,
        },
{
    let (id, meta): (EntryId, EntryMeta) = match transaction.revalidating.take() {
        Some(entry) => entry,
        None => return None,
    };
    match refreshed_meta(&meta, request, status, headers, now) {
        Some(fresh) => if check_fits(&fresh) {
            Some((id, fresh))
        } else {
            None
        },
        None => None,
    }
}

impl Front {
    pub closed spec fn inflight(&self) -> InFlight {
        self.inflight
    }

    pub closed spec fn revalidations(&self) -> RevalidationGuards {
        self.revalidations
    }

    pub closed spec fn is_disabled(&self) -> bool {
        self.disabled
    }

    pub open spec fn wf(&self) -> bool {
        &&& self.inflight().wf()
        &&& self.revalidations().wf()
    }

    /// Nobody writes, and nothing is being revalidated.
    pub fn new(disabled: bool) -> (r: Front)
        ensures
            r.wf(),
            r.is_disabled() == disabled,
            r.inflight().upcoming() == 0,
            r.inflight().writers().len() == 0,
            r.revalidations().keys().len() == 0,
    {
        Front { inflight: InFlight::new(), revalidations: RevalidationGuards::new(), disabled }
    }

    /// The transaction that a fetch of the request starts with.
    pub fn new_transaction(&self, request: &Request) -> (r: CacheTransaction)
        ensures
            r.key@ == (KeyView { url: request.url@, partition: None }),
            r.superseded@ == Seq::<EntryId>::empty(),
            r.revalidating is None,
            r.writer is None,
            r.storable == (!self.is_disabled() && request.method@ == text::bytes("GET")),
    {
        CacheTransaction {
            key: CacheKey::new(request),
            superseded: Vec::new(),
            revalidating: None,
            writer: None,
            storable: is_cacheable_request(request, self.disabled),
        }
    }

    /// One round of a lookup: select among the variants that the store has under the key;
    /// if none answers, become the writer of the key, or learn whom to wait for.
    pub fn select(
        &mut self,
        transaction: &mut CacheTransaction,
        variants: &Vec<(EntryId, EntryMeta)>,
        request: &Request,
        now: Span,
    ) -> (r: Round)
        requires
            old(self).wf(),
            old(transaction).writer is None,
            lookup::is_request(request),
            policy::is_date(now),
            forall|i: int| 0 <= i < variants@.len() ==> (#[trigger] variants@[i]).1.usable(),
        ensures
            final(self).wf(),
            final(self).revalidations() == old(self).revalidations(),
            final(self).is_disabled() == old(self).is_disabled(),
            is_round(
                r,
                store::found(variants@),
                request,
                now,
                *old(transaction),
                *final(transaction),
                old(self).inflight(),
                final(self).inflight(),
            ),
    {
        let mut selection: Selection = select_variant(variants, request, now);
        transaction.superseded.append(&mut selection.superseded);
        match selection.answer {
            Some((id, meta, freshness)) => Round::Selected(id, meta, freshness),
            None => match self.inflight.register(&transaction.key) {
                Ok(writer) => {
                    transaction.writer = Some(writer);
                    Round::Miss
                },
                Err(ticket) => Round::Wait(ticket),
            },
        }
    }

    /// A fetch that nothing answers becomes the writer of its key unless another fetch is.
    pub fn give_up(&mut self, transaction: &mut CacheTransaction)
        requires
            old(self).wf(),
        ensures
            final(self).wf(),
            final(self).revalidations() == old(self).revalidations(),
            final(self).is_disabled() == old(self).is_disabled(),
            *final(transaction) == (CacheTransaction {
                writer: final(transaction).writer,
                ..*old(transaction)
            }),
            takes_over(
                *old(transaction),
                *final(transaction),
                false,
                old(self).inflight(),
                final(self).inflight(),
            ),
    {
        if transaction.writer.is_none() {
            match self.inflight.register(&transaction.key) {
                Ok(writer) => {
                    transaction.writer = Some(writer);
                },
                Err(_) => {},
            }
        }
    }

    /// Apply the request's cache mode to the selected response: serve it, or set the
    /// conditional headers when it has to be revalidated. Where it is not served, the
    /// fetch becomes the writer of the key unless another one is.
    pub fn decide(
        &mut self,
        transaction: &mut CacheTransaction,
        request: &mut Request,
        id: EntryId,
        meta: EntryMeta,
        freshness: Freshness,
        now: Span,
    ) -> (r: Decision)
        requires
            old(self).wf(),
            meta.usable(),
            policy::is_date(now),
            fields::has_room(old(request).fields(), 1),
            freshness matches Freshness::Stale { stale_for, revalidation } ==> stale_for.wf(),
        ensures
            final(self).wf(),
            final(self).revalidations() == old(self).revalidations(),
            final(self).is_disabled() == old(self).is_disabled(),
            ({
                let judgement = judgement_of(old(request), meta, freshness);
                let outcome = range::selected(old(request).fields(), meta@);
                &&& r is Serve == is_servable(old(request), meta, freshness)
                &&& r is Revalidate == judgement.revalidate
                &&& match r {
                    Decision::Serve { meta: served, plan, stale } => {
                        &&& served == meta
                        &&& lookup::is_plan(Ok(plan), outcome, meta@, now)
                        &&& plan.range matches Some(part) ==> part.start <= part.end
                            < meta@.body_len
                        &&& stale == judgement.serve_stale
                        &&& *final(request) == *old(request)
                        &&& *final(transaction) == *old(transaction)
                        &&& final(self).inflight() == old(self).inflight()
                    },
                    Decision::Revalidate => {
                        &&& *final(request) == (Request {
                            headers: final(request).headers,
                            ..*old(request)
                        })
                        &&& freshness matches Freshness::Stale { stale_for, revalidation }
                            ==> final(request).fields() == lookup::conditional(
                            old(request).fields(),
                            fields::header_fields(revalidation),
                        )
                        &&& *final(transaction) == (CacheTransaction {
                            writer: final(transaction).writer,
                            revalidating: Some((id, meta)),
                            ..*old(transaction)
                        })
                    },
                    Decision::Fetch => {
                        &&& *final(request) == *old(request)
                        &&& *final(transaction) == (CacheTransaction {
                            writer: final(transaction).writer,
                            ..*old(transaction)
                        })
                    },
                }
                &&& takes_over(
                    *old(transaction),
                    *final(transaction),
                    r is Serve,
                    old(self).inflight(),
                    final(self).inflight(),
                )
            }),
    {
        let window: Span = meta.policy.stale_while_revalidate();
        let judgement: Judgement = judge(request, &freshness, window);
        if judgement.revalidate {
            match &freshness {
                Freshness::Stale { revalidation, .. } => {
                    copy_conditional_headers(revalidation, &mut request.headers);
                },
                _ => {},
            }
            transaction.revalidating = Some((id, meta));
            self.give_up(transaction);
            return Decision::Revalidate;
        }
        if judgement.usable {
            match plan_serve(request, &meta, now) {
                Ok(plan) => return Decision::Serve { meta, plan, stale: judgement.serve_stale },
                Err(_) => {},
            }
        }
        self.give_up(transaction);
        Decision::Fetch
    }

    /// The store opened the entry that was going to be served, or could not: then the
    /// fetch goes to the network. Where it is served stale, the guard of a background
    /// revalidation is handed out unless there is one already.
    pub fn served(
        &mut self,
        transaction: &mut CacheTransaction,
        stale: bool,
        opened: bool,
    ) -> (r: Option<RevalidationGuard>)
        requires
            old(self).wf(),
        ensures
            final(self).wf(),
            final(self).is_disabled() == old(self).is_disabled(),
            r is Some == (opened && stale && !old(self).revalidations().keys().contains(
                old(transaction).key@,
            )),
            r matches Some(guard) ==> guard.key() == old(transaction).key@,
            final(self).revalidations().keys() == if r is Some {
                old(self).revalidations().keys().push(old(transaction).key@)
            } else {
                old(self).revalidations().keys()
            },
            *final(transaction) == (CacheTransaction {
                writer: final(transaction).writer,
                ..*old(transaction)
            }),
            takes_over(
                *old(transaction),
                *final(transaction),
                opened,
                old(self).inflight(),
                final(self).inflight(),
            ),
    {
        if !opened {
            self.give_up(transaction);
            return None;
        }
        if stale {
            self.revalidations.try_acquire(&transaction.key)
        } else {
            None
        }
    }

    /// Begin to store a network response, when it may be stored. An error means that the
    /// response is not copied; the key is then no longer being written, and those who wait
    /// under the ticket are to be told.
    pub fn begin_store(
        &mut self,
        transaction: &mut CacheTransaction,
        request: &Request,
        status: Option<u16>,
        headers: &HeaderMap<HeaderValue>,
        encoding: Option<DecoderType>,
        max_entry_bytes: u64,
        now: Span,
    ) -> (r: Result<Storing, Option<u64>>)
        requires
            old(self).wf(),
            fetch::is_method(request.method@),
            fields::has_room(request.fields(), 0),
            is_response(*headers),
            status matches Some(code) ==> 100 <= code <= 999,
            policy::is_date(now),
        ensures
            final(self).wf(),
            final(self).revalidations() == old(self).revalidations(),
            final(self).is_disabled() == old(self).is_disabled(),
            final(transaction).key == old(transaction).key,
            final(transaction).revalidating == old(transaction).revalidating,
            final(transaction).storable == old(transaction).storable,
            final(transaction).writer is None,
            match old(transaction).writer {
                None => r matches Err(ticket) && ticket is None && *final(self) == *old(self)
                    && final(transaction).superseded == old(transaction).superseded,
                Some(writer) => if !lookup::may_store(
                    old(transaction).key@,
                    old(transaction).storable,
                    request,
                    status,
                    fields::header_fields(*headers),
                    max_entry_bytes,
                    now,
                ) {
                    &&& r matches Err(ticket) && inflight::is_resolved(
                        old(self).inflight(),
                        final(self).inflight(),
                        writer.key(),
                        ticket,
                    )
                    &&& final(transaction).superseded == old(transaction).superseded
                } else {
                    &&& r matches Ok(storing) && storing.writer == writer && storing.superseded
                        == old(transaction).superseded && storing.meta@ == lookup::stored_meta(
                        old(transaction).key@,
                        request,
                        status->0,
                        fields::header_fields(*headers),
                        encoding,
                        now,
                    ) && storing.meta.usable()
                    &&& final(self).inflight() == old(self).inflight()
                    &&& final(transaction).superseded@.len() == 0
                },
            },
    {
        let writer: InFlightWriter = match transaction.writer.take() {
            Some(writer) => writer,
            None => return Err(None),
        };
        let meta: EntryMeta = match entry_meta(
            &transaction.key,
            transaction.storable,
            request,
            status,
            headers,
            encoding,
            max_entry_bytes,
            now,
        ) {
            Some(meta) => meta,
            None => return Err(self.inflight.resolve(writer)),
        };
        proof {
            lemma_stripped_room(fields::header_fields(*headers));
        }
        assert(meta.usable());
        let mut superseded: Vec<EntryId> = Vec::new();
        std::mem::swap(&mut superseded, &mut transaction.superseded);
        Ok(Storing { meta, writer, superseded })
    }

    /// The key is no longer being written. Those who wait do so under the ticket.
    pub fn resolve(&mut self, writer: InFlightWriter) -> (r: Option<u64>)
        requires
            old(self).wf(),
        ensures
            final(self).wf(),
            final(self).revalidations() == old(self).revalidations(),
            final(self).is_disabled() == old(self).is_disabled(),
            inflight::is_resolved(
                old(self).inflight(),
                final(self).inflight(),
                writer.key(),
                r,
            ),
    {
        self.inflight.resolve(writer)
    }

    /// A background revalidation is over.
    pub fn release(&mut self, guard: RevalidationGuard)
        requires
            old(self).wf(),
        ensures
            final(self).wf(),
            final(self).inflight() == old(self).inflight(),
            final(self).is_disabled() == old(self).is_disabled(),
            !final(self).revalidations().keys().contains(guard.key()),
            final(self).revalidations().keys() == inflight::without_key(
                old(self).revalidations().keys(),
                guard.key(),
            ),
    {
        self.revalidations.release(guard);
    }
}

/// What a request makes of the response that was selected for it. One with `no-store` is
/// never answered with it. Otherwise a request that forces the cache, or that asks the cache
/// alone within one origin, is answered with it as it is, however stale; one that asks the
/// network alone never is; and in the ordinary modes a fresh response answers, while a stale
/// one outside its window is revalidated first.
pub proof fn law_request_is_judged(request: &Request, meta: EntryMeta, freshness: Freshness)
    ensures
        ({
            let r = judgement_of(request, meta, freshness);
            let window = meta.policy.stale_while_revalidate.total();
            let forbids = match fields::directives(request.fields()) {
                Some(d) => d.no_store,
                None => false,
            };
            &&& forbids ==> !r.usable && !r.revalidate
            &&& !forbids && request.cache_mode == fetch::CacheMode::ForceCache ==> r.usable
                && !r.revalidate
            &&& !forbids && request.cache_mode == fetch::CacheMode::OnlyIfCached && request.mode
                == fetch::RequestMode::SameOrigin ==> r.usable && !r.revalidate
            &&& request.cache_mode == fetch::CacheMode::OnlyIfCached && request.mode
                != fetch::RequestMode::SameOrigin ==> !r.usable && !r.revalidate
            &&& request.cache_mode == fetch::CacheMode::NoStore || request.cache_mode == fetch::CacheMode::Reload
                ==> !r.usable && !r.revalidate
            &&& !forbids && (request.cache_mode == fetch::CacheMode::Default || request.cache_mode
                == fetch::CacheMode::NoCache) ==> match freshness {
                Freshness::Fresh => r.usable && !r.revalidate && !r.serve_stale,
                Freshness::Stale { stale_for, revalidation } => {
                    &&& r.usable != r.revalidate
                    &&& stale_for.total() > window ==> r.revalidate
                    &&& request.cache_mode == fetch::CacheMode::NoCache ==> r.revalidate
                    &&& r.usable ==> r.serve_stale && stale_for.total() <= window
                },
                Freshness::NoMatch => !r.usable && !r.revalidate,
            }
        }),
{
}

/// A fetch waits for no one that it could do the work of: it becomes the writer of its key
/// exactly if it is not answered, is none yet, and no other fetch is.
pub proof fn law_one_writer(
    before: CacheTransaction,
    after: CacheTransaction,
    answered: bool,
    inflight_before: InFlight,
    inflight_after: InFlight,
)
    requires
        takes_over(before, after, answered, inflight_before, inflight_after),
    ensures
        before.writer is None ==> (after.writer is Some <==> !answered && !inflight::is_written(
            inflight_before.writers(),
            before.key@,
        )),
        before.writer is Some ==> after.writer == before.writer && inflight_after
            == inflight_before,
        answered ==> inflight_after == inflight_before,
        before.writer is None && after.writer is Some ==> inflight::is_written(
            inflight_after.writers(),
            before.key@,
        ),
{
    if before.writer is None && after.writer is Some {
        let last = inflight_before.writers().len() as int;
        assert(inflight_after.writers()[last].0 == before.key@);
    }
}

/// A round of a lookup ends in one of three ways: an entry that matches is selected and nobody
/// writes; or another fetch writes the key and is waited for; or nobody does, and this fetch
/// becomes the writer.
pub proof fn law_round_has_one_writer(
    r: Round,
    all: Seq<(EntryId, MetaView)>,
    request: &Request,
    now: Span,
    before: CacheTransaction,
    after: CacheTransaction,
    inflight_before: InFlight,
    inflight_after: InFlight,
)
    requires
        is_round(r, all, request, now, before, after, inflight_before, inflight_after),
    ensures
        ({
            let key = before.key@;
            let written = inflight::is_written(inflight_before.writers(), key);
            &&& r is Miss ==> !written && after.writer is Some && inflight::is_written(
                inflight_after.writers(),
                key,
            )
            &&& r is Wait ==> written && after.writer is None && inflight_after == inflight_before
            &&& r matches Round::Selected(id, meta, freshness) ==> after.writer is None
                && inflight_after == inflight_before && !(freshness is NoMatch) && exists|i: int|
                0 <= i < all.len() && (#[trigger] all[i]).0 == id && all[i].1 == meta@
            &&& all.len() == 0 ==> !(r is Selected)
        }),
{
    let s = lookup::standings(request, all, now);
    lookup::lemma_first_of(s, lookup::Standing::Fresh);
    lookup::lemma_first_of(s, lookup::Standing::Stale);
    if let Some(i) = lookup::chosen(s) {
        assert(0 <= i < all.len());
        assert(all[i].1 == all[i].1);
    }
    if r is Miss {
        let last = inflight_before.writers().len() as int;
        assert(inflight_after.writers()[last].0 == before.key@);
    }
}

} // verus!
